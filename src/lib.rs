//! Command recovery: recall from personal history, fixes from a shared
//! knowledge base and from pattern rules, ranked for the current project.
use vstd::prelude::*;

pub mod brain;
pub mod community;
pub mod config;
pub mod context;
pub mod history;
pub mod model;
pub mod models;
pub mod rank;
pub mod resolve;
pub mod rules;
pub mod text;
pub mod ui;

verus! {

} // verus!
