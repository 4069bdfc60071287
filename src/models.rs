//! Plain records passed between the stores and their callers.
use vstd::prelude::*;
use crate::brain::unix_now;

verus! {

/// An executed command as it was captured.
pub struct Command {
    pub id: Option<i64>,
    pub command: String,
    pub executed_at: i64,
    pub exit_code: Option<i32>,
    pub working_directory: String,
    pub context_id: Option<i64>,
}

impl Command {
    /// A command run now in `working_directory`, with no exit code yet.
    pub fn new(command: String, working_directory: String) -> (r: Self)
        ensures
            r.command == command,
            r.working_directory == working_directory,
            r.id is None,
            r.exit_code is None,
            r.context_id is None,
    {
        Command {
            id: None,
            command,
            executed_at: unix_now(),
            exit_code: None,
            working_directory,
            context_id: None,
        }
    }

    /// The same command with its exit code set.
    pub fn with_exit_code(self, exit_code: i32) -> (r: Self)
        ensures
            r.exit_code == Some(exit_code),
            r.id == self.id,
            r.command == self.command,
            r.executed_at == self.executed_at,
            r.working_directory == self.working_directory,
            r.context_id == self.context_id,
    {
        let mut c = self;
        c.exit_code = Some(exit_code);
        c
    }
}

/// A named execution context with key/value metadata, each key at most once.
pub struct ExecutionContext {
    pub id: Option<i64>,
    pub name: String,
    pub detected_at: i64,
    pub metadata: Vec<(String, String)>,
}

pub open spec fn pair_views(v: Seq<(String, String)>) -> Seq<(Seq<char>, Seq<char>)> {
    v.map_values(|p: (String, String)| (p.0@, p.1@))
}

/// The first position of `key` among the pairs' keys.
fn key_position(pairs: &Vec<(String, String)>, key: &String) -> (r: Option<usize>)
    ensures
        match r {
            Some(i) => i < pairs@.len() && pair_views(pairs@)[i as int].0 == key@
                && forall|j: int| 0 <= j < i ==> pair_views(pairs@)[j].0 != key@,
            None => forall|j: int| 0 <= j < pairs@.len() ==> #[trigger] pair_views(pairs@)[j].0 != key@,
        },
{
    let mut i: usize = 0;
    while i < pairs.len()
        invariant
            i <= pairs@.len(),
            forall|j: int| 0 <= j < i ==> #[trigger] pair_views(pairs@)[j].0 != key@,
        decreases pairs@.len() - i,
    {
        if pairs[i].0 == *key {
            return Some(i);
        }
        i += 1;
    }
    None
}

impl ExecutionContext {
    /// A context named `name`, detected now, with no metadata.
    pub fn new(name: String) -> (r: Self)
        ensures
            r.name == name,
            r.id is None,
            r.metadata@.len() == 0,
    {
        ExecutionContext { id: None, name, detected_at: unix_now(), metadata: Vec::new() }
    }

    /// The same context with `key` set to `value`: an existing entry for the
    /// key takes the new value in place, else the pair is appended.
    pub fn add_metadata(self, key: String, value: String) -> (r: Self)
        ensures
            r.id == self.id,
            r.name == self.name,
            r.detected_at == self.detected_at,
            ({
                let old_pairs = pair_views(self.metadata@);
                let found = exists|i: int| 0 <= i < old_pairs.len() && #[trigger] old_pairs[i].0 == key@;
                &&& found ==> exists|i: int| 0 <= i < old_pairs.len() && #[trigger] old_pairs[i].0 == key@
                    && (forall|j: int| 0 <= j < i ==> old_pairs[j].0 != key@)
                    && pair_views(r.metadata@) == old_pairs.update(i, (key@, value@))
                &&& !found ==> pair_views(r.metadata@) == old_pairs.push((key@, value@))
            }),
    {
        let ghost old_pairs = pair_views(self.metadata@);
        let found = key_position(&self.metadata, &key);
        let ghost k = key@;
        let ghost v = value@;
        let ExecutionContext { id, name, detected_at, mut metadata } = self;
        match found {
            Some(i) => {
                metadata.set(i, (key, value));
                assert(pair_views(metadata@) =~= old_pairs.update(i as int, (k, v)));
            },
            None => {
                metadata.push((key, value));
                assert(pair_views(metadata@) =~= old_pairs.push((k, v)));
            },
        }
        ExecutionContext { id, name, detected_at, metadata }
    }
}

/// A stored access token.
pub struct ApiToken {
    pub token: String,
    pub created_at: i64,
    pub expires_at: Option<i64>,
}

impl ApiToken {
    /// A token created now, without expiry.
    pub fn new(token: String) -> (r: Self)
        ensures
            r.token == token,
            r.expires_at is None,
    {
        ApiToken { token, created_at: unix_now(), expires_at: None }
    }

    /// The token has an expiry and `now` is past it.
    pub open spec fn expired_at(&self, now: i64) -> bool {
        self.expires_at is Some && now > self.expires_at->Some_0
    }

    /// Whether the token has expired at `now`.
    pub fn is_expired_at(&self, now: i64) -> (r: bool)
        ensures
            r == self.expired_at(now),
    {
        match self.expires_at {
            Some(t) => now > t,
            None => false,
        }
    }

    /// Whether the token has expired by the clock.
    pub fn is_expired(&self) -> (r: bool)
        ensures
            exists|now: i64| r == #[trigger] self.expired_at(now),
    {
        self.is_expired_at(unix_now())
    }
}

} // verus!
