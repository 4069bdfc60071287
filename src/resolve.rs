//! The resolution orchestrator: the fix pipeline as a sequence of decisions
//! (rules, then the knowledge base, then a model), recall merging, and the
//! feedback that flows back into the knowledge base.
use vstd::prelude::*;
use vstd::string::StrSliceExecFns;
use crate::brain::{BrainResult, CommunityBrain, BrainError, success_row, upserted, overflows, failure_logged, str_opt_view};
use crate::context::{ProjectContext, boost_of};
use crate::history::{CommandScore, SCORE_ONE, normalize, normalized_of};
use crate::rank::{top_positions, distinct_positions, descending, best_taken};
use crate::rules::{Rule, RuleFix, apply_rules, first_rule, fix_of};
use crate::text::{lower_of, views, tokens, joined, Cut, chars_of, split_text, join_texts, lowercase, same_text};

verus! {

/// Where a candidate command came from.
#[derive(Clone, Copy, PartialEq, Eq, Structural, Debug)]
pub enum Source {
    Rule,
    History,
    Community,
    Model,
}

/// One ranked candidate of a resolution call.
pub struct ScoredResult {
    pub command: String,
    pub source: Source,
    /// Score in millionths of one whole.
    pub score: u64,
    /// Runs seen in the history; zero for other sources.
    pub frequency: u64,
    /// Whether the project context raised the score.
    pub boosted: bool,
}

/// A candidate's plain contents: command, source, score, frequency, boosted.
pub type ResultRow = (Seq<char>, Source, u64, u64, bool);

impl ScoredResult {
    pub open spec fn row(&self) -> ResultRow {
        (self.command@, self.source, self.score, self.frequency, self.boosted)
    }

    /// A copy of this candidate.
    pub fn duplicate(&self) -> (r: ScoredResult)
        ensures
            r.row() == self.row(),
    {
        ScoredResult {
            command: self.command.clone(),
            source: self.source,
            score: self.score,
            frequency: self.frequency,
            boosted: self.boosted,
        }
    }
}

pub open spec fn rows_of(v: Seq<ScoredResult>) -> Seq<ResultRow> {
    v.map_values(|r: ScoredResult| r.row())
}

/// The base score of a knowledge-base candidate in a recall: three quarters.
pub const COMMUNITY_BASELINE: u64 = 750_000;

/// The most candidates a recall returns.
pub const RECALL_LIMIT: usize = 10;

/// `score` raised by a boost given in tenths.
pub open spec fn boosted_score(score: int, boost: int) -> int {
    score * boost / 10
}

/// A history candidate, its combined score raised by the context boost.
pub fn history_candidate(scored: &CommandScore, context: &ProjectContext) -> (r: ScoredResult)
    requires
        scored.combined_score <= SCORE_ONE,
    ensures
        r.command@ == scored.command@,
        r.source == Source::History,
        r.score == boosted_score(scored.combined_score as int, boost_of(context@, scored.command@) as int),
        r.frequency == scored.frequency,
        r.boosted == (boost_of(context@, scored.command@) > 10),
{
    let boost = context.get_boost_multiplier(scored.command.as_str());
    assert(boost <= 25);
    assert(scored.combined_score * (boost as u64) <= 25_000_000) by (nonlinear_arith)
        requires scored.combined_score <= 1_000_000, boost <= 25;
    ScoredResult {
        command: scored.command.clone(),
        source: Source::History,
        score: scored.combined_score * (boost as u64) / 10,
        frequency: scored.frequency,
        boosted: boost > 10,
    }
}

/// A knowledge-base candidate: the baseline raised by the context boost.
pub fn community_candidate(command: &String, context: &ProjectContext) -> (r: ScoredResult)
    ensures
        r.command@ == command@,
        r.source == Source::Community,
        r.score == boosted_score(COMMUNITY_BASELINE as int, boost_of(context@, command@) as int),
        r.frequency == 0,
        r.boosted == (boost_of(context@, command@) > 10),
{
    let boost = context.get_boost_multiplier(command.as_str());
    assert(boost <= 25);
    ScoredResult {
        command: command.clone(),
        source: Source::Community,
        score: COMMUNITY_BASELINE * (boost as u64) / 10,
        frequency: 0,
        boosted: boost > 10,
    }
}

/// The merged candidates `out` of the inputs `all`: each is an input, no
/// command twice, each with the highest score its command has among the
/// inputs, highest first, and any command left out scores no higher than
/// any kept; fewer than `limit` only where every command is kept.
pub open spec fn merged(all: Seq<ResultRow>, out: Seq<ResultRow>, limit: int) -> bool {
    &&& out.len() <= limit
    &&& forall|a: int| 0 <= a < out.len() ==> exists|k: int| 0 <= k < all.len() && #[trigger] all[k] == #[trigger] out[a]
    &&& forall|a: int, b: int| 0 <= a < b < out.len() ==> out[a].0 != out[b].0
    &&& forall|a: int, k: int| 0 <= a < out.len() && 0 <= k < all.len() && #[trigger] all[k].0 == #[trigger] out[a].0
        ==> all[k].2 <= out[a].2
    &&& forall|a: int, b: int| 0 <= a < b < out.len() ==> out[a].2 >= out[b].2
    &&& forall|k: int, a: int| 0 <= k < all.len() && 0 <= a < out.len()
        && (forall|b: int| 0 <= b < out.len() ==> out[b].0 != #[trigger] all[k].0) ==> all[k].2 <= #[trigger] out[a].2
    &&& out.len() < limit ==> forall|k: int| 0 <= k < all.len() ==> exists|a: int| 0 <= a < out.len() && #[trigger] out[a].0 == #[trigger] all[k].0
}

/// The position in `reps` of the representative of `command`, if any.
fn find_rep(all: &Vec<ScoredResult>, reps: &Vec<usize>, command: &String) -> (r: Option<usize>)
    requires
        forall|j: int| 0 <= j < reps@.len() ==> #[trigger] reps@[j] < all@.len(),
    ensures
        match r {
            Some(j) => j < reps@.len() && all@[reps@[j as int] as int].command@ == command@,
            None => forall|j: int| 0 <= j < reps@.len() ==> all@[#[trigger] reps@[j] as int].command@ != command@,
        },
{
    let mut j: usize = 0;
    while j < reps.len()
        invariant
            j <= reps@.len(),
            forall|j: int| 0 <= j < reps@.len() ==> #[trigger] reps@[j] < all@.len(),
            forall|q: int| 0 <= q < j ==> all@[#[trigger] reps@[q] as int].command@ != command@,
        decreases reps@.len() - j,
    {
        if all[reps[j]].command == *command {
            return Some(j);
        }
        j += 1;
    }
    None
}

/// The position, among the first `n` rows, of the first highest-scoring row
/// for `command`; -1 where none of them is for it.
pub open spec fn best_pos(rs: Seq<ResultRow>, command: Seq<char>, n: nat) -> int
    decreases n,
{
    if n == 0 || n > rs.len() {
        -1
    } else {
        let p = best_pos(rs, command, (n - 1) as nat);
        if rs[n - 1].0 == command && (p < 0 || rs[n - 1].2 > rs[p].2) {
            n - 1
        } else {
            p
        }
    }
}

proof fn lemma_best_pos(rs: Seq<ResultRow>, command: Seq<char>, n: nat)
    requires
        n <= rs.len(),
    ensures
        best_pos(rs, command, n) < n,
        best_pos(rs, command, n) >= 0 ==> rs[best_pos(rs, command, n)].0 == command,
        forall|k: int| 0 <= k < n && rs[k].0 == command ==> best_pos(rs, command, n) >= 0
            && rs[k].2 <= rs[best_pos(rs, command, n)].2,
    decreases n,
{
    if n > 0 {
        lemma_best_pos(rs, command, (n - 1) as nat);
    }
}

/// The rows that are the first highest-scoring row for their command.
pub open spec fn winners(rs: Seq<ResultRow>, n: nat) -> Seq<int>
    decreases n,
{
    if n == 0 || n > rs.len() {
        Seq::empty()
    } else if best_pos(rs, rs[n - 1].0, rs.len()) == n - 1 {
        winners(rs, (n - 1) as nat).push(n - 1)
    } else {
        winners(rs, (n - 1) as nat)
    }
}

proof fn lemma_winners(rs: Seq<ResultRow>, n: nat)
    requires
        n <= rs.len(),
    ensures
        forall|j: int| 0 <= j < winners(rs, n).len() ==> 0 <= #[trigger] winners(rs, n)[j] < n
            && best_pos(rs, rs[winners(rs, n)[j]].0, rs.len()) == winners(rs, n)[j],
        forall|k: int| 0 <= k < n && best_pos(rs, rs[k].0, rs.len()) == k
            ==> #[trigger] winners(rs, n).contains(k),
        forall|j: int, q: int| 0 <= j < q < winners(rs, n).len() ==> winners(rs, n)[j] < winners(rs, n)[q],
    decreases n,
{
    if n > 0 {
        lemma_winners(rs, (n - 1) as nat);
        let w = winners(rs, (n - 1) as nat);
        if best_pos(rs, rs[n - 1].0, rs.len()) == n - 1 {
            let w2 = w.push(n - 1);
            assert forall|j: int| 0 <= j < w2.len() implies 0 <= #[trigger] w2[j] < n
                && best_pos(rs, rs[w2[j]].0, rs.len()) == w2[j] by {
                if j < w.len() {
                    assert(w2[j] == w[j]);
                }
            }
            assert forall|j: int, q: int| 0 <= j < q < w2.len() implies w2[j] < w2[q] by {
                if q < w.len() {
                    assert(w2[j] == w[j] && w2[q] == w[q]);
                } else {
                    assert(w2[j] == w[j]);
                }
            }
            assert forall|k: int| 0 <= k < n && best_pos(rs, rs[k].0, rs.len()) == k implies #[trigger] w2.contains(k) by {
                if k == n - 1 {
                    assert(w2[w.len() as int] == k);
                } else {
                    assert(w.contains(k));
                    let j = choose|j: int| 0 <= j < w.len() && w[j] == k;
                    assert(w2[j] == k);
                }
            }
        }
    }
}

/// Whether the row at `k` is the first highest-scoring row for its command.
fn is_winner(all: &Vec<ScoredResult>, k: usize) -> (r: bool)
    requires
        k < all@.len(),
    ensures
        r == (best_pos(rows_of(all@), rows_of(all@)[k as int].0, all@.len() as nat) == k),
{
    let ghost rs = rows_of(all@);
    let mut best: Option<usize> = None;
    let mut q: usize = 0;
    while q < all.len()
        invariant
            rs == rows_of(all@),
            k < all@.len(),
            q <= all@.len(),
            match best {
                Some(p) => p < q && best_pos(rs, rs[k as int].0, q as nat) == p,
                None => best_pos(rs, rs[k as int].0, q as nat) == -1,
            },
        decreases all@.len() - q,
    {
        let better = match best {
            Some(p) => all[q].score > all[p].score,
            None => true,
        };
        if all[q].command == all[k].command && better {
            best = Some(q);
        }
        q += 1;
    }
    match best {
        Some(p) => p == k,
        None => false,
    }
}

/// The positions, in order, of the first highest-scoring row of each command.
fn representatives(all: &Vec<ScoredResult>) -> (reps: Vec<usize>)
    ensures
        reps@.len() == winners(rows_of(all@), all@.len() as nat).len(),
        forall|j: int| 0 <= j < reps@.len() ==> reps@[j] as int == #[trigger] winners(rows_of(all@), all@.len() as nat)[j],
{
    let ghost rs = rows_of(all@);
    let mut reps: Vec<usize> = Vec::new();
    let mut i: usize = 0;
    while i < all.len()
        invariant
            rs == rows_of(all@),
            i <= all@.len(),
            reps@.len() == winners(rs, i as nat).len(),
            forall|j: int| 0 <= j < reps@.len() ==> reps@[j] as int == #[trigger] winners(rs, i as nat)[j],
        decreases all@.len() - i,
    {
        if is_winner(all, i) {
            reps.push(i);
        }
        i += 1;
    }
    reps
}

/// Merges history and knowledge-base candidates: one per command, the
/// highest-scoring occurrence kept, highest score first, at most ten.
pub fn merge_recall(history: Vec<ScoredResult>, community: Vec<ScoredResult>) -> (r: Vec<ScoredResult>)
    ensures
        merged(rows_of(history@) + rows_of(community@), rows_of(r@), RECALL_LIMIT as int),
{
    let mut all: Vec<ScoredResult> = history;
    let mut more = community;
    let ghost all_rows = rows_of(all@) + rows_of(more@);
    all.append(&mut more);
    assert(rows_of(all@) =~= all_rows);
    let reps = representatives(&all);
    let ghost rs = rows_of(all@);
    let ghost w = winners(rs, all@.len() as nat);
    proof {
        lemma_winners(rs, all@.len() as nat);
    }
    let mut keys: Vec<u128> = Vec::new();
    let mut t: usize = 0;
    while t < reps.len()
        invariant
            rs == rows_of(all@),
            w == winners(rs, all@.len() as nat),
            t <= reps@.len(),
            keys@.len() == t,
            reps@.len() == w.len(),
            forall|j: int| 0 <= j < reps@.len() ==> reps@[j] as int == #[trigger] w[j],
            forall|j: int| 0 <= j < w.len() ==> 0 <= #[trigger] w[j] < all@.len(),
            forall|j: int| 0 <= j < t ==> #[trigger] keys@[j] == rs[w[j]].2 as u128,
        decreases reps@.len() - t,
    {
        assert(reps@[t as int] as int == w[t as int]);
        keys.push(all[reps[t]].score as u128);
        t += 1;
    }
    let top = top_positions(&keys, RECALL_LIMIT);
    let key_count: usize = keys.len();
    let mut out: Vec<ScoredResult> = Vec::new();
    let mut a: usize = 0;
    while a < top.len()
        invariant
            rs == rows_of(all@),
            a <= top@.len(),
            out@.len() == a,
            keys@.len() == reps@.len(),
            key_count == keys@.len(),
            reps@.len() == w.len(),
            distinct_positions(top@, keys@.len() as int),
            forall|j: int| 0 <= j < reps@.len() ==> reps@[j] as int == #[trigger] w[j],
            forall|j: int| 0 <= j < w.len() ==> 0 <= #[trigger] w[j] < all@.len(),
            forall|b: int| 0 <= b < a ==> #[trigger] out@[b].row() == rs[w[top@[b] as int]],
        decreases top@.len() - a,
    {
        assert(top@[a as int] < keys@.len());
        assert(reps@[top@[a as int] as int] as int == w[top@[a as int] as int]);
        out.push(all[reps[top[a]]].duplicate());
        a += 1;
    }
    proof {
        let orow = rows_of(out@);
        assert forall|x: int| 0 <= x < orow.len() implies #[trigger] orow[x] == rs[w[top@[x] as int]] by {
            assert(orow[x] == out@[x].row());
        }
        lemma_merge_result(rs, w, keys@, top@, orow);
        assert(rs =~= all_rows);
    }
    out
}

#[verifier::rlimit(60)]
proof fn lemma_merge_result(rs: Seq<ResultRow>, w: Seq<int>, keys: Seq<u128>, top: Seq<usize>, orow: Seq<ResultRow>)
    requires
        w == winners(rs, rs.len()),
        keys.len() == w.len(),
        keys.len() <= usize::MAX,
        forall|j: int| 0 <= j < w.len() ==> #[trigger] keys[j] == rs[w[j]].2 as u128,
        top.len() == if RECALL_LIMIT < keys.len() { RECALL_LIMIT as int } else { keys.len() as int },
        distinct_positions(top, keys.len() as int),
        descending(keys, top),
        best_taken(keys, top),
        orow.len() == top.len(),
        forall|x: int| 0 <= x < orow.len() ==> #[trigger] orow[x] == rs[w[top[x] as int]],
    ensures
        merged(rs, orow, RECALL_LIMIT as int),
{
    lemma_merge_from_inputs(rs, w, keys, top, orow);
    lemma_merge_distinct(rs, w, keys, top, orow);
    lemma_merge_highest(rs, w, keys, top, orow);
    lemma_merge_descending(rs, w, keys, top, orow);
    lemma_merge_left_out(rs, w, keys, top, orow);
    lemma_merge_cover(rs, w, keys, top, orow);
}

proof fn lemma_merge_from_inputs(rs: Seq<ResultRow>, w: Seq<int>, keys: Seq<u128>, top: Seq<usize>, orow: Seq<ResultRow>)
    requires
        w == winners(rs, rs.len()),
        keys.len() == w.len(),
        keys.len() <= usize::MAX,
        forall|j: int| 0 <= j < w.len() ==> #[trigger] keys[j] == rs[w[j]].2 as u128,
        top.len() == if RECALL_LIMIT < keys.len() { RECALL_LIMIT as int } else { keys.len() as int },
        distinct_positions(top, keys.len() as int),
        descending(keys, top),
        best_taken(keys, top),
        orow.len() == top.len(),
        forall|x: int| 0 <= x < orow.len() ==> #[trigger] orow[x] == rs[w[top[x] as int]],
    ensures
        forall|x: int| 0 <= x < orow.len() ==> exists|k: int| 0 <= k < rs.len() && #[trigger] rs[k] == #[trigger] orow[x],
{
    lemma_winners(rs, rs.len());
    assert forall|x: int| 0 <= x < orow.len() implies exists|k: int| 0 <= k < rs.len() && #[trigger] rs[k] == #[trigger] orow[x] by {
        let k = w[top[x] as int];
        assert(rs[k] == orow[x]);
    }
}

proof fn lemma_merge_distinct(rs: Seq<ResultRow>, w: Seq<int>, keys: Seq<u128>, top: Seq<usize>, orow: Seq<ResultRow>)
    requires
        w == winners(rs, rs.len()),
        keys.len() == w.len(),
        keys.len() <= usize::MAX,
        forall|j: int| 0 <= j < w.len() ==> #[trigger] keys[j] == rs[w[j]].2 as u128,
        top.len() == if RECALL_LIMIT < keys.len() { RECALL_LIMIT as int } else { keys.len() as int },
        distinct_positions(top, keys.len() as int),
        descending(keys, top),
        best_taken(keys, top),
        orow.len() == top.len(),
        forall|x: int| 0 <= x < orow.len() ==> #[trigger] orow[x] == rs[w[top[x] as int]],
    ensures
        forall|x: int, y: int| 0 <= x < y < orow.len() ==> orow[x].0 != orow[y].0,
{
    lemma_winners(rs, rs.len());
    assert forall|x: int, y: int| 0 <= x < y < orow.len() implies orow[x].0 != orow[y].0 by {
        let px = w[top[x] as int];
        let py = w[top[y] as int];
        assert(top[x] != top[y]);
        if top[x] < top[y] {
            assert(px < py);
        } else {
            assert(py < px);
        }
        if orow[x].0 == orow[y].0 {
            assert(best_pos(rs, rs[px].0, rs.len()) == px);
            assert(best_pos(rs, rs[py].0, rs.len()) == py);
        }
    }
}

proof fn lemma_merge_highest(rs: Seq<ResultRow>, w: Seq<int>, keys: Seq<u128>, top: Seq<usize>, orow: Seq<ResultRow>)
    requires
        w == winners(rs, rs.len()),
        keys.len() == w.len(),
        keys.len() <= usize::MAX,
        forall|j: int| 0 <= j < w.len() ==> #[trigger] keys[j] == rs[w[j]].2 as u128,
        top.len() == if RECALL_LIMIT < keys.len() { RECALL_LIMIT as int } else { keys.len() as int },
        distinct_positions(top, keys.len() as int),
        descending(keys, top),
        best_taken(keys, top),
        orow.len() == top.len(),
        forall|x: int| 0 <= x < orow.len() ==> #[trigger] orow[x] == rs[w[top[x] as int]],
    ensures
        forall|x: int, k: int| 0 <= x < orow.len() && 0 <= k < rs.len() && #[trigger] rs[k].0 == #[trigger] orow[x].0 ==> rs[k].2 <= orow[x].2,
{
    lemma_winners(rs, rs.len());
    assert forall|x: int, k: int| 0 <= x < orow.len() && 0 <= k < rs.len() && #[trigger] rs[k].0 == #[trigger] orow[x].0
        implies rs[k].2 <= orow[x].2 by {
        let p = w[top[x] as int];
        lemma_best_pos(rs, rs[p].0, rs.len());
        assert(best_pos(rs, rs[p].0, rs.len()) == p);
    }
}

proof fn lemma_merge_descending(rs: Seq<ResultRow>, w: Seq<int>, keys: Seq<u128>, top: Seq<usize>, orow: Seq<ResultRow>)
    requires
        w == winners(rs, rs.len()),
        keys.len() == w.len(),
        keys.len() <= usize::MAX,
        forall|j: int| 0 <= j < w.len() ==> #[trigger] keys[j] == rs[w[j]].2 as u128,
        top.len() == if RECALL_LIMIT < keys.len() { RECALL_LIMIT as int } else { keys.len() as int },
        distinct_positions(top, keys.len() as int),
        descending(keys, top),
        best_taken(keys, top),
        orow.len() == top.len(),
        forall|x: int| 0 <= x < orow.len() ==> #[trigger] orow[x] == rs[w[top[x] as int]],
    ensures
        forall|x: int, y: int| 0 <= x < y < orow.len() ==> orow[x].2 >= orow[y].2,
{
    lemma_winners(rs, rs.len());
    assert forall|x: int, y: int| 0 <= x < y < orow.len() implies orow[x].2 >= orow[y].2 by {
        assert(keys[top[x] as int] >= keys[top[y] as int]);
        assert(keys[top[x] as int] == rs[w[top[x] as int]].2 as u128);
        assert(keys[top[y] as int] == rs[w[top[y] as int]].2 as u128);
    }
}

proof fn lemma_merge_left_out(rs: Seq<ResultRow>, w: Seq<int>, keys: Seq<u128>, top: Seq<usize>, orow: Seq<ResultRow>)
    requires
        w == winners(rs, rs.len()),
        keys.len() == w.len(),
        keys.len() <= usize::MAX,
        forall|j: int| 0 <= j < w.len() ==> #[trigger] keys[j] == rs[w[j]].2 as u128,
        top.len() == if RECALL_LIMIT < keys.len() { RECALL_LIMIT as int } else { keys.len() as int },
        distinct_positions(top, keys.len() as int),
        descending(keys, top),
        best_taken(keys, top),
        orow.len() == top.len(),
        forall|x: int| 0 <= x < orow.len() ==> #[trigger] orow[x] == rs[w[top[x] as int]],
    ensures
        forall|k: int, x: int| 0 <= k < rs.len() && 0 <= x < orow.len() && (forall|b: int| 0 <= b < orow.len() ==> orow[b].0 != #[trigger] rs[k].0) ==> rs[k].2 <= #[trigger] orow[x].2,
{
    lemma_winners(rs, rs.len());
    assert forall|k: int, x: int| 0 <= k < rs.len() && 0 <= x < orow.len()
        && (forall|b: int| 0 <= b < orow.len() ==> orow[b].0 != #[trigger] rs[k].0) implies rs[k].2 <= #[trigger] orow[x].2 by {
        lemma_best_pos(rs, rs[k].0, rs.len());
        let p = best_pos(rs, rs[k].0, rs.len());
        lemma_best_pos(rs, rs[p].0, rs.len());
        assert(best_pos(rs, rs[p].0, rs.len()) == p);
        assert(w.contains(p));
        let j = choose|j: int| 0 <= j < w.len() && w[j] == p;
        assert(rs[p].0 == rs[k].0);
        if top.contains(j as usize) {
            let b = choose|b: int| 0 <= b < top.len() && top[b] == j as usize;
            assert(top[b] as int == j);
            assert(orow[b] == rs[w[top[b] as int]]);
            assert(orow[b].0 == rs[k].0);
            assert(false);
        }
        assert(keys[j] <= keys[top[x] as int]);
        assert(keys[top[x] as int] == rs[w[top[x] as int]].2 as u128);
    }
}

proof fn lemma_merge_cover(rs: Seq<ResultRow>, w: Seq<int>, keys: Seq<u128>, top: Seq<usize>, orow: Seq<ResultRow>)
    requires
        w == winners(rs, rs.len()),
        keys.len() == w.len(),
        keys.len() <= usize::MAX,
        forall|j: int| 0 <= j < w.len() ==> #[trigger] keys[j] == rs[w[j]].2 as u128,
        top.len() == if RECALL_LIMIT < keys.len() { RECALL_LIMIT as int } else { keys.len() as int },
        distinct_positions(top, keys.len() as int),
        descending(keys, top),
        best_taken(keys, top),
        orow.len() == top.len(),
        forall|x: int| 0 <= x < orow.len() ==> #[trigger] orow[x] == rs[w[top[x] as int]],
    ensures
        orow.len() < RECALL_LIMIT ==> forall|k: int| 0 <= k < rs.len() ==> exists|x: int| 0 <= x < orow.len() && #[trigger] orow[x].0 == #[trigger] rs[k].0,
{
    lemma_winners(rs, rs.len());
    if orow.len() < RECALL_LIMIT {
        assert forall|k: int| 0 <= k < rs.len() implies exists|x: int| 0 <= x < orow.len() && #[trigger] orow[x].0 == #[trigger] rs[k].0 by {
            lemma_best_pos(rs, rs[k].0, rs.len());
            let p = best_pos(rs, rs[k].0, rs.len());
            lemma_best_pos(rs, rs[p].0, rs.len());
            assert(w.contains(p));
            let j = choose|j: int| 0 <= j < w.len() && w[j] == p;
            lemma_full_order_covers(top, keys.len() as int, j);
            let b = choose|b: int| 0 <= b < top.len() && top[b] == j as usize;
            assert(orow[b] == rs[w[top[b] as int]]);
            assert(orow[b].0 == rs[k].0);
        }
    }
}

/// Distinct positions below `n`, `n` of them, cover every position below `n`.
proof fn lemma_full_order_covers(order: Seq<usize>, n: int, j: int)
    requires
        distinct_positions(order, n),
        order.len() == n,
        0 <= j < n <= usize::MAX,
    ensures
        order.contains(j as usize),
{
    if !order.contains(j as usize) {
        let s = order.to_set();
        let full = Set::new(|p: usize| (p as int) < n);
        assert forall|p: usize| #[trigger] s.contains(p) implies full.contains(p) && p != j as usize by {
            let a = choose|a: int| 0 <= a < order.len() && order[a] == p;
            assert(order[a] < n);
        }
        order.unique_seq_to_set();
        let smaller = full.remove(j as usize);
        assert(s.subset_of(smaller));
        crate::rank::lemma_range_len(n);
        vstd::set_lib::lemma_len_subset(s, smaller);
        assert(full.contains(j as usize));
    }
}


/// A layer of the fix pipeline.
#[derive(Clone, Copy, PartialEq, Eq, Structural, Debug)]
pub enum Layer {
    Rules,
    Community,
    Model,
}

/// A fix offered to the user.
pub struct FixCandidate {
    pub command: String,
    pub source: Source,
    /// The rule's confidence in percent, for a rule fix.
    pub confidence: Option<u32>,
    /// Success rate in hundredths of a percent, for a knowledge-base fix.
    pub success_rate: Option<u64>,
    /// Recorded outcomes, for a knowledge-base fix.
    pub uses: u128,
    pub explanation: String,
    /// False for a model's fix, which nobody has confirmed.
    pub verified: bool,
}

/// What the fix pipeline does next.
pub enum FixStep {
    /// Offer this fix; the pipeline is done.
    Emit(FixCandidate),
    /// Search the knowledge base with this query and the context's tags.
    SearchCommunity(String),
    /// Ask the configured model.
    AskModel,
    /// Nothing was found; these layers were tried.
    NoFix(Vec<Layer>),
}

/// A short word that says nothing about which fix an error needs.
pub open spec fn is_stopword(t: Seq<char>) -> bool {
    is_stop_lowered(lower_of(t))
}

/// An already lower-cased word is a stopword.
pub open spec fn is_stop_lowered(l: Seq<char>) -> bool {
    l == "the"@ || l == "and"@ || l == "for"@ || l == "not"@ || l == "was"@ || l == "error"@
        || l == "found"@ || l == "command"@ || l == "no"@ || l == "such"@ || l == "file"@
        || l == "cannot"@
}

/// The tokens of `ts` longer than two characters that are no stopword.
pub open spec fn salient(ts: Seq<Seq<char>>) -> Seq<Seq<char>>
    decreases ts.len(),
{
    if ts.len() == 0 {
        Seq::empty()
    } else if ts.last().len() > 2 && !is_stopword(ts.last()) {
        salient(ts.drop_last()).push(ts.last())
    } else {
        salient(ts.drop_last())
    }
}

pub open spec fn at_most(ts: Seq<Seq<char>>, n: int) -> Seq<Seq<char>> {
    if ts.len() > n { ts.subrange(0, n) } else { ts }
}

/// The knowledge-base query for an error: its first five salient word
/// tokens, joined by single spaces.
pub open spec fn error_query_of(error: Seq<char>) -> Seq<char> {
    joined(at_most(salient(tokens(error, Cut::Words)), 5), " "@)
}

/// The key an error is recorded under: the whitespace tokens of its first
/// hundred characters, at most ten of them, joined by single spaces.
pub open spec fn error_pattern_of(error: Seq<char>) -> Seq<char> {
    let head = if error.len() > 100 { error.subrange(0, 100) } else { error };
    joined(at_most(tokens(head, Cut::Whitespace), 10), " "@)
}

fn stopword(t: &String) -> (r: bool)
    ensures
        r == is_stopword(t@),
{
    let l = lowercase(t.as_str());
    stop_lowered(l.as_str())
}

/// Whether an already lower-cased word is a stopword.
pub fn stop_lowered(s: &str) -> (r: bool)
    ensures
        r == is_stop_lowered(s@),
{
    same_text(s, "the") || same_text(s, "and") || same_text(s, "for") || same_text(s, "not")
        || same_text(s, "was") || same_text(s, "error") || same_text(s, "found")
        || same_text(s, "command") || same_text(s, "no") || same_text(s, "such")
        || same_text(s, "file") || same_text(s, "cannot")
}

fn first_texts(v: Vec<String>, n: usize) -> (r: Vec<String>)
    ensures
        views(r@) == at_most(views(v@), n as int),
{
    let mut out: Vec<String> = Vec::new();
    let mut i: usize = 0;
    while i < v.len() && i < n
        invariant
            i <= v@.len(),
            i <= n,
            views(out@) == views(v@).subrange(0, i as int),
        decreases v@.len() - i,
    {
        let ghost before = out@;
        out.push(v[i].clone());
        assert(views(out@) =~= views(before).push(v@[i as int]@));
        assert(views(out@) =~= views(v@).subrange(0, i + 1));
        i += 1;
    }
    assert(views(v@).subrange(0, v@.len() as int) =~= views(v@));
    out
}

/// The knowledge-base query for an error.
pub fn error_query(error: &str) -> (r: String)
    ensures
        r@ == error_query_of(error@),
{
    let toks = split_text(error, Cut::Words);
    let mut kept: Vec<String> = Vec::new();
    let mut i: usize = 0;
    while i < toks.len()
        invariant
            views(toks@) == tokens(error@, Cut::Words),
            i <= toks@.len(),
            views(kept@) == salient(views(toks@).subrange(0, i as int)),
        decreases toks@.len() - i,
    {
        let ghost pre = views(toks@).subrange(0, i as int);
        assert(views(toks@).subrange(0, i + 1).drop_last() =~= pre);
        assert(views(toks@).subrange(0, i + 1).last() == toks@[i as int]@);
        let long = toks[i].as_str().unicode_len() > 2;
        if long && !stopword(&toks[i]) {
            let ghost before = kept@;
            kept.push(toks[i].clone());
            assert(views(kept@) =~= views(before).push(toks@[i as int]@));
        }
        i += 1;
    }
    assert(views(toks@).subrange(0, toks@.len() as int) =~= views(toks@));
    let five = first_texts(kept, 5);
    join_texts(&five, " ")
}

/// The key an error is recorded under in the knowledge base.
pub fn error_pattern(error: &str) -> (r: String)
    ensures
        r@ == error_pattern_of(error@),
{
    let cs = chars_of(error);
    let mut head: Vec<char> = Vec::new();
    let mut i: usize = 0;
    while i < cs.len() && i < 100
        invariant
            i <= cs@.len(),
            i <= 100,
            head@ == cs@.subrange(0, i as int),
        decreases cs@.len() - i,
    {
        head.push(cs[i]);
        i += 1;
        assert(head@ =~= cs@.subrange(0, i as int));
    }
    assert(cs@.len() <= 100 ==> cs@.subrange(0, cs@.len() as int) =~= cs@);
    let head_text = crate::text::string_of(&head);
    let toks = split_text(head_text.as_str(), Cut::Whitespace);
    let ten = first_texts(toks, 10);
    join_texts(&ten, " ")
}

/// The first step of the fix pipeline for an error: a rule's fix where a
/// rule matches; else a knowledge-base search where the error has salient
/// tokens; else the model, where one is configured.
pub fn start_fix(rules: &Vec<Rule>, error_text: &str, model_configured: bool) -> (r: FixStep)
    ensures
        match first_rule(rules@, error_text@, 0) {
            Some(i) => r is Emit && ({
                let c = r->Emit_0;
                &&& c.source == Source::Rule
                &&& c.verified
                &&& exists|fix: RuleFix| fix_of(rules@, error_text@, i, fix) && c.command@ == fix.command@
                    && c.confidence == Some(fix.confidence) && c.explanation@ == fix.explanation@
            }),
            None => if error_query_of(error_text@).len() > 0 {
                r is SearchCommunity && r->SearchCommunity_0@ == error_query_of(error_text@)
            } else if model_configured {
                r is AskModel
            } else {
                r is NoFix && r->NoFix_0@ == seq![Layer::Rules]
            },
        },
{
    match apply_rules(rules, error_text) {
        Some(fix) => {
            FixStep::Emit(FixCandidate {
                command: fix.command,
                source: Source::Rule,
                confidence: Some(fix.confidence),
                success_rate: None,
                uses: 0,
                explanation: fix.explanation,
                verified: true,
            })
        },
        None => {
            let query = error_query(error_text);
            if query.as_str().unicode_len() > 0 {
                FixStep::SearchCommunity(query)
            } else if model_configured {
                FixStep::AskModel
            } else {
                let tried = vec![Layer::Rules];
                FixStep::NoFix(tried)
            }
        },
    }
}

/// The step after the knowledge base answered: its top result where there
/// is one; else the model, where one is configured.
pub fn after_community(results: &Vec<BrainResult>, model_configured: bool) -> (r: FixStep)
    ensures
        results@.len() > 0 ==> r is Emit && ({
            let c = r->Emit_0;
            let top = results@[0];
            &&& c.source == Source::Community
            &&& c.verified
            &&& c.command@ == top.command@
            &&& c.success_rate == Some(top.success_rate)
            &&& c.uses == top.success_count + top.fail_count
            &&& c.confidence is None
        }),
        results@.len() == 0 && model_configured ==> r is AskModel,
        results@.len() == 0 && !model_configured ==> r is NoFix && r->NoFix_0@ == seq![Layer::Rules, Layer::Community],
{
    if results.len() > 0 {
        let top = &results[0];
        let uses: u128 = top.success_count as u128 + top.fail_count as u128;
        FixStep::Emit(FixCandidate {
            command: top.command.clone(),
            source: Source::Community,
            confidence: None,
            success_rate: Some(top.success_rate),
            uses,
            explanation: String::new(),
            verified: true,
        })
    } else if model_configured {
        FixStep::AskModel
    } else {
        let tried = vec![Layer::Rules, Layer::Community];
        FixStep::NoFix(tried)
    }
}

/// A model's answer: a command and why it should work.
pub struct ModelFix {
    pub command: String,
    pub explanation: String,
}

/// The step after the model answered, or failed to: its command, marked as
/// unconfirmed, where it gave a non-empty one; else no fix.
pub fn after_model(reply: Option<ModelFix>, community_tried: bool) -> (r: FixStep)
    ensures
        (reply is Some && reply->Some_0.command@.len() > 0) ==> r is Emit && ({
            let c = r->Emit_0;
            &&& c.source == Source::Model
            &&& !c.verified
            &&& c.command@ == reply->Some_0.command@
            &&& c.explanation@ == reply->Some_0.explanation@
            &&& c.confidence is None
            &&& c.success_rate is None
        }),
        !(reply is Some && reply->Some_0.command@.len() > 0) ==> r is NoFix && r->NoFix_0@ == if community_tried {
            seq![Layer::Rules, Layer::Community, Layer::Model]
        } else {
            seq![Layer::Rules, Layer::Model]
        },
{
    match reply {
        Some(m) => {
            if m.command.as_str().unicode_len() > 0 {
                return FixStep::Emit(FixCandidate {
                    command: m.command,
                    source: Source::Model,
                    confidence: None,
                    success_rate: None,
                    uses: 0,
                    explanation: m.explanation,
                    verified: false,
                });
            }
        },
        None => {},
    }
    if community_tried {
        FixStep::NoFix(vec![Layer::Rules, Layer::Community, Layer::Model])
    } else {
        FixStep::NoFix(vec![Layer::Rules, Layer::Model])
    }
}

/// The user's answer on whether a fix worked.
#[derive(Clone, Copy, PartialEq, Eq, Structural, Debug)]
pub enum Feedback {
    Worked,
    Failed,
    Skipped,
}

/// What an answer to "did this fix work?" says, trimmed and ignoring case:
/// empty, `y` or `yes` is a yes; `n` or `no` is a no; anything else says nothing.
pub open spec fn feedback_of(answer: Seq<char>) -> Feedback {
    let a = normalized_of(answer);
    if a.len() == 0 || a == "y"@ || a == "yes"@ {
        Feedback::Worked
    } else if a == "n"@ || a == "no"@ {
        Feedback::Failed
    } else {
        Feedback::Skipped
    }
}

/// What an answer to "did this fix work?" says.
pub fn feedback_from_answer(answer: &str) -> (r: Feedback)
    ensures
        r == feedback_of(answer@),
{
    let a = normalize(answer);
    let s = a.as_str();
    if s.unicode_len() == 0 || same_text(s, "y") || same_text(s, "yes") {
        Feedback::Worked
    } else if same_text(s, "n") || same_text(s, "no") {
        Feedback::Failed
    } else {
        Feedback::Skipped
    }
}

/// Records the user's answer on a fix for `error` in the knowledge base,
/// under the error's normalized pattern: a success upserted, a failure
/// counted on the stored row, nothing for no answer.
pub fn record_feedback(
    brain: &mut CommunityBrain,
    command: &str,
    error: &str,
    context_tags: Option<&str>,
    feedback: Feedback,
) -> (r: Result<(), BrainError>)
    requires
        old(brain).wf(),
    ensures
        final(brain).wf(),
        r is Err ==> final(brain)@ == old(brain)@,
        feedback == Feedback::Skipped ==> r is Ok && final(brain)@ == old(brain)@,
        feedback == Feedback::Worked ==> (r is Err <==> overflows(old(brain)@, success_row(command@, error_pattern_of(error@), str_opt_view(context_tags), 0))),
        feedback == Feedback::Worked && r is Ok ==> exists|now: i64| final(brain)@ == upserted(old(brain)@,
            #[trigger] success_row(command@, error_pattern_of(error@), str_opt_view(context_tags), now)),
        feedback == Feedback::Failed ==> (r is Err <==> overflows(old(brain)@, (command@, Some(error_pattern_of(error@)), None, 0, 1, None, 0))),
        feedback == Feedback::Failed && r is Ok ==> final(brain)@ == failure_logged(old(brain)@, command@, error_pattern_of(error@)),
{
    let pattern = error_pattern(error);
    match feedback {
        Feedback::Worked => brain.log_success(command, pattern.as_str(), context_tags),
        Feedback::Failed => brain.log_failure(command, pattern.as_str()),
        Feedback::Skipped => Ok(()),
    }
}

/// The candidate row of a scored history command in a context.
pub open spec fn history_row(h: CommandScore, tags: Seq<Seq<char>>) -> ResultRow {
    let boost = boost_of(tags, h.command@) as int;
    (h.command@, Source::History, boosted_score(h.combined_score as int, boost) as u64, h.frequency, boost > 10)
}

/// The candidate row of a knowledge-base command in a context.
pub open spec fn community_row(c: Seq<char>, tags: Seq<Seq<char>>) -> ResultRow {
    let boost = boost_of(tags, c) as int;
    (c, Source::Community, boosted_score(COMMUNITY_BASELINE as int, boost) as u64, 0, boost > 10)
}

/// Recall: the history's scored commands and the knowledge base's commands,
/// each boosted by the project context, merged to one per command, highest
/// first, at most ten.
pub fn recall(history: &Vec<CommandScore>, community: &Vec<String>, context: &ProjectContext) -> (r: Vec<ScoredResult>)
    requires
        forall|i: int| 0 <= i < history@.len() ==> #[trigger] history@[i].combined_score <= SCORE_ONE,
    ensures
        merged(
            history@.map_values(|h: CommandScore| history_row(h, context@))
                + community@.map_values(|c: String| community_row(c@, context@)),
            rows_of(r@),
            RECALL_LIMIT as int,
        ),
{
    let mut hs: Vec<ScoredResult> = Vec::new();
    let mut i: usize = 0;
    while i < history.len()
        invariant
            i <= history@.len(),
            forall|i: int| 0 <= i < history@.len() ==> #[trigger] history@[i].combined_score <= SCORE_ONE,
            rows_of(hs@) == history@.subrange(0, i as int).map_values(|h: CommandScore| history_row(h, context@)),
        decreases history@.len() - i,
    {
        let c = history_candidate(&history[i], context);
        assert(c.row() == history_row(history@[i as int], context@));
        let ghost before = hs@;
        hs.push(c);
        assert(rows_of(hs@) =~= rows_of(before).push(history_row(history@[i as int], context@)));
        assert(rows_of(hs@) =~= history@.subrange(0, i + 1).map_values(|h: CommandScore| history_row(h, context@)));
        i += 1;
    }
    let mut cs: Vec<ScoredResult> = Vec::new();
    let mut j: usize = 0;
    while j < community.len()
        invariant
            j <= community@.len(),
            rows_of(cs@) == community@.subrange(0, j as int).map_values(|c: String| community_row(c@, context@)),
        decreases community@.len() - j,
    {
        let c = community_candidate(&community[j], context);
        assert(c.row() == community_row(community@[j as int]@, context@));
        let ghost before = cs@;
        cs.push(c);
        assert(rows_of(cs@) =~= rows_of(before).push(community_row(community@[j as int]@, context@)));
        assert(rows_of(cs@) =~= community@.subrange(0, j + 1).map_values(|c: String| community_row(c@, context@)));
        j += 1;
    }
    assert(history@.subrange(0, history@.len() as int) =~= history@);
    assert(community@.subrange(0, community@.len() as int) =~= community@);
    merge_recall(hs, cs)
}

} // verus!
