//! The local history store: an append-only log of executed commands, with
//! lookup by query terms and a recency and frequency score per command.
use vstd::prelude::*;
use crate::rank::{top_positions, distinct_positions, descending, best_taken};
use crate::brain::unix_now;
use crate::text::{
    lower_of, has_infix, has_word, word_in, is_space, is_space_exec, views, tokens, Cut, chars_of, contains_text, lowercase,
    split_text, string_of,
};

verus! {

/// The unit of every score: a score of one whole.
pub const SCORE_ONE: u64 = 1_000_000;

/// Recency of a command `age` seconds old, in millionths: from one whole down
/// to a half over the first day, then down to a tenth over thirty more days,
/// never below a tenth. A negative age counts as zero.
pub open spec fn recency_of(age: int) -> int {
    let a = if age < 0 { 0 } else { age };
    if a < 86_400 {
        1_000_000 - (a * 500_000) / 86_400
    } else {
        let d = if a - 86_400 < 2_592_000 { a - 86_400 } else { 2_592_000 };
        let r = 500_000 - (d * 400_000) / 2_592_000;
        if r < 100_000 { 100_000 } else { r }
    }
}

/// Frequency score of a command seen `freq` times, in millionths:
/// `min(freq, 100) / 100`, at least a tenth.
pub open spec fn frequency_of(freq: int) -> int {
    let f = if freq < 0 { 0 } else if freq > 100 { 100 } else { freq };
    if f * 10_000 < 100_000 { 100_000 } else { f * 10_000 }
}

/// Six tenths of the recency plus four tenths of the frequency score.
pub open spec fn combined_of(recency: int, frequency: int) -> int {
    (6 * recency + 4 * frequency) / 10
}

/// The recency score of a command last run at `timestamp`, seen at `now`.
pub fn recency_score(now: i64, timestamp: i64) -> (r: u64)
    ensures
        r == recency_of(now - timestamp),
        100_000 <= r <= SCORE_ONE,
{
    let age_wide: i128 = now as i128 - timestamp as i128;
    let age: i128 = if age_wide < 0 { 0 } else { age_wide };
    if age < 86_400 {
        assert(0 <= (age * 500_000) / 86_400 <= 500_000) by (nonlinear_arith)
            requires 0 <= age < 86_400;
        (1_000_000 - (age * 500_000) / 86_400) as u64
    } else {
        let d: i128 = if age - 86_400 < 2_592_000 { age - 86_400 } else { 2_592_000 };
        assert(0 <= (d * 400_000) / 2_592_000 <= 400_000) by (nonlinear_arith)
            requires 0 <= d <= 2_592_000;
        let r: i128 = 500_000 - (d * 400_000) / 2_592_000;
        if r < 100_000 { 100_000 } else { r as u64 }
    }
}

/// The frequency score of a command seen `frequency` times.
pub fn frequency_score(frequency: u64) -> (r: u64)
    ensures
        r == frequency_of(frequency as int),
        100_000 <= r <= SCORE_ONE,
{
    let f: u64 = if frequency > 100 { 100 } else { frequency };
    if f * 10_000 < 100_000 { 100_000 } else { f * 10_000 }
}

/// The combined score of two sub-scores.
pub fn combined_score(recency: u64, frequency: u64) -> (r: u64)
    requires
        recency <= SCORE_ONE,
        frequency <= SCORE_ONE,
    ensures
        r == combined_of(recency as int, frequency as int),
{
    (6 * recency + 4 * frequency) / 10
}

proof fn lemma_recency_antitone(a1: int, a2: int)
    requires
        a1 <= a2,
    ensures
        recency_of(a2) <= recency_of(a1),
        100_000 <= recency_of(a1) <= 1_000_000,
{
    let x1 = if a1 < 0 { 0 } else { a1 };
    let x2 = if a2 < 0 { 0 } else { a2 };
    if x1 < 86_400 {
        vstd::arithmetic::div_mod::lemma_div_is_ordered(x1 * 500_000, 86_399int * 500_000, 86_400);
        assert((86_399int * 500_000) / 86_400 == 499_994);
        if x2 < 86_400 {
            vstd::arithmetic::div_mod::lemma_div_is_ordered(x1 * 500_000, x2 * 500_000, 86_400);
        }
        vstd::arithmetic::div_mod::lemma_div_is_ordered(0, x1 * 500_000, 86_400);
    } else {
        let d1 = if x1 - 86_400 < 2_592_000 { x1 - 86_400 } else { 2_592_000 };
        let d2 = if x2 - 86_400 < 2_592_000 { x2 - 86_400 } else { 2_592_000 };
        vstd::arithmetic::div_mod::lemma_div_is_ordered(d1 * 400_000, d2 * 400_000, 2_592_000);
        vstd::arithmetic::div_mod::lemma_div_is_ordered(0, d1 * 400_000, 2_592_000);
    }
}

proof fn lemma_frequency_monotone(f1: int, f2: int)
    requires
        f1 <= f2,
    ensures
        frequency_of(f1) <= frequency_of(f2),
        100_000 <= frequency_of(f1) <= 1_000_000,
{
}

/// The combined score does not grow with age at a fixed frequency, does not
/// shrink with frequency at a fixed age, and both sub-scores stay between a
/// tenth and one whole.
pub proof fn law_combined_score_monotone(age1: int, age2: int, freq1: int, freq2: int)
    requires
        age1 <= age2,
        freq1 <= freq2,
    ensures
        combined_of(recency_of(age2), frequency_of(freq1))
            <= combined_of(recency_of(age1), frequency_of(freq1)),
        combined_of(recency_of(age1), frequency_of(freq1))
            <= combined_of(recency_of(age1), frequency_of(freq2)),
        100_000 <= recency_of(age1) <= 1_000_000,
        100_000 <= recency_of(age2) <= 1_000_000,
        100_000 <= frequency_of(freq1) <= 1_000_000,
        100_000 <= frequency_of(freq2) <= 1_000_000,
{
    lemma_recency_antitone(age1, age2);
    lemma_recency_antitone(age2, age2);
    lemma_frequency_monotone(freq1, freq2);
    lemma_frequency_monotone(freq2, freq2);
    let f1 = frequency_of(freq1);
    let f2 = frequency_of(freq2);
    let r1 = recency_of(age1);
    let r2 = recency_of(age2);
    vstd::arithmetic::div_mod::lemma_div_is_ordered(6 * r2 + 4 * f1, 6 * r1 + 4 * f1, 10);
    vstd::arithmetic::div_mod::lemma_div_is_ordered(6 * r1 + 4 * f1, 6 * r1 + 4 * f2, 10);
}

/// `s` without its leading whitespace.
pub open spec fn trim_start(s: Seq<char>) -> Seq<char>
    decreases s.len(),
{
    if s.len() > 0 && is_space(s[0]) {
        trim_start(s.drop_first())
    } else {
        s
    }
}

/// `s` without its trailing whitespace.
pub open spec fn trim_end(s: Seq<char>) -> Seq<char>
    decreases s.len(),
{
    if s.len() > 0 && is_space(s.last()) {
        trim_end(s.drop_last())
    } else {
        s
    }
}

/// The grouping key of a command: trimmed, then lower-cased.
pub open spec fn normalized_of(command: Seq<char>) -> Seq<char> {
    lower_of(trim_end(trim_start(command)))
}

/// `s` without whitespace at either end.
pub fn trim_chars(v: &Vec<char>) -> (r: Vec<char>)
    ensures
        r@ == trim_end(trim_start(v@)),
{
    let n = v.len();
    let mut i: usize = 0;
    assert(v@.subrange(0, n as int) =~= v@);
    while i < n && is_space_exec(v[i])
        invariant
            n == v@.len(),
            i <= n,
            trim_start(v@) == trim_start(v@.subrange(i as int, n as int)),
        decreases n - i,
    {
        assert(v@.subrange(i as int, n as int).drop_first() =~= v@.subrange(i + 1, n as int));
        i += 1;
    }
    assert(trim_start(v@.subrange(i as int, n as int)) == v@.subrange(i as int, n as int));
    let mut j: usize = n;
    while j > i && is_space_exec(v[j - 1])
        invariant
            n == v@.len(),
            i <= j <= n,
            trim_end(v@.subrange(i as int, n as int)) == trim_end(v@.subrange(i as int, j as int)),
        decreases j,
    {
        assert(v@.subrange(i as int, j as int).drop_last() =~= v@.subrange(i as int, j - 1));
        j -= 1;
    }
    assert(trim_end(v@.subrange(i as int, j as int)) == v@.subrange(i as int, j as int));
    let mut out: Vec<char> = Vec::new();
    let mut k: usize = i;
    while k < j
        invariant
            i <= k <= j <= n,
            n == v@.len(),
            out@ == v@.subrange(i as int, k as int),
        decreases j - k,
    {
        out.push(v[k]);
        k += 1;
        assert(out@ =~= v@.subrange(i as int, k as int));
    }
    out
}

/// The grouping key of a command.
pub fn normalize(command: &str) -> (r: String)
    ensures
        r@ == normalized_of(command@),
{
    let cs = chars_of(command);
    let t = trim_chars(&cs);
    let s = string_of(&t);
    lowercase(s.as_str())
}

/// One executed command as the store holds it.
pub struct HistoryEntry {
    pub command: String,
    pub working_dir: String,
    pub exit_code: Option<i32>,
    pub timestamp: i64,
    pub normalized: String,
}

/// An entry's plain contents: command, working directory, exit code,
/// timestamp and grouping key.
pub type HistoryRow = (Seq<char>, Seq<char>, Option<i32>, i64, Seq<char>);

impl HistoryEntry {
    pub open spec fn row(&self) -> HistoryRow {
        (self.command@, self.working_dir@, self.exit_code, self.timestamp, self.normalized@)
    }
}

/// The entry that logging `command` run in `dir` at `timestamp` would add.
pub open spec fn row_for(command: Seq<char>, dir: Seq<char>, exit_code: Option<i32>, timestamp: i64) -> HistoryRow {
    (command, dir, exit_code, timestamp, normalized_of(command))
}

/// Some row of `rows` is the same command, run in the same directory at the same time.
pub open spec fn logged(rows: Seq<HistoryRow>, row: HistoryRow) -> bool {
    exists|i: int| 0 <= i < rows.len() && #[trigger] rows[i].0 == row.0 && rows[i].1 == row.1 && rows[i].3 == row.3
}

/// The log after adding `row`: unchanged where the same run is already logged.
pub open spec fn appended(rows: Seq<HistoryRow>, row: HistoryRow) -> Seq<HistoryRow> {
    if logged(rows, row) {
        rows
    } else {
        rows.push(row)
    }
}

/// Logging the same run a second time changes nothing: the count stays.
pub proof fn law_repeated_run_ignored(rows: Seq<HistoryRow>, row: HistoryRow)
    ensures
        appended(appended(rows, row), row) == appended(rows, row),
        appended(appended(rows, row), row).len() == appended(rows, row).len(),
{
    if !logged(rows, row) {
        let once = rows.push(row);
        assert(once[rows.len() as int].0 == row.0);
        assert(logged(once, row));
    }
}

/// The append-only log of executed commands.
pub struct HistoryStore {
    entries: Vec<HistoryEntry>,
}

impl View for HistoryStore {
    type V = Seq<HistoryRow>;

    closed spec fn view(&self) -> Seq<HistoryRow> {
        self.entries@.map_values(|e: HistoryEntry| e.row())
    }
}

impl HistoryStore {
    /// An empty log.
    pub fn new() -> (r: Self)
        ensures
            r@ == Seq::<HistoryRow>::empty(),
    {
        let r = HistoryStore { entries: Vec::new() };
        assert(r@ =~= Seq::<HistoryRow>::empty());
        r
    }

    /// Number of logged runs.
    pub fn count(&self) -> (r: usize)
        ensures
            r == self@.len(),
    {
        self.entries.len()
    }

    /// The entry at `i`.
    pub fn entry(&self, i: usize) -> (r: &HistoryEntry)
        requires
            i < self@.len(),
        ensures
            r.row() == self@[i as int],
    {
        &self.entries[i]
    }

    /// Logs a run of `command` in `working_dir` at `timestamp`, unless that
    /// same run is already logged.
    pub fn insert_command(&mut self, command: &str, working_dir: &str, exit_code: i32, timestamp: i64)
        ensures
            final(self)@ == appended(old(self)@, row_for(command@, working_dir@, Some(exit_code), timestamp)),
    {
        let ghost row = row_for(command@, working_dir@, Some(exit_code), timestamp);
        let c = command.to_owned();
        let d = working_dir.to_owned();
        let mut i: usize = 0;
        while i < self.entries.len()
            invariant
                row == row_for(command@, working_dir@, Some(exit_code), timestamp),
                c@ == command@,
                d@ == working_dir@,
                i <= self@.len(),
                self@.len() == self.entries@.len(),
                forall|k: int| 0 <= k < i ==> !(#[trigger] self@[k].0 == row.0 && self@[k].1 == row.1 && self@[k].3 == row.3),
            decreases self@.len() - i,
        {
            let e = &self.entries[i];
            assert(self@[i as int] == self.entries@[i as int].row());
            assert(e.row() == self.entries@[i as int].row());
            let same_command = e.command == c;
            let same_dir = e.working_dir == d;
            if e.timestamp == timestamp && same_command && same_dir {
                assert(self@[i as int].0 == row.0 && self@[i as int].1 == row.1 && self@[i as int].3 == row.3);
                return;
            }
            i += 1;
        }
        let normalized = normalize(command);
        let ghost before = self@;
        self.entries.push(HistoryEntry { command: c, working_dir: d, exit_code: Some(exit_code), timestamp, normalized });
        assert(self@ =~= before.push(row));
    }

    /// Logs each run in order, as `insert_command` does.
    pub fn insert_batch(&mut self, runs: &Vec<(String, String, i32, i64)>)
        ensures
            final(self)@ == appended_all(old(self)@, runs@, runs@.len() as nat),
    {
        let mut i: usize = 0;
        while i < runs.len()
            invariant
                i <= runs@.len(),
                self@ == appended_all(old(self)@, runs@, i as nat),
            decreases runs@.len() - i,
        {
            let run = &runs[i];
            self.insert_command(run.0.as_str(), run.1.as_str(), run.2, run.3);
            i += 1;
        }
    }
}

/// The log after adding the first `n` of `runs`, in order.
pub open spec fn appended_all(rows: Seq<HistoryRow>, runs: Seq<(String, String, i32, i64)>, n: nat) -> Seq<HistoryRow>
    decreases n,
{
    if n == 0 || n > runs.len() {
        rows
    } else {
        let r = runs[n - 1];
        appended(appended_all(rows, runs, (n - 1) as nat), row_for(r.0@, r.1@, Some(r.2), r.3))
    }
}

/// `t` without its double-quote characters.
pub open spec fn unquoted(t: Seq<char>) -> Seq<char>
    decreases t.len(),
{
    if t.len() == 0 {
        t
    } else if t.last() == '"' {
        unquoted(t.drop_last())
    } else {
        unquoted(t.drop_last()).push(t.last())
    }
}

/// The tokens of `ts` with quotes removed, leaving out those that become empty.
pub open spec fn kept_terms(ts: Seq<Seq<char>>) -> Seq<Seq<char>>
    decreases ts.len(),
{
    if ts.len() == 0 {
        Seq::empty()
    } else {
        let rest = kept_terms(ts.drop_last());
        let u = unquoted(ts.last());
        if u.len() > 0 {
            rest.push(u)
        } else {
            rest
        }
    }
}

/// The search terms of a history query: its whitespace-separated tokens, unquoted.
pub open spec fn query_terms_of(query: Seq<char>) -> Seq<Seq<char>> {
    kept_terms(tokens(query, Cut::Whitespace))
}

/// Some term is a word of the command, ignoring case.
pub open spec fn term_hit(command: Seq<char>, terms: Seq<Seq<char>>) -> bool {
    exists|k: int| 0 <= k < terms.len() && has_word(lower_of(command), #[trigger] lower_of(terms[k]))
}

/// Some lower-cased term is a word of the lower-cased command.
pub open spec fn lowered_hit(lc_command: Seq<char>, lowered: Seq<Seq<char>>) -> bool {
    exists|k: int| 0 <= k < lowered.len() && has_word(lc_command, #[trigger] lowered[k])
}

/// Positions, among the first `n` rows, of the rows that some term hits.
pub open spec fn hit_positions(rows: Seq<HistoryRow>, terms: Seq<Seq<char>>, n: nat) -> Seq<int>
    decreases n,
{
    if n == 0 || n > rows.len() {
        Seq::empty()
    } else {
        let rest = hit_positions(rows, terms, (n - 1) as nat);
        if term_hit(rows[n - 1].0, terms) {
            rest.push(n - 1)
        } else {
            rest
        }
    }
}

/// A timestamp as an unsigned key that orders as the timestamp does.
pub open spec fn time_key(t: i64) -> u128 {
    (t as int + 0x8000_0000_0000_0000) as u128
}

/// The timestamps of the rows at `hits`, as keys.
pub open spec fn hit_times(rows: Seq<HistoryRow>, hits: Seq<int>) -> Seq<u128> {
    hits.map_values(|i: int| time_key(rows[i].3))
}

fn unquote(t: &String) -> (r: Vec<char>)
    ensures
        r@ == unquoted(t@),
{
    let cs = chars_of(t.as_str());
    let mut out: Vec<char> = Vec::new();
    let mut i: usize = 0;
    while i < cs.len()
        invariant
            cs@ == t@,
            i <= cs@.len(),
            out@ == unquoted(cs@.subrange(0, i as int)),
        decreases cs@.len() - i,
    {
        assert(cs@.subrange(0, i + 1).drop_last() =~= cs@.subrange(0, i as int));
        if cs[i] != '"' {
            out.push(cs[i]);
        }
        i += 1;
    }
    assert(cs@.subrange(0, cs@.len() as int) =~= cs@);
    out
}

/// The search terms of a history query.
pub fn query_terms(query: &str) -> (r: Vec<String>)
    ensures
        views(r@) == query_terms_of(query@),
{
    let toks = split_text(query, Cut::Whitespace);
    let mut out: Vec<String> = Vec::new();
    let mut i: usize = 0;
    while i < toks.len()
        invariant
            views(toks@) == tokens(query@, Cut::Whitespace),
            i <= toks@.len(),
            views(out@) == kept_terms(views(toks@).subrange(0, i as int)),
        decreases toks@.len() - i,
    {
        let u = unquote(&toks[i]);
        let ghost pre = views(toks@).subrange(0, i as int);
        assert(views(toks@).subrange(0, i + 1).drop_last() =~= pre);
        assert(views(toks@).subrange(0, i + 1).last() == toks@[i as int]@);
        if u.len() > 0 {
            let ghost before = out@;
            out.push(string_of(&u));
            assert(views(out@) =~= views(before).push(u@));
        }
        i += 1;
    }
    assert(views(toks@).subrange(0, toks@.len() as int) =~= views(toks@));
    out
}

/// The lower-cased forms of `terms`.
fn lower_all(terms: &Vec<String>) -> (r: Vec<String>)
    ensures
        r@.len() == terms@.len(),
        forall|k: int| 0 <= k < terms@.len() ==> #[trigger] r@[k]@ == lower_of(terms@[k]@),
{
    let mut out: Vec<String> = Vec::new();
    let mut i: usize = 0;
    while i < terms.len()
        invariant
            i <= terms@.len(),
            out@.len() == i,
            forall|k: int| 0 <= k < i ==> #[trigger] out@[k]@ == lower_of(terms@[k]@),
        decreases terms@.len() - i,
    {
        out.push(lowercase(terms[i].as_str()));
        i += 1;
    }
    out
}

/// Whether some of the lower-cased terms is a word of the lower-cased command.
pub fn hits_lowered(lc_command: &str, lowered: &Vec<String>) -> (r: bool)
    ensures
        r == lowered_hit(lc_command@, views(lowered@)),
{
    let mut k: usize = 0;
    while k < lowered.len()
        invariant
            k <= lowered@.len(),
            forall|j: int| 0 <= j < k ==> !has_word(lc_command@, #[trigger] views(lowered@)[j]),
        decreases lowered@.len() - k,
    {
        assert(views(lowered@)[k as int] == lowered@[k as int]@);
        if word_in(lc_command, lowered[k].as_str()) {
            return true;
        }
        k += 1;
    }
    false
}

/// Whether some term is a word of `command`, ignoring case; `lowered` holds
/// the terms lower-cased.
pub fn hits_command(command: &str, terms: &Vec<String>, lowered: &Vec<String>) -> (r: bool)
    requires
        lowered@.len() == terms@.len(),
        forall|k: int| 0 <= k < terms@.len() ==> #[trigger] lowered@[k]@ == lower_of(terms@[k]@),
    ensures
        r == term_hit(command@, views(terms@)),
{
    let lc = lowercase(command);
    let r = hits_lowered(lc.as_str(), lowered);
    proof {
        assert forall|k: int| 0 <= k < terms@.len() implies #[trigger] lower_of(views(terms@)[k]) == views(lowered@)[k] by {
            assert(lowered@[k]@ == lower_of(terms@[k]@));
        }
        if r {
            let k = choose|k: int| 0 <= k < views(lowered@).len() && has_word(lc@, #[trigger] views(lowered@)[k]);
            assert(lower_of(views(terms@)[k]) == views(lowered@)[k]);
        }
        if term_hit(command@, views(terms@)) {
            let k = choose|k: int| 0 <= k < views(terms@).len() && has_word(lower_of(command@), #[trigger] lower_of(views(terms@)[k]));
            assert(lower_of(views(terms@)[k]) == views(lowered@)[k]);
        }
    }
    r
}

impl HistoryStore {
    /// Positions of the rows that some term hits, in log order.
    fn hits(&self, terms: &Vec<String>) -> (r: Vec<usize>)
        ensures
            r@.len() == hit_positions(self@, views(terms@), self@.len()).len(),
            forall|a: int| 0 <= a < r@.len() ==> r@[a] as int == #[trigger] hit_positions(self@, views(terms@), self@.len())[a],
    {
        let lowered = lower_all(terms);
        let mut out: Vec<usize> = Vec::new();
        let mut i: usize = 0;
        while i < self.entries.len()
            invariant
                i <= self@.len(),
                self@.len() == self.entries@.len(),
                lowered@.len() == terms@.len(),
                forall|k: int| 0 <= k < terms@.len() ==> #[trigger] lowered@[k]@ == lower_of(terms@[k]@),
                out@.len() == hit_positions(self@, views(terms@), i as nat).len(),
                forall|a: int| 0 <= a < out@.len() ==> out@[a] as int == #[trigger] hit_positions(self@, views(terms@), i as nat)[a],
            decreases self@.len() - i,
        {
            assert(self@[i as int] == self.entries@[i as int].row());
            if hits_command(self.entries[i].command.as_str(), terms, &lowered) {
                out.push(i);
            }
            i += 1;
        }
        out
    }

    /// The commands of up to `limit` rows that some query term hits, newest first.
    pub fn search(&self, query: &str, limit: usize) -> (r: Vec<String>)
        ensures
            ({
                let hits = hit_positions(self@, query_terms_of(query@), self@.len());
                let keys = hit_times(self@, hits);
                &&& r@.len() == if limit < hits.len() { limit as int } else { hits.len() as int }
                &&& exists|order: Seq<usize>|
                    #![trigger distinct_positions(order, hits.len() as int)]
                    order.len() == r@.len() && distinct_positions(order, hits.len() as int)
                        && descending(keys, order) && best_taken(keys, order)
                        && forall|a: int| 0 <= a < order.len() ==> #[trigger] r@[a]@ == self@[hits[order[a] as int]].0
            }),
    {
        let terms = query_terms(query);
        let hits = self.hits(&terms);
        let ghost spec_hits = hit_positions(self@, query_terms_of(query@), self@.len());
        proof {
            lemma_hit_positions_in_range(self@, query_terms_of(query@), self@.len());
        }
        let mut keys: Vec<u128> = Vec::new();
        let mut i: usize = 0;
        while i < hits.len()
            invariant
                i <= hits@.len(),
                hits@.len() == spec_hits.len(),
                self@.len() == self.entries@.len(),
                spec_hits == hit_positions(self@, query_terms_of(query@), self@.len()),
                forall|a: int| 0 <= a < hits@.len() ==> hits@[a] as int == #[trigger] spec_hits[a],
                forall|a: int| 0 <= a < hits@.len() ==> 0 <= #[trigger] spec_hits[a] < self@.len(),
                keys@ == hit_times(self@, spec_hits).subrange(0, i as int),
            decreases hits@.len() - i,
        {
            let p = hits[i];
            assert(hits@[i as int] as int == spec_hits[i as int]);
            assert(self@[p as int] == self.entries@[p as int].row());
            keys.push((self.entries[p].timestamp as i128 + 0x8000_0000_0000_0000i128) as u128);
            assert(keys@ =~= hit_times(self@, spec_hits).subrange(0, i + 1));
            i += 1;
        }
        assert(keys@ =~= hit_times(self@, spec_hits));
        let order = top_positions(&keys, limit);
        let mut out: Vec<String> = Vec::new();
        let mut j: usize = 0;
        while j < order.len()
            invariant
                j <= order@.len(),
                out@.len() == j,
                hits@.len() == spec_hits.len(),
                self@.len() == self.entries@.len(),
                distinct_positions(order@, hits@.len() as int),
                forall|a: int| 0 <= a < hits@.len() ==> hits@[a] as int == #[trigger] spec_hits[a],
                forall|a: int| 0 <= a < hits@.len() ==> 0 <= #[trigger] spec_hits[a] < self@.len(),
                forall|a: int| 0 <= a < j ==> #[trigger] out@[a]@ == self@[spec_hits[order@[a] as int]].0,
            decreases order@.len() - j,
        {
            let p = hits[order[j]];
            assert(order@[j as int] < hits@.len());
            assert(hits@[order@[j as int] as int] as int == spec_hits[order@[j as int] as int]);
            assert(self@[p as int] == self.entries@[p as int].row());
            out.push(self.entries[p].command.clone());
            j += 1;
        }
        assert(distinct_positions(order@, spec_hits.len() as int));
        out
    }
}

proof fn lemma_hit_positions_in_range(rows: Seq<HistoryRow>, terms: Seq<Seq<char>>, n: nat)
    ensures
        forall|a: int| 0 <= a < hit_positions(rows, terms, n).len()
            ==> 0 <= #[trigger] hit_positions(rows, terms, n)[a] < rows.len(),
    decreases n,
{
    if n > 0 && n <= rows.len() {
        lemma_hit_positions_in_range(rows, terms, (n - 1) as nat);
        let rest = hit_positions(rows, terms, (n - 1) as nat);
        let next = rest.push(n - 1);
        assert forall|a: int| 0 <= a < next.len() implies 0 <= #[trigger] next[a] < rows.len() by {
            if a < rest.len() {
                assert(next[a] == rest[a]);
            }
        }
    }
}

/// A command with its scores, as a scored history search returns it.
pub struct CommandScore {
    pub command: String,
    pub timestamp: i64,
    pub frequency: u64,
    pub recency_score: u64,
    pub frequency_score: u64,
    pub combined_score: u64,
}

impl CommandScore {
    /// The scores are those of the command's last run and run count, seen at `now`.
    pub open spec fn scored_at(&self, now: i64) -> bool {
        &&& self.recency_score == recency_of(now - self.timestamp)
        &&& self.frequency_score == frequency_of(self.frequency as int)
        &&& self.combined_score == combined_of(self.recency_score as int, self.frequency_score as int)
    }
}

/// Scores a command last run at `timestamp` and run `frequency` times, seen at `now`.
pub fn score_command(command: String, timestamp: i64, frequency: u64, now: i64) -> (r: CommandScore)
    ensures
        r.command == command,
        r.timestamp == timestamp,
        r.frequency == frequency,
        r.scored_at(now),
{
    let recency = recency_score(now, timestamp);
    let freq = frequency_score(frequency);
    let combined = combined_score(recency, freq);
    CommandScore {
        command,
        timestamp,
        frequency,
        recency_score: recency,
        frequency_score: freq,
        combined_score: combined,
    }
}

/// Scores each (command, last run, run count) group at `now`, highest
/// combined score first.
pub fn rank_groups(groups: Vec<(String, i64, u64)>, now: i64) -> (r: Vec<CommandScore>)
    ensures
        r@.len() == groups@.len(),
        exists|order: Seq<usize>|
            #![trigger distinct_positions(order, groups@.len() as int)]
            order.len() == groups@.len() && distinct_positions(order, groups@.len() as int)
                && forall|a: int| 0 <= a < order.len() ==> {
                    let g = #[trigger] groups@[order[a] as int];
                    &&& r@[a].command@ == g.0@
                    &&& r@[a].timestamp == g.1
                    &&& r@[a].frequency == g.2
                    &&& r@[a].scored_at(now)
                },
        forall|a: int, b: int| 0 <= a < b < r@.len() ==> r@[a].combined_score >= r@[b].combined_score,
{
    let mut scored: Vec<CommandScore> = Vec::new();
    let mut keys: Vec<u128> = Vec::new();
    let mut i: usize = 0;
    while i < groups.len()
        invariant
            i <= groups@.len(),
            scored@.len() == i,
            keys@.len() == i,
            forall|a: int| 0 <= a < i ==> {
                let g = #[trigger] groups@[a];
                &&& scored@[a].command@ == g.0@
                &&& scored@[a].timestamp == g.1
                &&& scored@[a].frequency == g.2
                &&& scored@[a].scored_at(now)
                &&& keys@[a] == scored@[a].combined_score as u128
            },
        decreases groups@.len() - i,
    {
        let g = &groups[i];
        let sc = score_command(g.0.clone(), g.1, g.2, now);
        keys.push(sc.combined_score as u128);
        scored.push(sc);
        i += 1;
    }
    let order = top_positions(&keys, keys.len());
    let n = groups.len();
    let mut out: Vec<CommandScore> = Vec::new();
    let mut j: usize = 0;
    while j < order.len()
        invariant
            n == groups@.len(),
            order@.len() == n,
            keys@.len() == n,
            scored@.len() == n,
            j <= n,
            out@.len() == j,
            distinct_positions(order@, n as int),
            descending(keys@, order@),
            forall|a: int| 0 <= a < n ==> {
                let g = #[trigger] groups@[a];
                &&& scored@[a].command@ == g.0@
                &&& scored@[a].timestamp == g.1
                &&& scored@[a].frequency == g.2
                &&& scored@[a].scored_at(now)
                &&& keys@[a] == scored@[a].combined_score as u128
            },
            forall|a: int| 0 <= a < j ==> {
                let g = #[trigger] groups@[order@[a] as int];
                &&& out@[a].command@ == g.0@
                &&& out@[a].timestamp == g.1
                &&& out@[a].frequency == g.2
                &&& out@[a].scored_at(now)
                &&& keys@[order@[a] as int] == out@[a].combined_score as u128
            },
        decreases n - j,
    {
        let p = order[j];
        assert(p < n);
        let g = &groups[p];
        let sc = score_command(g.0.clone(), g.1, g.2, now);
        assert(keys@[p as int] == scored@[p as int].combined_score as u128);
        out.push(sc);
        j += 1;
    }
    assert forall|a: int, b: int| 0 <= a < b < out@.len() implies out@[a].combined_score >= out@[b].combined_score by {
        let ga = groups@[order@[a] as int];
        let gb = groups@[order@[b] as int];
        assert(keys@[order@[a] as int] >= keys@[order@[b] as int]);
    }
    out
}

/// The rows at `hits`.
pub open spec fn rows_at(rows: Seq<HistoryRow>, hits: Seq<int>) -> Seq<HistoryRow> {
    hits.map_values(|i: int| rows[i])
}

/// Among the first `n` rows, those with grouping key `key`: how many, the
/// latest timestamp, and the command of the first row with that timestamp.
pub open spec fn group_of(hr: Seq<HistoryRow>, key: Seq<char>, n: nat) -> (nat, i64, Seq<char>)
    decreases n,
{
    if n == 0 || n > hr.len() {
        (0, i64::MIN, Seq::empty())
    } else {
        let g = group_of(hr, key, (n - 1) as nat);
        let r = hr[n - 1];
        if r.4 == key {
            if g.0 == 0 || r.3 > g.1 {
                (g.0 + 1, r.3, r.0)
            } else {
                (g.0 + 1, g.1, g.2)
            }
        } else {
            g
        }
    }
}

/// The grouping keys of the first `n` rows, in order of first appearance.
pub open spec fn group_keys(hr: Seq<HistoryRow>, n: nat) -> Seq<Seq<char>>
    decreases n,
{
    if n == 0 || n > hr.len() {
        Seq::empty()
    } else {
        let ks = group_keys(hr, (n - 1) as nat);
        if ks.contains(hr[n - 1].4) {
            ks
        } else {
            ks.push(hr[n - 1].4)
        }
    }
}

/// The latest timestamps of the groups, as keys.
pub open spec fn group_times(hr: Seq<HistoryRow>, keys: Seq<Seq<char>>) -> Seq<u128> {
    keys.map_values(|k: Seq<char>| time_key(group_of(hr, k, hr.len()).1))
}

proof fn lemma_group_keys(hr: Seq<HistoryRow>, n: nat)
    requires
        n <= hr.len(),
    ensures
        forall|a: int, b: int| 0 <= a < b < group_keys(hr, n).len() ==> group_keys(hr, n)[a] != group_keys(hr, n)[b],
        forall|k: Seq<char>| !group_keys(hr, n).contains(k) ==> #[trigger] group_of(hr, k, n).0 == 0,
        forall|a: int| 0 <= a < group_keys(hr, n).len() ==> #[trigger] group_of(hr, group_keys(hr, n)[a], n).0 > 0,
    decreases n,
{
    if n > 0 {
        lemma_group_keys(hr, (n - 1) as nat);
        let ks = group_keys(hr, (n - 1) as nat);
        let key = hr[n - 1].4;
        let ks2 = group_keys(hr, n);
        assert forall|k: Seq<char>| k != key implies #[trigger] group_of(hr, k, n) == group_of(hr, k, (n - 1) as nat) by {}
        assert forall|k: Seq<char>| k == key implies #[trigger] group_of(hr, k, n).0 == group_of(hr, k, (n - 1) as nat).0 + 1 by {}
        if !ks.contains(key) {
            assert(ks2 == ks.push(key));
            assert forall|a: int, b: int| 0 <= a < b < ks2.len() implies ks2[a] != ks2[b] by {
                if b == ks.len() {
                    assert(ks2[a] == ks[a]);
                    assert(ks.contains(ks2[a]));
                } else {
                    assert(ks2[a] == ks[a] && ks2[b] == ks[b]);
                }
            }
            assert forall|k: Seq<char>| !ks2.contains(k) implies #[trigger] group_of(hr, k, n).0 == 0 by {
                if k == key {
                    assert(ks2[ks.len() as int] == key);
                }
                if ks.contains(k) {
                    let a = choose|a: int| 0 <= a < ks.len() && ks[a] == k;
                    assert(ks2[a] == k);
                }
                assert(group_of(hr, k, (n - 1) as nat).0 == 0);
            }
            assert forall|a: int| 0 <= a < ks2.len() implies #[trigger] group_of(hr, ks2[a], n).0 > 0 by {
                if a < ks.len() {
                    assert(ks2[a] == ks[a]);
                    assert(group_of(hr, ks[a], (n - 1) as nat).0 > 0);
                    if ks[a] != key {
                        assert(group_of(hr, ks[a], n) == group_of(hr, ks[a], (n - 1) as nat));
                    }
                } else {
                    assert(ks2[a] == key);
                }
            }
        } else {
            assert(ks2 == ks);
            assert forall|k: Seq<char>| !ks2.contains(k) implies #[trigger] group_of(hr, k, n).0 == 0 by {
                assert(k != key);
                assert(group_of(hr, k, (n - 1) as nat).0 == 0);
            }
            assert forall|a: int| 0 <= a < ks2.len() implies #[trigger] group_of(hr, ks2[a], n).0 > 0 by {
                assert(group_of(hr, ks[a], (n - 1) as nat).0 > 0);
                if ks[a] != key {
                    assert(group_of(hr, ks[a], n) == group_of(hr, ks[a], (n - 1) as nat));
                }
            }
        }
    }
}

fn find_group(groups: &Vec<GroupHit>, key: &String) -> (r: Option<usize>)
    ensures
        match r {
            Some(j) => j < groups@.len() && groups@[j as int].key@ == key@,
            None => forall|q: int| 0 <= q < groups@.len() ==> #[trigger] groups@[q].key@ != key@,
        },
{
    let mut j: usize = 0;
    while j < groups.len()
        invariant
            j <= groups@.len(),
            forall|q: int| 0 <= q < j ==> #[trigger] groups@[q].key@ != key@,
        decreases groups@.len() - j,
    {
        if groups[j].key == *key {
            return Some(j);
        }
        j += 1;
    }
    None
}

/// One group of hit rows while they are collected.
struct GroupHit {
    command: String,
    timestamp: i64,
    frequency: u64,
    key: String,
}

impl HistoryStore {
    /// The groups of the rows at `hits`, by grouping key, in order of first
    /// appearance.
    #[verifier::spinoff_prover]
    #[verifier::rlimit(60)]
    fn group_hits(&self, hits: &Vec<usize>) -> (r: Vec<GroupHit>)
        requires
            forall|a: int| 0 <= a < hits@.len() ==> #[trigger] hits@[a] < self@.len(),
        ensures
            ({
                let hr = rows_at(self@, hits@.map_values(|p: usize| p as int));
                let ks = group_keys(hr, hr.len());
                &&& r@.len() == ks.len()
                &&& forall|j: int| 0 <= j < r@.len() ==> {
                    let g = group_of(hr, ks[j], hr.len());
                    &&& #[trigger] r@[j].key@ == ks[j]
                    &&& r@[j].frequency == g.0
                    &&& r@[j].timestamp == g.1
                    &&& r@[j].command@ == g.2
                }
            }),
    {
        let ghost hr = rows_at(self@, hits@.map_values(|p: usize| p as int));
        let mut groups: Vec<GroupHit> = Vec::new();
        let mut i: usize = 0;
        while i < hits.len()
            invariant
                hr == rows_at(self@, hits@.map_values(|p: usize| p as int)),
                hr.len() == hits@.len(),
                self@.len() == self.entries@.len(),
                forall|a: int| 0 <= a < hits@.len() ==> #[trigger] hits@[a] < self@.len(),
                i <= hits@.len(),
                groups@.len() == group_keys(hr, i as nat).len(),
                forall|j: int| 0 <= j < groups@.len() ==> {
                    let g = group_of(hr, group_keys(hr, i as nat)[j], i as nat);
                    &&& #[trigger] groups@[j].key@ == group_keys(hr, i as nat)[j]
                    &&& groups@[j].frequency == g.0
                    &&& groups@[j].timestamp == g.1
                    &&& groups@[j].command@ == g.2
                    &&& g.0 <= i
                },
            decreases hits@.len() - i,
        {
            proof {
                lemma_group_keys(hr, i as nat);
            }
            let p = hits[i];
            assert(self@[p as int] == self.entries@[p as int].row());
            assert(hr[i as int] == self@[p as int]);
            let e = &self.entries[p];
            let ghost ks = group_keys(hr, i as nat);
            let ghost r = hr[i as int];
            let ghost old_groups = groups@;
            match find_group(&groups, &e.normalized) {
                Some(j) => {
                    let newer = e.timestamp > groups[j].timestamp;
                    let command = if newer { e.command.clone() } else { groups[j].command.clone() };
                    let timestamp = if newer { e.timestamp } else { groups[j].timestamp };
                    let frequency = groups[j].frequency + 1;
                    let key = groups[j].key.clone();
                    groups.set(j, GroupHit { command, timestamp, frequency, key });
                    proof {
                        assert(ks[j as int] == r.4);
                        assert(ks.contains(r.4));
                        assert(group_keys(hr, (i + 1) as nat) == ks);
                        assert forall|q: int| 0 <= q < groups@.len() implies {
                            let g = group_of(hr, group_keys(hr, (i + 1) as nat)[q], (i + 1) as nat);
                            &&& #[trigger] groups@[q].key@ == group_keys(hr, (i + 1) as nat)[q]
                            &&& groups@[q].frequency == g.0
                            &&& groups@[q].timestamp == g.1
                            &&& groups@[q].command@ == g.2
                            &&& g.0 <= i + 1
                        } by {
                            assert(old_groups[q].key@ == ks[q]);
                            if q != j as int {
                                assert(groups@[q] == old_groups[q]);
                                assert(ks[q] != ks[j as int]);
                                assert(group_of(hr, ks[q], (i + 1) as nat) == group_of(hr, ks[q], i as nat));
                            } else {
                                assert(group_of(hr, ks[q], i as nat).0 > 0);
                                assert(e.row() == r);
                            }
                        }
                    }
                },
                None => {
                    let ghost n0 = groups@.len();
                    groups.push(GroupHit {
                        command: e.command.clone(),
                        timestamp: e.timestamp,
                        frequency: 1,
                        key: e.normalized.clone(),
                    });
                    proof {
                        assert(!ks.contains(r.4)) by {
                            if ks.contains(r.4) {
                                let q = choose|q: int| 0 <= q < ks.len() && ks[q] == r.4;
                                assert(old_groups[q].key@ == ks[q]);
                            }
                        }
                        assert(group_of(hr, r.4, i as nat).0 == 0);
                        assert(group_keys(hr, (i + 1) as nat) == ks.push(r.4));
                        assert forall|q: int| 0 <= q < groups@.len() implies {
                            let g = group_of(hr, group_keys(hr, (i + 1) as nat)[q], (i + 1) as nat);
                            &&& #[trigger] groups@[q].key@ == group_keys(hr, (i + 1) as nat)[q]
                            &&& groups@[q].frequency == g.0
                            &&& groups@[q].timestamp == g.1
                            &&& groups@[q].command@ == g.2
                            &&& g.0 <= i + 1
                        } by {
                            if q < n0 {
                                assert(groups@[q] == old_groups[q]);
                                assert(old_groups[q].key@ == ks[q]);
                                assert(ks.contains(ks[q]));
                                assert(ks[q] != r.4);
                                assert(group_keys(hr, (i + 1) as nat)[q] == ks[q]);
                                assert(group_of(hr, ks[q], (i + 1) as nat) == group_of(hr, ks[q], i as nat));
                            } else {
                                assert(group_of(hr, r.4, (i + 1) as nat) == (1nat, r.3, r.0));
                                assert(group_keys(hr, (i + 1) as nat)[q] == r.4);
                                assert(groups@[q].key@ == e.normalized@);
                                assert(e.row() == r);
                            }
                        }
                    }
                },
            }
            i += 1;
        }
        groups
    }
}

/// `r` is what a scored search of `rows` for `query` at `now` returns: the
/// groups, by grouping key, of the rows that some term hits; the `limit`
/// groups last run most recently; each scored at `now`, highest combined
/// score first.
pub open spec fn scored_search(rows: Seq<HistoryRow>, query: Seq<char>, limit: usize, now: i64, r: Seq<CommandScore>) -> bool {
    let hr = rows_at(rows, hit_positions(rows, query_terms_of(query), rows.len()));
    let ks = group_keys(hr, hr.len());
    let times = group_times(hr, ks);
    &&& r.len() == if limit < ks.len() { limit as int } else { ks.len() as int }
    &&& exists|top: Seq<usize>, order: Seq<usize>|
        #![trigger distinct_positions(top, ks.len() as int), distinct_positions(order, r.len() as int)]
        top.len() == r.len() && distinct_positions(top, ks.len() as int)
            && descending(times, top) && best_taken(times, top)
            && order.len() == r.len() && distinct_positions(order, r.len() as int)
            && forall|a: int| 0 <= a < r.len() ==> {
                let g = group_of(hr, ks[top[order[a] as int] as int], hr.len());
                &&& #[trigger] r[a].command@ == g.2
                &&& r[a].timestamp == g.1
                &&& r[a].frequency == g.0
                &&& r[a].scored_at(now)
            }
    &&& forall|a: int, b: int| 0 <= a < b < r.len() ==> r[a].combined_score >= r[b].combined_score
}

impl HistoryStore {
    /// The scored search at `now`.
    pub fn search_with_scores_at(&self, query: &str, limit: usize, now: i64) -> (r: Vec<CommandScore>)
        ensures
            scored_search(self@, query@, limit, now, r@),
    {
        let terms = query_terms(query);
        let hits = self.hits(&terms);
        let ghost spec_hits = hit_positions(self@, query_terms_of(query@), self@.len());
        proof {
            lemma_hit_positions_in_range(self@, query_terms_of(query@), self@.len());
            assert(hits@.map_values(|p: usize| p as int) =~= spec_hits);
            assert forall|a: int| 0 <= a < hits@.len() implies #[trigger] hits@[a] < self@.len() by {
                assert(hits@[a] as int == spec_hits[a]);
            }
        }
        let groups = self.group_hits(&hits);
        let ghost hr = rows_at(self@, spec_hits);
        let ghost ks = group_keys(hr, hr.len());
        let mut keys: Vec<u128> = Vec::new();
        let mut i: usize = 0;
        while i < groups.len()
            invariant
                i <= groups@.len(),
                groups@.len() == ks.len(),
                keys@ == group_times(hr, ks).subrange(0, i as int),
                forall|j: int| 0 <= j < groups@.len() ==> {
                    let g = group_of(hr, ks[j], hr.len());
                    &&& #[trigger] groups@[j].key@ == ks[j]
                    &&& groups@[j].frequency == g.0
                    &&& groups@[j].timestamp == g.1
                    &&& groups@[j].command@ == g.2
                },
            decreases groups@.len() - i,
        {
            assert(groups@[i as int].key@ == ks[i as int]);
            keys.push((groups[i].timestamp as i128 + 0x8000_0000_0000_0000i128) as u128);
            assert(keys@ =~= group_times(hr, ks).subrange(0, i + 1));
            i += 1;
        }
        assert(keys@ =~= group_times(hr, ks));
        let top = top_positions(&keys, limit);
        let mut chosen: Vec<(String, i64, u64)> = Vec::new();
        let mut a: usize = 0;
        while a < top.len()
            invariant
                a <= top@.len(),
                chosen@.len() == a,
                groups@.len() == ks.len(),
                keys@.len() == ks.len(),
                distinct_positions(top@, keys@.len() as int),
                forall|j: int| 0 <= j < groups@.len() ==> {
                    let g = group_of(hr, ks[j], hr.len());
                    &&& #[trigger] groups@[j].key@ == ks[j]
                    &&& groups@[j].frequency == g.0
                    &&& groups@[j].timestamp == g.1
                    &&& groups@[j].command@ == g.2
                },
                forall|b: int| 0 <= b < a ==> {
                    let g = group_of(hr, ks[top@[b] as int], hr.len());
                    &&& (#[trigger] chosen@[b]).0@ == g.2
                    &&& chosen@[b].1 == g.1
                    &&& chosen@[b].2 == g.0
                },
            decreases top@.len() - a,
        {
            let j = top[a];
            assert(j < groups@.len());
            assert(groups@[j as int].key@ == ks[j as int]);
            let g = &groups[j];
            chosen.push((g.command.clone(), g.timestamp, g.frequency));
            a += 1;
        }
        let ranked = rank_groups(chosen, now);
        proof {
            let ghost ch = chosen@;
            let order = choose|order: Seq<usize>|
                #![trigger distinct_positions(order, ch.len() as int)]
                order.len() == ch.len() && distinct_positions(order, ch.len() as int)
                    && forall|a: int| 0 <= a < order.len() ==> {
                        let g = #[trigger] ch[order[a] as int];
                        &&& ranked@[a].command@ == g.0@
                        &&& ranked@[a].timestamp == g.1
                        &&& ranked@[a].frequency == g.2
                        &&& ranked@[a].scored_at(now)
                    };
            assert forall|x: int| 0 <= x < ranked@.len() implies {
                let g = group_of(hr, ks[top@[order[x] as int] as int], hr.len());
                &&& #[trigger] ranked@[x].command@ == g.2
                &&& ranked@[x].timestamp == g.1
                &&& ranked@[x].frequency == g.0
                &&& ranked@[x].scored_at(now)
            } by {
                let c = ch[order[x] as int];
            }
            assert(distinct_positions(top@, ks.len() as int));
            assert(distinct_positions(order, ranked@.len() as int));
        }
        ranked
    }

    /// Groups, by grouping key, of the rows that some term of `query` hits,
    /// the `limit` last run most recently, scored now, highest first.
    pub fn search_with_scores(&self, query: &str, limit: usize) -> (r: Vec<CommandScore>)
        ensures
            exists|now: i64| scored_search(self@, query@, limit, now, r@),
    {
        let now = unix_now();
        self.search_with_scores_at(query, limit, now)
    }
}

} // verus!
