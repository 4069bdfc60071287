//! The community knowledge base: fixes keyed by (command, error pattern),
//! with success and failure counters that feedback adds to.
use vstd::prelude::*;
use crate::rank::{top_positions, distinct_positions, descending, best_taken};
use crate::text::{has_word, word_in, 
    lower_of, has_infix, is_word_char, views, tokens, Cut, chars_of, contains_text, lowercase,
    split_text,
};

verus! {

/// Relies on `std::time::SystemTime::now`: seconds since the epoch, whatever
/// the clock says.
#[verifier::external_body]
pub fn unix_now() -> (r: i64) {
    std::time::SystemTime::now()
        .duration_since(std::time::UNIX_EPOCH)
        .map(|d| d.as_secs() as i64)
        .unwrap_or(0)
}

/// Success rate in hundredths of a percent: `success / (success + fail)`,
/// and one half for an entry with no outcome yet.
pub open spec fn rate_of(success: int, fail: int) -> int {
    if success + fail == 0 {
        5_000
    } else {
        success * 10_000 / (success + fail)
    }
}

/// One fix of the knowledge base.
pub struct BrainEntry {
    pub id: Option<i64>,
    pub command: String,
    pub error_pattern: Option<String>,
    pub context_tags: Option<String>,
    pub success_count: u64,
    pub fail_count: u64,
    pub provenance: Option<String>,
    pub created_at: Option<i64>,
}

pub open spec fn opt_view(o: Option<String>) -> Option<Seq<char>> {
    match o {
        Some(s) => Some(s@),
        None => None,
    }
}

/// A stored fix's plain contents: command, error pattern, tags, successes,
/// failures, provenance and creation time.
pub type BrainRow = (Seq<char>, Option<Seq<char>>, Option<Seq<char>>, u64, u64, Option<Seq<char>>, i64);

impl BrainEntry {
    /// Success rate in hundredths of a percent; one half with no outcome yet.
    pub fn success_rate(&self) -> (r: u64)
        ensures
            r == rate_of(self.success_count as int, self.fail_count as int),
    {
        rate(self.success_count, self.fail_count)
    }
}

/// Success rate in hundredths of a percent.
pub fn rate(success: u64, fail: u64) -> (r: u64)
    ensures
        r == rate_of(success as int, fail as int),
        r <= 10_000,
{
    let total: u128 = success as u128 + fail as u128;
    if total == 0 {
        5_000
    } else {
        let s = success as u128;
        assert((s as int) * 10_000 / (total as int) <= 10_000) by (nonlinear_arith)
            requires s as int <= total as int, total as int > 0;
        (s * 10_000 / total) as u64
    }
}

/// `a` and `b` are fixes for the same (command, error pattern).
pub open spec fn same_fix(a: BrainRow, b: BrainRow) -> bool {
    a.0 == b.0 && a.1 == b.1
}

/// No two rows are fixes for the same (command, error pattern).
pub open spec fn unique_fixes(rows: Seq<BrainRow>) -> bool {
    forall|i: int, j: int| 0 <= i < j < rows.len() ==> !same_fix(#[trigger] rows[i], #[trigger] rows[j])
}

pub open spec fn holds_fix(rows: Seq<BrainRow>, e: BrainRow) -> bool {
    exists|i: int| 0 <= i < rows.len() && same_fix(#[trigger] rows[i], e)
}

pub open spec fn fix_index(rows: Seq<BrainRow>, e: BrainRow) -> int {
    choose|i: int| 0 <= i < rows.len() && same_fix(#[trigger] rows[i], e)
}

/// Adding `e`'s counters to the row stored for the same fix overflows.
pub open spec fn overflows(rows: Seq<BrainRow>, e: BrainRow) -> bool {
    holds_fix(rows, e) && ({
        let old = rows[fix_index(rows, e)];
        old.3 + e.3 > u64::MAX || old.4 + e.4 > u64::MAX
    })
}

/// The table after an upsert of `e`: its counters are added to the row for
/// the same fix, or it becomes a new row.
pub open spec fn upserted(rows: Seq<BrainRow>, e: BrainRow) -> Seq<BrainRow> {
    if holds_fix(rows, e) {
        let i = fix_index(rows, e);
        let old = rows[i];
        rows.update(i, (old.0, old.1, old.2, (old.3 + e.3) as u64, (old.4 + e.4) as u64, old.5, old.6))
    } else {
        rows.push(e)
    }
}

/// Upserting two rows for a fix that the table lacks leaves one row for it,
/// whose counters are the sums: the table grows by one.
pub proof fn law_repeated_upsert_merges(rows: Seq<BrainRow>, a: BrainRow, b: BrainRow)
    requires
        unique_fixes(rows),
        !holds_fix(rows, a),
        same_fix(a, b),
        a.3 + b.3 <= u64::MAX,
        a.4 + b.4 <= u64::MAX,
    ensures
        upserted(upserted(rows, a), b).len() == rows.len() + 1,
        upserted(upserted(rows, a), b)[rows.len() as int].3 == a.3 + b.3,
        upserted(upserted(rows, a), b)[rows.len() as int].4 == a.4 + b.4,
        unique_fixes(upserted(upserted(rows, a), b)),
{
    let once = rows.push(a);
    assert(same_fix(once[rows.len() as int], b));
    assert(holds_fix(once, b));
    let i = fix_index(once, b);
    assert(i == rows.len()) by {
        if i < rows.len() {
            assert(same_fix(rows[i], a));
        }
    }
    lemma_upsert_keeps_unique(rows, a);
    lemma_upsert_keeps_unique(once, b);
}

proof fn lemma_upsert_keeps_unique(rows: Seq<BrainRow>, e: BrainRow)
    requires
        unique_fixes(rows),
    ensures
        unique_fixes(upserted(rows, e)),
        upserted(rows, e).len() == if holds_fix(rows, e) { rows.len() } else { rows.len() + 1 },
{
    let next = upserted(rows, e);
    if holds_fix(rows, e) {
        let k = fix_index(rows, e);
        assert forall|i: int, j: int| 0 <= i < j < next.len() implies !same_fix(#[trigger] next[i], #[trigger] next[j]) by {
            assert(same_fix(next[i], rows[i]));
            assert(same_fix(next[j], rows[j]));
        }
    } else {
        assert forall|i: int, j: int| 0 <= i < j < next.len() implies !same_fix(#[trigger] next[i], #[trigger] next[j]) by {
            if j == rows.len() {
                assert(next[i] == rows[i]);
            } else {
                assert(next[i] == rows[i]);
                assert(next[j] == rows[j]);
            }
        }
    }
}

/// Why a write to the knowledge base failed.
#[derive(Clone, Copy, PartialEq, Eq, Structural, Debug)]
pub enum BrainError {
    /// A counter would pass the largest value it can hold.
    CounterOverflow,
}

/// The knowledge base table.
pub struct CommunityBrain {
    rows: Vec<BrainEntry>,
    next_id: i64,
}

impl BrainEntry {
    pub open spec fn row(&self, now: i64) -> BrainRow {
        (
            self.command@,
            opt_view(self.error_pattern),
            opt_view(self.context_tags),
            self.success_count,
            self.fail_count,
            opt_view(self.provenance),
            match self.created_at {
                Some(t) => t,
                None => now,
            },
        )
    }

    pub open spec fn stored_row(&self) -> BrainRow {
        self.row(0)
    }
}

impl View for CommunityBrain {
    type V = Seq<BrainRow>;

    closed spec fn view(&self) -> Seq<BrainRow> {
        self.rows@.map_values(|e: BrainEntry| e.stored_row())
    }
}

fn same_opt(a: &Option<String>, b: &Option<String>) -> (r: bool)
    ensures
        r == (opt_view(*a) == opt_view(*b)),
{
    match (a, b) {
        (Some(x), Some(y)) => *x == *y,
        (None, None) => true,
        _ => false,
    }
}

fn clone_opt(a: &Option<String>) -> (r: Option<String>)
    ensures
        opt_view(r) == opt_view(*a),
{
    match a {
        Some(x) => Some(x.clone()),
        None => None,
    }
}

impl CommunityBrain {
    pub closed spec fn wf(&self) -> bool {
        unique_fixes(self@)
    }

    /// An empty table.
    pub fn new() -> (r: Self)
        ensures
            r@ == Seq::<BrainRow>::empty(),
            r.wf(),
    {
        let r = CommunityBrain { rows: Vec::new(), next_id: 1 };
        assert(r@ =~= Seq::<BrainRow>::empty());
        r
    }

    /// Number of stored fixes.
    pub fn count(&self) -> (r: usize)
        ensures
            r == self@.len(),
    {
        self.rows.len()
    }

    /// The stored fix at `i`.
    pub fn entry(&self, i: usize) -> (r: &BrainEntry)
        requires
            i < self@.len(),
        ensures
            r.stored_row() == self@[i as int],
    {
        &self.rows[i]
    }

    /// Position of the row for the fix (command, pattern), if stored.
    fn find(&self, command: &String, pattern: &Option<String>) -> (r: Option<usize>)
        requires
            self.wf(),
        ensures
            match r {
                Some(i) => i < self@.len() && self@[i as int].0 == command@
                    && self@[i as int].1 == opt_view(*pattern),
                None => forall|i: int| 0 <= i < self@.len() ==> !(#[trigger] self@[i].0 == command@
                    && self@[i].1 == opt_view(*pattern)),
            },
    {
        let mut i: usize = 0;
        while i < self.rows.len()
            invariant
                i <= self@.len(),
                self@.len() == self.rows@.len(),
                forall|k: int| 0 <= k < i ==> !(#[trigger] self@[k].0 == command@ && self@[k].1 == opt_view(*pattern)),
            decreases self@.len() - i,
        {
            assert(self@[i as int] == self.rows@[i as int].stored_row());
            if self.rows[i].command == *command && same_opt(&self.rows[i].error_pattern, pattern) {
                return Some(i);
            }
            i += 1;
        }
        None
    }

    /// Upserts `entry` keyed on (command, error pattern): on a stored fix its
    /// counters are added; otherwise it becomes a new row, created now unless
    /// it says when. Fails, changing nothing, where a sum would overflow.
    pub fn insert(&mut self, entry: BrainEntry) -> (r: Result<(), BrainError>)
        requires
            old(self).wf(),
        ensures
            final(self).wf(),
            r is Err <==> overflows(old(self)@, entry.stored_row()),
            r is Err ==> final(self)@ == old(self)@,
            r is Ok ==> exists|now: i64| final(self)@ == upserted(old(self)@, #[trigger] entry.row(now))
                && (entry.created_at is Some ==> now == entry.created_at->Some_0),
    {
        let ghost rows = self@;
        let found = self.find(&entry.command, &entry.error_pattern);
        match found {
            Some(i) => {
                let ghost e0 = entry.stored_row();
                proof {
                    assert(same_fix(rows[i as int], e0));
                    let k = fix_index(rows, e0);
                    assert(k == i as int) by {
                        if k != i as int {
                            assert(same_fix(rows[k], e0));
                            if k < i as int {
                                assert(!same_fix(rows[k], rows[i as int]));
                            } else {
                                assert(!same_fix(rows[i as int], rows[k]));
                            }
                        }
                    }
                }
                assert(self@[i as int] == self.rows@[i as int].stored_row());
                let s0 = self.rows[i].success_count;
                let f0 = self.rows[i].fail_count;
                if s0 > u64::MAX - entry.success_count || f0 > u64::MAX - entry.fail_count {
                    return Err(BrainError::CounterOverflow);
                }
                let old_entry = &self.rows[i];
                let merged = BrainEntry {
                    id: old_entry.id,
                    command: old_entry.command.clone(),
                    error_pattern: clone_opt(&old_entry.error_pattern),
                    context_tags: clone_opt(&old_entry.context_tags),
                    success_count: s0 + entry.success_count,
                    fail_count: f0 + entry.fail_count,
                    provenance: clone_opt(&old_entry.provenance),
                    created_at: old_entry.created_at,
                };
                self.rows.set(i, merged);
                proof {
                    let w: i64 = match entry.created_at {
                        Some(t) => t,
                        None => 0,
                    };
                    assert(entry.row(w) == e0);
                    assert(self@ =~= upserted(rows, entry.row(w)));
                    lemma_upsert_keeps_unique(rows, e0);
                }
                Ok(())
            },
            None => {
                let now = match entry.created_at {
                    Some(t) => t,
                    None => unix_now(),
                };
                let id = self.next_id;
                if self.next_id < i64::MAX {
                    self.next_id = self.next_id + 1;
                }
                let stored = BrainEntry {
                    id: Some(id),
                    command: entry.command,
                    error_pattern: entry.error_pattern,
                    context_tags: entry.context_tags,
                    success_count: entry.success_count,
                    fail_count: entry.fail_count,
                    provenance: entry.provenance,
                    created_at: Some(now),
                };
                let ghost e = stored.stored_row();
                self.rows.push(stored);
                proof {
                    assert(!holds_fix(rows, e));
                    assert(self@ =~= rows.push(e));
                    assert(e == entry.row(now));
                    assert(self@ == upserted(rows, entry.row(now)));
                    lemma_upsert_keeps_unique(rows, e);
                }
                Ok(())
            },
        }
    }
}

pub open spec fn str_opt_view(o: Option<&str>) -> Option<Seq<char>> {
    match o {
        Some(t) => Some(t@),
        None => None,
    }
}

/// The row that feedback on a fix that worked adds.
pub open spec fn success_row(command: Seq<char>, pattern: Seq<char>, tags: Option<Seq<char>>, now: i64) -> BrainRow {
    (command, Some(pattern), tags, 1, 0, Some("user"@), now)
}

/// The table after feedback that a fix failed: the stored row's failure
/// counter goes up by one; a fix not stored is left alone.
pub open spec fn failure_logged(rows: Seq<BrainRow>, command: Seq<char>, pattern: Seq<char>) -> Seq<BrainRow> {
    let probe: BrainRow = (command, Some(pattern), None, 0, 1, None, 0);
    if holds_fix(rows, probe) {
        upserted(rows, probe)
    } else {
        rows
    }
}

/// The table after an upsert that is dropped where it would overflow.
pub open spec fn upsert_or_keep(rows: Seq<BrainRow>, e: BrainRow) -> Seq<BrainRow> {
    if overflows(rows, e) {
        rows
    } else {
        upserted(rows, e)
    }
}

/// The table after upserting the first `n` of `fixes` as seed rows.
pub open spec fn seeded(rows: Seq<BrainRow>, fixes: Seq<(&str, &str, &str, u64, u64)>, n: nat) -> Seq<BrainRow>
    decreases n,
{
    if n == 0 || n > fixes.len() {
        rows
    } else {
        let f = fixes[n - 1];
        upsert_or_keep(seeded(rows, fixes, (n - 1) as nat), seed_row(f))
    }
}

/// The creation time of every seed row.
pub const SEED_TIME: i64 = 1_700_000_000;

pub open spec fn seed_row(f: (&str, &str, &str, u64, u64)) -> BrainRow {
    (f.0@, Some(f.1@), Some(f.2@), f.3, f.4, Some("seed"@), SEED_TIME)
}

/// The curated fixes a fresh knowledge base starts with: command, a
/// representative error, tags, successes and failures.
pub open spec fn seed_table() -> Seq<(&'static str, &'static str, &'static str, u64, u64)> {
    seq![
        ("npm install", "npm ERR! code ENOENT", "nodejs,javascript", 50, 5),
        ("npm install", "module not found", "nodejs,javascript", 45, 4),
        ("npm cache clean --force && npm install", "npm ERR! code EINTEGRITY", "nodejs,javascript", 38, 3),
        ("rm -rf node_modules && npm install", "npm ERR! peer dep missing", "nodejs,javascript", 42, 6),
        ("npm audit fix", "npm WARN deprecated", "nodejs,javascript", 30, 2),
        ("npm install --legacy-peer-deps", "ERESOLVE unable to resolve dependency tree", "nodejs,javascript", 55, 8),
        ("npx create-react-app . --template typescript", "create-react-app command not found", "nodejs,react", 25, 2),
        ("pip install -r requirements.txt", "ModuleNotFoundError: No module named", "python", 60, 5),
        ("pip install numpy", "no module named numpy", "python", 35, 3),
        ("python -m venv venv && source venv/bin/activate", "externally-managed-environment", "python", 28, 2),
        ("pip install --upgrade pip", "pip is configured with locations that require TLS", "python", 22, 1),
        ("pip3 install", "command not found: pip", "python", 40, 4),
        ("git config --global http.sslVerify false", "SSL certificate problem", "git", 30, 5),
        ("git pull --rebase origin main", "Your local changes would be overwritten", "git", 35, 4),
        ("git stash && git pull && git stash pop", "Please commit your changes or stash them", "git", 45, 3),
        ("git remote set-url origin git@github.com:user/repo.git", "could not resolve host: github.com", "git", 25, 2),
        ("git checkout -b main && git branch -D master", "fatal: 'master' is not a git repository", "git", 20, 2),
        ("git config --global init.defaultBranch main", "warning: the 'master' branch", "git", 18, 1),
        ("cargo clean && cargo build", "could not compile", "rust", 40, 5),
        ("cargo update", "failed to select a version", "rust", 35, 3),
        ("rustup update", "error: linker 'cc' not found", "rust", 28, 2),
        ("cargo build --release", "memory allocation failed", "rust", 22, 4),
        ("docker system prune -a", "no space left on device", "docker", 50, 4),
        ("docker-compose down && docker-compose up -d", "port is already allocated", "docker", 45, 5),
        ("sudo systemctl start docker", "Cannot connect to the Docker daemon", "docker", 55, 3),
        ("docker pull", "TLS handshake timeout", "docker", 25, 3),
        ("sudo chown -R $USER:$USER .", "EACCES: permission denied", "linux,macos", 60, 8),
        ("chmod +x", "Permission denied", "linux,macos", 55, 5),
        ("sudo", "Operation not permitted", "linux,macos", 50, 6),
        ("sudo systemctl start postgresql", "connection refused", "postgresql", 35, 3),
        ("mysql -u root -p", "Access denied for user 'root'", "mysql", 30, 4),
        ("redis-server", "Address already in use", "redis", 28, 2),
        ("make clean && make", "make: *** No rule to make target", "c,cpp", 32, 4),
        ("cmake -B build && cmake --build build", "CMake Error", "cmake", 28, 3),
        ("curl -k", "SSL certificate verify failed", "api,http", 35, 4),
        ("npx tsc --init", "Cannot find module 'typescript'", "typescript", 40, 3),
        ("npm install @types/node --save-dev", "Could not find a declaration file", "typescript", 45, 4),
    ]
}

fn seed_fixes() -> (r: Vec<(&'static str, &'static str, &'static str, u64, u64)>)
    ensures
        r@ == seed_table(),
{
    let r = vec![
        ("npm install", "npm ERR! code ENOENT", "nodejs,javascript", 50, 5),
        ("npm install", "module not found", "nodejs,javascript", 45, 4),
        ("npm cache clean --force && npm install", "npm ERR! code EINTEGRITY", "nodejs,javascript", 38, 3),
        ("rm -rf node_modules && npm install", "npm ERR! peer dep missing", "nodejs,javascript", 42, 6),
        ("npm audit fix", "npm WARN deprecated", "nodejs,javascript", 30, 2),
        ("npm install --legacy-peer-deps", "ERESOLVE unable to resolve dependency tree", "nodejs,javascript", 55, 8),
        ("npx create-react-app . --template typescript", "create-react-app command not found", "nodejs,react", 25, 2),
        ("pip install -r requirements.txt", "ModuleNotFoundError: No module named", "python", 60, 5),
        ("pip install numpy", "no module named numpy", "python", 35, 3),
        ("python -m venv venv && source venv/bin/activate", "externally-managed-environment", "python", 28, 2),
        ("pip install --upgrade pip", "pip is configured with locations that require TLS", "python", 22, 1),
        ("pip3 install", "command not found: pip", "python", 40, 4),
        ("git config --global http.sslVerify false", "SSL certificate problem", "git", 30, 5),
        ("git pull --rebase origin main", "Your local changes would be overwritten", "git", 35, 4),
        ("git stash && git pull && git stash pop", "Please commit your changes or stash them", "git", 45, 3),
        ("git remote set-url origin git@github.com:user/repo.git", "could not resolve host: github.com", "git", 25, 2),
        ("git checkout -b main && git branch -D master", "fatal: 'master' is not a git repository", "git", 20, 2),
        ("git config --global init.defaultBranch main", "warning: the 'master' branch", "git", 18, 1),
        ("cargo clean && cargo build", "could not compile", "rust", 40, 5),
        ("cargo update", "failed to select a version", "rust", 35, 3),
        ("rustup update", "error: linker 'cc' not found", "rust", 28, 2),
        ("cargo build --release", "memory allocation failed", "rust", 22, 4),
        ("docker system prune -a", "no space left on device", "docker", 50, 4),
        ("docker-compose down && docker-compose up -d", "port is already allocated", "docker", 45, 5),
        ("sudo systemctl start docker", "Cannot connect to the Docker daemon", "docker", 55, 3),
        ("docker pull", "TLS handshake timeout", "docker", 25, 3),
        ("sudo chown -R $USER:$USER .", "EACCES: permission denied", "linux,macos", 60, 8),
        ("chmod +x", "Permission denied", "linux,macos", 55, 5),
        ("sudo", "Operation not permitted", "linux,macos", 50, 6),
        ("sudo systemctl start postgresql", "connection refused", "postgresql", 35, 3),
        ("mysql -u root -p", "Access denied for user 'root'", "mysql", 30, 4),
        ("redis-server", "Address already in use", "redis", 28, 2),
        ("make clean && make", "make: *** No rule to make target", "c,cpp", 32, 4),
        ("cmake -B build && cmake --build build", "CMake Error", "cmake", 28, 3),
        ("curl -k", "SSL certificate verify failed", "api,http", 35, 4),
        ("npx tsc --init", "Cannot find module 'typescript'", "typescript", 40, 3),
        ("npm install @types/node --save-dev", "Could not find a declaration file", "typescript", 45, 4),
    ];
    assert(r@ =~= seed_table());
    r
}

/// Seeding a knowledge base that holds any fix changes nothing.
pub proof fn law_seeding_populated_is_noop(rows: Seq<BrainRow>)
    requires
        rows.len() > 0,
    ensures
        seeding(rows) == rows,
        seeding(rows).len() == rows.len(),
{
}

/// The table after seeding: the curated fixes where it is empty, else unchanged.
pub open spec fn seeding(rows: Seq<BrainRow>) -> Seq<BrainRow> {
    if rows.len() > 0 {
        rows
    } else {
        seeded(rows, seed_table(), seed_table().len())
    }
}

impl CommunityBrain {
    /// Records that `command` fixed the error `error_pattern`: an upsert of
    /// one success, no failure, provenance `user`, created now.
    pub fn log_success(&mut self, command: &str, error_pattern: &str, context_tags: Option<&str>) -> (r: Result<(), BrainError>)
        requires
            old(self).wf(),
        ensures
            final(self).wf(),
            r is Err <==> overflows(old(self)@, success_row(command@, error_pattern@, str_opt_view(context_tags), 0)),
            r is Err ==> final(self)@ == old(self)@,
            r is Ok ==> exists|now: i64| final(self)@ == upserted(old(self)@,
                #[trigger] success_row(command@, error_pattern@, str_opt_view(context_tags), now)),
    {
        let tags = match context_tags {
            Some(t) => Some(t.to_owned()),
            None => None,
        };
        let entry = BrainEntry {
            id: None,
            command: command.to_owned(),
            error_pattern: Some(error_pattern.to_owned()),
            context_tags: tags,
            success_count: 1,
            fail_count: 0,
            provenance: Some("user".to_owned()),
            created_at: None,
        };
        let ghost e = entry;
        let ghost old_rows = self@;
        let r = self.insert(entry);
        proof {
            let tags = str_opt_view(context_tags);
            assert(opt_view(e.context_tags) == tags);
            if r is Ok {
                let now = choose|now: i64| self@ == upserted(old_rows, #[trigger] e.row(now))
                    && (e.created_at is Some ==> now == e.created_at->Some_0);
                assert(e.row(now) == success_row(command@, error_pattern@, tags, now));
                assert(self@ == upserted(old_rows, success_row(command@, error_pattern@, tags, now)));
            }
            assert(e.row(0) == e.stored_row());
            assert(e.stored_row() == success_row(command@, error_pattern@, tags, 0));
        }
        r
    }

    /// Records that `command` did not fix `error_pattern`: the stored row's
    /// failure counter goes up by one; nothing happens where no row is stored.
    pub fn log_failure(&mut self, command: &str, error_pattern: &str) -> (r: Result<(), BrainError>)
        requires
            old(self).wf(),
        ensures
            final(self).wf(),
            r is Err <==> overflows(old(self)@, (command@, Some(error_pattern@), None, 0, 1, None, 0)),
            r is Err ==> final(self)@ == old(self)@,
            r is Ok ==> final(self)@ == failure_logged(old(self)@, command@, error_pattern@),
    {
        let c = command.to_owned();
        let p = Some(error_pattern.to_owned());
        let ghost probe: BrainRow = (command@, Some(error_pattern@), None, 0, 1, None, 0);
        match self.find(&c, &p) {
            None => {
                assert(!holds_fix(self@, probe));
                Ok(())
            },
            Some(_) => {
                let entry = BrainEntry {
                    id: None,
                    command: c,
                    error_pattern: p,
                    context_tags: None,
                    success_count: 0,
                    fail_count: 1,
                    provenance: None,
                    created_at: Some(0),
                };
                assert(entry.stored_row() == probe);
                let r = self.insert(entry);
                r
            },
        }
    }

    /// Fills an empty table with the curated fixes; a table that holds any
    /// fix is left as it is.
    pub fn seed_if_empty(&mut self)
        requires
            old(self).wf(),
        ensures
            final(self).wf(),
            final(self)@ == seeding(old(self)@),
    {
        if self.rows.len() > 0 {
            return;
        }
        let fixes = seed_fixes();
        let ghost start = self@;
        let mut i: usize = 0;
        while i < fixes.len()
            invariant
                fixes@ == seed_table(),
                i <= fixes@.len(),
                self.wf(),
                start.len() == 0,
                self@ == seeded(start, fixes@, i as nat),
            decreases fixes@.len() - i,
        {
            let f = fixes[i];
            let entry = BrainEntry {
                id: None,
                command: f.0.to_owned(),
                error_pattern: Some(f.1.to_owned()),
                context_tags: Some(f.2.to_owned()),
                success_count: f.3,
                fail_count: f.4,
                provenance: Some("seed".to_owned()),
                created_at: Some(SEED_TIME),
            };
            assert(entry.stored_row() == seed_row(f));
            assert(forall|now: i64| #[trigger] entry.row(now) == seed_row(f));
            let _ = self.insert(entry);
            i += 1;
        }
    }
}

/// A query token that the knowledge base searches for: longer than two
/// characters, all of them word characters.
pub open spec fn kb_term_ok(t: Seq<char>) -> bool {
    t.len() > 2 && forall|i: int| 0 <= i < t.len() ==> is_word_char(#[trigger] t[i])
}

/// The tokens of `ts` that are searched for, in order.
pub open spec fn kb_kept(ts: Seq<Seq<char>>) -> Seq<Seq<char>>
    decreases ts.len(),
{
    if ts.len() == 0 {
        Seq::empty()
    } else if kb_term_ok(ts.last()) {
        kb_kept(ts.drop_last()).push(ts.last())
    } else {
        kb_kept(ts.drop_last())
    }
}

/// The search terms of a knowledge-base query.
pub open spec fn kb_terms_of(query: Seq<char>) -> Seq<Seq<char>> {
    kb_kept(tokens(query, Cut::Whitespace))
}

pub open spec fn opt_hit(o: Option<Seq<char>>, term: Seq<char>) -> bool {
    o is Some && has_word(lower_of(o->Some_0), lower_of(term))
}

/// Some term is a word, ignoring case, of the row's command, error pattern or tags.
pub open spec fn fix_hit(row: BrainRow, terms: Seq<Seq<char>>) -> bool {
    exists|k: int| 0 <= k < terms.len() && (has_word(lower_of(row.0), #[trigger] lower_of(terms[k]))
        || opt_hit(row.1, terms[k]) || opt_hit(row.2, terms[k]))
}

pub open spec fn opt_word(o: Option<Seq<char>>, word: Seq<char>) -> bool {
    o is Some && has_word(o->Some_0, word)
}

/// Some lower-cased term is a word of the lower-cased command, error
/// pattern or tags.
pub open spec fn lowered_fix_hit(c: Seq<char>, p: Option<Seq<char>>, t: Option<Seq<char>>, lowered: Seq<Seq<char>>) -> bool {
    exists|k: int| 0 <= k < lowered.len() && (has_word(c, #[trigger] lowered[k]) || opt_word(p, lowered[k])
        || opt_word(t, lowered[k]))
}

/// Positions, among the first `n` rows, of those that some term hits.
pub open spec fn fix_hits(rows: Seq<BrainRow>, terms: Seq<Seq<char>>, n: nat) -> Seq<int>
    decreases n,
{
    if n == 0 || n > rows.len() {
        Seq::empty()
    } else if fix_hit(rows[n - 1], terms) {
        fix_hits(rows, terms, (n - 1) as nat).push(n - 1)
    } else {
        fix_hits(rows, terms, (n - 1) as nat)
    }
}

/// Candidates come most successful first, then newest first.
pub open spec fn rank_key(row: BrainRow) -> u128 {
    (row.3 as int * 0x1_0000_0000_0000_0000 + (row.6 as int + 0x8000_0000_0000_0000)) as u128
}

/// Some filter tag occurs in the row's tag string.
pub open spec fn tag_match(tags: Seq<char>, filter: Seq<Seq<char>>) -> bool {
    exists|k: int| 0 <= k < filter.len() && has_infix(tags, #[trigger] filter[k])
}

/// A fix's score: its success rate, raised by half where the context
/// matches (some filter tag occurs in its tags; a context boost applies once
/// and never stacks), then by a fifth where it has more than ten outcomes.
pub open spec fn fix_score_of(row: BrainRow, filter: Option<Seq<Seq<char>>>) -> int {
    let base = rate_of(row.3 as int, row.4 as int);
    let b = if row.2 is Some && filter is Some && tag_match(row.2->Some_0, filter->Some_0) {
        base * 3 / 2
    } else {
        base
    };
    if row.3 + row.4 > 10 { b * 6 / 5 } else { b }
}

/// A scored fix, as a knowledge-base search returns it.
pub struct BrainResult {
    pub command: String,
    pub error_pattern: Option<String>,
    pub context_tags: Option<String>,
    pub success_count: u64,
    pub fail_count: u64,
    pub success_rate: u64,
    pub score: u64,
}

impl BrainResult {
    /// This result reports `row`, scored against `filter`.
    pub open spec fn reports(&self, row: BrainRow, filter: Option<Seq<Seq<char>>>) -> bool {
        &&& self.command@ == row.0
        &&& opt_view(self.error_pattern) == row.1
        &&& opt_view(self.context_tags) == row.2
        &&& self.success_count == row.3
        &&& self.fail_count == row.4
        &&& self.success_rate == rate_of(row.3 as int, row.4 as int)
        &&& self.score == fix_score_of(row, filter)
    }
}

pub open spec fn filter_view(f: Option<&Vec<String>>) -> Option<Seq<Seq<char>>> {
    match f {
        Some(v) => Some(views(v@)),
        None => None,
    }
}

/// Whether some filter tag occurs in `tags`.
pub fn tags_match(tags: &String, filter: &Vec<String>) -> (r: bool)
    ensures
        r == tag_match(tags@, views(filter@)),
{
    let mut i: usize = 0;
    while i < filter.len()
        invariant
            i <= filter@.len(),
            forall|k: int| 0 <= k < i ==> !has_infix(tags@, #[trigger] views(filter@)[k]),
        decreases filter@.len() - i,
    {
        if contains_text(tags.as_str(), filter[i].as_str()) {
            assert(views(filter@)[i as int] == filter@[i as int]@);
            return true;
        }
        assert(views(filter@)[i as int] == filter@[i as int]@);
        i += 1;
    }
    false
}

/// The score of a fix with the given counters and tags against `filter`.
pub fn fix_score(success: u64, fail: u64, tags: &Option<String>, filter: Option<&Vec<String>>) -> (r: u64)
    ensures
        r == fix_score_of((Seq::empty(), None, opt_view(*tags), success, fail, None, 0), filter_view(filter)),
{
    let base = rate(success, fail);
    let mut score: u64 = base;
    match (tags, filter) {
        (Some(t), Some(f)) => {
            if tags_match(t, f) {
                score = base * 3 / 2;
            }
        },
        _ => {},
    }
    let total: u128 = success as u128 + fail as u128;
    if total > 10 {
        score = score * 6 / 5;
    }
    score
}

/// The search terms of a knowledge-base query.
pub fn kb_terms(query: &str) -> (r: Vec<String>)
    ensures
        views(r@) == kb_terms_of(query@),
{
    let toks = split_text(query, Cut::Whitespace);
    let mut out: Vec<String> = Vec::new();
    let mut i: usize = 0;
    while i < toks.len()
        invariant
            views(toks@) == tokens(query@, Cut::Whitespace),
            i <= toks@.len(),
            views(out@) == kb_kept(views(toks@).subrange(0, i as int)),
        decreases toks@.len() - i,
    {
        let cs = chars_of(toks[i].as_str());
        let mut ok = cs.len() > 2;
        let mut j: usize = 0;
        while j < cs.len()
            invariant
                j <= cs@.len(),
                ok == (cs@.len() > 2 && forall|q: int| 0 <= q < j ==> is_word_char(#[trigger] cs@[q])),
            decreases cs@.len() - j,
        {
            if !crate::text::is_word_char_exec(cs[j]) {
                ok = false;
            }
            j += 1;
        }
        let ghost pre = views(toks@).subrange(0, i as int);
        assert(views(toks@).subrange(0, i + 1).drop_last() =~= pre);
        assert(views(toks@).subrange(0, i + 1).last() == toks@[i as int]@);
        if ok {
            let ghost before = out@;
            out.push(toks[i].clone());
            assert(views(out@) =~= views(before).push(toks@[i as int]@));
        }
        i += 1;
    }
    assert(views(toks@).subrange(0, toks@.len() as int) =~= views(toks@));
    out
}

fn lower_all(terms: &Vec<String>) -> (r: Vec<String>)
    ensures
        r@.len() == terms@.len(),
        forall|k: int| 0 <= k < terms@.len() ==> #[trigger] r@[k]@ == lower_of(terms@[k]@),
{
    let mut out: Vec<String> = Vec::new();
    let mut i: usize = 0;
    while i < terms.len()
        invariant
            i <= terms@.len(),
            out@.len() == i,
            forall|k: int| 0 <= k < i ==> #[trigger] out@[k]@ == lower_of(terms@[k]@),
        decreases terms@.len() - i,
    {
        out.push(lowercase(terms[i].as_str()));
        i += 1;
    }
    out
}

fn opt_lower(o: &Option<String>) -> (r: Option<String>)
    ensures
        r is Some == o is Some,
        o is Some ==> r->Some_0@ == lower_of(o->Some_0@),
{
    match o {
        Some(s) => Some(lowercase(s.as_str())),
        None => None,
    }
}

fn opt_word_in(o: &Option<String>, word: &String) -> (r: bool)
    ensures
        r == opt_word(opt_view(*o), word@),
{
    match o {
        Some(s) => word_in(s.as_str(), word.as_str()),
        None => false,
    }
}

/// Whether some lower-cased term is a word of the lower-cased command, error
/// pattern or tags of a fix.
pub fn fix_hit_lowered(c: &String, p: &Option<String>, t: &Option<String>, lowered: &Vec<String>) -> (r: bool)
    ensures
        r == lowered_fix_hit(c@, opt_view(*p), opt_view(*t), views(lowered@)),
{
    let mut k: usize = 0;
    while k < lowered.len()
        invariant
            k <= lowered@.len(),
            forall|j: int| 0 <= j < k ==> !(has_word(c@, #[trigger] views(lowered@)[j])
                || opt_word(opt_view(*p), views(lowered@)[j]) || opt_word(opt_view(*t), views(lowered@)[j])),
        decreases lowered@.len() - k,
    {
        assert(views(lowered@)[k as int] == lowered@[k as int]@);
        if word_in(c.as_str(), lowered[k].as_str()) || opt_word_in(p, &lowered[k]) || opt_word_in(t, &lowered[k]) {
            return true;
        }
        k += 1;
    }
    false
}

/// Whether some term hits the entry; `lowered` holds the terms lower-cased.
fn entry_hit(e: &BrainEntry, terms: &Vec<String>, lowered: &Vec<String>) -> (r: bool)
    requires
        lowered@.len() == terms@.len(),
        forall|k: int| 0 <= k < terms@.len() ==> #[trigger] lowered@[k]@ == lower_of(terms@[k]@),
    ensures
        r == fix_hit(e.stored_row(), views(terms@)),
{
    let c = lowercase(e.command.as_str());
    let p = opt_lower(&e.error_pattern);
    let t = opt_lower(&e.context_tags);
    let r = fix_hit_lowered(&c, &p, &t, lowered);
    proof {
        let row = e.stored_row();
        let lv = views(lowered@);
        let tv = views(terms@);
        assert forall|k: int| 0 <= k < tv.len() implies #[trigger] lower_of(tv[k]) == lv[k] by {
            assert(lowered@[k]@ == lower_of(terms@[k]@));
        }
        assert forall|k: int| 0 <= k < tv.len() implies (has_word(c@, #[trigger] lv[k]) || opt_word(opt_view(p), lv[k])
            || opt_word(opt_view(t), lv[k])) == (has_word(lower_of(row.0), lower_of(tv[k])) || opt_hit(row.1, tv[k])
            || opt_hit(row.2, tv[k])) by {
            assert(lower_of(tv[k]) == lv[k]);
        }
        if r {
            let k = choose|k: int| 0 <= k < lv.len() && (has_word(c@, #[trigger] lv[k]) || opt_word(opt_view(p), lv[k])
                || opt_word(opt_view(t), lv[k]));
            assert(has_word(lower_of(row.0), lower_of(tv[k])) || opt_hit(row.1, tv[k]) || opt_hit(row.2, tv[k]));
        }
        if fix_hit(row, tv) {
            let k = choose|k: int| 0 <= k < tv.len() && (has_word(lower_of(row.0), #[trigger] lower_of(tv[k]))
                || opt_hit(row.1, tv[k]) || opt_hit(row.2, tv[k]));
            assert(has_word(c@, lv[k]) || opt_word(opt_view(p), lv[k]) || opt_word(opt_view(t), lv[k]));
        }
    }
    r
}

proof fn lemma_fix_hits_in_range(rows: Seq<BrainRow>, terms: Seq<Seq<char>>, n: nat)
    ensures
        forall|a: int| 0 <= a < fix_hits(rows, terms, n).len()
            ==> 0 <= #[trigger] fix_hits(rows, terms, n)[a] < rows.len(),
    decreases n,
{
    if n > 0 && n <= rows.len() {
        lemma_fix_hits_in_range(rows, terms, (n - 1) as nat);
        let rest = fix_hits(rows, terms, (n - 1) as nat);
        let next = rest.push(n - 1);
        assert forall|a: int| 0 <= a < next.len() implies 0 <= #[trigger] next[a] < rows.len() by {
            if a < rest.len() {
                assert(next[a] == rest[a]);
            }
        }
    }
}

/// The rank keys of the rows at `hits`.
pub open spec fn hit_keys(rows: Seq<BrainRow>, hits: Seq<int>) -> Seq<u128> {
    hits.map_values(|i: int| rank_key(rows[i]))
}

/// `r` is what a scored knowledge-base search for `query` returns: of the
/// rows that some term hits, the `limit` with most successes (then newest),
/// each scored against `filter`, highest score first.
pub open spec fn kb_scored(rows: Seq<BrainRow>, query: Seq<char>, filter: Option<Seq<Seq<char>>>, limit: usize, r: Seq<BrainResult>) -> bool {
    let hits = fix_hits(rows, kb_terms_of(query), rows.len());
    let keys = hit_keys(rows, hits);
    &&& r.len() == if limit < hits.len() { limit as int } else { hits.len() as int }
    &&& exists|top: Seq<usize>, order: Seq<usize>|
        #![trigger distinct_positions(top, hits.len() as int), distinct_positions(order, r.len() as int)]
        top.len() == r.len() && distinct_positions(top, hits.len() as int)
            && descending(keys, top) && best_taken(keys, top)
            && order.len() == r.len() && distinct_positions(order, r.len() as int)
            && forall|a: int| 0 <= a < r.len() ==>
                #[trigger] r[a].reports(rows[hits[top[order[a] as int] as int]], filter)
    &&& forall|a: int, b: int| 0 <= a < b < r.len() ==> r[a].score >= r[b].score
}

impl CommunityBrain {
    fn hits(&self, terms: &Vec<String>) -> (r: Vec<usize>)
        ensures
            r@.len() == fix_hits(self@, views(terms@), self@.len()).len(),
            forall|a: int| 0 <= a < r@.len() ==> r@[a] as int == #[trigger] fix_hits(self@, views(terms@), self@.len())[a],
    {
        let lowered = lower_all(terms);
        let mut out: Vec<usize> = Vec::new();
        let mut i: usize = 0;
        while i < self.rows.len()
            invariant
                i <= self@.len(),
                self@.len() == self.rows@.len(),
                lowered@.len() == terms@.len(),
                forall|k: int| 0 <= k < terms@.len() ==> #[trigger] lowered@[k]@ == lower_of(terms@[k]@),
                out@.len() == fix_hits(self@, views(terms@), i as nat).len(),
                forall|a: int| 0 <= a < out@.len() ==> out@[a] as int == #[trigger] fix_hits(self@, views(terms@), i as nat)[a],
            decreases self@.len() - i,
        {
            assert(self@[i as int] == self.rows@[i as int].stored_row());
            if entry_hit(&self.rows[i], terms, &lowered) {
                out.push(i);
            }
            i += 1;
        }
        out
    }

    fn result_at(&self, i: usize, filter: Option<&Vec<String>>) -> (r: BrainResult)
        requires
            i < self@.len(),
        ensures
            r.reports(self@[i as int], filter_view(filter)),
    {
        assert(self@[i as int] == self.rows@[i as int].stored_row());
        let e = &self.rows[i];
        let score = fix_score(e.success_count, e.fail_count, &e.context_tags, filter);
        BrainResult {
            command: e.command.clone(),
            error_pattern: clone_opt(&e.error_pattern),
            context_tags: clone_opt(&e.context_tags),
            success_count: e.success_count,
            fail_count: e.fail_count,
            success_rate: rate(e.success_count, e.fail_count),
            score,
        }
    }

    /// Fixes that some query term hits: the `limit` most successful (then
    /// newest) candidates, each scored against the filter tags, highest score
    /// first.
    pub fn search_with_scores(&self, query: &str, context_tags: Option<&Vec<String>>, limit: usize) -> (r: Vec<BrainResult>)
        requires
        ensures
            kb_scored(self@, query@, filter_view(context_tags), limit, r@),
    {
        let terms = kb_terms(query);
        let hits = self.hits(&terms);
        let ghost spec_hits = fix_hits(self@, kb_terms_of(query@), self@.len());
        proof {
            lemma_fix_hits_in_range(self@, kb_terms_of(query@), self@.len());
        }
        let mut keys: Vec<u128> = Vec::new();
        let mut i: usize = 0;
        while i < hits.len()
            invariant
                i <= hits@.len(),
                hits@.len() == spec_hits.len(),
                self@.len() == self.rows@.len(),
                spec_hits == fix_hits(self@, kb_terms_of(query@), self@.len()),
                forall|a: int| 0 <= a < hits@.len() ==> hits@[a] as int == #[trigger] spec_hits[a],
                forall|a: int| 0 <= a < hits@.len() ==> 0 <= #[trigger] spec_hits[a] < self@.len(),
                keys@ == hit_keys(self@, spec_hits).subrange(0, i as int),
            decreases hits@.len() - i,
        {
            let p = hits[i];
            assert(hits@[i as int] as int == spec_hits[i as int]);
            assert(self@[p as int] == self.rows@[p as int].stored_row());
            let e = &self.rows[p];
            let key: u128 = e.success_count as u128 * 0x1_0000_0000_0000_0000u128
                + (e.created_at_or_zero() as i128 + 0x8000_0000_0000_0000i128) as u128;
            keys.push(key);
            assert(keys@ =~= hit_keys(self@, spec_hits).subrange(0, i + 1));
            i += 1;
        }
        assert(keys@ =~= hit_keys(self@, spec_hits));
        let top = top_positions(&keys, limit);
        let mut picked: Vec<BrainResult> = Vec::new();
        let mut scores: Vec<u128> = Vec::new();
        let mut j: usize = 0;
        while j < top.len()
            invariant
                j <= top@.len(),
                picked@.len() == j,
                scores@.len() == j,
                hits@.len() == spec_hits.len(),
                self@.len() == self.rows@.len(),
                distinct_positions(top@, hits@.len() as int),
                forall|a: int| 0 <= a < hits@.len() ==> hits@[a] as int == #[trigger] spec_hits[a],
                forall|a: int| 0 <= a < hits@.len() ==> 0 <= #[trigger] spec_hits[a] < self@.len(),
                forall|a: int| 0 <= a < j ==> #[trigger] picked@[a].reports(self@[spec_hits[top@[a] as int]], filter_view(context_tags)),
                forall|a: int| 0 <= a < j ==> #[trigger] scores@[a] == picked@[a].score as u128,
            decreases top@.len() - j,
        {
            let p = hits[top[j]];
            assert(top@[j as int] < hits@.len());
            assert(hits@[top@[j as int] as int] as int == spec_hits[top@[j as int] as int]);
            let res = self.result_at(p, context_tags);
            let ghost before = picked@;
            let ghost sbefore = scores@;
            scores.push(res.score as u128);
            picked.push(res);
            proof {
                assert(p as int == spec_hits[top@[j as int] as int]);
                assert(picked@[j as int].reports(self@[spec_hits[top@[j as int] as int]], filter_view(context_tags)));
                assert forall|a: int| 0 <= a < j + 1 implies #[trigger] picked@[a].reports(self@[spec_hits[top@[a] as int]], filter_view(context_tags))
                    && #[trigger] scores@[a] == picked@[a].score as u128 by {
                    if a < j {
                        assert(picked@[a] == before[a]);
                        assert(scores@[a] == sbefore[a]);
                    }
                }
            }
            j += 1;
        }
        let order = top_positions(&scores, scores.len());
        let mut out: Vec<BrainResult> = Vec::new();
        let mut m: usize = 0;
        while m < order.len()
            invariant
                m <= order@.len(),
                order@.len() == top@.len(),
                out@.len() == m,
                picked@.len() == top@.len(),
                scores@.len() == top@.len(),
                hits@.len() == spec_hits.len(),
                self@.len() == self.rows@.len(),
                distinct_positions(top@, hits@.len() as int),
                distinct_positions(order@, top@.len() as int),
                descending(scores@, order@),
                forall|a: int| 0 <= a < hits@.len() ==> hits@[a] as int == #[trigger] spec_hits[a],
                forall|a: int| 0 <= a < hits@.len() ==> 0 <= #[trigger] spec_hits[a] < self@.len(),
                forall|a: int| 0 <= a < top@.len() ==> #[trigger] picked@[a].reports(self@[spec_hits[top@[a] as int]], filter_view(context_tags)),
                forall|a: int| 0 <= a < top@.len() ==> #[trigger] scores@[a] == picked@[a].score as u128,
                forall|a: int| 0 <= a < m ==> #[trigger] out@[a].reports(self@[spec_hits[top@[order@[a] as int] as int]], filter_view(context_tags)),
            decreases order@.len() - m,
        {
            let q = order[m];
            assert(q < top@.len());
            let p = hits[top[q]];
            assert(top@[q as int] < hits@.len());
            assert(hits@[top@[q as int] as int] as int == spec_hits[top@[q as int] as int]);
            let res = self.result_at(p, context_tags);
            out.push(res);
            m += 1;
        }
        proof {
            assert forall|a: int, b: int| 0 <= a < b < out@.len() implies out@[a].score >= out@[b].score by {
                let qa = order@[a] as int;
                let qb = order@[b] as int;
                assert(picked@[qa].reports(self@[spec_hits[top@[qa] as int]], filter_view(context_tags)));
                assert(picked@[qb].reports(self@[spec_hits[top@[qb] as int]], filter_view(context_tags)));
                assert(out@[a].reports(self@[spec_hits[top@[qa] as int]], filter_view(context_tags)));
                assert(out@[b].reports(self@[spec_hits[top@[qb] as int]], filter_view(context_tags)));
                assert(scores@[qa] >= scores@[qb]);
            }
            assert(distinct_positions(top@, spec_hits.len() as int));
            assert(distinct_positions(order@, out@.len() as int));
        }
        out
    }
}

impl BrainEntry {
    fn created_at_or_zero(&self) -> (r: i64)
        ensures
            r == self.stored_row().6,
    {
        match self.created_at {
            Some(t) => t,
            None => 0,
        }
    }
}

impl CommunityBrain {
    /// The commands of a scored search, in its order.
    pub fn search(&self, query: &str, context_filter: Option<&Vec<String>>, limit: usize) -> (r: Vec<String>)
        requires
        ensures
            exists|res: Seq<BrainResult>| kb_scored(self@, query@, filter_view(context_filter), limit, res)
                && res.len() == r@.len()
                && forall|i: int| 0 <= i < r@.len() ==> #[trigger] r@[i]@ == res[i].command@,
    {
        let res = self.search_with_scores(query, context_filter, limit);
        let mut out: Vec<String> = Vec::new();
        let mut i: usize = 0;
        while i < res.len()
            invariant
                i <= res@.len(),
                out@.len() == i,
                forall|k: int| 0 <= k < i ==> #[trigger] out@[k]@ == res@[k].command@,
            decreases res@.len() - i,
        {
            out.push(res[i].command.clone());
            i += 1;
        }
        out
    }
}

} // verus!
