//! Ordering of candidates by a numeric key, highest first.
use vstd::prelude::*;

verus! {

/// `order` lists distinct positions of `keys`, each in range.
pub open spec fn distinct_positions(order: Seq<usize>, n: int) -> bool {
    &&& forall|a: int| 0 <= a < order.len() ==> #[trigger] order[a] < n
    &&& forall|a: int, b: int| 0 <= a < b < order.len() ==> order[a] != order[b]
}

/// The keys along `order` never increase.
pub open spec fn descending(keys: Seq<u128>, order: Seq<usize>) -> bool {
    forall|a: int, b: int| 0 <= a < b < order.len() ==> keys[order[a] as int] >= keys[order[b] as int]
}

/// No position left out of `order` has a key above one that was taken.
pub open spec fn best_taken(keys: Seq<u128>, order: Seq<usize>) -> bool {
    forall|j: int, a: int|
        #![trigger keys[j], order[a]]
        0 <= j < keys.len() && !order.contains(j as usize) && 0 <= a < order.len()
            ==> keys[j] <= keys[order[a] as int]
}

/// The `k` highest keys' positions, highest first; among equal keys the
/// earlier position comes first.
pub fn top_positions(keys: &Vec<u128>, k: usize) -> (order: Vec<usize>)
    ensures
        order@.len() == if k < keys@.len() { k as int } else { keys@.len() as int },
        distinct_positions(order@, keys@.len() as int),
        descending(keys@, order@),
        best_taken(keys@, order@),
{
    let n = keys.len();
    let mut taken: Vec<bool> = Vec::new();
    let mut t: usize = 0;
    while t < n
        invariant
            t <= n,
            n == keys@.len(),
            taken@.len() == t,
            forall|j: int| 0 <= j < t ==> !taken@[j],
        decreases n - t,
    {
        taken.push(false);
        t += 1;
    }
    let want = if k < n { k } else { n };
    let mut order: Vec<usize> = Vec::new();
    while order.len() < want
        invariant
            n == keys@.len(),
            want <= n,
            want == if k < n { k as int } else { n as int },
            taken@.len() == n,
            order@.len() <= want,
            distinct_positions(order@, n as int),
            descending(keys@, order@),
            best_taken(keys@, order@),
            forall|j: int| 0 <= j < n ==> (taken@[j] <==> order@.contains(j as usize)),
        decreases want - order@.len(),
    {
        // Some position is still free, since fewer than n are taken.
        proof {
            if forall|j: int| 0 <= j < n ==> taken@[j] {
                assert forall|p: usize| (p as int) < n implies #[trigger] order@.contains(p) by {
                    assert(taken@[p as int]);
                }
                lemma_distinct_covers(order@, n as int);
            }
        }
        let mut best: usize = n;
        let mut j: usize = 0;
        while j < n
            invariant
                n == keys@.len(),
                taken@.len() == n,
                j <= n,
                best == n || (best < j && !taken@[best as int]),
                best == n ==> forall|q: int| 0 <= q < j ==> taken@[q],
                best < n ==> forall|q: int| 0 <= q < j && !taken@[q] ==> keys@[q] <= keys@[best as int],
            decreases n - j,
        {
            if !taken[j] {
                if best == n || keys[j] > keys[best] {
                    best = j;
                }
            }
            j += 1;
        }
        assert(best < n);
        let ghost prev = order@;
        order.push(best);
        taken.set(best, true);
        proof {
            assert forall|q: int| 0 <= q < n implies (taken@[q] <==> order@.contains(q as usize)) by {
                if q == best as int {
                    assert(order@[prev.len() as int] == best);
                } else {
                    if order@.contains(q as usize) {
                        let a = choose|a: int| 0 <= a < order@.len() && order@[a] == q as usize;
                        assert(a < prev.len());
                        assert(prev.contains(q as usize));
                    }
                    if prev.contains(q as usize) {
                        let a = choose|a: int| 0 <= a < prev.len() && prev[a] == q as usize;
                        assert(order@[a] == q as usize);
                    }
                }
            }
            assert forall|a: int, b: int| 0 <= a < b < order@.len() implies order@[a] != order@[b] by {
                if b == prev.len() {
                    assert(prev.contains(order@[a]) ==> taken@[order@[a] as int]);
                    assert(prev.contains(prev[a]));
                }
            }
            assert forall|a: int, b: int| 0 <= a < b < order@.len() implies keys@[order@[a] as int]
                >= keys@[order@[b] as int] by {
                if b == prev.len() {
                    assert(!prev.contains(best));
                }
            }
            assert forall|q: int, a: int|
                #![trigger keys@[q], order@[a]]
                0 <= q < keys@.len() && !order@.contains(q as usize) && 0 <= a < order@.len()
                implies keys@[q] <= keys@[order@[a] as int] by {
                assert(!taken@[q]);
                if a < prev.len() {
                    assert(!prev.contains(q as usize)) by {
                        if prev.contains(q as usize) {
                            let b = choose|b: int| 0 <= b < prev.len() && prev[b] == q as usize;
                            assert(order@[b] == q as usize);
                        }
                    }
                } else {
                    assert(order@[a] == best);
                }
            }
        }
    }
    order
}

/// Distinct positions below `n` that cover every position below `n` number `n`.
proof fn lemma_distinct_covers(order: Seq<usize>, n: int)
    requires
        0 <= n <= usize::MAX,
        distinct_positions(order, n),
        forall|p: usize| (p as int) < n ==> #[trigger] order.contains(p),
    ensures
        order.len() >= n,
{
    let s = Set::new(|p: usize| (p as int) < n);
    let t = order.to_set();
    assert forall|p: usize| #[trigger] s.contains(p) implies t.contains(p) by {
        assert(order.contains(p));
    }
    lemma_range_len(n);
    vstd::set_lib::lemma_len_subset(s, t);
    order.unique_seq_to_set();
}

/// The positions below `n` number `n`.
pub proof fn lemma_range_len(n: int)
    requires
        0 <= n <= usize::MAX + 1,
    ensures
        Set::new(|p: usize| (p as int) < n).finite(),
        Set::new(|p: usize| (p as int) < n).len() == n,
    decreases n,
{
    let s = Set::new(|p: usize| (p as int) < n);
    if n == 0 {
        assert(s =~= Set::empty());
    } else {
        lemma_range_len(n - 1);
        let r = Set::new(|p: usize| (p as int) < n - 1);
        assert(s =~= r.insert((n - 1) as usize));
    }
}

} // verus!
