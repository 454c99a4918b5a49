//! Sorting positions by a strict total order: a stable merge sort used by
//! the table and by the file scanner.
use vstd::prelude::*;

verus! {

/// `rel` is a strict total order on the positions `0..n`.
pub open spec fn strict_total_on(rel: spec_fn(int, int) -> bool, n: int) -> bool {
    &&& forall|i: int| 0 <= i < n ==> !#[trigger] rel(i, i)
    &&& forall|i: int, j: int|
        0 <= i < n && 0 <= j < n && i != j ==> #[trigger] rel(i, j) || #[trigger] rel(j, i)
    &&& forall|i: int, j: int, k: int|
        0 <= i < n && 0 <= j < n && 0 <= k < n && #[trigger] rel(i, j) && #[trigger] rel(j, k)
            ==> rel(i, k)
}

/// `before` decides `rel` on the positions `0..n`.
pub open spec fn decides<F: Fn(usize, usize) -> bool>(
    before: F,
    rel: spec_fn(int, int) -> bool,
    n: int,
) -> bool {
    &&& forall|i: usize, j: usize| i < n && j < n ==> #[trigger] before.requires((i, j))
    &&& forall|i: usize, j: usize, r: bool|
        i < n && j < n && #[trigger] before.ensures((i, j), r) ==> r == rel(i as int, j as int)
}

/// Positions in `lo..hi`, sorted strictly by `rel` (so each appears once).
pub open spec fn sorted_positions(rel: spec_fn(int, int) -> bool, p: Seq<usize>, lo: int, hi: int) -> bool {
    &&& forall|k: int| 0 <= k < p.len() ==> lo <= #[trigger] p[k] < hi
    &&& forall|k: int, l: int|
        0 <= k < l < p.len() ==> rel(#[trigger] p[k] as int, #[trigger] p[l] as int)
}

/// Merges two sorted runs of positions, the first from `lo..mid`, the
/// second from `mid..hi`.
fn merge<F: Fn(usize, usize) -> bool>(
    before: &F,
    Ghost(rel): Ghost<spec_fn(int, int) -> bool>,
    Ghost(n): Ghost<int>,
    a: Vec<usize>,
    b: Vec<usize>,
    Ghost(lo): Ghost<int>,
    Ghost(mid): Ghost<int>,
    Ghost(hi): Ghost<int>,
) -> (c: Vec<usize>)
    requires
        strict_total_on(rel, n),
        decides(*before, rel, n),
        0 <= lo <= mid <= hi <= n,
        sorted_positions(rel, a@, lo, mid),
        sorted_positions(rel, b@, mid, hi),
    ensures
        c@.len() == a@.len() + b@.len(),
        sorted_positions(rel, c@, lo, hi),
{
    let mut c: Vec<usize> = Vec::new();
    let mut i: usize = 0;
    let mut j: usize = 0;
    while i < a.len() || j < b.len()
        invariant
            strict_total_on(rel, n),
            decides(*before, rel, n),
            0 <= lo <= mid <= hi <= n,
            sorted_positions(rel, a@, lo, mid),
            sorted_positions(rel, b@, mid, hi),
            i <= a@.len(),
            j <= b@.len(),
            c@.len() == i + j,
            sorted_positions(rel, c@, lo, hi),
            forall|k: int, t: int|
                0 <= k < c@.len() && i <= t < a@.len() ==> rel(
                    #[trigger] c@[k] as int,
                    #[trigger] a@[t] as int,
                ),
            forall|k: int, t: int|
                0 <= k < c@.len() && j <= t < b@.len() ==> rel(
                    #[trigger] c@[k] as int,
                    #[trigger] b@[t] as int,
                ),
        decreases a@.len() + b@.len() - i - j,
    {
        let take_a = if j == b.len() {
            true
        } else if i == a.len() {
            false
        } else {
            let x = a[i];
            let y = b[j];
            before(x, y)
        };
        let ghost old_c = c@;
        if take_a {
            let x = a[i];
            proof {
                assert forall|t: int| i < t < a@.len() implies rel(
                    x as int,
                    #[trigger] a@[t] as int,
                ) by {}
                assert forall|t: int| j <= t < b@.len() implies rel(
                    x as int,
                    #[trigger] b@[t] as int,
                ) by {
                    if t > j {
                        assert(rel(b@[j as int] as int, b@[t] as int));
                    }
                }
            }
            c.push(x);
            i = i + 1;
        } else {
            let y = b[j];
            proof {
                assert forall|t: int| i <= t < a@.len() implies rel(
                    y as int,
                    #[trigger] a@[t] as int,
                ) by {
                    assert(rel(a@[i as int] as int, y as int) || rel(y as int, a@[i as int] as int));
                    if t > i {
                        assert(rel(a@[i as int] as int, a@[t] as int));
                    }
                }
                assert forall|t: int| j < t < b@.len() implies rel(
                    y as int,
                    #[trigger] b@[t] as int,
                ) by {}
            }
            c.push(y);
            j = j + 1;
        }
        proof {
            assert forall|k: int, t: int|
                0 <= k < c@.len() && i <= t < a@.len() implies rel(
                #[trigger] c@[k] as int,
                #[trigger] a@[t] as int,
            ) by {
                if k < old_c.len() {
                    assert(c@[k] == old_c[k]);
                }
            }
            assert forall|k: int, t: int|
                0 <= k < c@.len() && j <= t < b@.len() implies rel(
                #[trigger] c@[k] as int,
                #[trigger] b@[t] as int,
            ) by {
                if k < old_c.len() {
                    assert(c@[k] == old_c[k]);
                }
            }
            assert forall|k: int, l: int| 0 <= k < l < c@.len() implies rel(
                #[trigger] c@[k] as int,
                #[trigger] c@[l] as int,
            ) by {
                assert(c@[k] == old_c[k]);
                if l < old_c.len() {
                    assert(c@[l] == old_c[l]);
                }
            }
        }
    }
    c
}

/// The positions `lo..hi` in sorted order (merge sort).
fn merge_sort<F: Fn(usize, usize) -> bool>(
    before: &F,
    Ghost(rel): Ghost<spec_fn(int, int) -> bool>,
    Ghost(n): Ghost<int>,
    lo: usize,
    hi: usize,
) -> (p: Vec<usize>)
    requires
        strict_total_on(rel, n),
        decides(*before, rel, n),
        lo <= hi <= n,
    ensures
        p@.len() == hi - lo,
        sorted_positions(rel, p@, lo as int, hi as int),
    decreases hi - lo,
{
    if hi - lo <= 1 {
        let mut p: Vec<usize> = Vec::new();
        if hi - lo == 1 {
            p.push(lo);
        }
        return p;
    }
    let mid = lo + (hi - lo) / 2;
    let a = merge_sort(before, Ghost(rel), Ghost(n), lo, mid);
    let b = merge_sort(before, Ghost(rel), Ghost(n), mid, hi);
    merge(before, Ghost(rel), Ghost(n), a, b, Ghost(lo as int), Ghost(mid as int), Ghost(hi as int))
}

/// The positions `0..n` listed in the order `rel`, which `before` decides.
pub fn sort_positions<F: Fn(usize, usize) -> bool>(
    before: &F,
    n: usize,
    Ghost(rel): Ghost<spec_fn(int, int) -> bool>,
) -> (p: Vec<usize>)
    requires
        strict_total_on(rel, n as int),
        decides(*before, rel, n as int),
    ensures
        p@.len() == n,
        sorted_positions(rel, p@, 0, n as int),
        forall|k: int, l: int| 0 <= k < l < p@.len() ==> p@[k] != p@[l],
{
    let p = merge_sort(before, Ghost(rel), Ghost(n as int), 0, n);
    assert forall|k: int, l: int| 0 <= k < l < p@.len() implies p@[k] != p@[l] by {
        assert(rel(p@[k] as int, p@[l] as int));
    }
    p
}



/// `n` distinct positions, all below `n`, list every position below `n`.
pub proof fn lemma_positions_cover(p: Seq<usize>, n: int, i: int)
    requires
        p.len() == n,
        forall|k: int| 0 <= k < p.len() ==> #[trigger] p[k] < n,
        forall|k: int, l: int| 0 <= k < l < p.len() ==> p[k] != p[l],
        0 <= i < n,
    ensures
        exists|k: int| 0 <= k < n && p[k] == i,
{
    let q = p.map_values(|x: usize| x as int);
    assert(q.no_duplicates()) by {
        assert forall|k: int, l: int| 0 <= k < q.len() && 0 <= l < q.len() && k != l implies q[k]
            != q[l] by {
            if k < l {
                assert(p[k] != p[l]);
            } else {
                assert(p[l] != p[k]);
            }
        }
    }
    q.unique_seq_to_set();
    vstd::set_lib::lemma_int_range(0, n);
    let range = vstd::set_lib::set_int_range(0, n);
    assert(q.to_set().subset_of(range)) by {
        assert forall|x: int| q.to_set().contains(x) implies range.contains(x) by {
            let k = choose|k: int| 0 <= k < q.len() && q[k] == x;
            assert(p[k] < n);
        }
    }
    vstd::set_lib::lemma_subset_equality(q.to_set(), range);
    assert(range.contains(i));
    assert(q.to_set().contains(i));
    assert(q.contains(i));
    let k = choose|k: int| 0 <= k < q.len() && q[k] == i;
    assert(p[k] == i);
}

/// `v` rearranged so that its element at position `order[k]` comes `k`th.
pub fn permute<T>(v: Vec<T>, order: &Vec<usize>) -> (r: Vec<T>)
    requires
        order@.len() == v@.len(),
        forall|k: int| 0 <= k < order@.len() ==> #[trigger] order@[k] < v@.len(),
        forall|k: int, l: int| 0 <= k < l < order@.len() ==> order@[k] != order@[l],
    ensures
        r@ == order@.map_values(|x: usize| v@[x as int]),
{
    let ghost initial = v@;
    let n = v.len();
    let mut v = v;
    let mut slots: Vec<Option<T>> = Vec::new();
    let mut k: usize = 0;
    while k < n
        invariant
            k <= n,
            slots@.len() == k,
            forall|t: int| 0 <= t < k ==> slots@[t] is None,
        decreases n - k,
    {
        slots.push(None);
        k = k + 1;
    }
    let mut m: usize = n;
    while m > 0
        invariant
            m <= n == initial.len(),
            slots@.len() == n,
            v@ == initial.take(m as int),
            forall|t: int| m <= t < n ==> slots@[t] == Some(initial[t]),
        decreases m,
    {
        let e = v.pop().unwrap();
        m = m - 1;
        slots.set(m, Some(e));
        assert(v@ == initial.take(m as int));
    }
    let ghost perm = order@;
    let mut r: Vec<T> = Vec::new();
    let mut k: usize = 0;
    while k < n
        invariant
            k <= n == initial.len(),
            slots@.len() == n,
            perm == order@,
            perm.len() == n,
            forall|t: int| 0 <= t < perm.len() ==> #[trigger] perm[t] < n,
            forall|a: int, b: int| 0 <= a < b < perm.len() ==> perm[a] != perm[b],
            r@ == perm.take(k as int).map_values(|x: usize| initial[x as int]),
            forall|t: int|
                k <= t < n ==> slots@[#[trigger] perm[t] as int] == Some(initial[perm[t] as int]),
        decreases n - k,
    {
        let idx = order[k];
        let slot = slots[idx].take();
        let e = slot.unwrap();
        r.push(e);
        proof {
            assert(perm.take(k + 1).map_values(|x: usize| initial[x as int]) == perm.take(
                k as int,
            ).map_values(|x: usize| initial[x as int]).push(initial[idx as int]));
            assert forall|t: int| k + 1 <= t < n implies slots@[#[trigger] perm[t] as int] == Some(
                initial[perm[t] as int],
            ) by {
                assert(perm[t] != perm[k as int]);
            }
        }
        k = k + 1;
    }
    assert(perm.take(n as int) == perm);
    r
}

} // verus!
