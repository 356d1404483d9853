//! Picking elements of a list and putting them in a stable order.

use vstd::prelude::*;

verus! {

/// `before` is a strict order in which some elements may be equal.
pub open spec fn is_order<T>(before: spec_fn(T, T) -> bool) -> bool {
    &&& forall|a: T, b: T| #[trigger] before(a, b) ==> !before(b, a)
    &&& forall|a: T, b: T, c: T| #[trigger]
        before(a, b) && !#[trigger] before(c, b) ==> before(a, c)
}

/// Every element is kept.
pub open spec fn every() -> spec_fn(int) -> bool {
    |i: int| true
}

/// `from` names indices below `n`: those that are kept, and all of them.
pub open spec fn covers(from: Seq<int>, n: int, keep: spec_fn(int) -> bool) -> bool {
    &&& forall|k: int| 0 <= k < from.len() ==> 0 <= #[trigger] from[k] < n && keep(from[k])
    &&& forall|i: int| 0 <= i < n && #[trigger] keep(i) ==> from.contains(i)
}

/// Every item is made of the element that `from` names for it.
pub open spec fn matched<T>(items: Seq<T>, from: Seq<int>, made: spec_fn(T, int) -> bool) -> bool {
    &&& items.len() == from.len()
    &&& forall|k: int| 0 <= k < from.len() ==> made(items[k], #[trigger] from[k])
}

/// Places `k` and `l` are filled in order: with different elements, the one that
/// comes first before the other, and equal ones in the order of the list.
pub open spec fn placed<T>(
    items: Seq<T>,
    from: Seq<int>,
    before: spec_fn(T, T) -> bool,
    k: int,
    l: int,
) -> bool {
    &&& from[k] != from[l]
    &&& !before(items[l], items[k])
    &&& before(items[k], items[l]) || from[k] < from[l]
}

/// All places are filled in order.
pub open spec fn stable<T>(items: Seq<T>, from: Seq<int>, before: spec_fn(T, T) -> bool) -> bool {
    forall|k: int, l: int| 0 <= k < l < from.len() ==> #[trigger] placed(items, from, before, k, l)
}

/// `items` are made of the kept elements among the first `n` of a list, each of
/// them once, in a stable order.
pub open spec fn is_sorted_pick<T>(
    items: Seq<T>,
    from: Seq<int>,
    n: int,
    keep: spec_fn(int) -> bool,
    made: spec_fn(T, int) -> bool,
    before: spec_fn(T, T) -> bool,
) -> bool {
    &&& covers(from, n, keep)
    &&& matched(items, from, made)
    &&& stable(items, from, before)
}

/// An element that is not kept changes nothing.
pub proof fn lemma_skip<T>(
    items: Seq<T>,
    from: Seq<int>,
    n: int,
    keep: spec_fn(int) -> bool,
    made: spec_fn(T, int) -> bool,
    before: spec_fn(T, T) -> bool,
)
    requires
        is_sorted_pick(items, from, n, keep, made, before),
        !keep(n),
    ensures
        is_sorted_pick(items, from, n + 1, keep, made, before),
{
}

/// The next element, put behind all that it does not come before.
pub proof fn lemma_insert<T>(
    items: Seq<T>,
    from: Seq<int>,
    n: int,
    p: int,
    c: T,
    keep: spec_fn(int) -> bool,
    made: spec_fn(T, int) -> bool,
    before: spec_fn(T, T) -> bool,
)
    requires
        n >= 0,
        is_order(before),
        is_sorted_pick(items, from, n, keep, made, before),
        keep(n),
        made(c, n),
        0 <= p <= items.len(),
        forall|k: int| 0 <= k < p ==> !before(c, #[trigger] items[k]),
        p < items.len() ==> before(c, items[p]),
    ensures
        is_sorted_pick(items.insert(p, c), from.insert(p, n), n + 1, keep, made, before),
{
    let t2 = items.insert(p, c);
    let f2 = from.insert(p, n);
    assert forall|i: int| 0 <= i < n + 1 && #[trigger] keep(i) implies f2.contains(i) by {
        if i == n {
            assert(f2[p] == i);
        } else {
            let k = choose|k: int| 0 <= k < from.len() && from[k] == i;
            if k < p {
                assert(f2[k] == i);
            } else {
                assert(f2[k + 1] == i);
            }
        }
    }
    assert forall|k: int| 0 <= k < f2.len() implies made(t2[k], #[trigger] f2[k]) by {
        if k < p {
            assert(f2[k] == from[k] && t2[k] == items[k]);
        } else if k > p {
            assert(f2[k] == from[k - 1] && t2[k] == items[k - 1]);
        }
    }
    assert forall|k: int, l: int| 0 <= k < l < f2.len() implies #[trigger] placed(
        t2,
        f2,
        before,
        k,
        l,
    ) by {
        let k1 = if k < p {
            k
        } else {
            k - 1
        };
        let l1 = if l < p {
            l
        } else {
            l - 1
        };
        if k != p && l != p {
            assert(placed(items, from, before, k1, l1));
        } else if l == p {
            assert(from[k] == f2[k] && t2[k] == items[k] && t2[l] == c && f2[l] == n);
        } else {
            assert(from[l1] == f2[l] && t2[l] == items[l1] && t2[k] == c && f2[k] == n);
            if l1 > p {
                assert(placed(items, from, before, p, l1));
            }
        }
    }
}

/// Distinct numbers from 0 up to `n` are at most `n` of them.
pub proof fn lemma_distinct_bound(s: Seq<int>, n: int)
    requires
        n >= 0,
        s.no_duplicates(),
        forall|k: int| 0 <= k < s.len() ==> 0 <= #[trigger] s[k] < n,
    ensures
        s.len() <= n,
    decreases n,
{
    if s.len() > 0 {
        if n == 0 {
            assert(s[0] < n);
        } else if exists|k: int| 0 <= k < s.len() && #[trigger] s[k] == n - 1 {
            let k = choose|k: int| 0 <= k < s.len() && #[trigger] s[k] == n - 1;
            let q = s.remove(k);
            assert forall|i: int| 0 <= i < q.len() implies 0 <= #[trigger] q[i] < n - 1 by {
                if i < k {
                    assert(q[i] == s[i]);
                } else {
                    assert(q[i] == s[i + 1]);
                }
            }
            assert forall|i: int, j: int| 0 <= i < q.len() && 0 <= j < q.len() && i != j implies q[i]
                != q[j] by {
                let i1 = if i < k {
                    i
                } else {
                    i + 1
                };
                let j1 = if j < k {
                    j
                } else {
                    j + 1
                };
                assert(q[i] == s[i1] && q[j] == s[j1]);
            }
            lemma_distinct_bound(q, n - 1);
        } else {
            lemma_distinct_bound(s, n - 1);
        }
    }
}

/// Numbers that include all from 0 up to `n` are at least `n` of them.
pub proof fn lemma_covering_bound(s: Seq<int>, n: int)
    requires
        n >= 0,
        forall|i: int| 0 <= i < n ==> #[trigger] s.contains(i),
    ensures
        s.len() >= n,
    decreases n,
{
    if n > 0 {
        assert(s.contains(n - 1));
        let k = choose|k: int| 0 <= k < s.len() && s[k] == n - 1;
        let q = s.remove(k);
        assert forall|i: int| 0 <= i < n - 1 implies #[trigger] q.contains(i) by {
            assert(s.contains(i));
            let j = choose|j: int| 0 <= j < s.len() && s[j] == i;
            if j < k {
                assert(q[j] == i);
            } else {
                assert(q[j - 1] == i);
            }
        }
        lemma_covering_bound(q, n - 1);
    }
}

/// Where every element is kept, none is lost and none is added.
pub proof fn lemma_pick_of_every<T>(
    items: Seq<T>,
    from: Seq<int>,
    n: int,
    made: spec_fn(T, int) -> bool,
    before: spec_fn(T, T) -> bool,
)
    requires
        n >= 0,
        is_sorted_pick(items, from, n, every(), made, before),
    ensures
        items.len() == n,
{
    assert forall|i: int| 0 <= i < n implies #[trigger] from.contains(i) by {
        assert(every()(i));
    }
    lemma_covering_bound(from, n);
    assert forall|i: int, j: int| 0 <= i < from.len() && 0 <= j < from.len() && i != j implies from[i]
        != from[j] by {
        if i < j {
            assert(placed(items, from, before, i, j));
        } else {
            assert(placed(items, from, before, j, i));
        }
    }
    lemma_distinct_bound(from, n);
}

} // verus!
