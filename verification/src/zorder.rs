//! Render order: lower numbers first, equal numbers in the order of the list.

use vstd::prelude::*;

verus! {

/// Puts index `i` into an ordered list of indices, behind all whose number is
/// not greater.
pub open spec fn insert_index(order: Seq<int>, zs: Seq<i64>, i: int) -> Seq<int>
    decreases order.len(),
{
    if order.len() == 0 || zs[order.last()] <= zs[i] {
        order.push(i)
    } else {
        insert_index(order.drop_last(), zs, i).push(order.last())
    }
}

/// The indices `0..n` in render order.
pub open spec fn first_in_order(zs: Seq<i64>, n: nat) -> Seq<int>
    decreases n,
{
    if n == 0 {
        Seq::empty()
    } else {
        insert_index(first_in_order(zs, (n - 1) as nat), zs, n - 1)
    }
}

/// The indices of `zs` in render order.
pub open spec fn in_order(zs: Seq<i64>) -> Seq<int> {
    first_in_order(zs, zs.len())
}

/// Whether index `a` is rendered before index `b`.
pub open spec fn goes_before(zs: Seq<i64>, a: int, b: int) -> bool {
    zs[a] < zs[b] || (zs[a] == zs[b] && a < b)
}

/// The indices of a list.
pub open spec fn index_views(v: Seq<usize>) -> Seq<int> {
    v.map_values(|i: usize| i as int)
}

proof fn lemma_insert_index(order: Seq<int>, zs: Seq<i64>, i: int)
    requires
        0 <= i < zs.len(),
        forall|k: int| 0 <= k < order.len() ==> 0 <= #[trigger] order[k] < i,
        forall|a: int, b: int|
            0 <= a < b < order.len() ==> goes_before(zs, #[trigger] order[a], #[trigger] order[b]),
    ensures
        ({
            let r = insert_index(order, zs, i);
            &&& r.len() == order.len() + 1
            &&& forall|k: int| 0 <= k < r.len() ==> 0 <= #[trigger] r[k] <= i
            &&& forall|a: int, b: int|
                0 <= a < b < r.len() ==> goes_before(zs, #[trigger] r[a], #[trigger] r[b])
            &&& r.contains(i)
            &&& forall|j: int| 0 <= j < order.len() ==> r.contains(#[trigger] order[j])
        }),
    decreases order.len(),
{
    let r = insert_index(order, zs, i);
    if order.len() == 0 || zs[order.last()] <= zs[i] {
        assert(r == order.push(i));
        assert(r[order.len() as int] == i);
        assert forall|a: int, b: int| 0 <= a < b < r.len() implies goes_before(
            zs,
            #[trigger] r[a],
            #[trigger] r[b],
        ) by {
            if b == order.len() {
                assert(order[a] < i);
                if a < order.len() - 1 {
                    assert(goes_before(zs, order[a], order[order.len() - 1]));
                }
            }
        }
        assert forall|j: int| 0 <= j < order.len() implies r.contains(#[trigger] order[j]) by {
            assert(r[j] == order[j]);
        }
    } else {
        let h = order.drop_last();
        lemma_insert_index(h, zs, i);
        let q = insert_index(h, zs, i);
        assert(r == q.push(order.last()));
        assert forall|k: int| 0 <= k < r.len() implies 0 <= #[trigger] r[k] <= i by {
            if k < q.len() {
                assert(r[k] == q[k]);
            } else {
                assert(order[order.len() - 1] < i);
            }
        }
        assert forall|a: int, b: int| 0 <= a < b < r.len() implies goes_before(
            zs,
            #[trigger] r[a],
            #[trigger] r[b],
        ) by {
            if b < q.len() {
                assert(r[a] == q[a] && r[b] == q[b]);
            } else {
                lemma_insert_members(h, zs, i, a);
                if q[a] != i {
                    let j = choose|j: int| 0 <= j < h.len() && #[trigger] h[j] == q[a];
                    assert(order[j] == h[j]);
                    assert(goes_before(zs, order[j], order[order.len() - 1]));
                }
            }
        }
        let m = choose|k: int| 0 <= k < q.len() && q[k] == i;
        assert(r[m] == i);
        assert forall|j: int| 0 <= j < order.len() implies r.contains(#[trigger] order[j]) by {
            if j < h.len() {
                assert(h[j] == order[j]);
                assert(q.contains(h[j]));
                let k = choose|k: int| 0 <= k < q.len() && q[k] == h[j];
                assert(r[k] == order[j]);
            } else {
                assert(r[q.len() as int] == order[j]);
            }
        }
    }
}

proof fn lemma_insert_members(order: Seq<int>, zs: Seq<i64>, i: int, k: int)
    requires
        0 <= k < insert_index(order, zs, i).len(),
    ensures
        insert_index(order, zs, i)[k] == i || exists|j: int|
            0 <= j < order.len() && #[trigger] order[j] == insert_index(order, zs, i)[k],
    decreases order.len(),
{
    let r = insert_index(order, zs, i);
    if order.len() == 0 || zs[order.last()] <= zs[i] {
        if k < order.len() {
            assert(order[k] == r[k]);
        }
    } else {
        let h = order.drop_last();
        let q = insert_index(h, zs, i);
        if k < q.len() {
            lemma_insert_members(h, zs, i, k);
            if q[k] != i {
                let j = choose|j: int| 0 <= j < h.len() && #[trigger] h[j] == q[k];
                assert(order[j] == r[k]);
            }
        } else {
            assert(order[order.len() - 1] == r[k]);
        }
    }
}

pub proof fn lemma_first_in_order(zs: Seq<i64>, n: nat)
    requires
        n <= zs.len(),
    ensures
        first_in_order(zs, n).len() == n,
        forall|k: int| 0 <= k < n ==> 0 <= #[trigger] first_in_order(zs, n)[k] < n,
        forall|a: int, b: int|
            0 <= a < b < n ==> goes_before(
                zs,
                #[trigger] first_in_order(zs, n)[a],
                #[trigger] first_in_order(zs, n)[b],
            ),
        forall|i: int| 0 <= i < n ==> #[trigger] first_in_order(zs, n).contains(i),
    decreases n,
{
    if n > 0 {
        let m = (n - 1) as nat;
        let s = first_in_order(zs, m);
        lemma_first_in_order(zs, m);
        lemma_insert_index(s, zs, m as int);
        let r = first_in_order(zs, n);
        assert forall|i: int| 0 <= i < n implies #[trigger] r.contains(i) by {
            if i < m {
                assert(s.contains(i));
                let j = choose|j: int| 0 <= j < s.len() && s[j] == i;
                assert(r.contains(s[j]));
            }
        }
    }
}

/// The render order holds every index once, lower numbers first and equal
/// numbers in the order of the list.
pub proof fn law_in_order(zs: Seq<i64>)
    ensures
        in_order(zs).len() == zs.len(),
        forall|k: int| 0 <= k < zs.len() ==> 0 <= #[trigger] in_order(zs)[k] < zs.len(),
        forall|a: int, b: int|
            0 <= a < b < zs.len() ==> goes_before(
                zs,
                #[trigger] in_order(zs)[a],
                #[trigger] in_order(zs)[b],
            ),
        forall|i: int| 0 <= i < zs.len() ==> #[trigger] in_order(zs).contains(i),
{
    lemma_first_in_order(zs, zs.len());
}

fn put_index(order: &mut Vec<usize>, zs: &Vec<i64>, i: usize)
    requires
        i < zs@.len(),
        forall|k: int| 0 <= k < old(order)@.len() ==> #[trigger] old(order)@[k] < zs@.len(),
    ensures
        index_views(final(order)@) == insert_index(index_views(old(order)@), zs@, i as int),
    decreases old(order)@.len(),
{
    let n: usize = order.len();
    let ghost s = index_views(order@);
    if n == 0 || zs[order[n - 1]] <= zs[i] {
        order.push(i);
        assert(index_views(order@) =~= s.push(i as int));
    } else {
        let last: Option<usize> = order.pop();
        let ghost popped = order@;
        assert(index_views(popped) =~= s.drop_last());
        put_index(order, zs, i);
        let ghost mid = order@;
        if let Some(l) = last {
            order.push(l);
            assert(index_views(order@) =~= index_views(mid).push(s.last()));
        }
    }
}

/// The indices of `zs` in render order.
pub fn sort_by_z(zs: &Vec<i64>) -> (r: Vec<usize>)
    ensures
        index_views(r@) == in_order(zs@),
        r@.len() == zs@.len(),
        forall|k: int| 0 <= k < r@.len() ==> #[trigger] r@[k] < zs@.len(),
{
    let mut r: Vec<usize> = Vec::new();
    assert(index_views(r@) =~= first_in_order(zs@, 0));
    for i in 0..zs.len()
        invariant
            index_views(r@) == first_in_order(zs@, i as nat),
    {
        proof {
            lemma_first_in_order(zs@, i as nat);
            assert forall|k: int| 0 <= k < r@.len() implies #[trigger] r@[k] < zs@.len() by {
                assert(index_views(r@)[k] == r@[k]);
            }
        }
        put_index(&mut r, zs, i);
    }
    proof {
        lemma_first_in_order(zs@, zs@.len());
        assert forall|k: int| 0 <= k < r@.len() implies #[trigger] r@[k] < zs@.len() by {
            assert(index_views(r@)[k] == r@[k]);
        }
    }
    r
}

/// Putting an index into the order is inserting it at the one place where all
/// before have numbers not greater and all behind have greater ones.
pub proof fn lemma_insert_at(order: Seq<int>, zs: Seq<i64>, i: int, k: int)
    requires
        0 <= k <= order.len(),
        k > 0 ==> zs[order[k - 1]] <= zs[i],
        forall|j: int| k <= j < order.len() ==> zs[#[trigger] order[j]] > zs[i],
    ensures
        insert_index(order, zs, i) == order.insert(k, i),
    decreases order.len(),
{
    if k == order.len() {
        assert(order.insert(k, i) =~= order.push(i));
        if order.len() > 0 {
            assert(order.last() == order[k - 1]);
        }
    } else {
        let h = order.drop_last();
        assert(order.last() == order[order.len() - 1]);
        assert forall|j: int| k <= j < h.len() implies zs[#[trigger] h[j]] > zs[i] by {
            assert(h[j] == order[j]);
        }
        if k > 0 {
            assert(h[k - 1] == order[k - 1]);
        }
        lemma_insert_at(h, zs, i, k);
        assert(order.insert(k, i) =~= h.insert(k, i).push(order.last()));
    }
}

/// In render order no number is followed by a lower one, and of two equal ones
/// that which came first in the list comes first.
pub proof fn law_lower_numbers_first(zs: Seq<i64>, a: int, b: int)
    requires
        0 <= a < b < zs.len(),
    ensures
        zs[in_order(zs)[a]] <= zs[in_order(zs)[b]],
        zs[in_order(zs)[a]] == zs[in_order(zs)[b]] ==> in_order(zs)[a] < in_order(zs)[b],
{
    law_in_order(zs);
    assert(goes_before(zs, in_order(zs)[a], in_order(zs)[b]));
}

} // verus!
