//! Ordering a run of items by where their boxes begin along one axis.

use crate::hit::Bounded;
use vstd::prelude::*;

verus! {

/// Where the box of `h` begins along `axis`.
pub open spec fn key_along<H: Bounded>(h: H, axis: int) -> i32 {
    h.aabb_spec().min.axis_spec(axis)
}

/// No item of `items` begins after a later one along `axis`.
pub open spec fn sorted_along<H: Bounded>(items: Seq<H>, axis: int) -> bool {
    forall|i: int, j: int|
        0 <= i <= j < items.len() ==> key_along(#[trigger] items[i], axis) <= key_along(
            #[trigger] items[j],
            axis,
        )
}

/// `after` holds the items of `before`, moved about only inside `lo..hi`.
pub open spec fn rearranged<H>(before: Seq<H>, after: Seq<H>, lo: int, hi: int) -> bool {
    &&& after.len() == before.len()
    &&& forall|i: int| 0 <= i < lo || hi <= i < before.len() ==> after[i] == before[i]
    &&& after.subrange(lo, hi).to_multiset() == before.subrange(lo, hi).to_multiset()
}

/// Rearrangements of one range compose.
pub(crate) proof fn lemma_rearranged_transitive<H>(a: Seq<H>, b: Seq<H>, c: Seq<H>, lo: int, hi: int)
    requires
        rearranged(a, b, lo, hi),
        rearranged(b, c, lo, hi),
    ensures
        rearranged(a, c, lo, hi),
{
}

/// Rearranging the two halves of a range, one after the other, rearranges the
/// range, and leaves each half holding what it held.
pub(crate) proof fn lemma_halves_rearranged<H>(a: Seq<H>, b: Seq<H>, c: Seq<H>, lo: int, mid: int, hi: int)
    requires
        0 <= lo <= mid <= hi <= a.len(),
        rearranged(a, b, lo, mid),
        rearranged(b, c, mid, hi),
    ensures
        rearranged(a, c, lo, hi),
        c.subrange(lo, mid) == b.subrange(lo, mid),
        c.subrange(lo, mid).to_multiset() == a.subrange(lo, mid).to_multiset(),
        c.subrange(mid, hi).to_multiset() == a.subrange(mid, hi).to_multiset(),
{
    assert(c.subrange(lo, mid) =~= b.subrange(lo, mid));
    assert(b.subrange(mid, hi) =~= a.subrange(mid, hi));
    assert(a.subrange(lo, hi) =~= a.subrange(lo, mid) + a.subrange(mid, hi));
    assert(c.subrange(lo, hi) =~= c.subrange(lo, mid) + c.subrange(mid, hi));
    vstd::seq_lib::lemma_multiset_commutative(a.subrange(lo, mid), a.subrange(mid, hi));
    vstd::seq_lib::lemma_multiset_commutative(c.subrange(lo, mid), c.subrange(mid, hi));
}

/// The same with the second half rearranged first.
pub(crate) proof fn lemma_halves_rearranged_back<H>(
    a: Seq<H>,
    b: Seq<H>,
    c: Seq<H>,
    lo: int,
    mid: int,
    hi: int,
)
    requires
        0 <= lo <= mid <= hi <= a.len(),
        rearranged(a, b, mid, hi),
        rearranged(b, c, lo, mid),
    ensures
        rearranged(a, c, lo, hi),
        c.subrange(mid, hi) == b.subrange(mid, hi),
        c.subrange(lo, mid).to_multiset() == a.subrange(lo, mid).to_multiset(),
        c.subrange(mid, hi).to_multiset() == a.subrange(mid, hi).to_multiset(),
{
    assert(c.subrange(mid, hi) =~= b.subrange(mid, hi));
    assert(b.subrange(lo, mid) =~= a.subrange(lo, mid));
    assert(a.subrange(lo, hi) =~= a.subrange(lo, mid) + a.subrange(mid, hi));
    assert(c.subrange(lo, hi) =~= c.subrange(lo, mid) + c.subrange(mid, hi));
    vstd::seq_lib::lemma_multiset_commutative(a.subrange(lo, mid), a.subrange(mid, hi));
    vstd::seq_lib::lemma_multiset_commutative(c.subrange(lo, mid), c.subrange(mid, hi));
}

/// A sequence of one item can be rearranged in no way but one.
pub(crate) proof fn lemma_single_rearranged<A>(a: Seq<A>, b: Seq<A>)
    requires
        a.len() == 1,
        a.to_multiset() == b.to_multiset(),
    ensures
        a == b,
{
    vstd::seq_lib::to_multiset_len(a);
    vstd::seq_lib::to_multiset_len(b);
    vstd::seq_lib::to_multiset_contains(a, a[0]);
    vstd::seq_lib::to_multiset_contains(b, a[0]);
    assert(a.contains(a[0]));
    assert(b.contains(a[0]));
    assert(a =~= b);
}

/// Appending an item to either of two sequences adds it to what the two hold
/// together.
proof fn lemma_push_adds<A>(out: Seq<A>, a: Seq<A>, b: Seq<A>, x: A)
    requires
        out.to_multiset() == a.to_multiset().add(b.to_multiset()),
    ensures
        out.push(x).to_multiset() == a.push(x).to_multiset().add(b.to_multiset()),
        out.push(x).to_multiset() == a.to_multiset().add(b.push(x).to_multiset()),
{
    broadcast use {
        vstd::multiset::group_multiset_axioms,
        vstd::multiset::group_multiset_properties,
    };

    vstd::seq_lib::to_multiset_build(out, x);
    vstd::seq_lib::to_multiset_build(a, x);
    vstd::seq_lib::to_multiset_build(b, x);
    let with_a = a.to_multiset().insert(x).add(b.to_multiset());
    let with_b = a.to_multiset().add(b.to_multiset().insert(x));
    let both = a.to_multiset().add(b.to_multiset()).insert(x);
    assert forall|v: A| with_a.count(v) == both.count(v) && with_b.count(v) == both.count(v) by {
        if v == x {
            vstd::multiset::lemma_insert_increases_count_by_1(a.to_multiset(), x);
            vstd::multiset::lemma_insert_increases_count_by_1(b.to_multiset(), x);
            vstd::multiset::lemma_insert_increases_count_by_1(
                a.to_multiset().add(b.to_multiset()),
                x,
            );
        } else {
            vstd::multiset::lemma_insert_other_elements_unchanged(a.to_multiset(), x, v);
            vstd::multiset::lemma_insert_other_elements_unchanged(b.to_multiset(), x, v);
            vstd::multiset::lemma_insert_other_elements_unchanged(
                a.to_multiset().add(b.to_multiset()),
                x,
                v,
            );
        }
    }
    assert(with_a =~= both);
    assert(with_b =~= both);
}

fn start_along<H: Bounded>(h: &H, axis: usize) -> (k: i32)
    ensures
        k == key_along(*h, axis as int),
{
    h.aabb().min.axis(axis)
}

/// Merges the two sorted runs `objs[lo..mid]` and `objs[mid..hi]` into one;
/// of two items that begin at the same place the one from the first run
/// comes first.
fn merge_along<H: Bounded + Copy>(objs: &mut [H], lo: usize, mid: usize, hi: usize, axis: usize)
    requires
        lo <= mid <= hi <= old(objs)@.len(),
        sorted_along(old(objs)@.subrange(lo as int, mid as int), axis as int),
        sorted_along(old(objs)@.subrange(mid as int, hi as int), axis as int),
    ensures
        rearranged(old(objs)@, final(objs)@, lo as int, hi as int),
        sorted_along(final(objs)@.subrange(lo as int, hi as int), axis as int),
{
    broadcast use {
        vstd::seq_lib::group_to_multiset_ensures,
        vstd::multiset::group_multiset_axioms,
        vstd::multiset::group_multiset_properties,
    };

    let ghost first = objs@.subrange(lo as int, mid as int);
    let ghost second = objs@.subrange(mid as int, hi as int);
    let mut merged: Vec<H> = Vec::with_capacity(hi - lo);
    let mut i: usize = lo;
    let mut j: usize = mid;
    proof {
        assert(first.subrange(0, 0) =~= Seq::<H>::empty());
        assert(second.subrange(0, 0) =~= Seq::<H>::empty());
        assert(merged@.to_multiset() =~= first.subrange(0, 0).to_multiset().add(
            second.subrange(0, 0).to_multiset(),
        ));
    }
    while i < mid || j < hi
        invariant
            lo <= i <= mid <= j <= hi <= objs@.len(),
            objs@ == old(objs)@,
            first == objs@.subrange(lo as int, mid as int),
            second == objs@.subrange(mid as int, hi as int),
            sorted_along(first, axis as int),
            sorted_along(second, axis as int),
            merged@.len() == (i - lo) + (j - mid),
            merged@.to_multiset() == first.subrange(0, i - lo).to_multiset().add(
                second.subrange(0, j - mid).to_multiset(),
            ),
            sorted_along(merged@, axis as int),
            forall|k: int, m: int|
                0 <= k < merged@.len() && i - lo <= m < first.len() ==> key_along(
                    #[trigger] merged@[k],
                    axis as int,
                ) <= key_along(#[trigger] first[m], axis as int),
            forall|k: int, m: int|
                0 <= k < merged@.len() && j - mid <= m < second.len() ==> key_along(
                    #[trigger] merged@[k],
                    axis as int,
                ) <= key_along(#[trigger] second[m], axis as int),
        decreases (mid - i) + (hi - j),
    {
        let from_first = if i == mid {
            false
        } else if j == hi {
            true
        } else {
            start_along(&objs[i], axis) <= start_along(&objs[j], axis)
        };
        let ghost before = merged@;
        if from_first {
            let next = objs[i];
            merged.push(next);
            proof {
                assert(next == first[i - lo]);
                assert(first.subrange(0, i - lo + 1) =~= first.subrange(0, i - lo).push(next));
                assert(merged@ =~= before.push(next));
                lemma_push_adds(
                    before,
                    first.subrange(0, i - lo),
                    second.subrange(0, j - mid),
                    next,
                );
                assert forall|k: int, m: int|
                    0 <= k < merged@.len() && j - mid <= m < second.len() implies key_along(
                    #[trigger] merged@[k],
                    axis as int,
                ) <= key_along(#[trigger] second[m], axis as int) by {
                    if k == before.len() {
                        assert(objs@[j as int] == second[j - mid]);
                    } else {
                        assert(merged@[k] == before[k]);
                    }
                }
                assert forall|k: int, m: int|
                    0 <= k < merged@.len() && i + 1 - lo <= m < first.len() implies key_along(
                    #[trigger] merged@[k],
                    axis as int,
                ) <= key_along(#[trigger] first[m], axis as int) by {
                    if k < before.len() {
                        assert(merged@[k] == before[k]);
                    }
                }
                assert forall|a: int, b: int| 0 <= a <= b < merged@.len() implies key_along(
                    #[trigger] merged@[a],
                    axis as int,
                ) <= key_along(#[trigger] merged@[b], axis as int) by {
                    if b < before.len() {
                        assert(merged@[a] == before[a] && merged@[b] == before[b]);
                    } else if a < before.len() {
                        assert(merged@[a] == before[a]);
                    }
                }
            }
            i += 1;
        } else {
            let next = objs[j];
            merged.push(next);
            proof {
                assert(next == second[j - mid]);
                assert(second.subrange(0, j - mid + 1) =~= second.subrange(0, j - mid).push(next));
                assert(merged@ =~= before.push(next));
                lemma_push_adds(
                    before,
                    first.subrange(0, i - lo),
                    second.subrange(0, j - mid),
                    next,
                );
                assert forall|k: int, m: int|
                    0 <= k < merged@.len() && i - lo <= m < first.len() implies key_along(
                    #[trigger] merged@[k],
                    axis as int,
                ) <= key_along(#[trigger] first[m], axis as int) by {
                    if k == before.len() {
                        assert(objs@[i as int] == first[i - lo]);
                    } else {
                        assert(merged@[k] == before[k]);
                    }
                }
                assert forall|k: int, m: int|
                    0 <= k < merged@.len() && j + 1 - mid <= m < second.len() implies key_along(
                    #[trigger] merged@[k],
                    axis as int,
                ) <= key_along(#[trigger] second[m], axis as int) by {
                    if k < before.len() {
                        assert(merged@[k] == before[k]);
                    }
                }
                assert forall|a: int, b: int| 0 <= a <= b < merged@.len() implies key_along(
                    #[trigger] merged@[a],
                    axis as int,
                ) <= key_along(#[trigger] merged@[b], axis as int) by {
                    if b < before.len() {
                        assert(merged@[a] == before[a] && merged@[b] == before[b]);
                    } else if a < before.len() {
                        assert(merged@[a] == before[a]);
                    }
                }
            }
            j += 1;
        }
    }
    proof {
        assert(first.subrange(0, mid - lo) =~= first);
        assert(second.subrange(0, hi - mid) =~= second);
        assert(objs@.subrange(lo as int, hi as int) =~= first + second);
        vstd::seq_lib::lemma_multiset_commutative(first, second);
    }
    let mut k: usize = 0;
    while k < merged.len()
        invariant
            lo <= hi <= objs@.len(),
            merged@.len() == hi - lo,
            k <= merged@.len(),
            objs@.len() == old(objs)@.len(),
            forall|p: int| 0 <= p < lo || hi <= p < objs@.len() ==> objs@[p] == old(objs)@[p],
            forall|p: int| 0 <= p < k ==> objs@[lo + p] == merged@[p],
        decreases merged@.len() - k,
    {
        objs[lo + k] = merged[k];
        k += 1;
    }
    proof {
        assert(objs@.subrange(lo as int, hi as int) =~= merged@);
    }
}

/// Sorts `objs[lo..hi]` by where each item's box begins along `axis`; the
/// rest of the slice stays as it is.
pub fn sort_along<H: Bounded + Copy>(objs: &mut [H], lo: usize, hi: usize, axis: usize)
    requires
        lo <= hi <= old(objs)@.len(),
    ensures
        rearranged(old(objs)@, final(objs)@, lo as int, hi as int),
        sorted_along(final(objs)@.subrange(lo as int, hi as int), axis as int),
    decreases hi - lo,
{
    if hi - lo < 2 {
        return ;
    }
    let mid = lo + (hi - lo) / 2;
    sort_along(objs, lo, mid, axis);
    let ghost halfway = objs@;
    sort_along(objs, mid, hi, axis);
    proof {
        lemma_halves_rearranged(
            old(objs)@,
            halfway,
            objs@,
            lo as int,
            mid as int,
            hi as int,
        );
    }
    let ghost sorted_halves = objs@;
    merge_along(objs, lo, mid, hi, axis);
    proof {
        lemma_rearranged_transitive(old(objs)@, sorted_halves, objs@, lo as int, hi as int);
    }
}

} // verus!
