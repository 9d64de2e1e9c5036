//! What the search structures ask of rays and of the things rays hit.

use crate::aabb::Aabb;
use crate::intersection::{enters_spec, ray_enters_box};
use vstd::prelude::*;

verus! {

/// A hit: how far along the ray it lies, and on which object.
#[derive(Clone, Copy, Debug, PartialEq, Eq, Structural)]
pub struct HitRecord {
    /// Order key of the ray parameter at the hit.
    pub t: i32,
    /// The object that was hit, by the identifier its owner gave it.
    pub id: u32,
}

impl HitRecord {
    pub fn new(t: i32, id: u32) -> (rec: HitRecord)
        ensures
            rec == (HitRecord { t, id }),
    {
        HitRecord { t, id }
    }
}

/// Of two search results the one with the smaller parameter; the first where
/// they tie.
pub open spec fn nearer(first: Option<HitRecord>, second: Option<HitRecord>) -> Option<HitRecord> {
    match (first, second) {
        (Some(a), Some(b)) => if b.t < a.t {
            second
        } else {
            first
        },
        (Some(_), None) => first,
        (None, _) => second,
    }
}

/// Executable form of [`nearer`].
pub fn pick_nearer(first: Option<HitRecord>, second: Option<HitRecord>) -> (best: Option<
    HitRecord,
>)
    ensures
        best == nearer(first, second),
{
    match (first, second) {
        (Some(a), Some(b)) => if b.t < a.t {
            second
        } else {
            first
        },
        (Some(_), None) => first,
        (None, _) => second,
    }
}

/// A ray, as far as pruning needs one: it can say, for each axis, between
/// which parameters it lies between the two planes of a box.
///
/// Whoever implements this promises that the spans depend on the ray and the
/// box alone.  Nothing more is taken on trust: what makes pruning safe is a
/// hypothesis of the laws that need it.
pub trait Probe {
    /// The spans of the ray around the box; entry `a` is for axis `a`.
    spec fn spans_spec(&self, aabb: Aabb) -> [(i32, i32); 3];

    /// For each axis the keys of the parameters at which the ray passes the
    /// nearer and the farther plane of the box.
    fn spans(&self, aabb: &Aabb) -> (spans: [(i32, i32); 3])
        ensures
            spans == self.spans_spec(*aabb),
    ;
}

/// The ray passes through the box somewhere strictly between the bounds.
pub open spec fn enters<R: Probe>(ray: &R, aabb: Aabb, t_min: i32, t_max: i32) -> bool {
    enters_spec(ray.spans_spec(aabb), t_min, t_max)
}

/// Whether a search along `ray` has to look into the box.
pub fn ray_enters<R: Probe>(ray: &R, aabb: &Aabb, t_min_max: (i32, i32)) -> (inside: bool)
    ensures
        inside == enters(ray, *aabb, t_min_max.0, t_min_max.1),
{
    let spans = ray.spans(aabb);
    ray_enters_box(&spans, t_min_max)
}

/// Something with a box around it.
///
/// Whoever implements this promises that the box depends on the value alone.
pub trait Bounded {
    /// The box around the value.
    spec fn aabb_spec(&self) -> Aabb;

    fn aabb(&self) -> (b: Aabb)
        ensures
            b == self.aabb_spec(),
    ;
}

impl Bounded for Aabb {
    open spec fn aabb_spec(&self) -> Aabb {
        *self
    }

    fn aabb(&self) -> (b: Aabb) {
        *self
    }
}

/// Something a ray can hit.
///
/// Whoever implements this promises that a hit depends on the value, the ray
/// and the bounds alone.
pub trait Hit: Bounded {
    /// The rays that can be cast at the value.
    type Ray: Probe;

    /// What `hit` finds.
    spec fn hit_spec(&self, ray: &Self::Ray, t_min: i32, t_max: i32) -> Option<HitRecord>;

    /// The nearest hit of `ray` on `self` with parameter strictly between the
    /// two bounds, if there is one.
    fn hit(&self, ray: &Self::Ray, t_min_max: (i32, i32)) -> (rec: Option<HitRecord>)
        ensures
            rec == self.hit_spec(ray, t_min_max.0, t_min_max.1),
    ;
}

/// The nearest hit among `items`, the earliest item where several tie.
pub open spec fn nearest<H: Hit>(items: Seq<H>, ray: &H::Ray, t_min: i32, t_max: i32) -> Option<
    HitRecord,
>
    decreases items.len(),
{
    if items.len() == 0 {
        None
    } else {
        nearer(
            nearest(items.drop_last(), ray, t_min, t_max),
            items.last().hit_spec(ray, t_min, t_max),
        )
    }
}

/// The union of the boxes of `items`, starting from the empty box.
pub open spec fn bounds<H: Bounded>(items: Seq<H>) -> Aabb
    decreases items.len(),
{
    if items.len() == 0 {
        Aabb::empty_spec()
    } else {
        Aabb::union_spec(bounds(items.drop_last()), items.last().aabb_spec())
    }
}

/// Two search results lie equally far: both are misses, or both are hits with
/// the same parameter.
pub open spec fn same_distance(a: Option<HitRecord>, b: Option<HitRecord>) -> bool {
    match (a, b) {
        (Some(x), Some(y)) => x.t == y.t,
        (None, None) => true,
        _ => false,
    }
}

/// Searching a list of one item is casting the ray at that item.
pub proof fn lemma_nearest_single<H: Hit>(h: H, ray: &H::Ray, t_min: i32, t_max: i32)
    ensures
        nearest(seq![h], ray, t_min, t_max) == h.hit_spec(ray, t_min, t_max),
{
    let one = seq![h];
    assert(one.drop_last() =~= Seq::<H>::empty());
    assert(one.last() == h);
    assert(nearest(one.drop_last(), ray, t_min, t_max) is None);
}

/// The box of a list of one item is that item's box.
pub proof fn lemma_bounds_single<H: Bounded>(h: H)
    ensures
        bounds(seq![h]) == h.aabb_spec(),
{
    let one = seq![h];
    assert(one.drop_last() =~= Seq::<H>::empty());
    assert(one.last() == h);
    assert(bounds(one.drop_last()) == Aabb::empty_spec());
    Aabb::lemma_union_empty(h.aabb_spec());
}

/// Picking the nearer does not depend on grouping, and a miss changes nothing.
pub proof fn lemma_nearer_associative(
    a: Option<HitRecord>,
    b: Option<HitRecord>,
    c: Option<HitRecord>,
)
    ensures
        nearer(nearer(a, b), c) == nearer(a, nearer(b, c)),
        nearer(a, None) == a,
        nearer(None, a) == a,
{
}

/// Searching a list in two parts and picking the nearer is searching the list.
pub proof fn lemma_nearest_concat<H: Hit>(
    front: Seq<H>,
    back: Seq<H>,
    ray: &H::Ray,
    t_min: i32,
    t_max: i32,
)
    ensures
        nearest(front + back, ray, t_min, t_max) == nearer(
            nearest(front, ray, t_min, t_max),
            nearest(back, ray, t_min, t_max),
        ),
    decreases back.len(),
{
    if back.len() == 0 {
        assert(front + back =~= front);
    } else {
        let last = back.last().hit_spec(ray, t_min, t_max);
        assert((front + back).drop_last() =~= front + back.drop_last());
        assert((front + back).last() == back.last());
        lemma_nearest_concat(front, back.drop_last(), ray, t_min, t_max);
        lemma_nearer_associative(
            nearest(front, ray, t_min, t_max),
            nearest(back.drop_last(), ray, t_min, t_max),
            last,
        );
    }
}

/// `other` is a miss, or a hit that is not nearer than `best`.
pub open spec fn no_nearer(best: HitRecord, other: Option<HitRecord>) -> bool {
    other matches Some(rec) ==> best.t <= rec.t
}

/// What a search returns: a miss exactly when no item is hit; otherwise the
/// hit of some item, and no item is hit nearer.
pub proof fn lemma_nearest_is_least<H: Hit>(items: Seq<H>, ray: &H::Ray, t_min: i32, t_max: i32)
    ensures
        nearest(items, ray, t_min, t_max) is None <==> forall|i: int|
            0 <= i < items.len() ==> (#[trigger] items[i]).hit_spec(ray, t_min, t_max) is None,
        nearest(items, ray, t_min, t_max) matches Some(best) ==> {
            &&& exists|i: int|
                0 <= i < items.len() && (#[trigger] items[i]).hit_spec(ray, t_min, t_max) == Some(
                    best,
                )
            &&& forall|i: int|
                0 <= i < items.len() ==> no_nearer(
                    best,
                    (#[trigger] items[i]).hit_spec(ray, t_min, t_max),
                )
        },
    decreases items.len(),
{
    if items.len() > 0 {
        let front = items.drop_last();
        lemma_nearest_is_least(front, ray, t_min, t_max);
        assert forall|i: int| 0 <= i < front.len() implies front[i] == items[i] by {}
        let before = nearest(front, ray, t_min, t_max);
        let last = items.last().hit_spec(ray, t_min, t_max);
        let n = items.len() - 1;
        assert(items[n] == items.last());
        if nearest(items, ray, t_min, t_max) is None {
            assert(before is None && last is None);
            assert forall|i: int| 0 <= i < items.len() implies (#[trigger] items[i]).hit_spec(
                ray,
                t_min,
                t_max,
            ) is None by {
                if i < n {
                    assert(front[i] == items[i]);
                }
            }
        } else {
            let best = nearest(items, ray, t_min, t_max)->0;
            if before is Some && nearest(items, ray, t_min, t_max) == before {
                let w = choose|i: int|
                    0 <= i < front.len() && (#[trigger] front[i]).hit_spec(ray, t_min, t_max)
                        == Some(best);
                assert(items[w].hit_spec(ray, t_min, t_max) == Some(best));
            } else {
                assert(last == Some(best));
                assert(items[n].hit_spec(ray, t_min, t_max) == Some(best));
            }
            assert forall|i: int| 0 <= i < items.len() implies ((#[trigger] items[i]).hit_spec(
                ray,
                t_min,
                t_max,
            ) matches Some(other) ==> best.t <= other.t) by {
                if i < n {
                    assert(front[i] == items[i]);
                }
            }
        }
    }
}

/// The distance of the nearest hit does not depend on the order of the items.
pub proof fn lemma_nearest_of_permutation<H: Hit>(
    a: Seq<H>,
    b: Seq<H>,
    ray: &H::Ray,
    t_min: i32,
    t_max: i32,
)
    requires
        a.to_multiset() == b.to_multiset(),
    ensures
        same_distance(nearest(a, ray, t_min, t_max), nearest(b, ray, t_min, t_max)),
{
    lemma_nearest_is_least(a, ray, t_min, t_max);
    lemma_nearest_is_least(b, ray, t_min, t_max);
    lemma_same_members(a, b);
    lemma_same_members(b, a);
    let na = nearest(a, ray, t_min, t_max);
    let nb = nearest(b, ray, t_min, t_max);
    if na is Some {
        let best = na->0;
        let i = choose|i: int|
            0 <= i < a.len() && (#[trigger] a[i]).hit_spec(ray, t_min, t_max) == Some(best);
        assert(b.contains(a[i]));
        let j = choose|j: int| 0 <= j < b.len() && b[j] == a[i];
        assert(b[j].hit_spec(ray, t_min, t_max) == Some(best));
        assert(nb is Some);
    }
    if nb is Some {
        let best = nb->0;
        let i = choose|i: int|
            0 <= i < b.len() && (#[trigger] b[i]).hit_spec(ray, t_min, t_max) == Some(best);
        assert(a.contains(b[i]));
        let j = choose|j: int| 0 <= j < a.len() && a[j] == b[i];
        assert(a[j].hit_spec(ray, t_min, t_max) == Some(best));
        assert(na is Some);
    }
}

/// Sequences that hold the same things have the same members.
pub(crate) proof fn lemma_same_members<A>(a: Seq<A>, b: Seq<A>)
    requires
        a.to_multiset() == b.to_multiset(),
    ensures
        forall|i: int| 0 <= i < a.len() ==> b.contains(#[trigger] a[i]),
{
    assert forall|i: int| 0 <= i < a.len() implies b.contains(#[trigger] a[i]) by {
        vstd::seq_lib::to_multiset_contains(a, a[i]);
        vstd::seq_lib::to_multiset_contains(b, a[i]);
        assert(a.contains(a[i]));
    }
}

/// The box of a list in two parts is the union of the boxes of the parts.
pub proof fn lemma_bounds_concat<H: Bounded>(front: Seq<H>, back: Seq<H>)
    ensures
        bounds(front + back) == Aabb::union_spec(bounds(front), bounds(back)),
    decreases back.len(),
{
    if back.len() == 0 {
        assert(front + back =~= front);
        Aabb::lemma_union_empty(bounds(front));
    } else {
        assert((front + back).drop_last() =~= front + back.drop_last());
        assert((front + back).last() == back.last());
        lemma_bounds_concat(front, back.drop_last());
        Aabb::lemma_union_commutes(
            bounds(front),
            bounds(back.drop_last()),
            back.last().aabb_spec(),
        );
    }
}

/// The box of a list covers the box of each of its items.
pub proof fn lemma_bounds_cover<H: Bounded>(items: Seq<H>, i: int)
    requires
        0 <= i < items.len(),
    ensures
        bounds(items).covers(items[i].aabb_spec()),
    decreases items.len(),
{
    let front = items.drop_last();
    Aabb::lemma_union_least(bounds(front), items.last().aabb_spec(), bounds(items));
    if i < items.len() - 1 {
        lemma_bounds_cover(front, i);
        Aabb::lemma_covers_transitive(
            bounds(items),
            bounds(front),
            items[i].aabb_spec(),
            items[i].aabb_spec().min,
        );
    }
}

} // verus!
