//! The bounding volume hierarchy as a tree: built by median split, searched
//! depth first with pruning by box.

use crate::aabb::Aabb;
use crate::hit::{
    bounds, enters, lemma_bounds_concat, lemma_bounds_cover, lemma_bounds_single,
    lemma_nearest_concat, lemma_nearest_is_least, lemma_nearest_of_permutation,
    lemma_nearest_single, lemma_same_members, nearer, nearest, pick_nearer, ray_enters,
    same_distance, Bounded, Hit, HitRecord, Probe,
};
use crate::intersection::{lemma_enters_monotone, lemma_point_enters, spans_cover, T_FAR};
use crate::random::random_axis;
use crate::sorting::{
    key_along, lemma_halves_rearranged, lemma_rearranged_transitive, lemma_single_rearranged,
    rearranged, sort_along, sorted_along,
};
use vstd::prelude::*;

verus! {

pub enum BvhNodeData<H: Hit + Copy> {
    Leaf(H),
    Node { left: Box<BvhNode<H>>, right: Box<BvhNode<H>> },
}

pub struct BvhNode<H: Hit + Copy> {
    data: BvhNodeData<H>,
    aabb: Aabb,
}

/// How the axis of a split is chosen.
#[derive(Clone, Copy, Debug, PartialEq, Eq, Structural)]
pub enum SplitAxis {
    /// Drawn anew at every node.
    Random,
    /// This axis here, the next one a level down, and so on around.
    RoundRobin(usize),
}

impl SplitAxis {
    /// The axis that this choice gives at a node; any number counts modulo 3.
    pub open spec fn here(self) -> Option<int> {
        match self {
            SplitAxis::Random => None,
            SplitAxis::RoundRobin(axis) => Some(axis as int % 3),
        }
    }

    /// The choice that holds one level further down.
    pub open spec fn below(self) -> SplitAxis {
        match self {
            SplitAxis::Random => SplitAxis::Random,
            SplitAxis::RoundRobin(axis) => SplitAxis::RoundRobin(((axis % 3 + 1) % 3) as usize),
        }
    }

    /// The axis to split along at this node, and the choice for its children.
    pub fn next(self) -> (step: (usize, SplitAxis))
        ensures
            step.0 < 3,
            self.here() matches Some(axis) ==> step.0 == axis,
            step.1 == self.below(),
    {
        match self {
            SplitAxis::Random => (random_axis(), SplitAxis::Random),
            SplitAxis::RoundRobin(axis) => (axis % 3, SplitAxis::RoundRobin((axis % 3 + 1) % 3)),
        }
    }
}

/// Every item of `left` begins at or before every item of `right` along `axis`.
pub open spec fn separated<H: Bounded>(left: Seq<H>, right: Seq<H>, axis: int) -> bool {
    forall|i: int, j: int|
        0 <= i < left.len() && 0 <= j < right.len() ==> key_along(#[trigger] left[i], axis)
            <= key_along(#[trigger] right[j], axis)
}

/// The two halves of a split are separated along the axis that `axes` gives
/// for the node; where it gives none, along some axis.
pub open spec fn split_by<H: Bounded>(left: Seq<H>, right: Seq<H>, axes: SplitAxis) -> bool {
    match axes.here() {
        Some(axis) => separated(left, right, axis),
        None => exists|axis: int| 0 <= axis < 3 && #[trigger] separated(left, right, axis),
    }
}

/// Whenever an item is hit, the ray enters every box that covers the item's
/// own.  This is what makes pruning by box safe.
pub open spec fn prunes_safely<H: Hit>(
    items: Seq<H>,
    ray: &H::Ray,
    t_min: i32,
    t_max: i32,
) -> bool {
    forall|i: int, b: Aabb|
        0 <= i < items.len() && #[trigger] b.covers(items[i].aabb_spec()) && items[i].hit_spec(
            ray,
            t_min,
            t_max,
        ) is Some ==> enters(ray, b, t_min, t_max)
}

/// Once a range is sorted along an axis, its two halves stay separated along
/// that axis however each is rearranged within itself.
pub(crate) proof fn lemma_sorted_halves_separated<H: Bounded>(
    a: Seq<H>,
    c: Seq<H>,
    lo: int,
    mid: int,
    hi: int,
    axis: int,
)
    requires
        0 <= lo <= mid <= hi <= a.len(),
        a.len() == c.len(),
        sorted_along(a.subrange(lo, hi), axis),
        c.subrange(lo, mid).to_multiset() == a.subrange(lo, mid).to_multiset(),
        c.subrange(mid, hi).to_multiset() == a.subrange(mid, hi).to_multiset(),
    ensures
        separated(c.subrange(lo, mid), c.subrange(mid, hi), axis),
{
    let al = a.subrange(lo, mid);
    let ar = a.subrange(mid, hi);
    let cl = c.subrange(lo, mid);
    let cr = c.subrange(mid, hi);
    let whole = a.subrange(lo, hi);
    assert forall|i: int, j: int| 0 <= i < cl.len() && 0 <= j < cr.len() implies key_along(
        #[trigger] cl[i],
        axis,
    ) <= key_along(#[trigger] cr[j], axis) by {
        vstd::seq_lib::to_multiset_contains(cl, cl[i]);
        vstd::seq_lib::to_multiset_contains(al, cl[i]);
        vstd::seq_lib::to_multiset_contains(cr, cr[j]);
        vstd::seq_lib::to_multiset_contains(ar, cr[j]);
        assert(cl.contains(cl[i]));
        assert(cr.contains(cr[j]));
        let x = choose|x: int| 0 <= x < al.len() && al[x] == cl[i];
        let y = choose|y: int| 0 <= y < ar.len() && ar[y] == cr[j];
        assert(whole[x] == al[x]);
        assert(whole[y + (mid - lo)] == ar[y]);
    }
}

/// Around a wider box the ray's spans are wider: they hold the spans around
/// any box that the wider one covers.
pub open spec fn spans_widen<R: Probe>(ray: &R, inner: Aabb) -> bool {
    forall|outer: Aabb| #[trigger]
        outer.covers(inner) ==> spans_cover(ray.spans_spec(outer), ray.spans_spec(inner))
}

/// A hit lies ahead of the ray's origin, strictly between the bounds, and
/// inside the box of what was hit.
pub open spec fn hit_in_box<H: Hit>(item: H, ray: &H::Ray, t_min: i32, t_max: i32) -> bool {
    item.hit_spec(ray, t_min, t_max) matches Some(rec) ==> {
        &&& t_min < rec.t < t_max
        &&& 0 <= rec.t <= T_FAR
        &&& forall|a: int|
            0 <= a < 3 ==> (#[trigger] ray.spans_spec(item.aabb_spec())[a]).0 <= rec.t && rec.t
                <= ray.spans_spec(item.aabb_spec())[a].1
    }
}

/// Pruning by box is safe as soon as the ray's spans widen with the box and
/// every hit lies in the box of its item.
pub proof fn lemma_prunes_safely<H: Hit>(items: Seq<H>, ray: &H::Ray, t_min: i32, t_max: i32)
    requires
        forall|i: int| 0 <= i < items.len() ==> spans_widen(ray, (#[trigger] items[i]).aabb_spec()),
        forall|i: int| 0 <= i < items.len() ==> hit_in_box(#[trigger] items[i], ray, t_min, t_max),
    ensures
        prunes_safely(items, ray, t_min, t_max),
{
    assert forall|i: int, b: Aabb|
        0 <= i < items.len() && #[trigger] b.covers(items[i].aabb_spec()) && items[i].hit_spec(
            ray,
            t_min,
            t_max,
        ) is Some implies enters(ray, b, t_min, t_max) by {
        let own = items[i].aabb_spec();
        let rec = items[i].hit_spec(ray, t_min, t_max)->0;
        assert(spans_widen(ray, own));
        assert(hit_in_box(items[i], ray, t_min, t_max));
        lemma_point_enters(ray.spans_spec(own), rec.t, t_min, t_max);
        lemma_enters_monotone(ray.spans_spec(own), ray.spans_spec(b), t_min, t_max);
    }
}

impl<H: Hit + Copy> BvhNode<H> {
    /// What the node holds: an item, or two subtrees.
    pub closed spec fn node_data(&self) -> BvhNodeData<H> {
        self.data
    }

    /// The box stored in the node.
    pub closed spec fn bounding(&self) -> Aabb {
        self.aabb
    }

    /// The items at the leaves, from left to right.
    pub open spec fn leaves(&self) -> Seq<H>
        decreases self,
    {
        match self.node_data() {
            BvhNodeData::Leaf(h) => seq![h],
            BvhNodeData::Node { left, right } => left.leaves() + right.leaves(),
        }
    }

    /// A leaf's box is its item's box; an inner node's box is the union of
    /// its children's boxes.
    #[verifier::type_invariant]
    pub open spec fn wf(&self) -> bool
        decreases self,
    {
        match self.node_data() {
            BvhNodeData::Leaf(h) => self.bounding() == h.aabb_spec(),
            BvhNodeData::Node { left, right } => {
                &&& left.wf()
                &&& right.wf()
                &&& self.bounding() == Aabb::union_spec(left.bounding(), right.bounding())
            },
        }
    }

    /// At every inner node the left subtree holds half of the items, rounded
    /// down, and along the axis of the split none of them begins after an
    /// item on the right.  `axes` says which axis that is at the root.
    pub open spec fn median_split(&self, axes: SplitAxis) -> bool
        decreases self,
    {
        match self.node_data() {
            BvhNodeData::Leaf(h) => true,
            BvhNodeData::Node { left, right } => {
                &&& left.median_split(axes.below())
                &&& right.median_split(axes.below())
                &&& left.leaves().len() == (left.leaves().len() + right.leaves().len()) / 2
                &&& split_by(left.leaves(), right.leaves(), axes)
            },
        }
    }

    /// The result of a search, as the tree computes it.
    pub open spec fn search(&self, ray: &H::Ray, t_min: i32, t_max: i32) -> Option<HitRecord>
        decreases self,
    {
        if !enters(ray, self.bounding(), t_min, t_max) {
            None
        } else {
            match self.node_data() {
                BvhNodeData::Leaf(h) => h.hit_spec(ray, t_min, t_max),
                BvhNodeData::Node { left, right } => nearer(
                    left.search(ray, t_min, t_max),
                    right.search(ray, t_min, t_max),
                ),
            }
        }
    }

    pub fn is_leaf(&self) -> (leaf: bool)
        ensures
            leaf == (self.node_data() is Leaf),
    {
        match &self.data {
            BvhNodeData::Leaf(_) => true,
            BvhNodeData::Node { .. } => false,
        }
    }

    /// The item of a leaf.
    pub fn item(&self) -> (item: Option<H>)
        ensures
            item == match self.node_data() {
                BvhNodeData::Leaf(h) => Some(h),
                BvhNodeData::Node { .. } => None,
            },
    {
        match &self.data {
            BvhNodeData::Leaf(h) => Some(*h),
            BvhNodeData::Node { .. } => None,
        }
    }

    /// The left subtree of an inner node.
    pub fn left(&self) -> (child: Option<&BvhNode<H>>)
        ensures
            child == match self.node_data() {
                BvhNodeData::Leaf(_) => None,
                BvhNodeData::Node { left, right } => Some(&*left),
            },
    {
        match &self.data {
            BvhNodeData::Leaf(_) => None,
            BvhNodeData::Node { left, right } => Some(&**left),
        }
    }

    /// The right subtree of an inner node.
    pub fn right(&self) -> (child: Option<&BvhNode<H>>)
        ensures
            child == match self.node_data() {
                BvhNodeData::Leaf(_) => None,
                BvhNodeData::Node { left, right } => Some(&*right),
            },
    {
        match &self.data {
            BvhNodeData::Leaf(_) => None,
            BvhNodeData::Node { left, right } => Some(&**right),
        }
    }

    /// The box of a well-formed tree is the union of the boxes of its leaves.
    pub proof fn lemma_bounding_is_bounds(&self)
        requires
            self.wf(),
        ensures
            self.bounding() == bounds(self.leaves()),
        decreases self,
    {
        match self.node_data() {
            BvhNodeData::Leaf(h) => {
                assert(self.leaves() == seq![h]);
                lemma_bounds_single(h);
            },
            BvhNodeData::Node { left, right } => {
                left.lemma_bounding_is_bounds();
                right.lemma_bounding_is_bounds();
                lemma_bounds_concat(left.leaves(), right.leaves());
            },
        }
    }

    /// A tree over one item is a leaf that holds it, under the item's own box.
    pub proof fn lemma_single_leaf(&self)
        requires
            self.wf(),
            self.leaves().len() == 1,
        ensures
            self.node_data() == BvhNodeData::Leaf(self.leaves()[0]),
            self.bounding() == self.leaves()[0].aabb_spec(),
    {
        match self.node_data() {
            BvhNodeData::Leaf(h) => {},
            BvhNodeData::Node { left, right } => {
                left.lemma_has_leaves();
                right.lemma_has_leaves();
            },
        }
    }

    /// No tree is without leaves.
    pub proof fn lemma_has_leaves(&self)
        ensures
            self.leaves().len() >= 1,
        decreases self,
    {
        match self.node_data() {
            BvhNodeData::Leaf(h) => {},
            BvhNodeData::Node { left, right } => {
                left.lemma_has_leaves();
            },
        }
    }

    /// Searching a well-formed tree finds what a scan of its leaves from left
    /// to right finds, provided that pruning by box is safe for this ray.
    pub proof fn lemma_search_is_scan(&self, ray: &H::Ray, t_min: i32, t_max: i32)
        requires
            self.wf(),
            prunes_safely(self.leaves(), ray, t_min, t_max),
        ensures
            self.search(ray, t_min, t_max) == nearest(self.leaves(), ray, t_min, t_max),
        decreases self,
    {
        let items = self.leaves();
        match self.node_data() {
            BvhNodeData::Leaf(h) => {
                assert(items == seq![h]);
                lemma_nearest_single(h, ray, t_min, t_max);
                assert(items[0] == h);
                assert(self.bounding().covers(items[0].aabb_spec()));
            },
            BvhNodeData::Node { left, right } => {
                let l = left.leaves();
                let r = right.leaves();
                assert forall|i: int, b: Aabb|
                    0 <= i < l.len() && #[trigger] b.covers(l[i].aabb_spec()) && l[i].hit_spec(
                        ray,
                        t_min,
                        t_max,
                    ) is Some implies enters(ray, b, t_min, t_max) by {
                    assert(items[i] == l[i]);
                }
                assert forall|i: int, b: Aabb|
                    0 <= i < r.len() && #[trigger] b.covers(r[i].aabb_spec()) && r[i].hit_spec(
                        ray,
                        t_min,
                        t_max,
                    ) is Some implies enters(ray, b, t_min, t_max) by {
                    assert(items[l.len() + i] == r[i]);
                }
                left.lemma_search_is_scan(ray, t_min, t_max);
                right.lemma_search_is_scan(ray, t_min, t_max);
                lemma_nearest_concat(l, r, ray, t_min, t_max);
                if !enters(ray, self.bounding(), t_min, t_max) {
                    self.lemma_bounding_is_bounds();
                    lemma_nearest_is_least(items, ray, t_min, t_max);
                    assert forall|i: int| 0 <= i < items.len() implies (#[trigger] items[i])
                        .hit_spec(ray, t_min, t_max) is None by {
                        lemma_bounds_cover(items, i);
                        assert(self.bounding().covers(items[i].aabb_spec()));
                    }
                }
            },
        }
    }

    /// A tree built over the items of a list finds a hit exactly when a scan
    /// of the list does, and at the same distance, provided that pruning by
    /// box is safe for this ray.
    pub proof fn lemma_search_matches_list(
        &self,
        list: Seq<H>,
        ray: &H::Ray,
        t_min: i32,
        t_max: i32,
    )
        requires
            self.wf(),
            self.leaves().to_multiset() == list.to_multiset(),
            prunes_safely(list, ray, t_min, t_max),
        ensures
            same_distance(self.search(ray, t_min, t_max), nearest(list, ray, t_min, t_max)),
    {
        let items = self.leaves();
        lemma_same_members(items, list);
        assert forall|i: int, b: Aabb|
            0 <= i < items.len() && #[trigger] b.covers(items[i].aabb_spec()) && items[i].hit_spec(
                ray,
                t_min,
                t_max,
            ) is Some implies enters(ray, b, t_min, t_max) by {
            assert(list.contains(items[i]));
            let j = choose|j: int| 0 <= j < list.len() && list[j] == items[i];
            assert(b.covers(list[j].aabb_spec()));
        }
        self.lemma_search_is_scan(ray, t_min, t_max);
        lemma_nearest_of_permutation(items, list, ray, t_min, t_max);
    }

    /// Builds the tree over `objs` by median split, drawing the axis of each
    /// split by chance.  The slice is left in the order of the leaves.
    pub fn build(objs: &mut [H]) -> (node: BvhNode<H>)
        requires
            old(objs)@.len() > 0,
        ensures
            node.wf(),
            node.median_split(SplitAxis::Random),
            node.leaves() == final(objs)@,
            final(objs)@.len() == old(objs)@.len(),
            final(objs)@.to_multiset() == old(objs)@.to_multiset(),
            old(objs)@.len() == 1 ==> final(objs)@ == old(objs)@ && node.node_data()
                == BvhNodeData::Leaf(old(objs)@[0]) && node.bounding()
                == old(objs)@[0].aabb_spec(),
    {
        Self::build_with(objs, SplitAxis::Random)
    }

    /// Builds the tree over `objs` by median split, choosing axes as `axes`
    /// says.  The slice is left in the order of the leaves.
    pub fn build_with(objs: &mut [H], axes: SplitAxis) -> (node: BvhNode<H>)
        requires
            old(objs)@.len() > 0,
        ensures
            node.wf(),
            node.median_split(axes),
            node.leaves() == final(objs)@,
            final(objs)@.len() == old(objs)@.len(),
            final(objs)@.to_multiset() == old(objs)@.to_multiset(),
            old(objs)@.len() == 1 ==> final(objs)@ == old(objs)@ && node.node_data()
                == BvhNodeData::Leaf(old(objs)@[0]) && node.bounding()
                == old(objs)@[0].aabb_spec(),
    {
        let n = objs.len();
        let node = Self::build_range(objs, 0, n, axes);
        proof {
            assert(objs@.subrange(0, n as int) =~= objs@);
            assert(old(objs)@.subrange(0, n as int) =~= old(objs)@);
            if n == 1 {
                lemma_single_rearranged(old(objs)@, objs@);
                node.lemma_single_leaf();
            }
        }
        node
    }

    fn build_range(objs: &mut [H], lo: usize, hi: usize, axes: SplitAxis) -> (node: BvhNode<H>)
        requires
            lo < hi <= old(objs)@.len(),
        ensures
            rearranged(old(objs)@, final(objs)@, lo as int, hi as int),
            node.leaves() == final(objs)@.subrange(lo as int, hi as int),
            node.wf(),
            node.median_split(axes),
        decreases hi - lo,
    {
        let (sort_axis, below) = axes.next();
        sort_along(objs, lo, hi, sort_axis);
        let n = hi - lo;
        if n == 1 {
            let leaf = objs[lo];
            proof {
                assert(objs@.subrange(lo as int, hi as int) =~= seq![leaf]);
            }
            BvhNode { data: BvhNodeData::Leaf(leaf), aabb: leaf.aabb() }
        } else {
            let mid = lo + n / 2;
            let ghost sorted = objs@;
            let left = Self::build_range(objs, lo, mid, below);
            let ghost halfway = objs@;
            let right = Self::build_range(objs, mid, hi, below);
            let aabb = Aabb::union(&left.aabb, &right.aabb);
            proof {
                lemma_halves_rearranged(
                    sorted,
                    halfway,
                    objs@,
                    lo as int,
                    mid as int,
                    hi as int,
                );
                lemma_rearranged_transitive(old(objs)@, sorted, objs@, lo as int, hi as int);
                assert(objs@.subrange(lo as int, hi as int) =~= objs@.subrange(
                    lo as int,
                    mid as int,
                ) + objs@.subrange(mid as int, hi as int));
                assert(objs@.subrange(lo as int, mid as int) =~= halfway.subrange(
                    lo as int,
                    mid as int,
                ));
                lemma_sorted_halves_separated(
                    sorted,
                    objs@,
                    lo as int,
                    mid as int,
                    hi as int,
                    sort_axis as int,
                );
            }
            let data = BvhNodeData::Node { left: Box::new(left), right: Box::new(right) };
            BvhNode { data, aabb }
        }
    }

    /// The nearest hit of `ray` on the items of the tree with parameter
    /// strictly between the bounds; between equally near hits, the one
    /// further left in the tree.
    pub fn query_nearest(&self, ray: &H::Ray, t_min: i32, t_max: i32) -> (rec: Option<HitRecord>)
        ensures
            rec == self.search(ray, t_min, t_max),
            prunes_safely(self.leaves(), ray, t_min, t_max) ==> rec == nearest(
                self.leaves(),
                ray,
                t_min,
                t_max,
            ),
        decreases self,
    {
        proof {
            use_type_invariant(self);
            if prunes_safely(self.leaves(), ray, t_min, t_max) {
                self.lemma_search_is_scan(ray, t_min, t_max);
            }
        }
        if !ray_enters(ray, &self.aabb, (t_min, t_max)) {
            return None;
        }
        match &self.data {
            BvhNodeData::Leaf(leaf) => leaf.hit(ray, (t_min, t_max)),
            BvhNodeData::Node { left, right } => {
                let l_hit = left.query_nearest(ray, t_min, t_max);
                let r_hit = right.query_nearest(ray, t_min, t_max);
                pick_nearer(l_hit, r_hit)
            },
        }
    }
}

impl<H: Hit + Copy> Hit for BvhNode<H> {
    type Ray = H::Ray;

    open spec fn hit_spec(&self, ray: &Self::Ray, t_min: i32, t_max: i32) -> Option<HitRecord> {
        self.search(ray, t_min, t_max)
    }

    fn hit(&self, ray: &Self::Ray, t_min_max: (i32, i32)) -> (rec: Option<HitRecord>) {
        self.query_nearest(ray, t_min_max.0, t_min_max.1)
    }
}

impl<H: Hit + Copy> Bounded for BvhNode<H> {
    open spec fn aabb_spec(&self) -> Aabb {
        self.bounding()
    }

    fn aabb(&self) -> (b: Aabb) {
        self.aabb
    }
}

} // verus!
