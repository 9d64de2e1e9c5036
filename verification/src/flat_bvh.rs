//! The bounding volume hierarchy as an array of nodes linked by index.
//!
//! A subtree over `n` items takes `2n - 1` consecutive nodes: first those of
//! its right half, then those of its left half, then its root.  Every node
//! carries an *escape*: where a search goes on once it is done with the node's
//! subtree.  Read from the last node down to the first, the array is the tree
//! in depth-first order, left before right.

use crate::aabb::Aabb;
use crate::bvh::{lemma_sorted_halves_separated, spans_widen, split_by, SplitAxis};
use crate::hit::{
    bounds, enters, lemma_bounds_concat, lemma_bounds_cover, lemma_bounds_single,
    lemma_nearer_associative, lemma_nearest_concat, lemma_nearest_is_least,
    lemma_nearest_single, nearer, nearest, pick_nearer, ray_enters, Bounded, Hit, HitRecord,
    Probe,
};
use crate::intersection::{lemma_enters_monotone, lemma_point_enters, T_FAR};
use crate::scene_data::{SceneData, SceneObject};
use crate::sorting::{
    lemma_halves_rearranged_back, lemma_rearranged_transitive, lemma_single_rearranged,
    rearranged, sort_along,
};
use vstd::prelude::*;

verus! {

/// The escape of a subtree after which nothing is left to search.
pub const NO_NODE: u32 = 0xffff_ffff;

/// What the hierarchy keeps of an object: its box and its identifier.
#[derive(Clone, Copy, Debug, PartialEq, Eq, Structural)]
pub struct BvhItem {
    pub aabb: Aabb,
    pub id: u32,
}

impl Bounded for BvhItem {
    open spec fn aabb_spec(&self) -> Aabb {
        self.aabb
    }

    fn aabb(&self) -> (b: Aabb) {
        self.aabb
    }
}

#[derive(Clone, Copy, Debug, PartialEq, Eq, Structural)]
pub enum BvhNodeData {
    Leaf(BvhItem),
    Node { left: u32 },
}

#[derive(Clone, Copy, Debug, PartialEq, Eq, Structural)]
pub struct BvhNode {
    /// An item, or the index of the left child; the right child is where the
    /// left child escapes to.
    pub data: BvhNodeData,
    /// Where a search goes on once it is done with the subtree of this node.
    pub escape: u32,
    /// The union of the boxes of the items below.
    pub aabb: Aabb,
}

/// The items of a range in their final order: along the axis of the split no
/// item of the first half, rounded down, begins after one of the second
/// half, and so on within each half.  `axes` says which axis that is for the
/// whole range.
pub open spec fn median_ordered(items: Seq<BvhItem>, axes: SplitAxis) -> bool
    decreases items.len(),
{
    if items.len() <= 1 {
        true
    } else {
        let mid = items.len() as int / 2;
        &&& median_ordered(items.subrange(0, mid), axes.below())
        &&& median_ordered(items.subrange(mid, items.len() as int), axes.below())
        &&& split_by(items.subrange(0, mid), items.subrange(mid, items.len() as int), axes)
    }
}

/// The nodes from `start` on hold the subtree over `items` whose search goes
/// on at `escape`.
pub open spec fn encodes(nodes: Seq<BvhNode>, start: int, items: Seq<BvhItem>, escape: u32) -> bool
    decreases items.len(),
{
    let n = items.len() as int;
    let mid = n / 2;
    let root = start + 2 * n - 2;
    if n == 0 {
        false
    } else if n == 1 {
        &&& 0 <= start < nodes.len()
        &&& start < NO_NODE
        &&& nodes[start] == (BvhNode {
            data: BvhNodeData::Leaf(items[0]),
            escape,
            aabb: items[0].aabb,
        })
    } else {
        &&& 0 <= start
        &&& root < nodes.len()
        &&& root < NO_NODE
        &&& encodes(nodes, start, items.subrange(mid, n), escape)
        &&& encodes(
            nodes,
            start + 2 * (n - mid) - 1,
            items.subrange(0, mid),
            (start + 2 * (n - mid) - 2) as u32,
        )
        &&& nodes[root] == (BvhNode {
            data: BvhNodeData::Node { left: (root - 1) as u32 },
            escape,
            aabb: bounds(items),
        })
    }
}

impl BvhNode {
    /// Appends to `nodes` the subtree over `objs`, built by median split with
    /// axes drawn by chance, and returns the index of its root, which is the
    /// last node.  The slice is left in the order of the leaves.
    pub fn build(nodes: &mut Vec<BvhNode>, objs: &mut [BvhItem], escape: u32) -> (root: u32)
        requires
            old(objs)@.len() > 0,
            old(nodes)@.len() + 2 * old(objs)@.len() - 1 <= NO_NODE,
        ensures
            final(objs)@.len() == old(objs)@.len(),
            final(objs)@.to_multiset() == old(objs)@.to_multiset(),
            median_ordered(final(objs)@, SplitAxis::Random),
            final(nodes)@.len() == old(nodes)@.len() + 2 * old(objs)@.len() - 1,
            final(nodes)@.subrange(0, old(nodes)@.len() as int) == old(nodes)@,
            encodes(final(nodes)@, old(nodes)@.len() as int, final(objs)@, escape),
            root == final(nodes)@.len() - 1,
    {
        let n = objs.len();
        let root = Self::build_range(nodes, objs, 0, n, escape, SplitAxis::Random);
        proof {
            assert(objs@.subrange(0, n as int) =~= objs@);
            assert(old(objs)@.subrange(0, n as int) =~= old(objs)@);
        }
        root
    }

    fn build_range(
        nodes: &mut Vec<BvhNode>,
        objs: &mut [BvhItem],
        lo: usize,
        hi: usize,
        escape: u32,
        axes: SplitAxis,
    ) -> (root: u32)
        requires
            lo < hi <= old(objs)@.len(),
            old(nodes)@.len() + 2 * (hi - lo) - 1 <= NO_NODE,
        ensures
            rearranged(old(objs)@, final(objs)@, lo as int, hi as int),
            median_ordered(final(objs)@.subrange(lo as int, hi as int), axes),
            final(nodes)@.len() == old(nodes)@.len() + 2 * (hi - lo) - 1,
            final(nodes)@.subrange(0, old(nodes)@.len() as int) == old(nodes)@,
            encodes(
                final(nodes)@,
                old(nodes)@.len() as int,
                final(objs)@.subrange(lo as int, hi as int),
                escape,
            ),
            root == final(nodes)@.len() - 1,
        decreases hi - lo,
    {
        let (sort_axis, below) = axes.next();
        sort_along(objs, lo, hi, sort_axis);
        let n = hi - lo;
        let ghost start = nodes@.len() as int;
        if n == 1 {
            let item = objs[lo];
            proof {
                assert(objs@.subrange(lo as int, hi as int) =~= seq![item]);
            }
            nodes.push(BvhNode { data: BvhNodeData::Leaf(item), aabb: item.aabb, escape });
            proof {
                assert(nodes@.subrange(0, start) =~= old(nodes)@);
            }
        } else {
            let mid = lo + n / 2;
            let ghost sorted = objs@;
            let right = Self::build_range(nodes, objs, mid, hi, escape, below);
            let ghost halfway = objs@;
            let ghost nodes_right = nodes@;
            let left = Self::build_range(nodes, objs, lo, mid, right, below);
            let ghost nodes_left = nodes@;
            let aabb = Aabb::union(&nodes[left as usize].aabb, &nodes[right as usize].aabb);
            nodes.push(BvhNode { data: BvhNodeData::Node { left }, aabb, escape });
            proof {
                let items = objs@.subrange(lo as int, hi as int);
                let l_items = objs@.subrange(lo as int, mid as int);
                let r_items = objs@.subrange(mid as int, hi as int);
                lemma_halves_rearranged_back(
                    sorted,
                    halfway,
                    objs@,
                    lo as int,
                    mid as int,
                    hi as int,
                );
                lemma_rearranged_transitive(old(objs)@, sorted, objs@, lo as int, hi as int);
                lemma_sorted_halves_separated(
                    sorted,
                    objs@,
                    lo as int,
                    mid as int,
                    hi as int,
                    sort_axis as int,
                );
                assert(items.subrange(0, n as int / 2) =~= l_items);
                assert(items.subrange(n as int / 2, n as int) =~= r_items);
                assert(r_items =~= halfway.subrange(mid as int, hi as int));
                assert(items =~= l_items + r_items);
                assert(nodes@.subrange(0, nodes_left.len() as int) =~= nodes_left);
                assert(nodes@.subrange(0, nodes_right.len() as int) =~= nodes_right) by {
                    assert forall|i: int| 0 <= i < nodes_right.len() implies nodes@[i]
                        == nodes_right[i] by {
                        let kept = nodes_left.subrange(0, nodes_right.len() as int);
                        assert(kept[i] == nodes_left[i]);
                    }
                }
                lemma_encodes_extends(nodes_right, nodes@, start, r_items, escape);
                lemma_encodes_extends(nodes_left, nodes@, nodes_right.len() as int, l_items, right);
                lemma_root_box(nodes_right, start, r_items, escape);
                lemma_root_box(nodes_left, nodes_right.len() as int, l_items, right);
                lemma_bounds_concat(l_items, r_items);
                assert(nodes@.subrange(0, start) =~= old(nodes)@);
            }
        }
        (nodes.len() - 1) as u32
    }
}

impl Bounded for BvhNode {
    open spec fn aabb_spec(&self) -> Aabb {
        self.aabb
    }

    fn aabb(&self) -> (b: Aabb) {
        self.aabb
    }
}

/// What some nodes encode, they encode under any longer array that begins
/// with them.
proof fn lemma_encodes_extends(
    short: Seq<BvhNode>,
    long: Seq<BvhNode>,
    start: int,
    items: Seq<BvhItem>,
    escape: u32,
)
    requires
        encodes(short, start, items, escape),
        short.len() <= long.len(),
        long.subrange(0, short.len() as int) == short,
    ensures
        encodes(long, start, items, escape),
    decreases items.len(),
{
    let n = items.len() as int;
    let mid = n / 2;
    assert forall|i: int| 0 <= i < short.len() implies long[i] == short[i] by {
        assert(long.subrange(0, short.len() as int)[i] == long[i]);
    }
    if n > 1 {
        lemma_encodes_extends(short, long, start, items.subrange(mid, n), escape);
        lemma_encodes_extends(
            short,
            long,
            start + 2 * (n - mid) - 1,
            items.subrange(0, mid),
            (start + 2 * (n - mid) - 2) as u32,
        );
    }
}

/// The root of an encoded subtree carries the union of the boxes of its items.
proof fn lemma_root_box(nodes: Seq<BvhNode>, start: int, items: Seq<BvhItem>, escape: u32)
    requires
        encodes(nodes, start, items, escape),
    ensures
        0 <= start + 2 * items.len() - 2 < nodes.len(),
        nodes[start + 2 * items.len() - 2].aabb == bounds(items),
        nodes[start + 2 * items.len() - 2].escape == escape,
{
    if items.len() == 1 {
        lemma_bounds_single(items[0]);
        assert(items =~= seq![items[0]]);
    }
}

/// Where a walk that takes every branch goes after the node.
pub open spec fn step(node: BvhNode) -> u32 {
    match node.data {
        BvhNodeData::Leaf(_) => node.escape,
        BvhNodeData::Node { left } => left,
    }
}

/// Inside an encoded subtree every link leads to the node just before, and
/// its first node is a leaf that leads out of it.
pub proof fn lemma_threaded(
    nodes: Seq<BvhNode>,
    start: int,
    items: Seq<BvhItem>,
    escape: u32,
    i: int,
)
    requires
        encodes(nodes, start, items, escape),
        start <= i <= start + 2 * items.len() - 2,
    ensures
        0 <= i < nodes.len(),
        i < NO_NODE,
        i > start ==> step(nodes[i]) == i - 1,
        i == start ==> nodes[i].data is Leaf && nodes[i].escape == escape,
    decreases items.len(),
{
    let n = items.len() as int;
    let mid = n / 2;
    if n == 1 {
    } else {
        let left_start = start + 2 * (n - mid) - 1;
        let root = start + 2 * n - 2;
        if i == root {
        } else if i >= left_start {
            lemma_threaded(nodes, left_start, items.subrange(0, mid), (left_start - 1) as u32, i);
        } else {
            lemma_threaded(nodes, start, items.subrange(mid, n), escape, i);
        }
    }
}

/// The hit of the ray on the object that `item` names, a miss where
/// `objects` has no such entry.
pub open spec fn hit_of<H: Hit>(
    objects: Seq<H>,
    item: BvhItem,
    ray: &H::Ray,
    t_min: i32,
    t_max: i32,
) -> Option<HitRecord> {
    if (item.id as int) < objects.len() {
        objects[item.id as int].hit_spec(ray, t_min, t_max)
    } else {
        None
    }
}

/// The result of a search of the hierarchy over `items`: a subtree whose box
/// the ray does not enter is a miss as a whole; otherwise the nearer of the
/// two halves, the left one where they tie.
pub open spec fn pruned_search<H: Hit>(
    items: Seq<BvhItem>,
    objects: Seq<H>,
    ray: &H::Ray,
    t_min: i32,
    t_max: i32,
) -> Option<HitRecord>
    decreases items.len(),
{
    let n = items.len() as int;
    if n == 0 {
        None
    } else if n == 1 {
        hit_of(objects, items[0], ray, t_min, t_max)
    } else if !enters(ray, bounds(items), t_min, t_max) {
        None
    } else {
        nearer(
            pruned_search(items.subrange(0, n / 2), objects, ray, t_min, t_max),
            pruned_search(items.subrange(n / 2, n), objects, ray, t_min, t_max),
        )
    }
}

/// The search as the loop runs it: from node `cur` with `best` in hand,
/// following links as long as they lead backwards.
pub open spec fn walk<H: Hit>(
    nodes: Seq<BvhNode>,
    objects: Seq<H>,
    ray: &H::Ray,
    t_min: i32,
    t_max: i32,
    cur: int,
    best: Option<HitRecord>,
) -> Option<HitRecord>
    decreases cur,
{
    if cur < 0 || cur >= nodes.len() {
        best
    } else {
        let node = nodes[cur];
        let (next, found) = match node.data {
            BvhNodeData::Leaf(item) => (
                node.escape,
                nearer(best, hit_of(objects, item, ray, t_min, t_max)),
            ),
            BvhNodeData::Node { left } => if enters(ray, node.aabb, t_min, t_max) {
                (left, best)
            } else {
                (node.escape, best)
            },
        };
        if next < cur {
            walk(nodes, objects, ray, t_min, t_max, next as int, found)
        } else {
            found
        }
    }
}

/// Walking an encoded subtree from its root comes out at its escape with the
/// nearer of what was in hand and what the subtree holds.
pub proof fn lemma_walk_subtree<H: Hit>(
    nodes: Seq<BvhNode>,
    objects: Seq<H>,
    ray: &H::Ray,
    t_min: i32,
    t_max: i32,
    start: int,
    items: Seq<BvhItem>,
    escape: u32,
    best: Option<HitRecord>,
)
    requires
        encodes(nodes, start, items, escape),
        escape == NO_NODE || escape < start,
    ensures
        walk(nodes, objects, ray, t_min, t_max, start + 2 * items.len() - 2, best) == {
            let found = nearer(best, pruned_search(items, objects, ray, t_min, t_max));
            if escape == NO_NODE {
                found
            } else {
                walk(nodes, objects, ray, t_min, t_max, escape as int, found)
            }
        },
    decreases items.len(),
{
    let n = items.len() as int;
    let mid = n / 2;
    let root = start + 2 * n - 2;
    if n == 1 {
    } else {
        let left_start = start + 2 * (n - mid) - 1;
        let right_root = (left_start - 1) as u32;
        let left_items = items.subrange(0, mid);
        let right_items = items.subrange(mid, n);
        lemma_nearer_associative(best, None, None);
        if enters(ray, bounds(items), t_min, t_max) {
            let after_left = nearer(best, pruned_search(left_items, objects, ray, t_min, t_max));
            lemma_walk_subtree(
                nodes,
                objects,
                ray,
                t_min,
                t_max,
                left_start,
                left_items,
                right_root,
                best,
            );
            lemma_walk_subtree(
                nodes,
                objects,
                ray,
                t_min,
                t_max,
                start,
                right_items,
                escape,
                after_left,
            );
            lemma_nearer_associative(
                best,
                pruned_search(left_items, objects, ray, t_min, t_max),
                pruned_search(right_items, objects, ray, t_min, t_max),
            );
            assert(left_start + 2 * left_items.len() - 2 == root - 1);
            assert(start + 2 * right_items.len() - 2 == right_root);
        }
    }
}

/// The objects that `items` name, in the order of the items.
pub open spec fn targets<H>(items: Seq<BvhItem>, objects: Seq<H>) -> Seq<H> {
    Seq::new(items.len(), |i: int| objects[items[i].id as int])
}

/// Whenever the object that an item names is hit, the ray enters every box
/// that covers the item's box.
pub open spec fn prunes_safely_by_id<H: Hit>(
    items: Seq<BvhItem>,
    objects: Seq<H>,
    ray: &H::Ray,
    t_min: i32,
    t_max: i32,
) -> bool {
    forall|i: int, b: Aabb|
        0 <= i < items.len() && #[trigger] b.covers(items[i].aabb) && hit_of(
            objects,
            items[i],
            ray,
            t_min,
            t_max,
        ) is Some ==> enters(ray, b, t_min, t_max)
}

/// A hit on the object that `item` names lies ahead of the ray's origin,
/// strictly between the bounds, and inside the box of the item.
pub open spec fn hit_in_item<H: Hit>(
    objects: Seq<H>,
    item: BvhItem,
    ray: &H::Ray,
    t_min: i32,
    t_max: i32,
) -> bool {
    hit_of(objects, item, ray, t_min, t_max) matches Some(rec) ==> {
        &&& t_min < rec.t < t_max
        &&& 0 <= rec.t <= T_FAR
        &&& forall|a: int|
            0 <= a < 3 ==> (#[trigger] ray.spans_spec(item.aabb)[a]).0 <= rec.t && rec.t
                <= ray.spans_spec(item.aabb)[a].1
    }
}

/// Pruning by box is safe as soon as the ray's spans widen with the box and
/// every hit on a named object lies in the box of the item that names it.
pub proof fn lemma_prunes_safely_by_id<H: Hit>(
    items: Seq<BvhItem>,
    objects: Seq<H>,
    ray: &H::Ray,
    t_min: i32,
    t_max: i32,
)
    requires
        forall|i: int| 0 <= i < items.len() ==> spans_widen(ray, (#[trigger] items[i]).aabb),
        forall|i: int|
            0 <= i < items.len() ==> hit_in_item(objects, #[trigger] items[i], ray, t_min, t_max),
    ensures
        prunes_safely_by_id(items, objects, ray, t_min, t_max),
{
    assert forall|i: int, b: Aabb|
        0 <= i < items.len() && #[trigger] b.covers(items[i].aabb) && hit_of(
            objects,
            items[i],
            ray,
            t_min,
            t_max,
        ) is Some implies enters(ray, b, t_min, t_max) by {
        let own = items[i].aabb;
        let rec = hit_of(objects, items[i], ray, t_min, t_max)->0;
        assert(spans_widen(ray, own));
        assert(hit_in_item(objects, items[i], ray, t_min, t_max));
        lemma_point_enters(ray.spans_spec(own), rec.t, t_min, t_max);
        lemma_enters_monotone(ray.spans_spec(own), ray.spans_spec(b), t_min, t_max);
    }
}

/// A search of the hierarchy finds what a scan of the named objects in the
/// order of the items finds, provided that pruning by box is safe for this
/// ray.
pub proof fn lemma_pruned_search_is_scan<H: Hit>(
    items: Seq<BvhItem>,
    objects: Seq<H>,
    ray: &H::Ray,
    t_min: i32,
    t_max: i32,
)
    requires
        forall|i: int| 0 <= i < items.len() ==> (#[trigger] items[i]).id < objects.len(),
        prunes_safely_by_id(items, objects, ray, t_min, t_max),
    ensures
        pruned_search(items, objects, ray, t_min, t_max) == nearest(
            targets(items, objects),
            ray,
            t_min,
            t_max,
        ),
    decreases items.len(),
{
    let n = items.len() as int;
    let all = targets(items, objects);
    if n == 0 {
    } else if n == 1 {
        assert(all =~= seq![objects[items[0].id as int]]);
        lemma_nearest_single(objects[items[0].id as int], ray, t_min, t_max);
    } else {
        let l = items.subrange(0, n / 2);
        let r = items.subrange(n / 2, n);
        assert(all =~= targets(l, objects) + targets(r, objects));
        assert forall|i: int, b: Aabb|
            0 <= i < l.len() && #[trigger] b.covers(l[i].aabb) && hit_of(
                objects,
                l[i],
                ray,
                t_min,
                t_max,
            ) is Some implies enters(ray, b, t_min, t_max) by {
            assert(items[i] == l[i]);
        }
        assert forall|i: int, b: Aabb|
            0 <= i < r.len() && #[trigger] b.covers(r[i].aabb) && hit_of(
                objects,
                r[i],
                ray,
                t_min,
                t_max,
            ) is Some implies enters(ray, b, t_min, t_max) by {
            assert(items[n / 2 + i] == r[i]);
        }
        lemma_pruned_search_is_scan(l, objects, ray, t_min, t_max);
        lemma_pruned_search_is_scan(r, objects, ray, t_min, t_max);
        lemma_nearest_concat(targets(l, objects), targets(r, objects), ray, t_min, t_max);
        if !enters(ray, bounds(items), t_min, t_max) {
            lemma_nearest_is_least(all, ray, t_min, t_max);
            assert forall|i: int| 0 <= i < all.len() implies (#[trigger] all[i]).hit_spec(
                ray,
                t_min,
                t_max,
            ) is None by {
                lemma_bounds_cover(items, i);
                assert(bounds(items).covers(items[i].aabb));
            }
        }
    }
}

/// The row that a device reads for `node`, in an array of `len` rows that
/// lists the nodes from the root on, depth first.  An inner node gives its
/// box, the row of its left child and the row to go to when its box is
/// missed; the last subtree escapes to [`NO_NODE`].  A leaf gives the
/// identifier of its object; its search goes on at the next row.
pub open spec fn row_spec(node: BvhNode, len: int) -> Seq<i64> {
    match node.data {
        BvhNodeData::Leaf(item) => seq![
            0i64,
            0i64,
            0i64,
            NO_NODE as i64,
            0i64,
            0i64,
            0i64,
            item.id as i64,
        ],
        BvhNodeData::Node { left } => seq![
            node.aabb.min.x as i64,
            node.aabb.min.y as i64,
            node.aabb.min.z as i64,
            row_of(left, len),
            node.aabb.max.x as i64,
            node.aabb.max.y as i64,
            node.aabb.max.z as i64,
            row_of(node.escape, len),
        ],
    }
}

/// The row of the node at `index` where rows run from the root on: the
/// nodes in reverse.  What is no index of the array stays [`NO_NODE`].
pub open spec fn row_of(index: u32, len: int) -> i64 {
    if (index as int) < len {
        (len - 1 - index) as i64
    } else {
        NO_NODE as i64
    }
}

fn row_index(index: u32, len: usize) -> (row: i64)
    requires
        len <= NO_NODE,
    ensures
        row == row_of(index, len as int),
{
    if (index as usize) < len {
        (len - 1 - index as usize) as i64
    } else {
        NO_NODE as i64
    }
}

fn node_to_gpu(node: &BvhNode, len: usize) -> (row: [i64; 8])
    requires
        len <= NO_NODE,
    ensures
        row@ == row_spec(*node, len as int),
{
    let row = match node.data {
        BvhNodeData::Leaf(item) => [0, 0, 0, NO_NODE as i64, 0, 0, 0, item.id as i64],
        BvhNodeData::Node { left } => {
            let aabb = node.aabb;
            [
                aabb.min.x as i64,
                aabb.min.y as i64,
                aabb.min.z as i64,
                row_index(left, len),
                aabb.max.x as i64,
                aabb.max.y as i64,
                aabb.max.z as i64,
                row_index(node.escape, len),
            ]
        },
    };
    proof {
        assert(row@ =~= row_spec(*node, len as int));
    }
    row
}

/// What the hierarchy keeps of object `id` of a scene: the box of its
/// primitive, and the number of the object.
pub open spec fn item_of<P: Bounded, M>(scene: &SceneData<P, M>, id: u32) -> BvhItem {
    BvhItem {
        aabb: scene.primitives_view()[scene.objects_view()[id].primitive.0].aabb_spec(),
        id,
    }
}

/// The item that stands for object `id` of the scene, which is `o`.
pub fn object_to_bvh_item<P: Bounded, M>(
    scene: &SceneData<P, M>,
    id: u32,
    o: &SceneObject,
) -> (item: BvhItem)
    requires
        scene.wf(),
        scene.objects_view().contains_key(id),
        scene.objects_view()[id] == *o,
    ensures
        item == item_of(scene, id),
{
    let primitive_id = o.primitive();
    let primitive = scene.primitive(primitive_id).unwrap();
    BvhItem { aabb: primitive.aabb(), id }
}

/// The hierarchy over all objects of a scene, each under its number.
pub fn create_bvh<P: Bounded, M>(scene: &SceneData<P, M>) -> (bvh: Bvh)
    requires
        scene.wf(),
        0 < scene.objects_view().len(),
        2 * scene.objects_view().len() - 1 <= NO_NODE,
    ensures
        bvh.wf(),
        median_ordered(bvh.items(), SplitAxis::Random),
        bvh.items().to_multiset() == Seq::new(
            scene.objects_view().len(),
            |i: int| item_of(scene, i as u32),
        ).to_multiset(),
{
    let objects = scene.objects_iter();
    let mut bvh_items: Vec<BvhItem> = Vec::new();
    let mut i: usize = 0;
    while i < objects.len()
        invariant
            scene.wf(),
            i <= objects.len(),
            objects.len() == scene.objects_view().len(),
            forall|j: int|
                0 <= j < objects.len() ==> (#[trigger] objects[j]).0.0 == j && objects[j].1
                    == scene.objects_view()[j as u32],
            bvh_items@.len() == i,
            forall|j: int| 0 <= j < i ==> #[trigger] bvh_items@[j] == item_of(scene, j as u32),
        decreases objects.len() - i,
    {
        proof {
            scene.lemma_sizes_bounded();
        }
        let id = objects[i].0.0;
        let item = object_to_bvh_item(scene, id, &objects[i].1);
        bvh_items.push(item);
        i += 1;
    }
    proof {
        assert(bvh_items@ =~= Seq::new(
            scene.objects_view().len(),
            |i: int| item_of(scene, i as u32),
        ));
    }
    Bvh::build(bvh_items.as_mut_slice())
}

/// A hierarchy ready to be searched or handed to a device.
pub struct Bvh {
    nodes: Vec<BvhNode>,
    items: Ghost<Seq<BvhItem>>,
}

impl Bvh {
    /// The nodes, the root last.
    pub closed spec fn view(&self) -> Seq<BvhNode> {
        self.nodes@
    }

    /// The items at the leaves, from left to right.
    pub closed spec fn items(&self) -> Seq<BvhItem> {
        self.items@
    }

    /// The nodes encode the tree over the items, and nothing follows it.
    #[verifier::type_invariant]
    pub open spec fn wf(&self) -> bool {
        &&& encodes(self@, 0, self.items(), NO_NODE)
        &&& self@.len() == 2 * self.items().len() - 1
    }

    /// Builds the hierarchy over `objs` by median split, drawing the axis of
    /// each split by chance.  The slice is left in the order of the leaves.
    pub fn build(objs: &mut [BvhItem]) -> (bvh: Bvh)
        requires
            0 < old(objs)@.len(),
            2 * old(objs)@.len() - 1 <= NO_NODE,
        ensures
            final(objs)@.len() == old(objs)@.len(),
            final(objs)@.to_multiset() == old(objs)@.to_multiset(),
            median_ordered(final(objs)@, SplitAxis::Random),
            bvh.items() == final(objs)@,
            bvh.wf(),
            old(objs)@.len() == 1 ==> final(objs)@ == old(objs)@ && bvh@ == seq![
                BvhNode {
                    data: BvhNodeData::Leaf(old(objs)@[0]),
                    escape: NO_NODE,
                    aabb: old(objs)@[0].aabb,
                },
            ],
    {
        Bvh::build_with(objs, SplitAxis::Random)
    }

    /// Builds the hierarchy over `objs` by median split, choosing axes as
    /// `axes` says.  The slice is left in the order of the leaves.
    pub fn build_with(objs: &mut [BvhItem], axes: SplitAxis) -> (bvh: Bvh)
        requires
            0 < old(objs)@.len(),
            2 * old(objs)@.len() - 1 <= NO_NODE,
        ensures
            final(objs)@.len() == old(objs)@.len(),
            final(objs)@.to_multiset() == old(objs)@.to_multiset(),
            median_ordered(final(objs)@, axes),
            bvh.items() == final(objs)@,
            bvh.wf(),
            old(objs)@.len() == 1 ==> final(objs)@ == old(objs)@ && bvh@ == seq![
                BvhNode {
                    data: BvhNodeData::Leaf(old(objs)@[0]),
                    escape: NO_NODE,
                    aabb: old(objs)@[0].aabb,
                },
            ],
    {
        let mut nodes: Vec<BvhNode> = Vec::new();
        let n = objs.len();
        BvhNode::build_range(&mut nodes, objs, 0, n, NO_NODE, axes);
        proof {
            assert(objs@.subrange(0, n as int) =~= objs@);
            assert(old(objs)@.subrange(0, n as int) =~= old(objs)@);
            if n == 1 {
                lemma_single_rearranged(old(objs)@, objs@);
                assert(nodes@ =~= seq![
                    BvhNode {
                        data: BvhNodeData::Leaf(old(objs)@[0]),
                        escape: NO_NODE,
                        aabb: old(objs)@[0].aabb,
                    },
                ]);
            }
        }
        Bvh { nodes, items: Ghost(objs@) }
    }

    /// How many nodes there are: one less than twice the number of items.
    pub fn len(&self) -> (n: usize)
        ensures
            n == self@.len(),
            n == 2 * self.items().len() - 1,
    {
        proof {
            use_type_invariant(self);
        }
        self.nodes.len()
    }

    /// The index of the root, which is the last node.
    pub fn root(&self) -> (root: u32)
        ensures
            root == self@.len() - 1,
    {
        proof {
            use_type_invariant(self);
            lemma_threaded(self.nodes@, 0, self.items@, NO_NODE, self.nodes@.len() - 1);
        }
        (self.nodes.len() - 1) as u32
    }

    /// The node at `index`, if there is one.
    pub fn node(&self, index: u32) -> (node: Option<BvhNode>)
        ensures
            node == if (index as int) < self@.len() {
                Some(self@[index as int])
            } else {
                None
            },
    {
        if (index as usize) < self.nodes.len() {
            Some(self.nodes[index as usize])
        } else {
            None
        }
    }

    /// The rows for a device: the nodes from the root on, depth first, each
    /// as [`row_spec`] says.
    pub fn to_gpu(&self) -> (data: Vec<[i64; 8]>)
        ensures
            data@.len() == self@.len(),
            forall|k: int|
                0 <= k < data@.len() ==> (#[trigger] data@[k])@ == row_spec(
                    self@[self@.len() - 1 - k],
                    self@.len() as int,
                ),
    {
        proof {
            use_type_invariant(self);
            lemma_threaded(self.nodes@, 0, self.items@, NO_NODE, self.nodes@.len() - 1);
        }
        let len = self.nodes.len();
        let mut data: Vec<[i64; 8]> = Vec::new();
        let mut cur_node: usize = len - 1;
        loop
            invariant_except_break
                data@.len() == len - 1 - cur_node,
            invariant
                self.wf(),
                len == self.nodes@.len(),
                len <= NO_NODE,
                cur_node < len,
                forall|k: int|
                    0 <= k < data@.len() ==> (#[trigger] data@[k])@ == row_spec(
                        self.nodes@[len - 1 - k],
                        len as int,
                    ),
            ensures
                data@.len() == len,
            decreases cur_node,
        {
            let node = &self.nodes[cur_node];
            data.push(node_to_gpu(node, len));
            let next = match node.data {
                BvhNodeData::Leaf(_) => node.escape,
                BvhNodeData::Node { left } => left,
            };
            proof {
                lemma_threaded(self.nodes@, 0, self.items@, NO_NODE, cur_node as int);
            }
            if next == NO_NODE {
                break ;
            }
            cur_node = next as usize;
        }
        data
    }

    /// The nearest hit of `ray` on the objects that the items name, with
    /// parameter strictly between the bounds.
    pub fn query_nearest<H: Hit>(
        &self,
        objects: &[H],
        ray: &H::Ray,
        t_min: i32,
        t_max: i32,
    ) -> (rec: Option<HitRecord>)
        ensures
            rec == pruned_search(self.items(), objects@, ray, t_min, t_max),
            (forall|i: int|
                0 <= i < self.items().len() ==> (#[trigger] self.items()[i]).id < objects@.len())
                && prunes_safely_by_id(self.items(), objects@, ray, t_min, t_max) ==> rec
                == nearest(targets(self.items(), objects@), ray, t_min, t_max),
    {
        proof {
            use_type_invariant(self);
            if (forall|i: int|
                0 <= i < self.items().len() ==> (#[trigger] self.items()[i]).id < objects@.len())
                && prunes_safely_by_id(self.items(), objects@, ray, t_min, t_max) {
                lemma_pruned_search_is_scan(self.items@, objects@, ray, t_min, t_max);
            }
            lemma_walk_subtree(
                self.nodes@,
                objects@,
                ray,
                t_min,
                t_max,
                0,
                self.items@,
                NO_NODE,
                None,
            );
            lemma_nearer_associative(
                pruned_search(self.items@, objects@, ray, t_min, t_max),
                None,
                None,
            );
        }
        let ghost whole = walk(
            self.nodes@,
            objects@,
            ray,
            t_min,
            t_max,
            self.nodes@.len() - 1,
            None,
        );
        let mut best: Option<HitRecord> = None;
        let mut cur: usize = self.nodes.len() - 1;
        loop
            invariant
                cur < self.nodes@.len(),
                walk(self.nodes@, objects@, ray, t_min, t_max, cur as int, best) == whole,
            ensures
                best == whole,
            decreases cur,
        {
            let node = &self.nodes[cur];
            let next = match node.data {
                BvhNodeData::Leaf(item) => {
                    if (item.id as usize) < objects.len() {
                        let found = objects[item.id as usize].hit(ray, (t_min, t_max));
                        best = pick_nearer(best, found);
                    }
                    node.escape
                },
                BvhNodeData::Node { left } => {
                    if ray_enters(ray, &node.aabb, (t_min, t_max)) {
                        left
                    } else {
                        node.escape
                    }
                },
            };
            if (next as usize) < cur {
                cur = next as usize;
            } else {
                break ;
            }
        }
        best
    }
}

} // verus!
