//! Axis-aligned bounding boxes over order keys.

use vstd::prelude::*;

verus! {

/// The smaller of two keys.
pub open spec fn min_key(a: i32, b: i32) -> i32 {
    if a <= b {
        a
    } else {
        b
    }
}

/// The larger of two keys.
pub open spec fn max_key(a: i32, b: i32) -> i32 {
    if a >= b {
        a
    } else {
        b
    }
}

fn lower(a: i32, b: i32) -> (k: i32)
    ensures
        k == min_key(a, b),
{
    if a <= b {
        a
    } else {
        b
    }
}

fn upper(a: i32, b: i32) -> (k: i32)
    ensures
        k == max_key(a, b),
{
    if a >= b {
        a
    } else {
        b
    }
}

/// A point of space, one order key per axis.
#[derive(Clone, Copy, Debug, PartialEq, Eq, Structural)]
pub struct Point3 {
    pub x: i32,
    pub y: i32,
    pub z: i32,
}

impl Point3 {
    /// The key along `axis`: 0 is x, 1 is y, anything else is z.
    pub open spec fn axis_spec(self, axis: int) -> i32 {
        if axis == 0 {
            self.x
        } else if axis == 1 {
            self.y
        } else {
            self.z
        }
    }

    /// `self` is at or below `other` on every axis.
    pub open spec fn le(self, other: Point3) -> bool {
        self.x <= other.x && self.y <= other.y && self.z <= other.z
    }

    /// The axis-wise minimum of two points.
    pub open spec fn meet(self, other: Point3) -> Point3 {
        Point3 {
            x: min_key(self.x, other.x),
            y: min_key(self.y, other.y),
            z: min_key(self.z, other.z),
        }
    }

    /// The axis-wise maximum of two points.
    pub open spec fn join(self, other: Point3) -> Point3 {
        Point3 {
            x: max_key(self.x, other.x),
            y: max_key(self.y, other.y),
            z: max_key(self.z, other.z),
        }
    }

    pub fn new(x: i32, y: i32, z: i32) -> (p: Point3)
        ensures
            p == (Point3 { x, y, z }),
    {
        Point3 { x, y, z }
    }

    /// A point with the same key on every axis.
    pub fn from_element(v: i32) -> (p: Point3)
        ensures
            p == (Point3 { x: v, y: v, z: v }),
    {
        Point3 { x: v, y: v, z: v }
    }

    /// The key along `axis`.
    pub fn axis(&self, axis: usize) -> (k: i32)
        ensures
            k == self.axis_spec(axis as int),
    {
        if axis == 0 {
            self.x
        } else if axis == 1 {
            self.y
        } else {
            self.z
        }
    }
}

/// A face of a box: the axis it is square to, and the side it is on.
#[derive(Clone, Copy, Debug, PartialEq, Eq, Structural)]
pub struct Face {
    /// 0 for x, 1 for y, 2 for z.
    pub axis: usize,
    /// The face looks down the axis rather than up.
    pub negative: bool,
}

/// How close to a face, in half extents from the centre, a point has to be to
/// count as lying on it: the key of the number just under one that leaves
/// room for rounding.
pub const FACE_BIAS: i32 = 0x3f7f_fff0;

/// The face that a point of the surface lies on.  `d` is the point as seen
/// from the centre of the box, in half extents along each axis: the first
/// axis along which it is beyond the bias decides, the z axis if none is, and
/// the side is the sign along that axis.
pub open spec fn face_of(d: Point3) -> Face {
    if d.x > FACE_BIAS || d.x < -FACE_BIAS {
        Face { axis: 0, negative: d.x < 0 }
    } else if d.y > FACE_BIAS || d.y < -FACE_BIAS {
        Face { axis: 1, negative: d.y < 0 }
    } else {
        Face { axis: 2, negative: d.z < 0 }
    }
}

/// A box given by its two extreme corners.
///
/// A box is *finalized* once `min` is at or below `max` on every axis.  The
/// empty box is the one sentinel that is not: its corners are swapped extremes,
/// so that growing it by anything yields exactly that thing.
#[derive(Clone, Copy, Debug, PartialEq, Eq, Structural)]
pub struct Aabb {
    pub min: Point3,
    pub max: Point3,
}

impl Aabb {
    /// `min` is at or below `max` on every axis.
    pub open spec fn finalized(self) -> bool {
        self.min.le(self.max)
    }

    /// The point lies in the box, faces included.
    pub open spec fn contains(self, p: Point3) -> bool {
        self.min.le(p) && p.le(self.max)
    }

    /// Every point of `inner` lies in `self`, stated on the corners.
    pub open spec fn covers(self, inner: Aabb) -> bool {
        self.min.le(inner.min) && inner.max.le(self.max)
    }

    /// The empty sentinel.
    pub open spec fn empty_spec() -> Aabb {
        Aabb {
            min: Point3 { x: i32::MAX, y: i32::MAX, z: i32::MAX },
            max: Point3 { x: i32::MIN, y: i32::MIN, z: i32::MIN },
        }
    }

    /// The smallest box whose corners bound those of both arguments.
    pub open spec fn union_spec(a: Aabb, b: Aabb) -> Aabb {
        Aabb { min: a.min.meet(b.min), max: a.max.join(b.max) }
    }

    /// The box grown just enough to hold `p`.
    pub open spec fn with_point(self, p: Point3) -> Aabb {
        Aabb { min: self.min.meet(p), max: self.max.join(p) }
    }

    pub fn new(min: Point3, max: Point3) -> (b: Aabb)
        ensures
            b == (Aabb { min, max }),
    {
        Aabb { min, max }
    }

    /// The face whose outward normal is the normal of the box at a point of
    /// its surface; see [`face_of`].  The normal is the unit vector along the
    /// face's axis, turned to the face's side: it has length one exactly.
    pub fn normal_at(d: &Point3) -> (face: Face)
        ensures
            face == face_of(*d),
            face.axis < 3,
    {
        if d.x > FACE_BIAS || d.x < -FACE_BIAS {
            Face { axis: 0, negative: d.x < 0 }
        } else if d.y > FACE_BIAS || d.y < -FACE_BIAS {
            Face { axis: 1, negative: d.y < 0 }
        } else {
            Face { axis: 2, negative: d.z < 0 }
        }
    }

    pub fn empty() -> (b: Aabb)
        ensures
            b == Aabb::empty_spec(),
    {
        Aabb::new(Point3::from_element(i32::MAX), Point3::from_element(i32::MIN))
    }

    /// Grows the box to hold `p`.
    pub fn add_point(&mut self, p: &Point3)
        ensures
            *final(self) == old(self).with_point(*p),
    {
        if p.x < self.min.x {
            self.min.x = p.x;
        }
        if p.y < self.min.y {
            self.min.y = p.y;
        }
        if p.z < self.min.z {
            self.min.z = p.z;
        }
        if p.x > self.max.x {
            self.max.x = p.x;
        }
        if p.y > self.max.y {
            self.max.y = p.y;
        }
        if p.z > self.max.z {
            self.max.z = p.z;
        }
    }

    /// Grows the box to hold `other`.
    pub fn add_aabb(&mut self, other: &Aabb)
        ensures
            *final(self) == Aabb::union_spec(*old(self), *other),
    {
        *self = Aabb::union(self, other);
    }

    pub fn union(a: &Aabb, b: &Aabb) -> (u: Aabb)
        ensures
            u == Aabb::union_spec(*a, *b),
    {
        Aabb {
            min: Point3::new(
                lower(a.min.x, b.min.x),
                lower(a.min.y, b.min.y),
                lower(a.min.z, b.min.z),
            ),
            max: Point3::new(
                upper(a.max.x, b.max.x),
                upper(a.max.y, b.max.y),
                upper(a.max.z, b.max.z),
            ),
        }
    }

    /// The union is the least box that covers both arguments.
    pub proof fn lemma_union_least(a: Aabb, b: Aabb, c: Aabb)
        ensures
            Aabb::union_spec(a, b).covers(a),
            Aabb::union_spec(a, b).covers(b),
            c.covers(a) && c.covers(b) ==> c.covers(Aabb::union_spec(a, b)),
    {
    }

    /// The empty box is neutral for union, on either side.
    pub proof fn lemma_union_empty(b: Aabb)
        ensures
            Aabb::union_spec(Aabb::empty_spec(), b) == b,
            Aabb::union_spec(b, Aabb::empty_spec()) == b,
    {
    }

    /// Union does not depend on the order or grouping of its arguments.
    pub proof fn lemma_union_commutes(a: Aabb, b: Aabb, c: Aabb)
        ensures
            Aabb::union_spec(a, b) == Aabb::union_spec(b, a),
            Aabb::union_spec(Aabb::union_spec(a, b), c) == Aabb::union_spec(
                a,
                Aabb::union_spec(b, c),
            ),
    {
    }

    /// A union is finalized as soon as one argument is, and a box grown by a
    /// point always is once it started finalized or empty.
    pub proof fn lemma_finalized(a: Aabb, b: Aabb, p: Point3)
        ensures
            a.finalized() || b.finalized() ==> Aabb::union_spec(a, b).finalized(),
            a.finalized() ==> a.with_point(p).finalized() && a.with_point(p).contains(p),
            Aabb::empty_spec().with_point(p) == (Aabb { min: p, max: p }),
    {
    }

    /// Covering is transitive, and a covered box's points are the cover's.
    pub proof fn lemma_covers_transitive(a: Aabb, b: Aabb, c: Aabb, p: Point3)
        ensures
            a.covers(a),
            a.covers(b) && b.covers(c) ==> a.covers(c),
            a.covers(b) && b.contains(p) ==> a.contains(p),
    {
    }
}

} // verus!
