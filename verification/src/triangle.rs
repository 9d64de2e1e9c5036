//! Triangles, as far as their corners bound them.

use crate::aabb::{Aabb, Point3};
use crate::hit::Bounded;
use vstd::prelude::*;

verus! {

#[derive(Clone, Copy, Debug, PartialEq, Eq, Structural)]
pub struct Triangle {
    pub v0: Point3,
    pub v1: Point3,
    pub v2: Point3,
}

impl Triangle {
    pub fn new(v0: Point3, v1: Point3, v2: Point3) -> (t: Triangle)
        ensures
            t == (Triangle { v0, v1, v2 }),
    {
        Triangle { v0, v1, v2 }
    }

    /// The box of a triangle holds its corners, and no smaller box does.
    pub proof fn lemma_tight(self, other: Aabb)
        ensures
            self.aabb_spec().finalized(),
            self.aabb_spec().contains(self.v0),
            self.aabb_spec().contains(self.v1),
            self.aabb_spec().contains(self.v2),
            other.contains(self.v0) && other.contains(self.v1) && other.contains(self.v2)
                ==> other.covers(self.aabb_spec()),
    {
    }
}

impl Bounded for Triangle {
    /// The empty box grown by the three corners.
    open spec fn aabb_spec(&self) -> Aabb {
        Aabb::empty_spec().with_point(self.v0).with_point(self.v1).with_point(self.v2)
    }

    fn aabb(&self) -> (b: Aabb) {
        let mut aabb = Aabb::empty();
        aabb.add_point(&self.v0);
        aabb.add_point(&self.v1);
        aabb.add_point(&self.v2);
        aabb
    }
}

} // verus!
