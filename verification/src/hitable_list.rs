//! A plain list of things to hit, searched from front to back.

use crate::aabb::Aabb;
use crate::hit::{bounds, nearest, pick_nearer, Bounded, Hit, HitRecord};
use vstd::prelude::*;

verus! {

pub struct HitableList<H: Hit> {
    hitable: Vec<H>,
}

impl<H: Hit> HitableList<H> {
    /// The items, in the order in which they were added.
    pub closed spec fn view(&self) -> Seq<H> {
        self.hitable@
    }

    pub fn new() -> (list: HitableList<H>)
        ensures
            list@ == Seq::<H>::empty(),
    {
        HitableList { hitable: Vec::new() }
    }

    pub fn add(&mut self, obj: H)
        ensures
            final(self)@ == old(self)@.push(obj),
    {
        self.hitable.push(obj)
    }
}

impl<H: Hit> Default for HitableList<H> {
    fn default() -> (list: HitableList<H>)
        ensures
            list@ == Seq::<H>::empty(),
    {
        HitableList::new()
    }
}

impl<H: Hit> Hit for HitableList<H> {
    type Ray = H::Ray;

    open spec fn hit_spec(&self, ray: &Self::Ray, t_min: i32, t_max: i32) -> Option<HitRecord> {
        nearest(self@, ray, t_min, t_max)
    }

    fn hit(&self, ray: &Self::Ray, t_min_max: (i32, i32)) -> (rec: Option<HitRecord>) {
        let mut ret: Option<HitRecord> = None;
        let mut i: usize = 0;
        while i < self.hitable.len()
            invariant
                i <= self.hitable.len(),
                ret == nearest(self@.take(i as int), ray, t_min_max.0, t_min_max.1),
            decreases self.hitable.len() - i,
        {
            let record = self.hitable[i].hit(ray, t_min_max);
            proof {
                assert(self@.take(i + 1).drop_last() =~= self@.take(i as int));
            }
            ret = pick_nearer(ret, record);
            i += 1;
        }
        proof {
            assert(self@.take(i as int) =~= self@);
        }
        ret
    }

}

impl<H: Hit> Bounded for HitableList<H> {
    open spec fn aabb_spec(&self) -> Aabb {
        bounds(self@)
    }

    fn aabb(&self) -> (b: Aabb) {
        let mut aabb = Aabb::empty();
        let mut i: usize = 0;
        while i < self.hitable.len()
            invariant
                i <= self.hitable.len(),
                aabb == bounds(self@.take(i as int)),
            decreases self.hitable.len() - i,
        {
            let inner = self.hitable[i].aabb();
            proof {
                assert(self@.take(i + 1).drop_last() =~= self@.take(i as int));
            }
            aabb.add_aabb(&inner);
            i += 1;
        }
        proof {
            assert(self@.take(i as int) =~= self@);
        }
        aabb
    }
}

} // verus!
