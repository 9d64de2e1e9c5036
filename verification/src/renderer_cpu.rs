//! What the path integrator decides at each bounce, and how the work items
//! of a render get their own random streams.

use vstd::prelude::*;

verus! {

/// How a path goes on after one more cast into the scene.
#[derive(Clone, Copy, Debug, PartialEq, Eq, Structural)]
pub enum Bounce {
    /// Nothing was hit: the path ends in the background.
    Escaped,
    /// Something was hit and its material swallowed the light: black.
    Absorbed,
    /// Something was hit and scattered, but the path is as long as it may
    /// get: black.
    Exhausted,
    /// The path goes on along the scattered ray, one bounce deeper, its
    /// radiance weighted by the attenuation.
    Scattered,
}

/// The seed of the work item that fills slot `slot` of the image, under the
/// seed `seed` of the whole render: their sum, wrapping around.
pub open spec fn pixel_seed_spec(seed: u64, slot: u64) -> u64 {
    ((seed + slot) % 0x1_0000_0000_0000_0000) as u64
}

/// The seed for the generator of one work item; see [`pixel_seed_spec`].
pub fn pixel_seed(seed: u64, slot: u64) -> (own: u64)
    ensures
        own == pixel_seed_spec(seed, slot),
{
    seed.wrapping_add(slot)
}

/// Under one seed of the render no two work items share a seed, and a work
/// item's seed is a function of the render's seed and its slot alone.
pub proof fn lemma_pixel_seeds_differ(seed: u64, a: u64, b: u64)
    requires
        a != b,
    ensures
        pixel_seed_spec(seed, a) != pixel_seed_spec(seed, b),
{
}

pub struct CPURenderer {
    rays_for_pixel: u32,
    max_ray_depth: u32,
}

impl CPURenderer {
    pub closed spec fn rays_for_pixel_spec(&self) -> u32 {
        self.rays_for_pixel
    }

    pub closed spec fn max_ray_depth_spec(&self) -> u32 {
        self.max_ray_depth
    }

    /// The rule of the integrator: a miss ends the path in the background; a
    /// hit that does not scatter, or that scatters at the depth limit, ends
    /// it in black; any other hit carries it one bounce deeper.
    pub open spec fn bounce_spec(&self, depth: u32, hit: bool, scattered: bool) -> Bounce {
        if !hit {
            Bounce::Escaped
        } else if !scattered {
            Bounce::Absorbed
        } else if depth < self.max_ray_depth_spec() {
            Bounce::Scattered
        } else {
            Bounce::Exhausted
        }
    }

    pub fn new(rays_for_pixel: u32, max_ray_depth: u32) -> (r: CPURenderer)
        ensures
            r.rays_for_pixel_spec() == rays_for_pixel,
            r.max_ray_depth_spec() == max_ray_depth,
    {
        CPURenderer { rays_for_pixel, max_ray_depth }
    }

    /// How many rays are averaged into one pixel.
    pub fn rays_for_pixel(&self) -> (n: u32)
        ensures
            n == self.rays_for_pixel_spec(),
    {
        self.rays_for_pixel
    }

    /// The depth at which a path is cut off.
    pub fn max_ray_depth(&self) -> (n: u32)
        ensures
            n == self.max_ray_depth_spec(),
    {
        self.max_ray_depth
    }

    /// What becomes of a path that has bounced `depth` times, after its next
    /// cast: `hit` says whether the cast hit anything, `scattered` whether
    /// the material that was hit sent a ray on.
    pub fn bounce(&self, depth: u32, hit: bool, scattered: bool) -> (step: Bounce)
        ensures
            step == self.bounce_spec(depth, hit, scattered),
            step == Bounce::Scattered ==> depth < u32::MAX,
    {
        if hit {
            if scattered {
                if depth < self.max_ray_depth {
                    return Bounce::Scattered;
                }
                return Bounce::Exhausted;
            }
            Bounce::Absorbed
        } else {
            Bounce::Escaped
        }
    }

    /// The depth limit is hard: a path that has reached it never goes on,
    /// whatever it hits, so no path casts more than the limit plus one times.
    pub proof fn lemma_depth_is_bounded(&self, depth: u32, hit: bool, scattered: bool)
        ensures
            self.bounce_spec(depth, hit, scattered) == Bounce::Scattered ==> depth
                < self.max_ray_depth_spec(),
            depth >= self.max_ray_depth_spec() ==> self.bounce_spec(depth, hit, scattered)
                != Bounce::Scattered,
    {
    }
}

} // verus!
