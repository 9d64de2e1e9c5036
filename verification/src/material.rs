//! Materials, and what each decides when light falls on it.
//!
//! Colours and the two scalars are order keys.  Where a scattered ray points
//! is arithmetic and is not computed here; what is decided here is whether
//! the light goes on, by which rule, and how it is weakened.

use crate::aabb::{max_key, min_key, Point3};
use vstd::prelude::*;

verus! {

/// The key of the number one.
pub const ONE: i32 = 0x3f80_0000;

/// Each channel of the colour lies between zero and one.
pub open spec fn unit_colour(c: Point3) -> bool {
    0 <= c.x <= ONE && 0 <= c.y <= ONE && 0 <= c.z <= ONE
}

/// The rule by which the outgoing ray is found.
#[derive(Clone, Copy, Debug, PartialEq, Eq, Structural)]
pub enum Outgoing {
    /// Along the normal, thrown off by a random point of the unit sphere.
    Diffuse,
    /// Along the mirror image of the incoming ray, thrown off by the fuzz
    /// times a random point of the unit sphere.
    Glossy,
    /// Along the mirror image of the incoming ray.
    Reflected,
    /// Along the incoming ray as bent into the other medium.
    Refracted,
}

/// Light that goes on: by which rule, and weakened by what.
#[derive(Clone, Copy, Debug, PartialEq, Eq, Structural)]
pub struct ScatteredRay {
    pub outgoing: Outgoing,
    pub attenuation: Point3,
}

impl ScatteredRay {
    pub fn new(outgoing: Outgoing, attenuation: Point3) -> (s: ScatteredRay)
        ensures
            s == (ScatteredRay { outgoing, attenuation }),
    {
        ScatteredRay { outgoing, attenuation }
    }
}

#[derive(Clone, Copy, Debug, PartialEq, Eq, Structural)]
pub struct Lambertian {
    pub albedo: Point3,
}

#[derive(Clone, Copy, Debug, PartialEq, Eq, Structural)]
pub struct Metal {
    pub albedo: Point3,
    pub fuzz: i32,
}

#[derive(Clone, Copy, Debug, PartialEq, Eq, Structural)]
pub struct Dielectric {
    pub attenuation: Point3,
    pub ref_idx: i32,
}

#[derive(Clone, Copy, Debug, PartialEq, Eq, Structural)]
pub enum Material {
    Lambertian(Lambertian),
    Metal(Metal),
    Dielectric(Dielectric),
}

impl Lambertian {
    pub fn new(albedo: Point3) -> (m: Lambertian)
        ensures
            m == (Lambertian { albedo }),
    {
        Lambertian { albedo }
    }

    /// A diffuse surface always scatters, diffusely, and weakens the light by
    /// its albedo.
    pub fn scatter(&self) -> (s: Option<ScatteredRay>)
        ensures
            s == Some(ScatteredRay { outgoing: Outgoing::Diffuse, attenuation: self.albedo }),
    {
        Some(ScatteredRay::new(Outgoing::Diffuse, self.albedo))
    }
}

impl Metal {
    /// A metal of the given colour; the fuzz is brought into the range from
    /// zero to one.
    pub fn new(albedo: Point3, fuzz: i32) -> (m: Metal)
        ensures
            m == (Metal { albedo, fuzz: max_key(min_key(fuzz, ONE), 0) }),
            0 <= m.fuzz <= ONE,
    {
        let below = if fuzz <= ONE {
            fuzz
        } else {
            ONE
        };
        let fuzz = if below >= 0 {
            below
        } else {
            0
        };
        Metal { albedo, fuzz }
    }

    /// A metal scatters where the mirrored ray leaves the surface, that is
    /// where `facing`, the key of its product with the normal, is above
    /// zero; it weakens the light by its albedo.  Any other ray it swallows.
    pub fn scatter(&self, facing: i32) -> (s: Option<ScatteredRay>)
        ensures
            s == if facing > 0 {
                Some(ScatteredRay { outgoing: Outgoing::Glossy, attenuation: self.albedo })
            } else {
                None
            },
    {
        if facing > 0 {
            return Some(ScatteredRay::new(Outgoing::Glossy, self.albedo));
        }
        None
    }
}

impl Dielectric {
    pub fn new(attenuation: Point3, ref_idx: i32) -> (m: Dielectric)
        ensures
            m == (Dielectric { attenuation, ref_idx }),
    {
        Dielectric { attenuation, ref_idx }
    }

    /// A dielectric always scatters and weakens the light by its fixed
    /// attenuation.  `refraction` is `None` where the ray cannot be bent into
    /// the other medium: the ray is then reflected.  Otherwise it holds a
    /// uniform draw and the probability of reflection, as keys: the ray is
    /// reflected where the draw is below the probability, else refracted.
    pub fn scatter(&self, refraction: Option<(i32, i32)>) -> (s: Option<ScatteredRay>)
        ensures
            s == Some(
                ScatteredRay {
                    outgoing: match refraction {
                        Some((draw, reflect_prob)) => if draw < reflect_prob {
                            Outgoing::Reflected
                        } else {
                            Outgoing::Refracted
                        },
                        None => Outgoing::Reflected,
                    },
                    attenuation: self.attenuation,
                },
            ),
    {
        let outgoing = if let Some((draw, reflect_prob)) = refraction {
            if draw < reflect_prob {
                Outgoing::Reflected
            } else {
                Outgoing::Refracted
            }
        } else {
            Outgoing::Reflected
        };
        Some(ScatteredRay::new(outgoing, self.attenuation))
    }
}

impl Material {
    /// The colour by which the material weakens the light it scatters.
    pub open spec fn colour(self) -> Point3 {
        match self {
            Material::Lambertian(m) => m.albedo,
            Material::Metal(m) => m.albedo,
            Material::Dielectric(m) => m.attenuation,
        }
    }

    /// What the material does with the light; see the three `scatter`s.
    pub open spec fn scatter_spec(self, facing: i32, refraction: Option<(i32, i32)>) -> Option<
        ScatteredRay,
    > {
        match self {
            Material::Lambertian(m) => Some(
                ScatteredRay { outgoing: Outgoing::Diffuse, attenuation: m.albedo },
            ),
            Material::Metal(m) => if facing > 0 {
                Some(ScatteredRay { outgoing: Outgoing::Glossy, attenuation: m.albedo })
            } else {
                None
            },
            Material::Dielectric(m) => Some(
                ScatteredRay {
                    outgoing: match refraction {
                        Some((draw, reflect_prob)) => if draw < reflect_prob {
                            Outgoing::Reflected
                        } else {
                            Outgoing::Refracted
                        },
                        None => Outgoing::Reflected,
                    },
                    attenuation: m.attenuation,
                },
            ),
        }
    }

    /// What the material does with the light.  `facing` is read by metals
    /// only, `refraction` by dielectrics only.
    pub fn scatter(&self, facing: i32, refraction: Option<(i32, i32)>) -> (s: Option<ScatteredRay>)
        ensures
            s == self.scatter_spec(facing, refraction),
    {
        match self {
            Material::Lambertian(m) => m.scatter(),
            Material::Metal(m) => m.scatter(facing),
            Material::Dielectric(m) => m.scatter(refraction),
        }
    }

    /// No material adds light: whatever it scatters is weakened by its own
    /// colour, so by channels between zero and one where the colour's are.
    pub proof fn lemma_no_gain(self, facing: i32, refraction: Option<(i32, i32)>)
        ensures
            self.scatter_spec(facing, refraction) matches Some(s) ==> s.attenuation
                == self.colour(),
            unit_colour(self.colour()) ==> (self.scatter_spec(facing, refraction) matches Some(s)
                ==> unit_colour(s.attenuation)),
    {
    }

    /// Diffuse surfaces and dielectrics never swallow light; a metal does so
    /// exactly where the mirrored ray does not leave the surface.
    pub proof fn lemma_absorbs(self, facing: i32, refraction: Option<(i32, i32)>)
        ensures
            self.scatter_spec(facing, refraction) is None <==> self is Metal && facing <= 0,
    {
    }
}

} // verus!
