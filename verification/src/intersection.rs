//! The choices that the intersection routines make once the arithmetic is
//! done: which root, which end of a span, inside the range or not.
//!
//! All values are order keys of ray parameters; key 0 is parameter 0.

use vstd::prelude::*;

verus! {

/// The key of the largest parameter that a span can reach.
pub const T_FAR: i32 = 0x7f7f_ffff;

/// `t` where it lies strictly between the bounds, else nothing.
pub open spec fn within_spec(t: Option<i32>, t_min: i32, t_max: i32) -> Option<i32> {
    match t {
        Some(v) => if t_min < v && v < t_max {
            t
        } else {
            None
        },
        None => None,
    }
}

/// Keeps a found parameter only where it lies strictly between the bounds, so
/// that a ray never hits the surface it starts on.
pub fn within(t: Option<i32>, t_min_max: (i32, i32)) -> (kept: Option<i32>)
    ensures
        kept == within_spec(t, t_min_max.0, t_min_max.1),
{
    if let Some(v) = t {
        let (t_min, t_max) = t_min_max;
        if t_min < v && v < t_max {
            return Some(v);
        }
    }
    None
}

/// The root that a sphere reports: the smaller one where it is positive,
/// else the larger one where that is positive, else none.  `roots` is
/// `None` where the discriminant is negative.
pub open spec fn sphere_root(roots: Option<(i32, i32)>) -> Option<i32> {
    match roots {
        Some((t1, t2)) => if t1 > 0 {
            Some(t1)
        } else if t2 > 0 {
            Some(t2)
        } else {
            None
        },
        None => None,
    }
}

/// Picks the root of the sphere equation; see [`sphere_root`].
pub fn ray_sphere_intersection(roots: Option<(i32, i32)>) -> (t: Option<i32>)
    ensures
        t == sphere_root(roots),
{
    match roots {
        Some((t1, t2)) => {
            if t1 > 0 {
                Some(t1)
            } else if t2 > 0 {
                Some(t2)
            } else {
                None
            }
        },
        None => None,
    }
}

/// The running span after one more axis: it begins at the later of the two
/// beginnings and ends at the earlier of the two ends; nothing is left of it
/// once the end lies before the beginning.
pub open spec fn narrow_spec(span: (i32, i32), axis: (i32, i32)) -> Option<(i32, i32)> {
    let tmin = if axis.0 > span.0 {
        axis.0
    } else {
        span.0
    };
    let tmax = if axis.1 < span.1 {
        axis.1
    } else {
        span.1
    };
    if tmax < tmin {
        None
    } else {
        Some((tmin, tmax))
    }
}

/// The part of the ray inside a box, from the spans in which it lies between
/// the box's two planes along each axis.  The ray begins at parameter 0 and
/// reaches as far as [`T_FAR`].
pub open spec fn slab_spec(spans: [(i32, i32); 3]) -> Option<(i32, i32)> {
    match narrow_spec((0, T_FAR), spans[0]) {
        None => None,
        Some(x) => match narrow_spec(x, spans[1]) {
            None => None,
            Some(xy) => narrow_spec(xy, spans[2]),
        },
    }
}

/// One step of the slab test; see [`narrow_spec`].
pub fn narrow(span: (i32, i32), axis: (i32, i32)) -> (left: Option<(i32, i32)>)
    ensures
        left == narrow_spec(span, axis),
{
    let (t0, t1) = axis;
    let (tmin, tmax) = span;
    let tmin = if t0 > tmin {
        t0
    } else {
        tmin
    };
    let tmax = if t1 < tmax {
        t1
    } else {
        tmax
    };
    if tmax < tmin {
        return None;
    }
    Some((tmin, tmax))
}

/// The slab test; see [`slab_spec`].
pub fn ray_aabb_intersection(spans: &[(i32, i32); 3]) -> (span: Option<(i32, i32)>)
    ensures
        span == slab_spec(*spans),
{
    let mut span: (i32, i32) = (0, T_FAR);
    let mut a: usize = 0;
    while a < 3
        invariant
            a <= 3,
            a == 0 ==> span == (0i32, T_FAR),
            a == 1 ==> narrow_spec((0, T_FAR), spans[0]) == Some(span),
            a == 2 ==> (narrow_spec((0, T_FAR), spans[0]) matches Some(x) && narrow_spec(
                x,
                spans[1],
            ) == Some(span)),
            a == 3 ==> slab_spec(*spans) == Some(span),
        decreases 3 - a,
    {
        match narrow(span, spans[a]) {
            Some(left) => {
                span = left;
            },
            None => {
                return None;
            },
        }
        a += 1;
    }
    Some(span)
}

/// The distance that a box reports: where the ray enters it if that lies
/// ahead, else where it leaves it.
pub open spec fn surface_spec(span: (i32, i32)) -> i32 {
    if span.0 > 0 {
        span.0
    } else {
        span.1
    }
}

/// The hit of a ray on a box: the surface distance of the slab test, kept
/// where it lies strictly between the bounds.
pub open spec fn box_hit_spec(spans: [(i32, i32); 3], t_min: i32, t_max: i32) -> Option<i32> {
    match slab_spec(spans) {
        Some(span) => within_spec(Some(surface_spec(span)), t_min, t_max),
        None => None,
    }
}

/// The hit of a ray on a box; see [`box_hit_spec`].
pub fn aabb_intersect(spans: &[(i32, i32); 3], t_min_max: (i32, i32)) -> (t: Option<i32>)
    ensures
        t == box_hit_spec(*spans, t_min_max.0, t_min_max.1),
{
    if let Some((it_t_min, it_t_max)) = ray_aabb_intersection(spans) {
        let t = if it_t_min > 0 {
            it_t_min
        } else {
            it_t_max
        };
        return within(Some(t), t_min_max);
    }
    None
}

/// The ray passes through the box somewhere strictly between the bounds.
pub open spec fn enters_spec(spans: [(i32, i32); 3], t_min: i32, t_max: i32) -> bool {
    slab_spec(spans) matches Some(span) && span.0 < t_max && t_min < span.1
}

/// Whether a search has to look into a box; see [`enters_spec`].
pub fn ray_enters_box(spans: &[(i32, i32); 3], t_min_max: (i32, i32)) -> (inside: bool)
    ensures
        inside == enters_spec(*spans, t_min_max.0, t_min_max.1),
{
    match ray_aabb_intersection(spans) {
        Some((from, to)) => from < t_min_max.1 && t_min_max.0 < to,
        None => false,
    }
}

/// On every axis the span `outer` holds the span `inner`.
pub open spec fn spans_cover(outer: [(i32, i32); 3], inner: [(i32, i32); 3]) -> bool {
    forall|a: int|
        0 <= a < 3 ==> (#[trigger] outer[a]).0 <= inner[a].0 && inner[a].1 <= outer[a].1
}

/// A ray that passes through a box passes through every box around it: wider
/// spans are entered wherever narrower ones are.
pub proof fn lemma_enters_monotone(
    inner: [(i32, i32); 3],
    outer: [(i32, i32); 3],
    t_min: i32,
    t_max: i32,
)
    requires
        spans_cover(outer, inner),
        enters_spec(inner, t_min, t_max),
    ensures
        enters_spec(outer, t_min, t_max),
{
    assert(outer[0].0 <= inner[0].0 && outer[1].0 <= inner[1].0 && outer[2].0 <= inner[2].0);
}

/// A ray that at parameter `t` is at a point of the box passes through the
/// box; and one that hits the box itself passes through it.
pub proof fn lemma_point_enters(spans: [(i32, i32); 3], t: i32, t_min: i32, t_max: i32)
    ensures
        (forall|a: int| 0 <= a < 3 ==> (#[trigger] spans[a]).0 <= t && t <= spans[a].1) && 0 <= t
            <= T_FAR && t_min < t < t_max ==> enters_spec(spans, t_min, t_max),
        box_hit_spec(spans, t_min, t_max) is Some ==> enters_spec(spans, t_min, t_max),
{
    if (forall|a: int| 0 <= a < 3 ==> (#[trigger] spans[a]).0 <= t && t <= spans[a].1) {
        assert(spans[0].0 <= t && spans[1].0 <= t && spans[2].0 <= t);
    }
}

/// A ray that starts strictly inside a box lies between the two planes of
/// every axis from before parameter 0 until after it.  The slab test then
/// reports the way out: the earliest end of the three spans, or [`T_FAR`] if
/// that comes first, which lies ahead of the origin; and that is the hit on
/// the box for any upper bound beyond it.
pub proof fn lemma_exit_from_inside(spans: [(i32, i32); 3])
    requires
        forall|a: int| 0 <= a < 3 ==> (#[trigger] spans[a]).0 < 0 && 0 < spans[a].1,
    ensures
        slab_spec(spans) matches Some(span) && {
            &&& span.0 == 0
            &&& span.1 > 0
            &&& span.1 <= spans[0].1 && span.1 <= spans[1].1 && span.1 <= spans[2].1
            &&& span.1 == spans[0].1 || span.1 == spans[1].1 || span.1 == spans[2].1 || span.1
                == T_FAR
            &&& surface_spec(span) == span.1
            &&& forall|t_max: i32|
                span.1 < t_max ==> #[trigger] box_hit_spec(spans, 0, t_max) == Some(span.1)
        },
{
    assert(spans[0].0 < 0 && spans[1].0 < 0 && spans[2].0 < 0);
}

} // verus!
