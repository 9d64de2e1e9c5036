use rtracer::aabb::{Aabb, Point3, FACE_BIAS};
use rtracer::bvh::{BvhNode, SplitAxis};
use rtracer::flat_bvh::{Bvh, BvhItem};
use rtracer::hit::{Bounded, Hit, HitRecord, Probe};
use rtracer::hitable_list::HitableList;
use rtracer::intersection::{
    aabb_intersect, ray_aabb_intersection, ray_enters_box, ray_sphere_intersection, within, T_FAR,
};
use rtracer::keys::{bits_are_number, bits_of_key, key_of_bits, INFINITY};
use rtracer::triangle::Triangle;

type V3 = [f32; 3];

fn sub(a: V3, b: V3) -> V3 {
    [a[0] - b[0], a[1] - b[1], a[2] - b[2]]
}

fn dot(a: V3, b: V3) -> f32 {
    a[0] * b[0] + a[1] * b[1] + a[2] * b[2]
}

fn cross(a: V3, b: V3) -> V3 {
    [a[1] * b[2] - a[2] * b[1], a[2] * b[0] - a[0] * b[2], a[0] * b[1] - a[1] * b[0]]
}

fn unit(a: V3) -> V3 {
    let n = dot(a, a).sqrt();
    [a[0] / n, a[1] / n, a[2] / n]
}

/// The order key of a float, with `nan` for what is not a number.
fn key_or(x: f32, nan: i32) -> i32 {
    if bits_are_number(x.to_bits()) {
        key_of_bits(x.to_bits())
    } else {
        nan
    }
}

fn key(x: f32) -> i32 {
    assert!(!x.is_nan());
    key_or(x, 0)
}

fn unkey(k: i32) -> f32 {
    f32::from_bits(bits_of_key(k))
}

fn corner(v: V3) -> Point3 {
    Point3::new(key(v[0]), key(v[1]), key(v[2]))
}

struct Lcg(u64);

impl Lcg {
    /// A float from 0 up to, not including, 1.
    fn next(&mut self) -> f32 {
        self.0 = self.0.wrapping_mul(6364136223846793005).wrapping_add(1442695040888963407);
        ((self.0 >> 40) as f32) / ((1u64 << 24) as f32)
    }

    fn between(&mut self, lo: f32, hi: f32) -> f32 {
        lo + (hi - lo) * self.next()
    }

    fn direction(&mut self) -> V3 {
        loop {
            let d = [self.between(-1., 1.), self.between(-1., 1.), self.between(-1., 1.)];
            let n = dot(d, d);
            if n > 0.01 && n <= 1. {
                return unit(d);
            }
        }
    }
}

#[derive(Clone, Copy)]
struct Ray {
    origin: V3,
    direction: V3,
}

impl Ray {
    fn toward(origin: V3, target: V3) -> Ray {
        Ray { origin, direction: unit(sub(target, origin)) }
    }

    fn at(&self, t: f32) -> V3 {
        [
            self.origin[0] + t * self.direction[0],
            self.origin[1] + t * self.direction[1],
            self.origin[2] + t * self.direction[2],
        ]
    }

    fn spans_of(&self, aabb: &Aabb) -> [(i32, i32); 3] {
        let min = [unkey(aabb.min.x), unkey(aabb.min.y), unkey(aabb.min.z)];
        let max = [unkey(aabb.max.x), unkey(aabb.max.y), unkey(aabb.max.z)];
        let mut spans = [(i32::MIN, i32::MAX); 3];
        for a in 0..3 {
            let inv_d = 1. / self.direction[a];
            let mut t0 = (min[a] - self.origin[a]) * inv_d;
            let mut t1 = (max[a] - self.origin[a]) * inv_d;
            if inv_d < 0. {
                std::mem::swap(&mut t0, &mut t1);
            }
            spans[a] = (key_or(t0, i32::MIN), key_or(t1, i32::MAX));
        }
        spans
    }
}

impl Probe for Ray {
    fn spans_spec(&self, aabb: Aabb) -> [(i32, i32); 3] {
        self.spans_of(&aabb)
    }

    fn spans(&self, aabb: &Aabb) -> [(i32, i32); 3] {
        self.spans_of(aabb)
    }
}

#[derive(Clone, Copy)]
struct Sphere {
    center: V3,
    radius: f32,
    id: u32,
}

impl Sphere {
    fn roots(&self, ray: &Ray) -> Option<(f32, f32)> {
        let oc = sub(ray.origin, self.center);
        let a = dot(ray.direction, ray.direction);
        let b = dot(ray.direction, oc);
        let c = dot(oc, oc) - self.radius * self.radius;
        let discriminant = b * b - a * c;
        if discriminant < 0. {
            return None;
        }
        let root = discriminant.sqrt();
        Some(((-b - root) / a, (-b + root) / a))
    }

    fn intersect(&self, ray: &Ray, t_min_max: (i32, i32)) -> Option<i32> {
        let roots = self.roots(ray).map(|(t1, t2)| (key_or(t1, 0), key_or(t2, 0)));
        within(ray_sphere_intersection(roots), t_min_max)
    }
}

impl Bounded for Sphere {
    fn aabb_spec(&self) -> Aabb {
        self.aabb()
    }

    fn aabb(&self) -> Aabb {
        let (c, r) = (self.center, self.radius);
        Aabb::new(corner([c[0] - r, c[1] - r, c[2] - r]), corner([c[0] + r, c[1] + r, c[2] + r]))
    }
}

impl Hit for Sphere {
    type Ray = Ray;

    fn hit_spec(&self, ray: &Ray, t_min: i32, t_max: i32) -> Option<HitRecord> {
        self.hit(ray, (t_min, t_max))
    }

    fn hit(&self, ray: &Ray, t_min_max: (i32, i32)) -> Option<HitRecord> {
        self.intersect(ray, t_min_max).map(|t| HitRecord::new(t, self.id))
    }
}

#[derive(Clone, Copy)]
struct Tri {
    v: [V3; 3],
    id: u32,
}

impl Tri {
    /// The distance and the two barycentric coordinates of the hit.
    fn meet(&self, ray: &Ray) -> Option<(f32, f32, f32)> {
        let e1 = sub(self.v[1], self.v[0]);
        let e2 = sub(self.v[2], self.v[0]);
        let pvec = cross(ray.direction, e2);
        let det = dot(e1, pvec);
        if det.abs() < 2. * f32::EPSILON {
            return None;
        }
        let inv_det = 1. / det;
        let tvec = sub(ray.origin, self.v[0]);
        let u = dot(tvec, pvec) * inv_det;
        if u < 0. || u > 1. {
            return None;
        }
        let qvec = cross(tvec, e1);
        let v = dot(ray.direction, qvec) * inv_det;
        if v < 0. || u + v > 1. {
            return None;
        }
        Some((dot(e2, qvec) * inv_det, u, v))
    }
}

impl Bounded for Tri {
    fn aabb_spec(&self) -> Aabb {
        self.aabb()
    }

    fn aabb(&self) -> Aabb {
        Triangle::new(corner(self.v[0]), corner(self.v[1]), corner(self.v[2])).aabb()
    }
}

impl Hit for Tri {
    type Ray = Ray;

    fn hit_spec(&self, ray: &Ray, t_min: i32, t_max: i32) -> Option<HitRecord> {
        self.hit(ray, (t_min, t_max))
    }

    fn hit(&self, ray: &Ray, t_min_max: (i32, i32)) -> Option<HitRecord> {
        let t = self.meet(ray).map(|(t, _, _)| key(t));
        within(t, t_min_max).map(|t| HitRecord::new(t, self.id))
    }
}

/// The box around `center` of the given size, and the normal of its face at
/// `point`.
struct FloatBox {
    center: V3,
    size: V3,
}

impl FloatBox {
    fn from_center_size(center: V3, size: V3) -> FloatBox {
        FloatBox { center, size }
    }

    fn normal_at(&self, point: V3) -> V3 {
        let local = sub(point, self.center);
        let d = [
            local[0] / (self.size[0] / 2.),
            local[1] / (self.size[1] / 2.),
            local[2] / (self.size[2] / 2.),
        ];
        let face = Aabb::normal_at(&corner(d));
        let mut normal = [0.; 3];
        normal[face.axis] = if face.negative { -1. } else { 1. };
        normal
    }
}

fn add(a: V3, b: V3) -> V3 {
    [a[0] + b[0], a[1] + b[1], a[2] + b[2]]
}

const X: V3 = [1., 0., 0.];
const Y: V3 = [0., 1., 0.];
const Z: V3 = [0., 0., 1.];

fn neg(a: V3) -> V3 {
    [-a[0], -a[1], -a[2]]
}

#[test]
fn aabb_test_normal_at_simple() {
    let pos = [3., 2., -7.];

    let aabb = FloatBox::from_center_size(pos, [2., 2., 2.]);

    assert_eq!(aabb.normal_at(add(pos, X)), X);
    assert_eq!(aabb.normal_at(sub(pos, X)), neg(X));

    assert_eq!(aabb.normal_at(add(pos, Y)), Y);
    assert_eq!(aabb.normal_at(sub(pos, Y)), neg(Y));

    assert_eq!(aabb.normal_at(add(pos, Z)), Z);
    assert_eq!(aabb.normal_at(sub(pos, Z)), neg(Z));
}

#[test]
fn aabb_test_normal_at_hard() {
    let aabb = FloatBox::from_center_size([0., 0., 0.], [2., 2., 2.]);

    assert_eq!(aabb.normal_at([1., 0.4, -0.2]), X);
    assert_eq!(aabb.normal_at([-1., 0.97, 0.89]), neg(X));
    assert_eq!(aabb.normal_at([1., -0.97, 0.89]), X);
}

#[test]
fn box_normals_have_length_one() {
    let mut rng = Lcg(11);
    for _ in 0..2000 {
        let b = FloatBox::from_center_size([0.5, -1., 2.], [rng.between(0.1, 4.), 3., 1.]);
        let point = [rng.between(-3., 3.), rng.between(-3., 3.), rng.between(-3., 3.)];
        let n = b.normal_at(point);
        assert_eq!(dot(n, n), 1.);
    }
    assert_eq!(key(1. - 8. * f32::EPSILON), FACE_BIAS);
}

#[test]
fn keys_order_floats_as_floats_do() {
    let floats = [
        f32::NEG_INFINITY,
        f32::MIN,
        -3.5,
        -1.0,
        -f32::MIN_POSITIVE,
        0.0,
        f32::MIN_POSITIVE,
        0.5,
        1.0,
        1.5,
        f32::MAX,
        f32::INFINITY,
    ];
    for pair in floats.windows(2) {
        assert!(key(pair[0]) < key(pair[1]));
    }
    for x in floats {
        assert_eq!(unkey(key(x)), x);
    }
    assert_eq!(key(-0.0), key(0.0));
    assert_eq!(key(0.0), 0);
    assert_eq!(key(f32::MAX), T_FAR);
    assert_eq!(key(1.0), rtracer::material::ONE);
    assert_eq!(unkey(i32::MAX), f32::INFINITY);
    assert_eq!(unkey(i32::MIN), f32::NEG_INFINITY);
    assert_eq!(key(f32::INFINITY), INFINITY);
    assert_eq!(key(f32::NEG_INFINITY), -INFINITY);
    assert_eq!(key_or(f32::NAN, 7), 7);
    assert_eq!(key_or(-f32::NAN, 7), 7);
}

#[test]
fn keys_come_from_sign_and_magnitude() {
    assert_eq!(key_of_bits(0), 0);
    assert_eq!(key_of_bits(0x8000_0000), 0);
    assert_eq!(key_of_bits(1), 1);
    assert_eq!(key_of_bits(0x8000_0001), -1);
    assert_eq!(key_of_bits(0x7fff_ffff), i32::MAX);
    assert_eq!(key_of_bits(0xffff_ffff), -i32::MAX);
    assert_eq!(key_of_bits(0x3f80_0000), 0x3f80_0000);
    assert_eq!(key_of_bits(0xbf80_0000), -0x3f80_0000);
    assert_eq!(bits_of_key(0), 0);
    assert_eq!(bits_of_key(5), 5);
    assert_eq!(bits_of_key(-5), 0x8000_0005);
    assert_eq!(bits_of_key(INFINITY), 0x7f80_0000);
    assert_eq!(bits_of_key(INFINITY + 1), 0x7f80_0000);
    assert_eq!(bits_of_key(-INFINITY), 0xff80_0000);
    assert_eq!(bits_of_key(i32::MIN), 0xff80_0000);
    assert!(bits_are_number(0x7f80_0000) && bits_are_number(0xff80_0000));
    assert!(!bits_are_number(0x7f80_0001) && !bits_are_number(0xff80_0001));
    assert!(!bits_are_number(0x7fc0_0000) && !bits_are_number(u32::MAX));
    assert!(bits_are_number(0) && bits_are_number(0x8000_0000));
}

#[test]
fn sphere_ahead_is_hit_on_its_near_side() {
    let sphere = Sphere { center: [0., 0., -1.], radius: 0.5, id: 0 };
    let ray = Ray::toward([0., 0., 0.], [0., 0., -1.]);
    let hit = sphere.hit(&ray, (0, T_FAR)).unwrap();
    assert_eq!(unkey(hit.t), 0.5);
    let point = ray.at(unkey(hit.t));
    let normal = unit(sub(point, sphere.center));
    assert_eq!(normal, [0., 0., 1.]);
    // through a hierarchy as well
    let mut objs = vec![sphere];
    let tree = BvhNode::build(&mut objs);
    assert_eq!(tree.hit(&ray, (0, T_FAR)), Some(hit));
}

#[test]
fn triangle_is_hit_inside_its_edges() {
    let tri = Tri { v: [[-1., 0., 0.], [1., 0., 0.], [0., 1., 0.]], id: 0 };
    let ray = Ray::toward([0., 0.3, -1.], [0., 0.3, 1.]);
    assert_eq!(ray.direction, [0., 0., 1.]);
    let (t, u, v) = tri.meet(&ray).unwrap();
    assert!(u + v <= 1.);
    assert!((t - 1.).abs() < 1e-6);
    let hit = tri.hit(&ray, (0, T_FAR)).unwrap();
    assert!((unkey(hit.t) - 1.).abs() < 1e-6);
    // the triangle's box is flat; a hierarchy must not prune it
    assert_eq!(tri.aabb(), Aabb::new(corner([-1., 0., 0.]), corner([1., 1., 0.])));
    let mut objs = vec![tri];
    let tree = BvhNode::build(&mut objs);
    assert_eq!(tree.hit(&ray, (0, T_FAR)), Some(hit));
    assert_eq!(tri.hit(&Ray::toward([0., 1.3, -1.], [0., 1.3, 1.]), (0, T_FAR)), None);
}

#[test]
fn ray_at_the_center_of_a_sphere_reports_the_near_root() {
    let mut rng = Lcg(5);
    for _ in 0..2000 {
        let sphere = Sphere {
            center: [rng.between(-5., 5.), rng.between(-5., 5.), rng.between(-5., 5.)],
            radius: rng.between(0.1, 2.),
            id: 0,
        };
        let d = rng.direction();
        let away = sphere.radius + rng.between(0.5, 10.);
        let origin = [
            sphere.center[0] + away * d[0],
            sphere.center[1] + away * d[1],
            sphere.center[2] + away * d[2],
        ];
        let ray = Ray::toward(origin, sphere.center);
        let (t1, t2) = sphere.roots(&ray).unwrap();
        assert!(0. < t1 && t1 < t2);
        assert_eq!(sphere.intersect(&ray, (0, T_FAR)), Some(key(t1)));
        assert!((t1 - (away - sphere.radius)).abs() < 1e-3);
    }
}

#[test]
fn ray_that_passes_a_sphere_by_misses_it() {
    let mut rng = Lcg(6);
    for _ in 0..2000 {
        let sphere = Sphere { center: [0., 0., -10.], radius: rng.between(0.1, 2.), id: 0 };
        let offset = sphere.radius * rng.between(1.01, 4.);
        let ray = Ray { origin: [offset, 0., 0.], direction: [0., 0., -1.] };
        assert_eq!(sphere.roots(&ray), None);
        assert_eq!(sphere.intersect(&ray, (0, T_FAR)), None);
    }
}

#[test]
fn ray_from_inside_a_box_reports_the_way_out() {
    let mut rng = Lcg(7);
    for _ in 0..2000 {
        let min = [rng.between(-5., 0.), rng.between(-5., 0.), rng.between(-5., 0.)];
        let max = [
            min[0] + rng.between(0.5, 5.),
            min[1] + rng.between(0.5, 5.),
            min[2] + rng.between(0.5, 5.),
        ];
        let aabb = Aabb::new(corner(min), corner(max));
        let origin = [
            rng.between(min[0] + 0.01, max[0] - 0.01),
            rng.between(min[1] + 0.01, max[1] - 0.01),
            rng.between(min[2] + 0.01, max[2] - 0.01),
        ];
        let ray = Ray { origin, direction: rng.direction() };
        let spans = ray.spans(&aabb);
        assert!(ray_enters_box(&spans, (0, T_FAR)));
        let (from, to) = ray_aabb_intersection(&spans).unwrap();
        assert_eq!(from, 0);
        assert!(to > 0);
        let t = aabb_intersect(&spans, (0, T_FAR)).unwrap();
        assert_eq!(t, to);
        let exit = ray.at(unkey(t));
        let on_a_face = (0..3).any(|a| {
            (exit[a] - min[a]).abs() < 1e-3 || (exit[a] - max[a]).abs() < 1e-3
        });
        let in_the_box = (0..3).all(|a| min[a] - 1e-3 <= exit[a] && exit[a] <= max[a] + 1e-3);
        assert!(on_a_face && in_the_box);
    }
}

fn grid_of_spheres(rng: &mut Lcg, n: usize) -> Vec<Sphere> {
    let mut all = Vec::new();
    for ix in 0..n {
        for iy in 0..n {
            for iz in 0..n {
                let id = all.len() as u32;
                all.push(Sphere {
                    center: [3. * ix as f32, 3. * iy as f32, 3. * iz as f32],
                    radius: rng.between(0.3, 1.4),
                    id,
                });
            }
        }
    }
    all
}

#[test]
fn hierarchy_finds_the_closest_sphere_as_a_scan_does() {
    let mut rng = Lcg(8);
    let spheres = grid_of_spheres(&mut rng, 4);
    let mut list = HitableList::new();
    for s in &spheres {
        list.add(*s);
    }
    let mut in_leaf_order = spheres.clone();
    let tree = BvhNode::build(&mut in_leaf_order);
    let mut in_turn = spheres.clone();
    let turned = BvhNode::build_with(&mut in_turn, SplitAxis::RoundRobin(0));
    let mut items: Vec<BvhItem> =
        spheres.iter().map(|s| BvhItem { aabb: s.aabb(), id: s.id }).collect();
    let flat = Bvh::build(&mut items);
    assert_eq!(tree.aabb(), list.aabb());

    let mut hits = 0;
    for _ in 0..10_000 {
        let origin = [rng.between(-6., 15.), rng.between(-6., 15.), rng.between(-6., 15.)];
        let ray = Ray { origin, direction: rng.direction() };
        let expected = list.hit(&ray, (0, T_FAR));
        let found = [
            tree.hit(&ray, (0, T_FAR)),
            turned.hit(&ray, (0, T_FAR)),
            flat.query_nearest(&spheres, &ray, 0, T_FAR),
        ];
        for hit in found {
            // equally near spheres may come in another order in a hierarchy
            assert_eq!(hit.map(|h| h.t), expected.map(|h| h.t));
            if let Some(h) = hit {
                assert_eq!(spheres[h.id as usize].hit(&ray, (0, T_FAR)), Some(h));
            }
        }
        if expected.is_some() {
            hits += 1;
        }
    }
    assert!(hits > 1000 && hits < 10_000);
}

#[test]
fn building_twice_in_turn_gives_the_same_hierarchy() {
    let mut rng = Lcg(9);
    let spheres = grid_of_spheres(&mut rng, 3);
    let mut a: Vec<BvhItem> =
        spheres.iter().map(|s| BvhItem { aabb: s.aabb(), id: s.id }).collect();
    let mut b = a.clone();
    let first = Bvh::build_with(&mut a, SplitAxis::RoundRobin(1));
    let second = Bvh::build_with(&mut b, SplitAxis::RoundRobin(1));
    assert_eq!(a, b);
    assert_eq!(first.to_gpu(), second.to_gpu());
}
