use rtracer::aabb::Point3;
use rtracer::material::{
    Dielectric, Lambertian, Material, Metal, Outgoing, ScatteredRay, ONE,
};

fn colour(r: i32, g: i32, b: i32) -> Point3 {
    Point3::new(r, g, b)
}

#[test]
fn diffuse_surfaces_always_scatter_with_their_albedo() {
    let m = Lambertian::new(colour(1, 2, 3));
    assert_eq!(m.scatter(), Some(ScatteredRay::new(Outgoing::Diffuse, colour(1, 2, 3))));
    let black = Material::Lambertian(Lambertian::new(colour(0, 0, 0)));
    assert_eq!(black.scatter(-5, None).unwrap().attenuation, colour(0, 0, 0));
}

#[test]
fn metal_swallows_rays_that_end_up_behind_the_surface() {
    let m = Metal::new(colour(4, 5, 6), 7);
    assert_eq!(m.scatter(1), Some(ScatteredRay::new(Outgoing::Glossy, colour(4, 5, 6))));
    assert_eq!(m.scatter(0), None);
    assert_eq!(m.scatter(-1), None);
    assert_eq!(Material::Metal(m).scatter(i32::MAX, Some((0, 1))), m.scatter(i32::MAX));
}

#[test]
fn metal_fuzz_is_kept_between_zero_and_one() {
    assert_eq!(Metal::new(colour(0, 0, 0), 5).fuzz, 5);
    assert_eq!(Metal::new(colour(0, 0, 0), 0).fuzz, 0);
    assert_eq!(Metal::new(colour(0, 0, 0), -1).fuzz, 0);
    assert_eq!(Metal::new(colour(0, 0, 0), i32::MIN).fuzz, 0);
    assert_eq!(Metal::new(colour(0, 0, 0), ONE).fuzz, ONE);
    assert_eq!(Metal::new(colour(0, 0, 0), ONE + 1).fuzz, ONE);
    assert_eq!(Metal::new(colour(0, 0, 0), i32::MAX).fuzz, ONE);
    assert_eq!(Metal::new(colour(9, 8, 7), 3).albedo, colour(9, 8, 7));
}

#[test]
fn dielectric_reflects_when_it_cannot_refract_or_the_draw_says_so() {
    let m = Dielectric::new(colour(ONE, ONE, ONE), 11);
    let reflected = Some(ScatteredRay::new(Outgoing::Reflected, colour(ONE, ONE, ONE)));
    let refracted = Some(ScatteredRay::new(Outgoing::Refracted, colour(ONE, ONE, ONE)));
    assert_eq!(m.scatter(None), reflected);
    assert_eq!(m.scatter(Some((3, 4))), reflected);
    assert_eq!(m.scatter(Some((4, 4))), refracted);
    assert_eq!(m.scatter(Some((5, 4))), refracted);
    assert_eq!(Material::Dielectric(m).scatter(-9, Some((5, 4))), refracted);
}

#[test]
fn no_material_adds_light() {
    let materials = [
        Material::Lambertian(Lambertian::new(colour(0, ONE / 2, ONE))),
        Material::Metal(Metal::new(colour(ONE, 0, 17), 3)),
        Material::Dielectric(Dielectric::new(colour(ONE, ONE, ONE), 9)),
    ];
    for m in materials {
        for facing in [-1, 0, 1] {
            for refraction in [None, Some((0, 1)), Some((1, 0))] {
                if let Some(s) = m.scatter(facing, refraction) {
                    let a = s.attenuation;
                    assert!(0 <= a.x && a.x <= ONE);
                    assert!(0 <= a.y && a.y <= ONE);
                    assert!(0 <= a.z && a.z <= ONE);
                }
            }
        }
    }
}
