use rtracer::renderer_cpu::{pixel_seed, Bounce, CPURenderer};

#[test]
fn renderer_keeps_its_settings() {
    let r = CPURenderer::new(32, 64);
    assert_eq!(r.rays_for_pixel(), 32);
    assert_eq!(r.max_ray_depth(), 64);
}

#[test]
fn a_miss_ends_in_the_background() {
    let r = CPURenderer::new(1, 4);
    assert_eq!(r.bounce(0, false, false), Bounce::Escaped);
    assert_eq!(r.bounce(4, false, true), Bounce::Escaped);
    assert_eq!(r.bounce(9, false, false), Bounce::Escaped);
}

#[test]
fn an_absorbing_hit_ends_in_black_at_any_depth() {
    let r = CPURenderer::new(1, 4);
    assert_eq!(r.bounce(0, true, false), Bounce::Absorbed);
    assert_eq!(r.bounce(3, true, false), Bounce::Absorbed);
    assert_eq!(r.bounce(4, true, false), Bounce::Absorbed);
}

#[test]
fn the_depth_limit_is_a_hard_cutoff() {
    let r = CPURenderer::new(1, 4);
    assert_eq!(r.bounce(0, true, true), Bounce::Scattered);
    assert_eq!(r.bounce(3, true, true), Bounce::Scattered);
    assert_eq!(r.bounce(4, true, true), Bounce::Exhausted);
    assert_eq!(r.bounce(u32::MAX, true, true), Bounce::Exhausted);
    let none = CPURenderer::new(1, 0);
    assert_eq!(none.bounce(0, true, true), Bounce::Exhausted);
    let all = CPURenderer::new(1, u32::MAX);
    assert_eq!(all.bounce(u32::MAX - 1, true, true), Bounce::Scattered);
    assert_eq!(all.bounce(u32::MAX, true, true), Bounce::Exhausted);
}

#[test]
fn a_path_casts_at_most_the_limit_plus_one_times() {
    let r = CPURenderer::new(1, 6);
    let mut depth = 0;
    let mut casts = 0;
    loop {
        casts += 1;
        match r.bounce(depth, true, true) {
            Bounce::Scattered => depth += 1,
            other => {
                assert_eq!(other, Bounce::Exhausted);
                break;
            }
        }
    }
    assert_eq!(casts, 7);
}

#[test]
fn work_items_get_seeds_of_their_own() {
    assert_eq!(pixel_seed(100, 0), 100);
    assert_eq!(pixel_seed(100, 7), 107);
    assert_eq!(pixel_seed(u64::MAX, 1), 0);
    assert_eq!(pixel_seed(u64::MAX - 1, 5), 3);
    let mut seen = std::collections::HashSet::new();
    for slot in 0..1000 {
        assert!(seen.insert(pixel_seed(u64::MAX - 500, slot)));
    }
}
