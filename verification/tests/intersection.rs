use rtracer::intersection::{
    aabb_intersect, narrow, ray_aabb_intersection, ray_enters_box, ray_sphere_intersection,
    within, T_FAR,
};

#[test]
fn range_is_open_at_both_ends() {
    assert_eq!(within(Some(5), (0, 10)), Some(5));
    assert_eq!(within(Some(0), (0, 10)), None);
    assert_eq!(within(Some(10), (0, 10)), None);
    assert_eq!(within(Some(1), (0, 10)), Some(1));
    assert_eq!(within(Some(9), (0, 10)), Some(9));
    assert_eq!(within(Some(-3), (0, 10)), None);
    assert_eq!(within(None, (0, 10)), None);
    assert_eq!(within(Some(5), (7, 3)), None);
}

#[test]
fn sphere_reports_the_near_root_when_it_lies_ahead() {
    assert_eq!(ray_sphere_intersection(Some((3, 8))), Some(3));
    assert_eq!(ray_sphere_intersection(Some((-2, 8))), Some(8));
    assert_eq!(ray_sphere_intersection(Some((0, 8))), Some(8));
    assert_eq!(ray_sphere_intersection(Some((-9, -1))), None);
    assert_eq!(ray_sphere_intersection(Some((-9, 0))), None);
    assert_eq!(ray_sphere_intersection(Some((4, 4))), Some(4));
    assert_eq!(ray_sphere_intersection(None), None);
}

#[test]
fn narrowing_keeps_the_overlap() {
    assert_eq!(narrow((0, 100), (10, 50)), Some((10, 50)));
    assert_eq!(narrow((0, 100), (-10, 150)), Some((0, 100)));
    assert_eq!(narrow((20, 100), (10, 50)), Some((20, 50)));
    assert_eq!(narrow((20, 100), (100, 150)), Some((100, 100)));
    assert_eq!(narrow((20, 100), (101, 150)), None);
    assert_eq!(narrow((20, 100), (50, 50)), Some((50, 50)));
    assert_eq!(narrow((20, 100), (60, 50)), None);
    assert_eq!(narrow((0, 100), (i32::MIN, i32::MAX)), Some((0, 100)));
}

#[test]
fn slab_test_from_outside_gives_entry_and_exit() {
    assert_eq!(ray_aabb_intersection(&[(10, 30), (5, 25), (12, 40)]), Some((12, 25)));
    assert_eq!(ray_aabb_intersection(&[(10, 30), (31, 45), (12, 40)]), None);
    assert_eq!(ray_aabb_intersection(&[(10, 30), (5, 25), (25, 40)]), Some((25, 25)));
    assert_eq!(ray_aabb_intersection(&[(10, 30), (5, 25), (26, 40)]), None);
    assert_eq!(ray_aabb_intersection(&[(-30, -10), (-5, 25), (-12, 40)]), None);
    assert_eq!(aabb_intersect(&[(10, 30), (5, 25), (12, 40)], (0, T_FAR)), Some(12));
    assert_eq!(aabb_intersect(&[(10, 30), (5, 25), (12, 40)], (12, T_FAR)), None);
    assert_eq!(aabb_intersect(&[(10, 30), (5, 25), (12, 40)], (0, 12)), None);
}

#[test]
fn slab_test_from_inside_reports_the_way_out() {
    let spans = [(-10, 30), (-5, 25), (-12, 40)];
    assert_eq!(ray_aabb_intersection(&spans), Some((0, 25)));
    assert_eq!(aabb_intersect(&spans, (0, T_FAR)), Some(25));
    let open = [(i32::MIN, i32::MAX), (-5, 7), (i32::MIN, i32::MAX)];
    assert_eq!(ray_aabb_intersection(&open), Some((0, 7)));
    let unbounded = [(i32::MIN, i32::MAX); 3];
    assert_eq!(ray_aabb_intersection(&unbounded), Some((0, T_FAR)));
    assert_eq!(aabb_intersect(&unbounded, (0, T_FAR)), None);
}

#[test]
fn a_box_is_entered_where_its_span_meets_the_range() {
    let spans = [(10, 30), (5, 25), (12, 40)];
    assert!(ray_enters_box(&spans, (0, T_FAR)));
    assert!(ray_enters_box(&spans, (24, 100)));
    assert!(!ray_enters_box(&spans, (25, 100)));
    assert!(ray_enters_box(&spans, (0, 13)));
    assert!(!ray_enters_box(&spans, (0, 12)));
    assert!(ray_enters_box(&spans, (13, 20)));
    assert!(!ray_enters_box(&[(10, 30), (31, 45), (12, 40)], (0, T_FAR)));
    // a box without thickness is entered all the same
    assert!(ray_enters_box(&[(7, 7), (0, 9), (0, 9)], (0, T_FAR)));
}
