use rtracer::aabb::{Aabb, Point3};
use rtracer::sorting::sort_along;

#[test]
fn sort_orders_a_range_and_leaves_the_rest() {
    let b = |x: i32, y: i32| Aabb::new(Point3::new(x, y, 0), Point3::new(x + 1, y + 1, 1));
    let mut v = vec![b(9, 0), b(5, 1), b(7, 2), b(1, 3), b(3, 4), b(0, 5)];
    sort_along(&mut v, 1, 5, 0);
    assert_eq!(v, vec![b(9, 0), b(1, 3), b(3, 4), b(5, 1), b(7, 2), b(0, 5)]);
    sort_along(&mut v, 0, 6, 1);
    assert_eq!(v, vec![b(9, 0), b(5, 1), b(7, 2), b(1, 3), b(3, 4), b(0, 5)]);
    sort_along(&mut v, 2, 2, 0);
    sort_along(&mut v, 6, 6, 0);
    assert_eq!(v.len(), 6);
}

#[test]
fn sort_keeps_equal_items_in_order() {
    let b = |x: i32, tag: i32| Aabb::new(Point3::new(x, 0, 0), Point3::new(x, tag, 0));
    let mut v = vec![b(2, 0), b(1, 1), b(2, 2), b(1, 3), b(2, 4), b(1, 5), b(0, 6)];
    sort_along(&mut v, 0, 7, 0);
    assert_eq!(v, vec![b(0, 6), b(1, 1), b(1, 3), b(1, 5), b(2, 0), b(2, 2), b(2, 4)]);
}
