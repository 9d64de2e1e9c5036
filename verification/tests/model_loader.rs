use rtracer::model_loader::load_geometry;

#[test]
fn mesh_triangles_follow_the_indices() {
    let positions = [0., 0., 0., 1., 0., 0., 0., 1., 0., 0., 0., 1.];
    let indices = [0, 1, 2, 3, 2, 1];
    let ts = load_geometry(&positions, &indices).unwrap();
    assert_eq!(
        ts,
        vec![
            [[0., 0., 0.], [1., 0., 0.], [0., 1., 0.]],
            [[0., 0., 1.], [0., 1., 0.], [1., 0., 0.]],
        ]
    );
}

#[test]
fn mesh_ignores_what_is_left_over() {
    let positions = [1, 2, 3, 4, 5, 6, 7];
    let one = Some(vec![[[4, 5, 6], [1, 2, 3], [4, 5, 6]]]);
    assert_eq!(load_geometry(&positions, &[1, 0, 1, 0]), one);
    assert_eq!(load_geometry(&positions, &[1, 0]), Some(vec![]));
    assert_eq!(load_geometry(&positions, &[1, 0, 9, 9]), None);
    // a bad index among those left over does no harm
    assert_eq!(load_geometry(&positions, &[1, 0, 1, 9]), one);
    assert_eq!(load_geometry(&positions, &[]), Some(vec![]));
}

#[test]
fn mesh_rejects_an_index_without_a_vertex() {
    let positions = [1, 2, 3, 4, 5, 6, 7];
    assert_eq!(load_geometry(&positions, &[0, 1, 2]), None);
    assert_eq!(load_geometry(&positions, &[2, 1, 0]), None);
    assert_eq!(load_geometry(&positions, &[0, 0, 0, 0, 2, 0]), None);
    assert_eq!(load_geometry::<u8>(&[], &[0, 0, 0]), None);
}
