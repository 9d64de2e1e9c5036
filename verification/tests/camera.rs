use rtracer::camera::{Controls, Key};

#[test]
fn keys_switch_the_four_directions() {
    let mut c = Controls::new();
    assert_eq!(
        c,
        Controls {
            forward_enable: false,
            backward_enable: false,
            left_enable: false,
            right_enable: false
        }
    );
    c.process_input(Key::W, true);
    c.process_input(Key::A, true);
    c.process_input(Key::Other, true);
    assert!(c.forward_enable && c.left_enable && !c.backward_enable && !c.right_enable);
    c.process_input(Key::W, false);
    c.process_input(Key::S, true);
    c.process_input(Key::D, true);
    c.process_input(Key::Other, false);
    assert!(!c.forward_enable && c.left_enable && c.backward_enable && c.right_enable);
    c.process_input(Key::A, false);
    c.process_input(Key::S, false);
    c.process_input(Key::D, false);
    assert_eq!(c, Controls::new());
}
