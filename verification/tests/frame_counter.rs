use rtracer::frame_counter::{Clock, FrameCounter};

#[test]
fn frame_counter_reports_once_a_second() {
    let mut fc = FrameCounter::new();
    assert_eq!(fc.total_frame(), 0);
    assert_eq!(fc.fps(), (0, 0));
    assert_eq!(fc.next_frame(1_000), None);
    assert_eq!(fc.time_last_frame(), 0);
    assert_eq!(fc.next_frame(501_000), None);
    assert_eq!(fc.time_last_frame(), 500_000);
    // exactly a second is not yet more than a second
    assert_eq!(fc.next_frame(1_001_000), None);
    assert_eq!(fc.next_frame(1_001_001), Some((4, 1_000_001)));
    assert_eq!(fc.fps(), (4, 1_000_001));
    assert_eq!(fc.time_last_frame(), 1);
    assert_eq!(fc.total_frame(), 4);
    assert_eq!(fc.clock, Some(Clock { last_fps_update: 1_001_001, last_frame: 1_001_001 }));
    assert_eq!(fc.next_frame(2_000_000), None);
    assert_eq!(fc.next_frame(3_001_001), Some((2, 2_000_000)));
    assert_eq!(fc.total_frame(), 6);
}

#[test]
fn frame_counter_survives_a_clock_that_runs_backwards() {
    let mut fc = FrameCounter::new();
    assert_eq!(fc.next_frame(5_000_000), None);
    assert_eq!(fc.next_frame(1_000_000), None);
    assert_eq!(fc.time_last_frame(), 0);
    assert_eq!(fc.next_frame(5_000_000), None);
    assert_eq!(fc.time_last_frame(), 4_000_000);
    assert_eq!(fc.next_frame(6_000_001), Some((4, 1_000_001)));
}
