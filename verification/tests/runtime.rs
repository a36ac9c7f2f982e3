use kludgine::runtime::{runtime_pace, update_pressed_keys, window_frame_due, window_pace, FRAME_DURATION};

#[test]
fn window_renders_once_its_target_passes() {
    assert!(window_frame_due(10, 11));
    assert!(!window_frame_due(10, 10));
    assert!(!window_frame_due(10, 3));
}

#[test]
fn window_paces_from_the_later_of_target_and_now() {
    assert_eq!(window_pace(1000, 3000, FRAME_DURATION), (3000 + FRAME_DURATION, FRAME_DURATION - 2000));
    assert_eq!(window_pace(10_000_000, 5000, FRAME_DURATION), (10_000_000 + FRAME_DURATION, FRAME_DURATION));
    assert_eq!(window_pace(0, 10_000_000, FRAME_DURATION), (10_000_000 + FRAME_DURATION, 0));
    assert_eq!(window_pace(u64::MAX - 1, 0, FRAME_DURATION), (u64::MAX - 1, FRAME_DURATION));
}

#[test]
fn runtime_renders_after_a_full_frame() {
    assert_eq!(runtime_pace(0, 5_000_000, FRAME_DURATION), None);
    assert_eq!(runtime_pace(0, FRAME_DURATION, FRAME_DURATION), None);
    assert_eq!(runtime_pace(0, 7_000_000, FRAME_DURATION), Some(7_000_000 + FRAME_DURATION));
    assert_eq!(runtime_pace(u64::MAX - 10, u64::MAX, FRAME_DURATION), None);
    assert_eq!(runtime_pace(u64::MAX - 7_000_000, u64::MAX, FRAME_DURATION), Some(u64::MAX));
}

#[test]
fn pressed_keys_are_held_once() {
    let mut keys = Vec::new();
    update_pressed_keys(&mut keys, 4, true);
    update_pressed_keys(&mut keys, 9, true);
    update_pressed_keys(&mut keys, 4, true);
    assert_eq!(keys, vec![4, 9]);
    update_pressed_keys(&mut keys, 4, false);
    assert_eq!(keys, vec![9]);
    update_pressed_keys(&mut keys, 5, false);
    assert_eq!(keys, vec![9]);
}
