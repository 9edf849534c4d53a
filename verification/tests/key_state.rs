use key_state::input::{Input, KeyPolarity, KeyState, RawKeyEvent};

const DELAY: u64 = 500;

fn down(key: u32) -> RawKeyEvent {
    RawKeyEvent { key: Some(key), polarity: KeyPolarity::Down }
}

fn up(key: u32) -> RawKeyEvent {
    RawKeyEvent { key: Some(key), polarity: KeyPolarity::Up }
}

#[test]
fn fresh_tracker_reports_all_false() {
    let t = Input::new(DELAY);
    for key in [0u32, 1, 13, 65_000, u32::MAX] {
        assert!(!t.on_key_pressed(key));
        assert!(!t.on_key_held(key));
        assert!(!t.on_key_released(key));
    }
}

#[test]
fn single_down_is_just_pressed() {
    let mut t = Input::new(DELAY);
    t.process_key_event(down(7), 0);
    assert!(t.on_key_pressed(7));
    assert!(!t.on_key_held(7));
    assert!(!t.on_key_released(7));
}

#[test]
fn end_frame_consumes_pressed_edge() {
    let mut t = Input::new(DELAY);
    t.process_key_event(down(7), 0);
    t.end_of_frame_clean(10);
    // Down exactly one frame: neither just pressed nor held.
    assert!(!t.on_key_pressed(7));
    assert!(!t.on_key_held(7));
    assert!(!t.on_key_released(7));
}

#[test]
fn held_after_repeat_delay_elapses() {
    let mut t = Input::new(DELAY);
    t.process_key_event(down(7), 0);
    t.end_of_frame_clean(10);
    assert!(!t.on_key_held(7));
    t.end_of_frame_clean(10 + DELAY);
    assert!(t.on_key_held(7));
    assert!(!t.on_key_pressed(7));
}

#[test]
fn not_held_before_repeat_delay_elapses() {
    let mut t = Input::new(DELAY);
    t.process_key_event(down(7), 0);
    t.end_of_frame_clean(10);
    t.end_of_frame_clean(10 + DELAY - 1);
    assert!(!t.on_key_held(7));
    // The promotion still happens once the delay has passed.
    t.end_of_frame_clean(10 + DELAY);
    assert!(t.on_key_held(7));
}

#[test]
fn down_then_up_same_frame_is_just_released() {
    let mut t = Input::new(DELAY);
    t.process_key_event(down(7), 0);
    t.process_key_event(up(7), 1);
    assert!(t.on_key_released(7));
    assert!(!t.on_key_pressed(7));
    assert!(!t.on_key_held(7));
    t.end_of_frame_clean(10);
    assert!(!t.on_key_pressed(7));
    assert!(!t.on_key_held(7));
    assert!(!t.on_key_released(7));
}

#[test]
fn duplicate_down_same_frame_closes_pressed_edge() {
    let mut t = Input::new(DELAY);
    t.process_key_event(down(7), 0);
    assert!(t.on_key_pressed(7));
    // The OS delivered an auto-repeat tick before the frame boundary ran:
    // the one-frame edge must not fire twice.
    t.process_key_event(down(7), 1);
    assert!(!t.on_key_pressed(7));
    assert!(!t.on_key_held(7));
}

#[test]
fn repeated_down_in_held_buffer_absorbed() {
    let mut t = Input::new(DELAY);
    t.process_key_event(down(7), 0);
    t.end_of_frame_clean(10);
    for tick in 11..20u64 {
        t.process_key_event(down(7), tick);
        assert!(!t.on_key_pressed(7));
        assert!(!t.on_key_held(7));
        assert!(!t.on_key_released(7));
    }
}

#[test]
fn repeated_down_in_held_absorbed() {
    let mut t = Input::new(DELAY);
    t.process_key_event(down(7), 0);
    t.end_of_frame_clean(10);
    t.end_of_frame_clean(10 + DELAY);
    assert!(t.on_key_held(7));
    for tick in 600..610u64 {
        t.process_key_event(down(7), tick);
        assert!(t.on_key_held(7));
        assert!(!t.on_key_pressed(7));
    }
}

#[test]
fn press_release_round_trip_returns_to_idle() {
    let mut t = Input::new(DELAY);
    t.process_key_event(down(7), 0);
    t.end_of_frame_clean(10);
    t.process_key_event(up(7), 15);
    t.end_of_frame_clean(20);
    // Back to the default state of a key never ingested.
    assert!(!t.on_key_pressed(7));
    assert!(!t.on_key_held(7));
    assert!(!t.on_key_released(7));
    // And it behaves like a fresh key: a new press opens a new edge.
    t.process_key_event(down(7), 30);
    assert!(t.on_key_pressed(7));
}

#[test]
fn release_from_held_is_just_released() {
    let mut t = Input::new(DELAY);
    t.process_key_event(down(7), 0);
    t.end_of_frame_clean(10);
    t.end_of_frame_clean(10 + DELAY);
    assert!(t.on_key_held(7));
    t.process_key_event(up(7), 600);
    assert!(t.on_key_released(7));
    assert!(!t.on_key_held(7));
}

#[test]
fn invalid_up_on_fresh_key_is_ignored() {
    let mut t = Input::new(DELAY);
    t.process_key_event(up(7), 0);
    assert!(!t.on_key_pressed(7));
    assert!(!t.on_key_held(7));
    assert!(!t.on_key_released(7));
}

#[test]
fn invalid_up_after_release_is_ignored() {
    let mut t = Input::new(DELAY);
    t.process_key_event(down(7), 0);
    t.process_key_event(up(7), 1);
    assert!(t.on_key_released(7));
    // A duplicate release is a protocol violation; the state is unchanged.
    t.process_key_event(up(7), 2);
    assert!(t.on_key_released(7));
}

#[test]
fn unresolved_key_event_is_ignored() {
    let mut t = Input::new(DELAY);
    t.process_key_event(RawKeyEvent { key: None, polarity: KeyPolarity::Down }, 0);
    t.process_key_event(down(7), 1);
    t.process_key_event(RawKeyEvent { key: None, polarity: KeyPolarity::Up }, 2);
    assert!(t.on_key_pressed(7));
    assert!(!t.on_key_released(7));
}

#[test]
fn keys_are_tracked_independently() {
    let mut t = Input::new(DELAY);
    t.process_key_event(down(1), 0);
    t.process_key_event(down(2), 1);
    t.end_of_frame_clean(10);
    t.process_key_event(down(3), 11);
    t.process_key_event(up(2), 12);
    assert!(!t.on_key_pressed(1));
    assert!(t.on_key_released(2));
    assert!(t.on_key_pressed(3));
    assert!(!t.on_key_released(1));
    assert!(!t.on_key_pressed(2));
    assert!(!t.on_key_released(3));
}

#[test]
fn get_key_down_reports_false() {
    assert!(!Input::get_key_down(down(7)));
    assert!(!Input::get_key_down(up(7)));
}

#[test]
fn key_state_values_compare_by_fields() {
    assert_eq!(KeyState::Idle, KeyState::Idle);
    assert_ne!(KeyState::Pressed, KeyState::Held);
    assert_eq!(KeyState::HeldBuffer { since: 3 }, KeyState::HeldBuffer { since: 3 });
    assert_ne!(KeyState::HeldBuffer { since: 3 }, KeyState::HeldBuffer { since: 4 });
}
