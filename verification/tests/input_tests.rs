use gloom_rs::input::{InputState, Key, KeySet, MouseDelta};
use nalgebra_glm::vec2;

#[test]
fn press_then_release_leaves_empty() {
    let mut keys = KeySet::new();
    keys.press(Key::W);
    keys.release(Key::W);
    assert_eq!(keys.len(), 0);
    assert!(!keys.contains(Key::W));
}

#[test]
fn press_twice_keeps_one_entry() {
    let mut keys = KeySet::new();
    keys.press(Key::Up);
    keys.press(Key::Up);
    assert_eq!(keys.len(), 1);
    assert!(keys.contains(Key::Up));
}

#[test]
fn release_absent_key_is_noop() {
    let mut keys = KeySet::new();
    keys.press(Key::A);
    keys.release(Key::D);
    assert_eq!(keys.len(), 1);
    assert!(keys.contains(Key::A));
    assert!(!keys.contains(Key::D));
}

#[test]
fn distinct_keys_accumulate() {
    let mut keys = KeySet::new();
    keys.press(Key::Other(42));
    keys.press(Key::Other(43));
    keys.press(Key::W);
    assert_eq!(keys.len(), 3);
    assert!(keys.contains(Key::Other(42)));
    assert!(keys.contains(Key::Other(43)));
    assert!(!keys.contains(Key::Other(44)));
}

#[test]
fn press_release_interleaved_set_semantics() {
    let mut keys = KeySet::new();
    keys.press(Key::W);
    keys.press(Key::S);
    keys.press(Key::W);
    keys.release(Key::W);
    assert_eq!(keys.len(), 1);
    assert!(keys.contains(Key::S));
    assert!(!keys.contains(Key::W));
}

#[test]
fn mouse_delta_accumulates_and_clears() {
    let mut mouse = MouseDelta::new(vec2(0.0, 0.0));
    mouse.accumulate(&vec2(1.0, 2.0));
    mouse.accumulate(&vec2(3.0, 4.0));
    let taken = mouse.take();
    assert_eq!(taken, vec2(4.0, 6.0));
    let again = mouse.take();
    assert_eq!(again, vec2(0.0, 0.0));
}

#[test]
fn input_state_starts_empty() {
    let mut input = InputState::new(vec2(0.0, 0.0));
    assert_eq!(input.keys.len(), 0);
    assert_eq!(input.mouse.take(), vec2(0.0, 0.0));
    input.keys.press(Key::E);
    assert!(input.keys.contains(Key::E));
}
