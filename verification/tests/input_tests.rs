use input_state::manager::InputManager;
use input_state::tween::AXIS_UNIT;

// Platform key codes used by the tests; any distinct values work.
const KEY_Z: u64 = 1;
const KEY_X: u64 = 2;
const KEY_RETURN: u64 = 3;
const KEY_RSHIFT: u64 = 4;
const KEY_UP: u64 = 5;
const KEY_DOWN: u64 = 6;
const KEY_LEFT: u64 = 7;
const KEY_RIGHT: u64 = 8;

// Logical buttons.
const BUTTON_A: u64 = 10;
const BUTTON_B: u64 = 11;
const BUTTON_SELECT: u64 = 12;
const BUTTON_START: u64 = 13;

// Logical axes.
const AXIS_HORZ: u64 = 20;
const AXIS_VERT: u64 = 21;

// 0.16 seconds per frame, in milliseconds.
const FRAME_MS: u64 = 160;

fn standard_manager() -> InputManager {
    InputManager::new()
        .bind_key_to_button(KEY_Z, BUTTON_A)
        .bind_key_to_button(KEY_X, BUTTON_B)
        .bind_key_to_button(KEY_RETURN, BUTTON_START)
        .bind_key_to_button(KEY_RSHIFT, BUTTON_SELECT)
        .bind_key_to_axis(KEY_UP, AXIS_VERT, true)
        .bind_key_to_axis(KEY_DOWN, AXIS_VERT, false)
        .bind_key_to_axis(KEY_LEFT, AXIS_HORZ, false)
        .bind_key_to_axis(KEY_RIGHT, AXIS_HORZ, true)
}

#[test]
fn test_input_events() {
    let mut im = standard_manager();

    im.update_keydown(Some(KEY_Z));
    assert!(im.get_button(BUTTON_A));
    assert!(im.get_button_down(BUTTON_A));
    im.update_keyup(Some(KEY_Z));
    assert!(!im.get_button(BUTTON_A));
    assert!(im.get_button_up(BUTTON_A));

    // Push the 'up' button, watch the axis increase to 1.0 but not beyond.
    im.update_keydown(Some(KEY_UP));
    assert!(im.get_axis_raw(AXIS_VERT) > 0);
    while im.get_axis(AXIS_VERT) < 990_000 {
        im.update(FRAME_MS);
        assert!(im.get_axis(AXIS_VERT) >= 0);
        assert!(im.get_axis(AXIS_VERT) <= AXIS_UNIT);
    }
    // Release it, watch it wind down.
    im.update_keyup(Some(KEY_UP));
    while im.get_axis(AXIS_VERT) > 10_000 {
        im.update(FRAME_MS);
        assert!(im.get_axis(AXIS_VERT) >= 0);
    }

    // Do the same with the 'down' button.
    im.update_keydown(Some(KEY_DOWN));
    while im.get_axis(AXIS_VERT) > -990_000 {
        im.update(FRAME_MS);
        assert!(im.get_axis(AXIS_VERT) <= 0);
        assert!(im.get_axis(AXIS_VERT) >= -AXIS_UNIT);
    }
}

#[test]
fn test_update_zero_is_identity() {
    let mut im = standard_manager();
    im.update_keydown(Some(KEY_UP));
    im.update(FRAME_MS);
    let position = im.get_axis(AXIS_VERT);
    let direction = im.get_axis_raw(AXIS_VERT);
    im.update(0);
    assert_eq!(im.get_axis(AXIS_VERT), position);
    assert_eq!(im.get_axis_raw(AXIS_VERT), direction);
    im.update(0);
    assert_eq!(im.get_axis(AXIS_VERT), position);
}

#[test]
fn test_bind_then_query_defaults() {
    let mut im = InputManager::new()
        .bind_key_to_axis(KEY_UP, AXIS_VERT, true)
        .bind_key_to_button(KEY_Z, BUTTON_A);
    assert_eq!(im.get_axis(AXIS_VERT), 0);
    assert_eq!(im.get_axis_raw(AXIS_VERT), 0);
    assert!(!im.get_button(BUTTON_A));
    assert!(im.get_button_up(BUTTON_A));
}

#[test]
fn test_button_latch() {
    let mut im = InputManager::new().bind_key_to_button(KEY_Z, BUTTON_A);
    im.update_keydown(Some(KEY_Z));
    assert!(im.get_button(BUTTON_A));
    // A second key-down is absorbed; the last event wins.
    im.update_keydown(Some(KEY_Z));
    assert!(im.get_button(BUTTON_A));
    im.update_keyup(Some(KEY_Z));
    assert!(!im.get_button(BUTTON_A));
    assert!(im.get_button_up(BUTTON_A));
}

#[test]
fn test_axis_exact_values() {
    let mut im = InputManager::new().bind_key_to_axis(KEY_UP, AXIS_VERT, true);
    im.update_keydown(Some(KEY_UP));
    assert_eq!(im.get_axis_raw(AXIS_VERT), AXIS_UNIT);
    // Default acceleration is 4 units/s: 100 ms moves 0.4 units.
    im.update(100);
    assert_eq!(im.get_axis(AXIS_VERT), 400_000);
    im.update(100);
    assert_eq!(im.get_axis(AXIS_VERT), 800_000);
    // The step is capped at the gap to 1.0.
    im.update(100);
    assert_eq!(im.get_axis(AXIS_VERT), 1_000_000);
    // At the boundary, further updates change nothing.
    im.update(100);
    assert_eq!(im.get_axis(AXIS_VERT), 1_000_000);

    // Default gravity is 3 units/s: 100 ms falls 0.3 units.
    im.update_keyup(Some(KEY_UP));
    assert_eq!(im.get_axis_raw(AXIS_VERT), 0);
    im.update(100);
    assert_eq!(im.get_axis(AXIS_VERT), 700_000);
    im.update(100);
    assert_eq!(im.get_axis(AXIS_VERT), 400_000);
    im.update(100);
    assert_eq!(im.get_axis(AXIS_VERT), 100_000);
    // The decay is capped at the distance to 0: no overshoot.
    im.update(100);
    assert_eq!(im.get_axis(AXIS_VERT), 0);
    im.update(100);
    assert_eq!(im.get_axis(AXIS_VERT), 0);
}

#[test]
fn test_negative_axis_saturates() {
    let mut im = InputManager::new().bind_key_to_axis(KEY_DOWN, AXIS_VERT, false);
    im.update_keydown(Some(KEY_DOWN));
    assert_eq!(im.get_axis_raw(AXIS_VERT), -AXIS_UNIT);
    im.update(200);
    assert_eq!(im.get_axis(AXIS_VERT), -800_000);
    im.update(200);
    assert_eq!(im.get_axis(AXIS_VERT), -1_000_000);
    im.update(200);
    assert_eq!(im.get_axis(AXIS_VERT), -1_000_000);
}

#[test]
fn test_unbound_key_is_noop() {
    let mut im = standard_manager();
    im.update_keydown(Some(99));
    im.update_keyup(Some(99));
    im.update_keydown(None);
    im.update_keyup(None);
    assert_eq!(im.get_axis(AXIS_VERT), 0);
    assert_eq!(im.get_axis(AXIS_HORZ), 0);
    assert!(!im.get_button(BUTTON_A));
}

#[test]
fn test_unknown_reads_default() {
    let mut im = InputManager::new();
    assert_eq!(im.get_axis(77), 0);
    assert_eq!(im.get_axis_raw(77), 0);
    assert!(!im.get_button(88));
    assert!(!im.get_button_down(88));
    assert!(im.get_button_up(88));
}

#[test]
fn test_rebind_overwrites() {
    let mut im = InputManager::new()
        .bind_key_to_button(KEY_Z, BUTTON_A)
        .bind_key_to_button(KEY_Z, BUTTON_B);
    im.update_keydown(Some(KEY_Z));
    assert!(!im.get_button(BUTTON_A));
    assert!(im.get_button(BUTTON_B));
}

#[test]
fn test_opposite_key_release_zeroes_direction() {
    // Releasing either of two opposite-sign keys bound to the same axis
    // zeroes the direction, even while the other key is still held.
    let mut im = InputManager::new()
        .bind_key_to_axis(KEY_UP, AXIS_VERT, true)
        .bind_key_to_axis(KEY_DOWN, AXIS_VERT, false);
    im.update_keydown(Some(KEY_UP));
    im.update_keydown(Some(KEY_DOWN));
    assert_eq!(im.get_axis_raw(AXIS_VERT), -AXIS_UNIT);
    im.update_keyup(Some(KEY_UP));
    assert_eq!(im.get_axis_raw(AXIS_VERT), 0);
}

#[test]
fn test_reset_input_axes() {
    let mut im = standard_manager();
    im.update_keydown(Some(KEY_UP));
    im.update_keydown(Some(KEY_RIGHT));
    im.update(FRAME_MS);
    assert!(im.get_axis(AXIS_VERT) > 0);
    assert!(im.get_axis(AXIS_HORZ) > 0);
    im.update_keydown(Some(KEY_Z));

    im.reset_input_axes();
    assert_eq!(im.get_axis(AXIS_VERT), 0);
    assert_eq!(im.get_axis_raw(AXIS_VERT), 0);
    assert_eq!(im.get_axis(AXIS_HORZ), 0);
    assert_eq!(im.get_axis_raw(AXIS_HORZ), 0);
    // Buttons are untouched by the reset.
    assert!(im.get_button(BUTTON_A));
    // The reset also forgets a still-held key's direction: a further update
    // does not move the axis until a new key event re-asserts it.
    im.update(FRAME_MS);
    assert_eq!(im.get_axis(AXIS_VERT), 0);
    assert_eq!(im.get_axis_raw(AXIS_VERT), 0);
    im.update_keydown(Some(KEY_UP));
    im.update(FRAME_MS);
    assert!(im.get_axis(AXIS_VERT) > 0);
}

#[test]
fn test_binding_keeps_existing_state() {
    // Binding a second key to a known axis or button leaves its state alone.
    let mut im = InputManager::new().bind_key_to_axis(KEY_UP, AXIS_VERT, true);
    im.update_keydown(Some(KEY_UP));
    im.update(100);
    assert_eq!(im.get_axis(AXIS_VERT), 400_000);
    let mut im = im.bind_key_to_axis(KEY_DOWN, AXIS_VERT, false);
    assert_eq!(im.get_axis(AXIS_VERT), 400_000);
    assert_eq!(im.get_axis_raw(AXIS_VERT), AXIS_UNIT);
}

#[test]
fn test_large_dt_saturates() {
    let mut im = InputManager::new().bind_key_to_axis(KEY_UP, AXIS_VERT, true);
    im.update_keydown(Some(KEY_UP));
    im.update(u64::MAX);
    assert_eq!(im.get_axis(AXIS_VERT), AXIS_UNIT);
    im.update_keyup(Some(KEY_UP));
    im.update(u64::MAX);
    assert_eq!(im.get_axis(AXIS_VERT), 0);
}

#[test]
fn test_mouse_placeholders() {
    InputManager::mouse_position();
    InputManager::mouse_scroll_delta();
    InputManager::get_mouse_button();
    InputManager::get_mouse_button_down();
    InputManager::get_mouse_button_up();
}
