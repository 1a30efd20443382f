use rmc_core::input::{
    ButtonBuffer, ButtonState, ButtonStateEvent, InputState, KeyboardEvent, MouseButtonEvent,
    KEY_A, KEY_D, KEY_S, KEY_W, MOUSE_LEFT,
};
use rmc_core::util::{LookBack, SignNum2};

const KEY_B: u32 = 98;

fn press(key: u32) -> KeyboardEvent {
    KeyboardEvent { key, state: ButtonStateEvent::Press }
}

fn release(key: u32) -> KeyboardEvent {
    KeyboardEvent { key, state: ButtonStateEvent::Release }
}

#[test]
pub fn test_key_buffer() {
    let mut buffer: ButtonBuffer<KeyboardEvent> = ButtonBuffer::new();
    buffer.push(press(KEY_A));

    assert_eq!(buffer.pull(KEY_A), Some(press(KEY_A)));
    assert_eq!(buffer.pull(KEY_A), None);

    buffer.push(press(KEY_A));
    buffer.push(press(KEY_A));

    assert_eq!(buffer.pull(KEY_A), Some(press(KEY_A)));
    assert_eq!(buffer.pull(KEY_A), None);

    buffer.push(press(KEY_A));
    buffer.push(release(KEY_A));

    assert_eq!(buffer.pull(KEY_A), Some(press(KEY_A)));
    assert_eq!(buffer.pull(KEY_A), Some(release(KEY_A)));
    assert_eq!(buffer.pull(KEY_A), None);

    buffer.push(press(KEY_A));
    buffer.push(release(KEY_A));
    buffer.push(press(KEY_A));

    assert_eq!(buffer.pull(KEY_A), Some(release(KEY_A)));
    assert_eq!(buffer.pull(KEY_A), Some(press(KEY_A)));
    assert_eq!(buffer.pull(KEY_A), None);

    buffer.push(press(KEY_A));
    buffer.push(press(KEY_B));
    buffer.push(release(KEY_A));
    buffer.push(press(KEY_A));

    assert_eq!(buffer.pull(KEY_A), Some(release(KEY_A)));
    assert_eq!(buffer.pull(KEY_A), Some(press(KEY_A)));
    assert_eq!(buffer.pull(KEY_B), Some(press(KEY_B)));
    assert_eq!(buffer.pull(KEY_A), None);
    assert_eq!(buffer.pull(KEY_B), None);
}

#[test]
fn button_states_report_their_edges() {
    assert!(ButtonState::JustPressed.just_pressed());
    assert!(!ButtonState::KeptPressed.just_pressed());
    assert!(ButtonState::KeptPressed.kept_pressed());
    assert!(ButtonState::JustPressed.pressed());
    assert!(ButtonState::KeptPressed.pressed());
    assert!(!ButtonState::JustReleased.pressed());
    assert!(ButtonState::KeptReleased.released());
    assert!(ButtonState::JustReleased.released());
    assert_eq!(ButtonState::default(), ButtonState::KeptReleased);
}

#[test]
fn input_state_tracks_edges_and_held_keys() {
    let mut input = InputState::new();
    assert_eq!(input.get_key(KEY_W), ButtonState::KeptReleased);

    input.push_keyboard_event(press(KEY_W));
    assert_eq!(input.get_key(KEY_W), ButtonState::JustPressed);

    input.push_keyboard_event(press(KEY_W));
    assert_eq!(input.get_key(KEY_W), ButtonState::KeptPressed);

    input.update_held_status();
    assert_eq!(input.get_key(KEY_W), ButtonState::KeptPressed);

    input.push_keyboard_event(release(KEY_W));
    assert_eq!(input.get_key(KEY_W), ButtonState::JustReleased);
    input.update_held_status();
    assert_eq!(input.get_key(KEY_W), ButtonState::KeptReleased);

    input.push_mouse_button_event(MouseButtonEvent {
        button: MOUSE_LEFT,
        state: ButtonStateEvent::Press,
    });
    assert_eq!(input.get_mouse_button(MOUSE_LEFT), ButtonState::JustPressed);
    input.update_held_status();
    assert_eq!(input.get_mouse_button(MOUSE_LEFT), ButtonState::KeptPressed);
}

#[test]
fn movement_vector_combines_the_four_keys() {
    let mut input = InputState::new();
    assert_eq!(input.get_movement_vector(), (0, 0));
    input.push_keyboard_event(press(KEY_W));
    input.push_keyboard_event(press(KEY_D));
    assert_eq!(input.get_movement_vector(), (1, 1));
    input.push_keyboard_event(press(KEY_S));
    input.push_keyboard_event(release(KEY_D));
    input.push_keyboard_event(press(KEY_A));
    assert_eq!(input.get_movement_vector(), (-1, 0));
}

#[test]
fn test_look_back() {
    let mut a = LookBack::new_identical(0.0);
    a.push(1.0);

    assert_eq!(a.prev, 0.0);
    assert_eq!(a.curr, 1.0);

    a.push(2.0);

    assert_eq!(a.prev, 1.0);
    assert_eq!(a.curr, 2.0);

    a.push_from(|prev: &f64, val: &f64| {
        assert_eq!(*prev, 1.0);
        assert_eq!(*val, 2.0);

        3.0
    });

    assert_eq!(a.prev, 2.0);
    assert_eq!(a.curr, 3.0);
}

#[test]
fn signum2_is_an_exact_three_way_sign() {
    assert_eq!(5i32.signum2(), 1);
    assert_eq!((-5i32).signum2(), -1);
    assert_eq!(0i32.signum2(), 0);
    assert_eq!(123i64.signum2(), 1);
    assert_eq!((-123i64).signum2(), -1);
    assert_eq!(0i64.signum2(), 0);
}
