use pufferfish::{convert_keycode, handle_event, EventAction, Input, KeyCode, WindowEvent};

#[test]
fn fresh_input_has_no_keys() {
    let input = Input::new();
    assert!(!input.is_key_down(KeyCode::A));
    assert!(!input.is_key_pressed(KeyCode::A));
    assert!(!input.is_key_released(KeyCode::A));
    assert!(input.get_keys_down().is_empty());
}

#[test]
fn press_marks_down_and_pressed() {
    let mut input = Input::new();
    input.press_key(KeyCode::W);
    assert!(input.is_key_down(KeyCode::W));
    assert!(input.is_key_pressed(KeyCode::W));
    assert!(!input.is_key_released(KeyCode::W));
    assert!(!input.is_key_down(KeyCode::S));
}

#[test]
fn update_clears_pressed_but_keeps_down() {
    let mut input = Input::new();
    input.press_key(KeyCode::W);
    input.update();
    assert!(input.is_key_down(KeyCode::W));
    assert!(!input.is_key_pressed(KeyCode::W));
}

#[test]
fn release_removes_down_and_marks_released() {
    let mut input = Input::new();
    input.press_key(KeyCode::W);
    input.press_key(KeyCode::A);
    input.update();
    input.release_key(KeyCode::W);
    assert!(!input.is_key_down(KeyCode::W));
    assert!(input.is_key_down(KeyCode::A));
    assert!(input.is_key_released(KeyCode::W));
    assert_eq!(input.get_keys_down(), vec![KeyCode::A]);
    assert_eq!(input.get_keys_released(), vec![KeyCode::W]);
}

#[test]
fn repeated_press_is_recorded_once() {
    let mut input = Input::new();
    input.press_key(KeyCode::D);
    input.press_key(KeyCode::D);
    assert_eq!(input.get_keys_down(), vec![KeyCode::D]);
    assert_eq!(input.get_keys_pressed(), vec![KeyCode::D]);
}

#[test]
fn keys_are_reported_in_press_order() {
    let mut input = Input::new();
    input.press_key(KeyCode::A);
    input.press_key(KeyCode::B);
    input.press_key(KeyCode::C);
    assert_eq!(input.get_keys_down(), vec![KeyCode::A, KeyCode::B, KeyCode::C]);
}

#[test]
fn keycode_conversion_matches_the_windowing_layer() {
    assert_eq!(convert_keycode(97), Some(KeyCode::A));
    assert_eq!(convert_keycode(122), Some(KeyCode::Z));
    assert_eq!(convert_keycode(48), Some(KeyCode::Alpha0));
    assert_eq!(convert_keycode(57), Some(KeyCode::Alpha9));
    assert_eq!(convert_keycode(13), Some(KeyCode::Enter));
    assert_eq!(convert_keycode(27), Some(KeyCode::Escape));
    assert_eq!(convert_keycode(32), Some(KeyCode::Space));
    assert_eq!(convert_keycode(127), Some(KeyCode::Delete));
    assert_eq!(convert_keycode(1073742048), Some(KeyCode::LeftControl));
    assert_eq!(convert_keycode(1073741904), Some(KeyCode::Left));
    assert_eq!(convert_keycode(1073741922), Some(KeyCode::Num0));
    assert_eq!(convert_keycode(1073741913), Some(KeyCode::Num1));
    assert_eq!(convert_keycode(64), None);
    assert_eq!(convert_keycode(-5), None);
}


#[test]
fn quit_event_stops_the_loop() {
    let mut input = Input::new();
    assert_eq!(handle_event(&mut input, &WindowEvent::Quit), EventAction::Stop);
}

#[test]
fn resize_event_is_handed_back() {
    let mut input = Input::new();
    let action = handle_event(&mut input, &WindowEvent::Resized { width: 640, height: 480 });
    assert_eq!(action, EventAction::Resize { width: 640, height: 480 });
}

#[test]
fn key_events_drive_the_input_state() {
    let mut input = Input::new();
    let a = handle_event(&mut input, &WindowEvent::KeyDown { code: 97, repeat: false });
    assert_eq!(a, EventAction::Continue);
    assert!(input.is_key_down(KeyCode::A));
    assert!(input.is_key_pressed(KeyCode::A));
    input.update();
    let a = handle_event(&mut input, &WindowEvent::KeyUp { code: 97, repeat: false });
    assert_eq!(a, EventAction::Continue);
    assert!(!input.is_key_down(KeyCode::A));
    assert!(input.is_key_released(KeyCode::A));
}

#[test]
fn repeats_and_unknown_codes_are_ignored() {
    let mut input = Input::new();
    handle_event(&mut input, &WindowEvent::KeyDown { code: 97, repeat: true });
    assert!(!input.is_key_down(KeyCode::A));
    handle_event(&mut input, &WindowEvent::KeyDown { code: 64, repeat: false });
    assert!(input.get_keys_down().is_empty());
}
