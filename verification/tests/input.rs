use gloom_rs::input::{key_movement, InputState, Key, KeyAction, KeyState, Movement};

#[test]
fn pressing_holds_once() {
    let mut s = InputState::new();
    assert_eq!(s.handle_key(Key::W, KeyState::Pressed), KeyAction::Nothing);
    assert_eq!(s.handle_key(Key::W, KeyState::Pressed), KeyAction::Nothing);
    assert_eq!(s.handle_key(Key::A, KeyState::Pressed), KeyAction::Nothing);
    assert_eq!(s.held_keys(), vec![Key::W, Key::A]);
    assert!(s.is_held(Key::W));
    assert!(!s.is_held(Key::S));
}

#[test]
fn releasing_frees_in_place() {
    let mut s = InputState::new();
    s.handle_key(Key::W, KeyState::Pressed);
    s.handle_key(Key::Other(42), KeyState::Pressed);
    s.handle_key(Key::D, KeyState::Pressed);
    assert_eq!(s.handle_key(Key::Other(42), KeyState::Released), KeyAction::Nothing);
    assert_eq!(s.held_keys(), vec![Key::W, Key::D]);
    // releasing a key that is not held changes nothing
    s.handle_key(Key::S, KeyState::Released);
    assert_eq!(s.held_keys(), vec![Key::W, Key::D]);
}

#[test]
fn press_then_release_restores() {
    let mut s = InputState::new();
    s.handle_key(Key::A, KeyState::Pressed);
    let before = s.held_keys();
    s.handle_key(Key::Space, KeyState::Pressed);
    s.handle_key(Key::Space, KeyState::Released);
    assert_eq!(s.held_keys(), before);
    assert!(!s.is_paused());
}

#[test]
fn escape_toggles_pause() {
    let mut s = InputState::new();
    assert!(!s.is_paused());
    assert_eq!(s.handle_key(Key::Escape, KeyState::Pressed), KeyAction::Nothing);
    assert!(!s.is_paused());
    assert_eq!(s.handle_key(Key::Escape, KeyState::Released), KeyAction::SetPaused(true));
    assert!(s.is_paused());
    s.handle_key(Key::Escape, KeyState::Pressed);
    assert_eq!(s.handle_key(Key::Escape, KeyState::Released), KeyAction::SetPaused(false));
    assert!(!s.is_paused());
}

#[test]
fn q_asks_to_exit() {
    let mut s = InputState::new();
    assert_eq!(s.handle_key(Key::Q, KeyState::Pressed), KeyAction::Exit);
    assert_eq!(s.handle_key(Key::Q, KeyState::Released), KeyAction::Nothing);
}

#[test]
fn movements_follow_held_keys() {
    assert_eq!(key_movement(Key::W), Some(Movement::Forward));
    assert_eq!(key_movement(Key::A), Some(Movement::Left));
    assert_eq!(key_movement(Key::S), Some(Movement::Backward));
    assert_eq!(key_movement(Key::D), Some(Movement::Right));
    assert_eq!(key_movement(Key::Space), Some(Movement::Up));
    assert_eq!(key_movement(Key::LShift), Some(Movement::Down));
    assert_eq!(key_movement(Key::Q), None);
    assert_eq!(key_movement(Key::Other(3)), None);

    let mut s = InputState::new();
    s.handle_key(Key::S, KeyState::Pressed);
    s.handle_key(Key::Other(7), KeyState::Pressed);
    s.handle_key(Key::LShift, KeyState::Pressed);
    s.handle_key(Key::W, KeyState::Pressed);
    assert_eq!(s.movements(), vec![Movement::Backward, Movement::Down, Movement::Forward]);
}
