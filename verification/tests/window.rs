use gloom_rs::window::{WindowState, INITIAL_SCREEN_H, INITIAL_SCREEN_W};

#[test]
fn starts_at_initial_size() {
    let mut w = WindowState::initial();
    assert_eq!((w.width(), w.height()), (INITIAL_SCREEN_W, INITIAL_SCREEN_H));
    assert_eq!((w.width(), w.height()), (600, 600));
    assert_eq!(w.take_resize(), None);
}

#[test]
fn last_resize_applied_once() {
    let mut w = WindowState::new(600, 600);
    w.on_resized(800, 600);
    w.on_resized(1024, 768);
    assert_eq!((w.width(), w.height()), (1024, 768));
    assert_eq!(w.take_resize(), Some((1024, 768)));
    assert_eq!(w.take_resize(), None);
    assert_eq!((w.width(), w.height()), (1024, 768));
}
