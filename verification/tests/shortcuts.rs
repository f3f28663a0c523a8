use p_rust::shortcuts::{Key, KeyEvent, ShortcutAction, ShortcutTracker};

#[test]
fn chord_shows_window() {
    let mut t = ShortcutTracker::new();
    assert_eq!(t.handle(KeyEvent::Press(Key::MetaLeft)), ShortcutAction::Nothing);
    assert_eq!(t.handle(KeyEvent::Press(Key::ShiftRight)), ShortcutAction::Nothing);
    assert!(t.meta_pressed() && t.shift_pressed());
    assert_eq!(t.handle(KeyEvent::Press(Key::KeyV)), ShortcutAction::Show);
    assert_eq!(t.handle(KeyEvent::Release(Key::KeyV)), ShortcutAction::Nothing);
    assert_eq!(t.handle(KeyEvent::Press(Key::KeyV)), ShortcutAction::Show);
}

#[test]
fn v_alone_or_with_one_modifier_does_nothing() {
    let mut t = ShortcutTracker::new();
    assert_eq!(t.handle(KeyEvent::Press(Key::KeyV)), ShortcutAction::Nothing);
    t.handle(KeyEvent::Press(Key::ShiftLeft));
    assert_eq!(t.handle(KeyEvent::Press(Key::KeyV)), ShortcutAction::Nothing);
}

#[test]
fn release_disarms() {
    let mut t = ShortcutTracker::new();
    t.handle(KeyEvent::Press(Key::MetaRight));
    t.handle(KeyEvent::Press(Key::ShiftLeft));
    // releasing the other Meta key clears Meta too
    t.handle(KeyEvent::Release(Key::MetaLeft));
    t.handle(KeyEvent::Other);
    t.handle(KeyEvent::Press(Key::Other));
    assert_eq!(t.handle(KeyEvent::Press(Key::KeyV)), ShortcutAction::Nothing);
    t.handle(KeyEvent::Press(Key::MetaLeft));
    assert_eq!(t.handle(KeyEvent::Press(Key::KeyV)), ShortcutAction::Show);
}

#[test]
fn escape_hides() {
    let mut t = ShortcutTracker::new();
    assert_eq!(t.handle(KeyEvent::Press(Key::Escape)), ShortcutAction::Hide);
    assert_eq!(t.handle(KeyEvent::Release(Key::Escape)), ShortcutAction::Nothing);
}

#[test]
fn v_follows_last_modifier_events() {
    let mut t = ShortcutTracker::new();
    let events = [
        KeyEvent::Press(Key::ShiftLeft),
        KeyEvent::Press(Key::MetaRight),
        KeyEvent::Release(Key::ShiftRight),
        KeyEvent::Press(Key::KeyV),
        KeyEvent::Press(Key::ShiftRight),
        KeyEvent::Release(Key::KeyV),
        KeyEvent::Press(Key::KeyV),
        KeyEvent::Press(Key::Escape),
    ];
    let actions: Vec<ShortcutAction> = events.iter().map(|e| t.handle(*e)).collect();
    assert_eq!(actions, vec![
        ShortcutAction::Nothing,
        ShortcutAction::Nothing,
        ShortcutAction::Nothing,
        ShortcutAction::Nothing,
        ShortcutAction::Nothing,
        ShortcutAction::Nothing,
        ShortcutAction::Show,
        ShortcutAction::Hide,
    ]);
}
