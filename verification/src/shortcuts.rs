//! The global shortcut: Meta + Shift + V shows the history window, Escape hides it.

use vstd::prelude::*;

verus! {

/// The keys that the shortcut tracker tells apart.
#[derive(Debug, Clone, Copy, PartialEq, Eq, Structural)]
pub enum Key {
    MetaLeft,
    MetaRight,
    ShiftLeft,
    ShiftRight,
    KeyV,
    Escape,
    Other,
}

/// A keyboard event as the tracker sees it; anything that is not a key press
/// or release is `Other`.
#[derive(Debug, Clone, Copy, PartialEq, Eq, Structural)]
pub enum KeyEvent {
    Press(Key),
    Release(Key),
    Other,
}

/// What the window should do after an event.
#[derive(Debug, Clone, Copy, PartialEq, Eq, Structural)]
pub enum ShortcutAction {
    Nothing,
    Show,
    Hide,
}

/// Which modifiers are held: (Meta, Shift).
pub struct Modifiers {
    pub meta: bool,
    pub shift: bool,
}

pub open spec fn is_meta(k: Key) -> bool {
    k == Key::MetaLeft || k == Key::MetaRight
}

pub open spec fn is_shift(k: Key) -> bool {
    k == Key::ShiftLeft || k == Key::ShiftRight
}

/// The modifiers after an event and the action it calls for. Pressing or
/// releasing either Meta (either Shift) key sets or clears Meta (Shift);
/// pressing V while both are held shows the window; pressing Escape hides it.
pub open spec fn step_spec(m: Modifiers, ev: KeyEvent) -> (Modifiers, ShortcutAction) {
    match ev {
        KeyEvent::Press(k) => if is_meta(k) {
            (Modifiers { meta: true, ..m }, ShortcutAction::Nothing)
        } else if is_shift(k) {
            (Modifiers { shift: true, ..m }, ShortcutAction::Nothing)
        } else if k == Key::KeyV {
            (m, if m.meta && m.shift { ShortcutAction::Show } else { ShortcutAction::Nothing })
        } else if k == Key::Escape {
            (m, ShortcutAction::Hide)
        } else {
            (m, ShortcutAction::Nothing)
        },
        KeyEvent::Release(k) => if is_meta(k) {
            (Modifiers { meta: false, ..m }, ShortcutAction::Nothing)
        } else if is_shift(k) {
            (Modifiers { shift: false, ..m }, ShortcutAction::Nothing)
        } else {
            (m, ShortcutAction::Nothing)
        },
        KeyEvent::Other => (m, ShortcutAction::Nothing),
    }
}

/// Follows the modifier keys to recognise the shortcut.
pub struct ShortcutTracker {
    meta_pressed: bool,
    shift_pressed: bool,
}

impl View for ShortcutTracker {
    type V = Modifiers;

    closed spec fn view(&self) -> Modifiers {
        Modifiers { meta: self.meta_pressed, shift: self.shift_pressed }
    }
}

impl ShortcutTracker {
    /// A tracker with no modifier held.
    pub fn new() -> (t: ShortcutTracker)
        ensures
            t@ == (Modifiers { meta: false, shift: false }),
    {
        ShortcutTracker { meta_pressed: false, shift_pressed: false }
    }

    /// Whether Meta is held.
    pub fn meta_pressed(&self) -> (b: bool)
        ensures
            b == self@.meta,
    {
        self.meta_pressed
    }

    /// Whether Shift is held.
    pub fn shift_pressed(&self) -> (b: bool)
        ensures
            b == self@.shift,
    {
        self.shift_pressed
    }

    /// Takes one keyboard event and says what the window should do.
    pub fn handle(&mut self, event: KeyEvent) -> (action: ShortcutAction)
        ensures
            (final(self)@, action) == step_spec(old(self)@, event),
    {
        match event {
            KeyEvent::Press(Key::MetaLeft) | KeyEvent::Press(Key::MetaRight) => {
                self.meta_pressed = true;
                ShortcutAction::Nothing
            },
            KeyEvent::Release(Key::MetaLeft) | KeyEvent::Release(Key::MetaRight) => {
                self.meta_pressed = false;
                ShortcutAction::Nothing
            },
            KeyEvent::Press(Key::ShiftLeft) | KeyEvent::Press(Key::ShiftRight) => {
                self.shift_pressed = true;
                ShortcutAction::Nothing
            },
            KeyEvent::Release(Key::ShiftLeft) | KeyEvent::Release(Key::ShiftRight) => {
                self.shift_pressed = false;
                ShortcutAction::Nothing
            },
            KeyEvent::Press(Key::KeyV) => {
                if self.meta_pressed && self.shift_pressed {
                    ShortcutAction::Show
                } else {
                    ShortcutAction::Nothing
                }
            },
            KeyEvent::Press(Key::Escape) => ShortcutAction::Hide,
            _ => ShortcutAction::Nothing,
        }
    }
}

/// Holding Meta and Shift, in either order and whatever came before, then
/// pressing V shows the window.
pub proof fn law_chord_shows(m: Modifiers, meta: Key, shift: Key, meta_first: bool)
    requires
        is_meta(meta),
        is_shift(shift),
    ensures
        ({
            let (first, second) = if meta_first {
                (KeyEvent::Press(meta), KeyEvent::Press(shift))
            } else {
                (KeyEvent::Press(shift), KeyEvent::Press(meta))
            };
            let m1 = step_spec(m, first).0;
            let m2 = step_spec(m1, second).0;
            step_spec(m2, KeyEvent::Press(Key::KeyV)).1 == ShortcutAction::Show
        }),
{
}

/// Once a modifier is released, V does nothing until it is pressed again:
/// after a release of Meta or Shift, events that press neither keep V from showing.
pub proof fn law_release_disarms(m: Modifiers, released: Key, between: Seq<KeyEvent>)
    requires
        is_meta(released) || is_shift(released),
        forall|i: int| 0 <= i < between.len() ==> match #[trigger] between[i] {
            KeyEvent::Press(k) => !is_meta(k) && !is_shift(k),
            _ => true,
        },
    ensures
        step_spec(run_spec(step_spec(m, KeyEvent::Release(released)).0, between), KeyEvent::Press(Key::KeyV)).1
            == ShortcutAction::Nothing,
{
    lemma_run_keeps_released(step_spec(m, KeyEvent::Release(released)).0, between, is_meta(released));
}

/// The modifiers after a sequence of events.
pub open spec fn run_spec(m: Modifiers, events: Seq<KeyEvent>) -> Modifiers
    decreases events.len(),
{
    if events.len() == 0 {
        m
    } else {
        step_spec(run_spec(m, events.drop_last()), events.last()).0
    }
}

proof fn lemma_run_keeps_released(m: Modifiers, events: Seq<KeyEvent>, meta: bool)
    requires
        meta ==> !m.meta,
        !meta ==> !m.shift,
        forall|i: int| 0 <= i < events.len() ==> match #[trigger] events[i] {
            KeyEvent::Press(k) => !is_meta(k) && !is_shift(k),
            _ => true,
        },
    ensures
        meta ==> !run_spec(m, events).meta,
        !meta ==> !run_spec(m, events).shift,
    decreases events.len(),
{
    if events.len() > 0 {
        lemma_run_keeps_released(m, events.drop_last(), meta);
        assert(match events[events.len() - 1] {
            KeyEvent::Press(k) => !is_meta(k) && !is_shift(k),
            _ => true,
        });
    }
}

/// Whether `k` is a Meta key (`meta`) or a Shift key (`!meta`).
pub open spec fn is_modifier(k: Key, meta: bool) -> bool {
    if meta { is_meta(k) } else { is_shift(k) }
}

/// Whether the modifier (Meta when `meta`, else Shift) is held after `events`:
/// the last press or release of one of its keys is a press; with none, `held`.
pub open spec fn held_after(held: bool, events: Seq<KeyEvent>, meta: bool) -> bool
    decreases events.len(),
{
    if events.len() == 0 {
        held
    } else {
        match events.last() {
            KeyEvent::Press(k) => if is_modifier(k, meta) {
                true
            } else {
                held_after(held, events.drop_last(), meta)
            },
            KeyEvent::Release(k) => if is_modifier(k, meta) {
                false
            } else {
                held_after(held, events.drop_last(), meta)
            },
            KeyEvent::Other => held_after(held, events.drop_last(), meta),
        }
    }
}

proof fn lemma_run_tracks_modifiers(m: Modifiers, events: Seq<KeyEvent>)
    ensures
        run_spec(m, events).meta == held_after(m.meta, events, true),
        run_spec(m, events).shift == held_after(m.shift, events, false),
    decreases events.len(),
{
    if events.len() > 0 {
        lemma_run_tracks_modifiers(m, events.drop_last());
    }
}

/// Over any sequence of events, starting from modifiers `m`: pressing V shows
/// the window exactly when the last Meta event and the last Shift event were
/// both presses (or, with none, the modifier was held to begin with); pressing
/// Escape always hides it; any other event does nothing to the window.
pub proof fn law_shortcut_over_events(m: Modifiers, events: Seq<KeyEvent>, next: KeyEvent)
    ensures
        step_spec(run_spec(m, events), next).1 == if next == KeyEvent::Press(Key::KeyV) {
            if held_after(m.meta, events, true) && held_after(m.shift, events, false) {
                ShortcutAction::Show
            } else {
                ShortcutAction::Nothing
            }
        } else if next == KeyEvent::Press(Key::Escape) {
            ShortcutAction::Hide
        } else {
            ShortcutAction::Nothing
        },
{
    lemma_run_tracks_modifiers(m, events);
}

} // verus!
