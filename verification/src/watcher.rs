//! Deciding which clipboard texts are new copies worth recording.

use vstd::prelude::*;
use crate::text::{is_blank, is_blank_text};

verus! {

/// What one look at the clipboard leads to: the text remembered afterwards,
/// and whether the text seen is a new copy. A text is new when it differs from
/// the one remembered and is not blank; only a new text is remembered.
pub open spec fn observe_spec(last: Seq<char>, seen: Seq<char>) -> (Seq<char>, bool) {
    if seen != last && !is_blank_text(seen) {
        (seen, true)
    } else {
        (last, false)
    }
}

/// Remembers the last text recorded from a clipboard that is polled.
pub struct ClipboardWatcher {
    last_text: String,
}

impl View for ClipboardWatcher {
    type V = Seq<char>;

    closed spec fn view(&self) -> Seq<char> {
        self.last_text@
    }
}

impl ClipboardWatcher {
    /// A watcher that has recorded nothing yet.
    pub fn new() -> (w: ClipboardWatcher)
        ensures
            w@ == Seq::<char>::empty(),
    {
        ClipboardWatcher { last_text: String::new() }
    }

    /// The text recorded last.
    pub fn last_text(&self) -> (t: &String)
        ensures
            t@ == self@,
    {
        &self.last_text
    }

    /// Looks at the text that the clipboard holds now; says whether it is a
    /// new copy to record, and remembers it if so.
    pub fn observe(&mut self, text: &str) -> (is_new: bool)
        ensures
            (final(self)@, is_new) == observe_spec(old(self)@, text@),
    {
        let seen = String::from_str(text);
        if seen != self.last_text && !is_blank(text) {
            self.last_text = seen;
            true
        } else {
            false
        }
    }
}

/// A text is recorded at most once in a row: looking twice at the same
/// clipboard text never reports it as new the second time.
pub proof fn law_repeat_observation_is_ignored(last: Seq<char>, seen: Seq<char>)
    ensures
        observe_spec(observe_spec(last, seen).0, seen).1 == false,
{
}

/// A blank text is never recorded and never replaces the remembered one.
pub proof fn law_blank_text_is_ignored(last: Seq<char>, seen: Seq<char>)
    requires
        is_blank_text(seen),
    ensures
        observe_spec(last, seen) == (last, false),
{
}

/// The last reading of `readings` that is not blank, or the empty text if none is.
pub open spec fn last_non_blank(readings: Seq<Seq<char>>) -> Seq<char>
    decreases readings.len(),
{
    if readings.len() == 0 {
        Seq::empty()
    } else if !is_blank_text(readings.last()) {
        readings.last()
    } else {
        last_non_blank(readings.drop_last())
    }
}

/// The text that a new watcher remembers after `observe` has seen `readings` in order.
pub open spec fn remembered_after(readings: Seq<Seq<char>>) -> Seq<char>
    decreases readings.len(),
{
    if readings.len() == 0 {
        Seq::empty()
    } else {
        observe_spec(remembered_after(readings.drop_last()), readings.last()).0
    }
}

/// Whether a new watcher that has seen `readings` reports `readings[k]` as new.
pub open spec fn reported_new(readings: Seq<Seq<char>>, k: int) -> bool {
    observe_spec(remembered_after(readings.take(k)), readings[k]).1
}

proof fn lemma_remembered_is_last_non_blank(readings: Seq<Seq<char>>)
    ensures
        remembered_after(readings) == last_non_blank(readings),
    decreases readings.len(),
{
    if readings.len() > 0 {
        lemma_remembered_is_last_non_blank(readings.drop_last());
    }
}

/// Over any run of readings, a new watcher reports reading `k` as a new copy
/// exactly when it is not blank and differs from the last non-blank reading
/// before it (the empty text if there is none).
pub proof fn law_new_copies_over_a_run(readings: Seq<Seq<char>>, k: int)
    requires
        0 <= k < readings.len(),
    ensures
        reported_new(readings, k) == (!is_blank_text(readings[k])
            && readings[k] != last_non_blank(readings.take(k))),
{
    lemma_remembered_is_last_non_blank(readings.take(k));
}

} // verus!
