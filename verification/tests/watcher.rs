use p_rust::watcher::ClipboardWatcher;

#[test]
fn new_text_is_recorded_once() {
    let mut w = ClipboardWatcher::new();
    assert_eq!(w.last_text(), "");
    assert!(w.observe("hello"));
    assert_eq!(w.last_text(), "hello");
    assert!(!w.observe("hello"));
    assert!(w.observe("world"));
    assert!(w.observe("hello"));
}

#[test]
fn blank_text_is_ignored() {
    let mut w = ClipboardWatcher::new();
    assert!(w.observe("x"));
    assert!(!w.observe("   \n"));
    assert!(!w.observe(""));
    assert_eq!(w.last_text(), "x");
}

#[test]
fn run_reports_texts_unlike_last_non_blank_reading() {
    let mut w = ClipboardWatcher::new();
    let readings = ["a", " ", "a", "b", "", "b", "a"];
    let reported: Vec<bool> = readings.iter().map(|r| w.observe(r)).collect();
    assert_eq!(reported, vec![true, false, false, true, false, false, true]);
}
