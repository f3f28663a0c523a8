use p_rust::history::{
    ClipboardHistory, ClipboardItem, HistoryError, InsertOutcome, EXTENDED_LIMIT, RECENT_LIMIT,
};

fn text(s: &str) -> ClipboardItem {
    ClipboardItem::new_text(s.to_string())
}

fn image(path: &str) -> ClipboardItem {
    ClipboardItem {
        id: 0,
        content_type: "image".to_string(),
        content: None,
        media_path: Some(path.to_string()),
        source_app: None,
        is_pinned: false,
    }
}

fn strings(v: &[&str]) -> Vec<String> {
    v.iter().map(|s| s.to_string()).collect()
}

#[test]
fn new_text_item_fields() {
    let item = text("hello");
    assert_eq!(item.id, 0);
    assert_eq!(item.content_type, "text");
    assert_eq!(item.content, Some("hello".to_string()));
    assert_eq!(item.media_path, None);
    assert_eq!(item.source_app, None);
    assert!(!item.is_pinned);
}

#[test]
fn empty_history_lists_nothing() {
    let h = ClipboardHistory::new();
    assert_eq!(h.len(), 0);
    assert_eq!(h.get_recent_texts(20), Vec::<String>::new());
}

#[test]
fn ids_are_handed_out_in_order() {
    let mut h = ClipboardHistory::new();
    assert_eq!(h.insert_item(&text("a")), Ok(InsertOutcome::Inserted(1)));
    assert_eq!(h.insert_item(&text("b")), Ok(InsertOutcome::Inserted(2)));
    assert_eq!(h.insert_item(&image("/tmp/x.png")), Ok(InsertOutcome::Inserted(3)));
    assert_eq!(h.len(), 3);
}

#[test]
fn recent_texts_newest_first() {
    let mut h = ClipboardHistory::new();
    for t in ["one", "two", "three"] {
        h.insert_item(&text(t)).unwrap();
    }
    assert_eq!(h.get_recent_texts(20), strings(&["three", "two", "one"]));
}

#[test]
fn recent_texts_respects_limit() {
    let mut h = ClipboardHistory::new();
    for t in ["one", "two", "three"] {
        h.insert_item(&text(t)).unwrap();
    }
    assert_eq!(h.get_recent_texts(2), strings(&["three", "two"]));
    assert_eq!(h.get_recent_texts(0), Vec::<String>::new());
}

#[test]
fn copied_text_is_listed_first() {
    let mut h = ClipboardHistory::new();
    for t in ["one", "two", "three"] {
        h.insert_item(&text(t)).unwrap();
    }
    h.insert_item(&text("one")).unwrap();
    assert_eq!(h.get_recent_texts(1), strings(&["one"]));
    h.insert_item(&text("four")).unwrap();
    assert_eq!(h.get_recent_texts(1), strings(&["four"]));
}

#[test]
fn duplicate_text_is_refreshed_not_stored_twice() {
    let mut h = ClipboardHistory::new();
    h.insert_item(&text("a")).unwrap();
    h.insert_item(&text("b")).unwrap();
    assert_eq!(h.insert_item(&text("a")), Ok(InsertOutcome::Refreshed(1)));
    assert_eq!(h.len(), 2);
    assert_eq!(h.get_recent_texts(20), strings(&["a", "b"]));
}

#[test]
fn recopying_changes_nothing() {
    let mut h = ClipboardHistory::new();
    h.insert_item(&text("a")).unwrap();
    h.insert_item(&text("b")).unwrap();
    assert_eq!(h.insert_item(&text("b")), Ok(InsertOutcome::Refreshed(2)));
    assert_eq!(h.insert_item(&text("b")), Ok(InsertOutcome::Refreshed(2)));
    assert_eq!(h.len(), 2);
    assert_eq!(h.get_recent_texts(20), strings(&["b", "a"]));
}

#[test]
fn images_are_never_deduplicated() {
    let mut h = ClipboardHistory::new();
    assert_eq!(h.insert_item(&image("/tmp/x.png")), Ok(InsertOutcome::Inserted(1)));
    assert_eq!(h.insert_item(&image("/tmp/x.png")), Ok(InsertOutcome::Inserted(2)));
    assert_eq!(h.len(), 2);
    assert_eq!(h.get_recent_texts(20), Vec::<String>::new());
}

#[test]
fn text_without_content_is_stored_but_not_listed() {
    let mut h = ClipboardHistory::new();
    let mut item = text("x");
    item.content = None;
    assert_eq!(h.insert_item(&item), Ok(InsertOutcome::Inserted(1)));
    assert_eq!(h.insert_item(&item), Ok(InsertOutcome::Inserted(2)));
    assert_eq!(h.get_recent_texts(20), Vec::<String>::new());
}

#[test]
fn other_content_type_with_same_content_is_not_a_duplicate() {
    let mut h = ClipboardHistory::new();
    h.insert_item(&text("same")).unwrap();
    let mut html = text("same");
    html.content_type = "html".to_string();
    assert_eq!(h.insert_item(&html), Ok(InsertOutcome::Inserted(2)));
    assert_eq!(h.get_recent_texts(20), strings(&["same"]));
}

#[test]
fn inserted_item_id_is_ignored() {
    let mut h = ClipboardHistory::new();
    let mut item = text("a");
    item.id = 77;
    assert_eq!(h.insert_item(&item), Ok(InsertOutcome::Inserted(1)));
}

#[test]
fn restore_keeps_ids_and_moves_next_id() {
    let mut h = ClipboardHistory::new();
    let mut old = text("old");
    old.id = 10;
    assert!(h.restore(old));
    let mut clash = text("clash");
    clash.id = 10;
    assert!(!h.restore(clash));
    assert_eq!(h.len(), 1);
    assert_eq!(h.insert_item(&text("new")), Ok(InsertOutcome::Inserted(11)));
    assert_eq!(h.insert_item(&text("old")), Ok(InsertOutcome::Refreshed(10)));
    assert_eq!(h.get_recent_texts(20), strings(&["old", "new"]));
}

#[test]
fn ids_exhausted_error() {
    let mut h = ClipboardHistory::new();
    let mut last = text("last");
    last.id = i32::MAX;
    assert!(h.restore(last));
    assert_eq!(h.insert_item(&text("more")), Err(HistoryError::IdsExhausted));
    assert_eq!(h.len(), 1);
    // a text already stored is still refreshed
    assert_eq!(h.insert_item(&text("last")), Ok(InsertOutcome::Refreshed(i32::MAX)));
}

#[test]
fn search_is_case_insensitive_and_newest_first() {
    let mut h = ClipboardHistory::new();
    for t in ["Hello world", "goodbye", "say HELLO", "hel lo"] {
        h.insert_item(&text(t)).unwrap();
    }
    assert_eq!(h.search_texts("hello", 50), strings(&["say HELLO", "Hello world"]));
    assert_eq!(h.search_texts("hello", 1), strings(&["say HELLO"]));
    assert_eq!(h.search_texts("zzz", 50), Vec::<String>::new());
}

#[test]
fn search_lists_only_matches() {
    let mut h = ClipboardHistory::new();
    for t in ["abc", "xyz", "ABCD"] {
        h.insert_item(&text(t)).unwrap();
    }
    for found in h.search_texts("bc", 50) {
        assert!(found.to_lowercase().contains("bc"));
    }
}

#[test]
fn texts_for_search_switches_on_empty_query() {
    let mut h = ClipboardHistory::new();
    for i in 0..60 {
        h.insert_item(&text(&format!("item {}", i))).unwrap();
    }
    let recent = h.texts_for_search("");
    assert_eq!(recent.len(), RECENT_LIMIT as usize);
    assert_eq!(recent[0], "item 59");
    let found = h.texts_for_search("item");
    assert_eq!(found.len(), EXTENDED_LIMIT as usize);
    assert_eq!(found[0], "item 59");
    assert_eq!(h.texts_for_search("item 1"), strings(&[
        "item 19", "item 18", "item 17", "item 16", "item 15", "item 14", "item 13", "item 12",
        "item 11", "item 10", "item 1",
    ]));
}

#[test]
fn deleted_text_is_gone() {
    let mut h = ClipboardHistory::new();
    for t in ["a", "b", "c"] {
        h.insert_item(&text(t)).unwrap();
    }
    h.insert_item(&image("/tmp/b.png")).unwrap();
    assert_eq!(h.delete_item("b"), vec![2]);
    assert_eq!(h.get_recent_texts(20), strings(&["c", "a"]));
    assert_eq!(h.len(), 3);
    assert_eq!(h.delete_item("b"), Vec::<i32>::new());
    // the id of a deleted entry is not handed out again
    assert_eq!(h.insert_item(&text("b")), Ok(InsertOutcome::Inserted(5)));
}

#[test]
fn garbage_collect_keeps_newest_and_pinned() {
    let mut h = ClipboardHistory::new();
    let mut pinned = text("pinned");
    pinned.is_pinned = true;
    h.insert_item(&pinned).unwrap();
    for t in ["a", "b", "c", "d"] {
        h.insert_item(&text(t)).unwrap();
    }
    assert_eq!(h.garbage_collect(2), vec![2, 3]);
    assert_eq!(h.get_recent_texts(20), strings(&["d", "c", "pinned"]));
    assert_eq!(h.garbage_collect(10), Vec::<i32>::new());
    assert_eq!(h.garbage_collect(0), vec![4, 5]);
    assert_eq!(h.get_recent_texts(20), strings(&["pinned"]));
}

#[test]
fn deleted_newest_id_is_not_reused() {
    let mut h = ClipboardHistory::new();
    let mut kept = text("kept");
    kept.id = 5;
    assert!(h.restore(kept));
    // the store once handed out id 9, whose row is gone
    h.note_last_used_id(9);
    assert_eq!(h.insert_item(&text("next")), Ok(InsertOutcome::Inserted(10)));
    // a sequence value below the next id changes nothing
    h.note_last_used_id(3);
    assert_eq!(h.insert_item(&text("after")), Ok(InsertOutcome::Inserted(11)));
    // past i32::MAX no id is left
    h.note_last_used_id(i64::MAX);
    assert_eq!(h.insert_item(&text("more")), Err(HistoryError::IdsExhausted));
}
