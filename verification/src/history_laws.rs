//! Properties of the clipboard history that span its operations.

use vstd::prelude::*;
use crate::history::{
    collect_mask, delete_mask, find_text, holds_text, insert_spec, lemma_find_text, lemma_select,
    marked_entry, matching_upto, move_to_newest, recent_texts, retained, search_results, select_upto,
    stored_texts, text_of, texts_unique, texts_upto, with_id, window_texts, dropped_ids,
    dropped_ids_upto, ids_distinct, HistoryError, HistoryView, InsertOutcome, ItemView, EXTENDED_LIMIT,
    RECENT_LIMIT,
};
use crate::text::contains_ignoring_case;

verus! {

/// The texts of a sequence whose newest entry holds text `t` end with `t`.
proof fn lemma_last_text(s: Seq<ItemView>, t: Seq<char>)
    requires
        s.len() > 0,
        text_of(s.last()) == Some(t),
    ensures
        stored_texts(s).len() > 0,
        stored_texts(s).last() == t,
{
}

/// A copied text is what the history lists first afterwards: once `insert_item`
/// has recorded a text, `get_recent_texts` with any positive limit starts with it.
pub proof fn law_copied_text_is_listed_first(h: HistoryView, item: ItemView, t: Seq<char>, limit: int)
    requires
        h.wf(),
        text_of(item) == Some(t),
        limit >= 1,
    ensures
        insert_spec(h, item) matches Ok((h2, _)) ==> {
            &&& recent_texts(h2, limit).len() >= 1
            &&& recent_texts(h2, limit)[0] == t
        },
{
    lemma_find_text(h.entries, t);
    if let Ok((h2, _)) = insert_spec(h, item) {
        match find_text(h.entries, t) {
            Some(i) => {
                assert(h2.entries.last() == h.entries[i]);
            },
            None => {
                assert(h2.entries.last() == with_id(item, h.next_id as i32));
            },
        }
        lemma_last_text(h2.entries, t);
    }
}

/// Where each position of `move_to_newest(s, i)` comes from in `s`.
proof fn lemma_move_positions(s: Seq<ItemView>, i: int)
    requires
        0 <= i < s.len(),
    ensures
        move_to_newest(s, i).len() == s.len(),
        forall|k: int| 0 <= k < s.len() ==> #[trigger] move_to_newest(s, i)[k]
            == s[if k < i { k } else if k < s.len() - 1 { k + 1 } else { i }],
{
}

/// No text is ever stored twice: when no text is held by two entries, the same
/// holds after `insert_item`, and the newest entry then holds the copied text.
pub proof fn law_texts_never_stored_twice(h: HistoryView, item: ItemView)
    requires
        h.wf(),
        texts_unique(h.entries),
    ensures
        insert_spec(h, item) matches Ok((h2, _)) ==> {
            &&& texts_unique(h2.entries)
            &&& text_of(item) is Some ==> holds_text(h2.entries.last(), text_of(item)->0)
        },
{
    let s = h.entries;
    if let Ok((h2, _)) = insert_spec(h, item) {
        let m = h2.entries;
        match text_of(item) {
            Some(t) => {
                lemma_find_text(s, t);
                match find_text(s, t) {
                    Some(i) => {
                        lemma_move_positions(s, i);
                        assert forall|a: int, b: int|
                            0 <= a < m.len() && 0 <= b < m.len() && a != b && text_of(m[a]) is Some
                            implies #[trigger] text_of(m[a]) != #[trigger] text_of(m[b]) by {
                            let pa = if a < i { a } else if a < s.len() - 1 { a + 1 } else { i };
                            let pb = if b < i { b } else if b < s.len() - 1 { b + 1 } else { i };
                            assert(m[a] == s[pa] && m[b] == s[pb]);
                        }
                    },
                    None => {
                        assert forall|a: int, b: int|
                            0 <= a < m.len() && 0 <= b < m.len() && a != b && text_of(m[a]) is Some
                            implies #[trigger] text_of(m[a]) != #[trigger] text_of(m[b]) by {
                            if a < s.len() && b < s.len() {
                                assert(m[a] == s[a] && m[b] == s[b]);
                            } else if a < s.len() {
                                assert(m[a] == s[a]);
                                assert(!holds_text(s[a], t));
                            } else {
                                assert(m[b] == s[b]);
                                assert(!holds_text(s[b], t));
                            }
                        }
                    },
                }
            },
            None => {
                assert forall|a: int, b: int|
                    0 <= a < m.len() && 0 <= b < m.len() && a != b && text_of(m[a]) is Some
                    implies #[trigger] text_of(m[a]) != #[trigger] text_of(m[b]) by {
                    if a < s.len() && b < s.len() {
                        assert(m[a] == s[a] && m[b] == s[b]);
                    }
                }
            },
        }
    }
}

/// Copying the same text twice in a row records it once: the second
/// `insert_item` refreshes the entry that the first left newest and changes nothing.
pub proof fn law_recopying_changes_nothing(h: HistoryView, item: ItemView, t: Seq<char>)
    requires
        h.wf(),
        texts_unique(h.entries),
        text_of(item) == Some(t),
    ensures
        insert_spec(h, item) matches Ok((h2, _)) ==> insert_spec(h2, item)
            == Ok::<(HistoryView, InsertOutcome), crate::history::HistoryError>(
            (h2, InsertOutcome::Refreshed(h2.entries.last().id)),
        ),
{
    law_texts_never_stored_twice(h, item);
    if let Ok((h2, _)) = insert_spec(h, item) {
        let m = h2.entries;
        let last = m.len() - 1;
        lemma_find_text(m, t);
        let i = find_text(m, t)->0;
        assert(i == last) by {
            if i != last {
                assert(text_of(m[i]) == Some(t) && text_of(m[last]) == Some(t));
            }
        }
        lemma_move_positions(m, last);
        assert(move_to_newest(m, last) =~= m);
    }
}

/// Text `t` is held by one of the first `n` entries of `s`.
pub open spec fn held_within(s: Seq<ItemView>, n: int, t: Seq<char>) -> bool {
    exists|j: int| 0 <= j < n && holds_text(s[j], t)
}

/// The texts of the first `n` entries are each held by one of those entries.
proof fn lemma_texts_come_from_entries(s: Seq<ItemView>, n: int)
    requires
        0 <= n <= s.len(),
    ensures
        forall|k: int| 0 <= k < texts_upto(s, n).len() ==> held_within(s, n, #[trigger] texts_upto(s, n)[k]),
    decreases n,
{
    if n > 0 {
        lemma_texts_come_from_entries(s, n - 1);
        let r = texts_upto(s, n - 1);
        let r2 = texts_upto(s, n);
        assert forall|k: int| 0 <= k < r2.len() implies held_within(s, n, #[trigger] r2[k]) by {
            if k < r.len() {
                assert(held_within(s, n - 1, r[k]));
                let j = choose|j: int| 0 <= j < n - 1 && holds_text(s[j], r[k]);
                assert(r2[k] == r[k]);
                assert(0 <= j < n && holds_text(s[j], r2[k]));
            } else {
                assert(holds_text(s[n - 1], r2[k]));
            }
        }
    }
}

/// Every entry of the first `n` that is marked in `keep` is selected.
proof fn lemma_select_complete(s: Seq<ItemView>, keep: Seq<bool>, n: int)
    requires
        0 <= n <= s.len(),
        n <= keep.len(),
    ensures
        forall|j: int| 0 <= j < n && keep[j] ==> #[trigger] select_upto(s, keep, n).contains(s[j]),
    decreases n,
{
    if n > 0 {
        lemma_select_complete(s, keep, n - 1);
        let r = select_upto(s, keep, n - 1);
        let r2 = select_upto(s, keep, n);
        assert forall|j: int| 0 <= j < n && keep[j] implies #[trigger] r2.contains(s[j]) by {
            if j < n - 1 {
                assert(r.contains(s[j]));
                let k = choose|k: int| 0 <= k < r.len() && r[k] == s[j];
                if keep[n - 1] {
                    assert(r2[k] == s[j]);
                }
            } else {
                assert(r2[r2.len() - 1] == s[j]);
            }
        }
    }
}

/// Deleting a text removes exactly the entries that hold it: afterwards no
/// entry holds it and no listing shows it, and every other entry remains.
pub proof fn law_deleted_text_is_gone(h: HistoryView, t: Seq<char>)
    requires
        h.wf(),
    ensures
        ({
            let h2 = retained(h, delete_mask(h.entries, t));
            &&& forall|k: int| 0 <= k < h2.entries.len() ==> !holds_text(#[trigger] h2.entries[k], t)
            &&& !stored_texts(h2.entries).contains(t)
            &&& forall|j: int| 0 <= j < h.entries.len() && !holds_text(h.entries[j], t)
                ==> #[trigger] h2.entries.contains(h.entries[j])
        }),
{
    let s = h.entries;
    let keep = delete_mask(s, t);
    let h2 = retained(h, keep);
    lemma_select(s, keep, s.len() as int);
    lemma_select_complete(s, keep, s.len() as int);
    assert forall|k: int| 0 <= k < h2.entries.len() implies !holds_text(#[trigger] h2.entries[k], t) by {
        assert(marked_entry(s, keep, s.len() as int, h2.entries[k]));
    }
    lemma_texts_come_from_entries(h2.entries, h2.entries.len() as int);
    if stored_texts(h2.entries).contains(t) {
        let k = choose|k: int| 0 <= k < stored_texts(h2.entries).len() && stored_texts(h2.entries)[k] == t;
        assert(held_within(h2.entries, h2.entries.len() as int, stored_texts(h2.entries)[k]));
        let j = choose|j: int| 0 <= j < h2.entries.len() && holds_text(h2.entries[j], stored_texts(h2.entries)[k]);
        assert(!holds_text(h2.entries[j], t));
    }
    assert forall|j: int| 0 <= j < s.len() && !holds_text(s[j], t) implies #[trigger] h2.entries.contains(s[j]) by {
        assert(keep[j]);
    }
}

/// Collecting garbage never removes a pinned entry, nor any of the `keep` newest.
pub proof fn law_collect_keeps_pinned_and_newest(h: HistoryView, keep: int)
    requires
        h.wf(),
        keep >= 0,
    ensures
        ({
            let h2 = retained(h, collect_mask(h.entries, keep));
            forall|j: int| 0 <= j < h.entries.len() && (h.entries[j].is_pinned || j + keep >= h.entries.len())
                ==> #[trigger] h2.entries.contains(h.entries[j])
        }),
{
    let s = h.entries;
    let mask = collect_mask(s, keep);
    lemma_select_complete(s, mask, s.len() as int);
    assert forall|j: int| 0 <= j < s.len() && (s[j].is_pinned || j + keep >= s.len())
        implies #[trigger] retained(h, mask).entries.contains(s[j]) by {
        assert(mask[j]);
    }
}

/// The first `n` texts kept by a search each contain the query.
proof fn lemma_matches_contain_query(ts: Seq<Seq<char>>, q: Seq<char>, n: int)
    requires
        0 <= n <= ts.len(),
    ensures
        forall|k: int| 0 <= k < matching_upto(ts, q, n).len()
            ==> contains_ignoring_case(#[trigger] matching_upto(ts, q, n)[k], q),
    decreases n,
{
    if n > 0 {
        lemma_matches_contain_query(ts, q, n - 1);
        let r = matching_upto(ts, q, n - 1);
        let r2 = matching_upto(ts, q, n);
        assert forall|k: int| 0 <= k < r2.len() implies contains_ignoring_case(#[trigger] r2[k], q) by {
            if k < r.len() {
                assert(r2[k] == r[k]);
            }
        }
    }
}

/// Every text that a search lists contains the query (ASCII case aside), and
/// there are at most `limit` of them.
pub proof fn law_search_lists_only_matches(h: HistoryView, q: Seq<char>, limit: int)
    requires
        h.wf(),
        limit >= 0,
    ensures
        search_results(h, q, limit).len() <= limit,
        forall|k: int| 0 <= k < search_results(h, q, limit).len()
            ==> contains_ignoring_case(#[trigger] search_results(h, q, limit)[k], q),
{
    let ts = stored_texts(h.entries);
    let ms = matching_upto(ts, q, ts.len() as int);
    lemma_matches_contain_query(ts, q, ts.len() as int);
    assert forall|k: int| 0 <= k < search_results(h, q, limit).len()
        implies contains_ignoring_case(#[trigger] search_results(h, q, limit)[k], q) by {
        assert(search_results(h, q, limit)[k] == ms[ms.len() - 1 - k]);
    }
}

/// Recording a text that is already stored refreshes the oldest entry holding
/// it: that entry moves, unchanged, to the newest place, and every other entry
/// keeps its place relative to the others. Nothing else changes.
pub proof fn law_refresh_moves_only_the_copied_entry(h: HistoryView, item: ItemView, t: Seq<char>, i: int)
    requires
        h.wf(),
        text_of(item) == Some(t),
        0 <= i < h.entries.len(),
        holds_text(h.entries[i], t),
        forall|j: int| 0 <= j < i ==> !holds_text(#[trigger] h.entries[j], t),
    ensures
        insert_spec(h, item) == Ok::<(HistoryView, InsertOutcome), HistoryError>((
            HistoryView {
                entries: h.entries.subrange(0, i) + h.entries.subrange(i + 1, h.entries.len() as int)
                    + seq![h.entries[i]],
                next_id: h.next_id,
            },
            InsertOutcome::Refreshed(h.entries[i].id),
        )),
{
    lemma_find_text(h.entries, t);
    let f = find_text(h.entries, t)->0;
    assert(f == i) by {
        if f < i {
            assert(!holds_text(h.entries[f], t));
        }
        if i < f {
            assert(!holds_text(h.entries[i], t));
        }
    }
    let s = h.entries;
    assert(move_to_newest(s, i) =~= s.subrange(0, i) + s.subrange(i + 1, s.len() as int) + seq![s[i]]);
}

/// Recording a copy that is not a stored text appends it, under the next id,
/// as the newest entry, leaving every other entry as it was; only when no id
/// is left does it fail, and then nothing changes.
pub proof fn law_new_copy_is_appended(h: HistoryView, item: ItemView)
    requires
        h.wf(),
        forall|j: int| 0 <= j < h.entries.len() ==> !(text_of(item) is Some
            && #[trigger] text_of(h.entries[j]) == text_of(item)),
    ensures
        h.next_id <= i32::MAX ==> insert_spec(h, item) == Ok::<(HistoryView, InsertOutcome), HistoryError>((
            HistoryView {
                entries: h.entries + seq![ItemView { id: h.next_id as i32, ..item }],
                next_id: h.next_id + 1,
            },
            InsertOutcome::Inserted(h.next_id as i32),
        )),
        h.next_id > i32::MAX ==> insert_spec(h, item) == Err::<(HistoryView, InsertOutcome), HistoryError>(
            HistoryError::IdsExhausted,
        ),
{
    if let Some(t) = text_of(item) {
        lemma_find_text(h.entries, t);
        if let Some(f) = find_text(h.entries, t) {
            assert(text_of(h.entries[f]) == text_of(item));
        }
    }
    assert(h.entries.push(with_id(item, h.next_id as i32)) =~= h.entries + seq![ItemView { id: h.next_id as i32, ..item }]);
}

/// The recent listing holds exactly min(limit, number of stored texts) texts:
/// the stored texts from the newest back, whatever the limit.
pub proof fn law_recent_listing_is_newest_stored_texts(h: HistoryView, limit: int)
    requires
        h.wf(),
        limit >= 0,
    ensures
        ({
            let ts = stored_texts(h.entries);
            let r = recent_texts(h, limit);
            &&& r.len() == if limit < ts.len() { limit } else { ts.len() as int }
            &&& forall|k: int| 0 <= k < r.len() ==> #[trigger] r[k] == ts[ts.len() - 1 - k]
        }),
{
}

/// A listing with a smaller limit is the start of one with a larger limit.
pub proof fn law_recent_listing_grows_with_limit(h: HistoryView, small: int, large: int)
    requires
        h.wf(),
        0 <= small <= large,
    ensures
        recent_texts(h, small) == recent_texts(h, large).take(recent_texts(h, small).len() as int),
{
    law_recent_listing_is_newest_stored_texts(h, small);
    law_recent_listing_is_newest_stored_texts(h, large);
    assert(recent_texts(h, small) =~= recent_texts(h, large).take(recent_texts(h, small).len() as int));
}

/// Every text of the first `n` entries appears among their texts, and there
/// are at most `n` of them.
proof fn lemma_texts_complete(s: Seq<ItemView>, n: int)
    requires
        0 <= n <= s.len(),
    ensures
        texts_upto(s, n).len() <= n,
        forall|j: int| 0 <= j < n && #[trigger] text_of(s[j]) is Some
            ==> texts_upto(s, n).contains(text_of(s[j])->0),
    decreases n,
{
    if n > 0 {
        lemma_texts_complete(s, n - 1);
        let r = texts_upto(s, n - 1);
        let r2 = texts_upto(s, n);
        assert forall|j: int| 0 <= j < n && #[trigger] text_of(s[j]) is Some
            implies r2.contains(text_of(s[j])->0) by {
            if j < n - 1 {
                let k = choose|k: int| 0 <= k < r.len() && r[k] == text_of(s[j])->0;
                assert(r2[k] == r[k]);
            } else {
                assert(r2[r2.len() - 1] == text_of(s[j])->0);
            }
        }
    }
}

/// Every one of the first `n` texts that contains the query is kept, and at
/// most `n` are.
proof fn lemma_matching_complete(ts: Seq<Seq<char>>, q: Seq<char>, n: int)
    requires
        0 <= n <= ts.len(),
    ensures
        matching_upto(ts, q, n).len() <= n,
        forall|j: int| 0 <= j < n && contains_ignoring_case(#[trigger] ts[j], q)
            ==> matching_upto(ts, q, n).contains(ts[j]),
    decreases n,
{
    if n > 0 {
        lemma_matching_complete(ts, q, n - 1);
        let r = matching_upto(ts, q, n - 1);
        let r2 = matching_upto(ts, q, n);
        assert forall|j: int| 0 <= j < n && contains_ignoring_case(#[trigger] ts[j], q)
            implies r2.contains(ts[j]) by {
            if j < n - 1 {
                let k = choose|k: int| 0 <= k < r.len() && r[k] == ts[j];
                assert(r2[k] == r[k]);
            } else {
                assert(r2[r2.len() - 1] == ts[j]);
            }
        }
    }
}

/// A search misses nothing: when the limit is at least the number of entries,
/// every stored text in which the query occurs (ASCII case aside), wherever
/// it occurs, is listed.
pub proof fn law_search_misses_no_match(h: HistoryView, q: Seq<char>, limit: int, j: int)
    requires
        h.wf(),
        limit >= h.entries.len(),
        0 <= j < h.entries.len(),
        text_of(h.entries[j]) is Some,
        contains_ignoring_case(text_of(h.entries[j])->0, q),
    ensures
        search_results(h, q, limit).contains(text_of(h.entries[j])->0),
{
    let t = text_of(h.entries[j])->0;
    let ts = stored_texts(h.entries);
    lemma_texts_complete(h.entries, h.entries.len() as int);
    let k = choose|k: int| 0 <= k < ts.len() && ts[k] == t;
    lemma_matching_complete(ts, q, ts.len() as int);
    let ms = matching_upto(ts, q, ts.len() as int);
    assert(ms.contains(ts[k]));
    let m = choose|m: int| 0 <= m < ms.len() && ms[m] == t;
    let r = search_results(h, q, limit);
    assert(r.len() == ms.len());
    assert(r[ms.len() - 1 - m] == t);
}

/// The ids of the first `n` entries that are not marked are reported, and
/// only those.
proof fn lemma_dropped_ids(s: Seq<ItemView>, keep: Seq<bool>, n: int)
    requires
        0 <= n <= s.len(),
        n <= keep.len(),
    ensures
        forall|j: int| 0 <= j < n && !keep[j] ==> #[trigger] dropped_ids_upto(s, keep, n).contains(s[j].id),
        forall|k: int| 0 <= k < dropped_ids_upto(s, keep, n).len() ==> exists|j: int|
            0 <= j < n && !keep[j] && s[j].id == #[trigger] dropped_ids_upto(s, keep, n)[k],
    decreases n,
{
    if n > 0 {
        lemma_dropped_ids(s, keep, n - 1);
        let r = dropped_ids_upto(s, keep, n - 1);
        let r2 = dropped_ids_upto(s, keep, n);
        assert forall|j: int| 0 <= j < n && !keep[j] implies #[trigger] r2.contains(s[j].id) by {
            if j < n - 1 {
                assert(r.contains(s[j].id));
                let k = choose|k: int| 0 <= k < r.len() && r[k] == s[j].id;
                assert(r2[k] == r[k]);
            } else {
                assert(r2[r2.len() - 1] == s[j].id);
            }
        }
        assert forall|k: int| 0 <= k < r2.len() implies exists|j: int|
            0 <= j < n && !keep[j] && s[j].id == #[trigger] r2[k] by {
            if k < r.len() {
                assert(r2[k] == r[k]);
                let j = choose|j: int| 0 <= j < n - 1 && !keep[j] && s[j].id == r[k];
                assert(0 <= j < n && !keep[j] && s[j].id == r2[k]);
            } else {
                assert(!keep[n - 1] && s[n - 1].id == r2[k]);
            }
        }
    }
}

/// `delete_item` reports exactly the ids of the entries that held the text:
/// an entry's id is reported if and only if the entry held it.
pub proof fn law_delete_reports_exactly_the_holders(h: HistoryView, t: Seq<char>)
    requires
        h.wf(),
    ensures
        ({
            let removed = dropped_ids(h, delete_mask(h.entries, t));
            &&& forall|j: int| 0 <= j < h.entries.len()
                ==> (holds_text(h.entries[j], t) <==> #[trigger] removed.contains(h.entries[j].id))
            &&& forall|k: int| 0 <= k < removed.len() ==> exists|j: int|
                0 <= j < h.entries.len() && holds_text(h.entries[j], t) && h.entries[j].id == #[trigger] removed[k]
        }),
{
    let s = h.entries;
    let keep = delete_mask(s, t);
    let removed = dropped_ids(h, keep);
    lemma_dropped_ids(s, keep, s.len() as int);
    assert forall|j: int| 0 <= j < s.len()
        implies (holds_text(s[j], t) <==> #[trigger] removed.contains(s[j].id)) by {
        if removed.contains(s[j].id) {
            let k = choose|k: int| 0 <= k < removed.len() && removed[k] == s[j].id;
            let j2 = choose|j2: int| 0 <= j2 < s.len() && !keep[j2] && s[j2].id == #[trigger] removed[k];
            assert(j2 == j);
            assert(!keep[j]);
        }
        if holds_text(s[j], t) {
            assert(!keep[j]);
        }
    }
    assert forall|k: int| 0 <= k < removed.len() implies exists|j: int|
        0 <= j < s.len() && holds_text(s[j], t) && s[j].id == #[trigger] removed[k] by {
        let j = choose|j: int| 0 <= j < s.len() && !keep[j] && s[j].id == #[trigger] removed[k];
        assert(!keep[j]);
    }
}

/// `garbage_collect` reports exactly the ids of the entries it removes: an
/// entry's id is reported if and only if it is neither pinned nor among the
/// `keep` newest.
pub proof fn law_collect_reports_exactly_the_removed(h: HistoryView, keep: int)
    requires
        h.wf(),
        keep >= 0,
    ensures
        forall|j: int| 0 <= j < h.entries.len()
            ==> (!(h.entries[j].is_pinned || j + keep >= h.entries.len())
                <==> #[trigger] dropped_ids(h, collect_mask(h.entries, keep)).contains(h.entries[j].id)),
{
    let s = h.entries;
    let mask = collect_mask(s, keep);
    let removed = dropped_ids(h, mask);
    lemma_dropped_ids(s, mask, s.len() as int);
    assert forall|j: int| 0 <= j < s.len()
        implies (!(s[j].is_pinned || j + keep >= s.len()) <==> #[trigger] removed.contains(s[j].id)) by {
        if removed.contains(s[j].id) {
            let k = choose|k: int| 0 <= k < removed.len() && removed[k] == s[j].id;
            let j2 = choose|j2: int| 0 <= j2 < s.len() && !mask[j2] && s[j2].id == #[trigger] removed[k];
            assert(j2 == j);
            assert(!mask[j]);
        }
        assert(mask[j] == (s[j].is_pinned || j + keep >= s.len()));
    }
}

/// The window lists the search results for any non-empty query, and the
/// recent texts only when the field is empty.
pub proof fn law_window_searches_every_non_empty_query(h: HistoryView, q: Seq<char>)
    requires
        h.wf(),
    ensures
        q.len() > 0 ==> window_texts(h, q) == search_results(h, q, EXTENDED_LIMIT as int),
        q.len() > 0 ==> forall|k: int| 0 <= k < window_texts(h, q).len()
            ==> contains_ignoring_case(#[trigger] window_texts(h, q)[k], q),
        q.len() == 0 ==> window_texts(h, q) == recent_texts(h, RECENT_LIMIT as int),
{
    if q.len() > 0 {
        law_search_lists_only_matches(h, q, EXTENDED_LIMIT as int);
    }
}

/// The recent listing shows only texts that entries hold and, when the limit
/// is at least the number of entries, every text that an entry holds.
pub proof fn law_recent_listing_lists_entry_texts(h: HistoryView, limit: int)
    requires
        h.wf(),
        limit >= 0,
    ensures
        forall|k: int| 0 <= k < recent_texts(h, limit).len()
            ==> held_within(h.entries, h.entries.len() as int, #[trigger] recent_texts(h, limit)[k]),
        limit >= h.entries.len() ==> forall|j: int| 0 <= j < h.entries.len() && #[trigger] text_of(h.entries[j]) is Some
            ==> recent_texts(h, limit).contains(text_of(h.entries[j])->0),
{
    let s = h.entries;
    let ts = stored_texts(s);
    let r = recent_texts(h, limit);
    lemma_texts_come_from_entries(s, s.len() as int);
    lemma_texts_complete(s, s.len() as int);
    assert forall|k: int| 0 <= k < r.len() implies held_within(s, s.len() as int, #[trigger] r[k]) by {
        assert(r[k] == ts[ts.len() - 1 - k]);
        assert(held_within(s, s.len() as int, ts[ts.len() - 1 - k]));
    }
    if limit >= s.len() {
        assert forall|j: int| 0 <= j < s.len() && #[trigger] text_of(s[j]) is Some
            implies r.contains(text_of(s[j])->0) by {
            let k = choose|k: int| 0 <= k < ts.len() && ts[k] == text_of(s[j])->0;
            assert(r[ts.len() - 1 - k] == ts[k]);
        }
    }
}

} // verus!
