//! The clipboard history: the rows that the database table holds, kept in
//! order of recency (oldest first), with the rules by which copies are recorded
//! and by which the recent texts are listed.

use vstd::prelude::*;
use crate::text::{contains_ignore_ascii_case, contains_ignoring_case};


verus! {

broadcast use vstd::string::group_string_axioms;

/// One row of the clipboard history.
#[derive(Debug, Clone)]
pub struct ClipboardItem {
    pub id: i32,
    pub content_type: String,
    pub content: Option<String>,
    pub media_path: Option<String>,
    pub source_app: Option<String>,
    pub is_pinned: bool,
}

/// What a [`ClipboardItem`] holds, as mathematical values.
pub struct ItemView {
    pub id: i32,
    pub content_type: Seq<char>,
    pub content: Option<Seq<char>>,
    pub media_path: Option<Seq<char>>,
    pub source_app: Option<Seq<char>>,
    pub is_pinned: bool,
}

pub open spec fn opt_view(o: Option<String>) -> Option<Seq<char>> {
    match o {
        Some(s) => Some(s@),
        None => None,
    }
}

impl View for ClipboardItem {
    type V = ItemView;

    open spec fn view(&self) -> ItemView {
        ItemView {
            id: self.id,
            content_type: self.content_type@,
            content: opt_view(self.content),
            media_path: opt_view(self.media_path),
            source_app: opt_view(self.source_app),
            is_pinned: self.is_pinned,
        }
    }
}

/// The content type of text copies.
pub open spec fn text_kind() -> Seq<char> {
    seq!['t', 'e', 'x', 't']
}

/// The text that an entry contributes to the text listings: its content when
/// it is of type text and has one.
pub open spec fn text_of(e: ItemView) -> Option<Seq<char>> {
    if e.content_type == text_kind() {
        e.content
    } else {
        None
    }
}

pub open spec fn holds_text(e: ItemView, t: Seq<char>) -> bool {
    text_of(e) == Some(t)
}

/// The position of the first entry (oldest in recency) that holds text `t`.
pub open spec fn find_text(s: Seq<ItemView>, t: Seq<char>) -> Option<int>
    decreases s.len(),
{
    if s.len() == 0 {
        None
    } else {
        match find_text(s.drop_last(), t) {
            Some(i) => Some(i),
            None => if holds_text(s.last(), t) {
                Some(s.len() - 1)
            } else {
                None
            },
        }
    }
}

/// No text is held by two entries.
pub open spec fn texts_unique(s: Seq<ItemView>) -> bool {
    forall|i: int, j: int|
        0 <= i < s.len() && 0 <= j < s.len() && i != j && text_of(s[i]) is Some
            ==> #[trigger] text_of(s[i]) != #[trigger] text_of(s[j])
}

/// The history as mathematical values: the entries, oldest first, and the id
/// that the next new entry receives.
pub struct HistoryView {
    pub entries: Seq<ItemView>,
    pub next_id: int,
}

pub open spec fn ids_distinct(s: Seq<ItemView>) -> bool {
    forall|i: int, j: int| 0 <= i < s.len() && 0 <= j < s.len() && i != j ==> #[trigger] s[i].id != #[trigger] s[j].id
}

impl HistoryView {
    pub open spec fn wf(self) -> bool {
        &&& 1 <= self.next_id <= i32::MAX + 1
        &&& ids_distinct(self.entries)
        &&& forall|i: int| 0 <= i < self.entries.len() ==> #[trigger] self.entries[i].id < self.next_id
    }

    pub open spec fn has_id(self, id: i32) -> bool {
        exists|i: int| 0 <= i < self.entries.len() && #[trigger] self.entries[i].id == id
    }
}

/// What `insert_item` did with the copy it was given.
#[derive(Debug, PartialEq, Eq, Structural)]
pub enum InsertOutcome {
    /// The text was already stored: that entry, with this id, became the newest.
    Refreshed(i32),
    /// A new entry was stored under this id.
    Inserted(i32),
}

/// Why the history refused a change.
#[derive(Debug, PartialEq, Eq, Structural)]
pub enum HistoryError {
    /// Every id that an entry can carry has been handed out.
    IdsExhausted,
}

pub open spec fn move_to_newest(s: Seq<ItemView>, i: int) -> Seq<ItemView> {
    s.remove(i).push(s[i])
}

pub open spec fn with_id(e: ItemView, id: i32) -> ItemView {
    ItemView { id, ..e }
}

/// The history after a copy `item` is recorded, and what was done: a text that
/// is already stored is refreshed (its entry becomes the newest, unchanged);
/// anything else is stored as a new entry under the next id.
pub open spec fn insert_spec(h: HistoryView, item: ItemView) -> Result<(HistoryView, InsertOutcome), HistoryError> {
    let found = match text_of(item) {
        Some(t) => find_text(h.entries, t),
        None => None,
    };
    match found {
        Some(i) => Ok((
            HistoryView { entries: move_to_newest(h.entries, i), next_id: h.next_id },
            InsertOutcome::Refreshed(h.entries[i].id),
        )),
        None => if h.next_id <= i32::MAX {
            Ok((
                HistoryView { entries: h.entries.push(with_id(item, h.next_id as i32)), next_id: h.next_id + 1 },
                InsertOutcome::Inserted(h.next_id as i32),
            ))
        } else {
            Err(HistoryError::IdsExhausted)
        },
    }
}

pub proof fn lemma_find_text(s: Seq<ItemView>, t: Seq<char>)
    ensures
        match find_text(s, t) {
            Some(i) => 0 <= i < s.len() && holds_text(s[i], t)
                && forall|j: int| 0 <= j < i ==> !holds_text(#[trigger] s[j], t),
            None => forall|j: int| 0 <= j < s.len() ==> !holds_text(#[trigger] s[j], t),
        },
    decreases s.len(),
{
    if s.len() > 0 {
        lemma_find_text(s.drop_last(), t);
        assert(forall|j: int| 0 <= j < s.len() - 1 ==> s.drop_last()[j] == #[trigger] s[j]);
    }
}

/// The clipboard history, kept in order of recency.
pub struct ClipboardHistory {
    entries: Vec<ClipboardItem>,
    next_id: i64,
}

pub open spec fn item_views(v: Seq<ClipboardItem>) -> Seq<ItemView> {
    v.map_values(|e: ClipboardItem| e@)
}

impl View for ClipboardHistory {
    type V = HistoryView;

    closed spec fn view(&self) -> HistoryView {
        HistoryView { entries: item_views(self.entries@), next_id: self.next_id as int }
    }
}

fn clone_opt(o: &Option<String>) -> (r: Option<String>)
    ensures
        opt_view(r) == opt_view(*o),
{
    match o {
        Some(s) => Some(s.clone()),
        None => None,
    }
}

/// Whether a content type names text.
pub fn is_text_kind(kind: &String) -> (b: bool)
    ensures
        b == (kind@ == text_kind()),
{
    let text = String::from_str("text");
    proof {
        reveal_strlit("text");
        assert("text"@ =~= text_kind());
    }
    *kind == text
}

impl ClipboardItem {
    /// A text copy, as the watchers record it: no id yet, no media, no source, not pinned.
    pub fn new_text(content: String) -> (item: ClipboardItem)
        ensures
            item@ == (ItemView {
                id: 0,
                content_type: text_kind(),
                content: Some(content@),
                media_path: None,
                source_app: None,
                is_pinned: false,
            }),
    {
        let kind = String::from_str("text");
        proof {
            reveal_strlit("text");
            assert("text"@ =~= text_kind());
        }
        ClipboardItem {
            id: 0,
            content_type: kind,
            content: Some(content),
            media_path: None,
            source_app: None,
            is_pinned: false,
        }
    }

    /// A copy of this item under another id.
    pub fn copy_with_id(&self, id: i32) -> (item: ClipboardItem)
        ensures
            item@ == with_id(self@, id),
    {
        ClipboardItem {
            id,
            content_type: self.content_type.clone(),
            content: clone_opt(&self.content),
            media_path: clone_opt(&self.media_path),
            source_app: clone_opt(&self.source_app),
            is_pinned: self.is_pinned,
        }
    }
}

impl ClipboardHistory {
    pub open spec fn wf(&self) -> bool {
        self@.wf()
    }

    /// An empty history; the first new entry gets id 1.
    pub fn new() -> (h: ClipboardHistory)
        ensures
            h.wf(),
            h@.entries == Seq::<ItemView>::empty(),
            h@.next_id == 1,
    {
        let h = ClipboardHistory { entries: Vec::new(), next_id: 1 };
        assert(h@.entries =~= Seq::<ItemView>::empty());
        h
    }

    /// The number of entries.
    pub fn len(&self) -> (n: usize)
        ensures
            n == self@.entries.len(),
    {
        self.entries.len()
    }

    /// The position of the first entry that holds text `t`.
    fn position_of_text(&self, t: &String) -> (r: Option<usize>)
        ensures
            match r {
                Some(i) => find_text(self@.entries, t@) == Some(i as int),
                None => find_text(self@.entries, t@) is None,
            },
    {
        let n = self.entries.len();
        let mut i: usize = 0;
        while i < n
            invariant
                n == self.entries.len(),
                i <= n,
                find_text(self@.entries.take(i as int), t@) is None,
            decreases n - i,
        {
            let e = &self.entries[i];
            assert(self@.entries.take(i + 1).drop_last() =~= self@.entries.take(i as int));
            assert(self@.entries[i as int] == e@);
            if is_text_kind(&e.content_type) {
                match &e.content {
                    Some(c) => {
                        if *c == *t {
                            assert(find_text(self@.entries.take(i + 1), t@) == Some(i as int));
                            proof { lemma_find_text_prefix(self@.entries, t@, i as int); }
                            return Some(i);
                        }
                    }
                    None => {}
                }
            }
            assert(find_text(self@.entries.take(i + 1), t@) is None);
            i = i + 1;
        }
        assert(self@.entries.take(n as int) =~= self@.entries);
        None
    }
}

impl ClipboardHistory {
    /// Records a copy. A text that is already stored is not stored twice: its
    /// entry is refreshed and becomes the newest. Anything else is stored as a
    /// new entry under the next id; the id that `item` carries is not used.
    pub fn insert_item(&mut self, item: &ClipboardItem) -> (r: Result<InsertOutcome, HistoryError>)
        requires
            old(self).wf(),
        ensures
            final(self).wf(),
            match r {
                Ok(o) => insert_spec(old(self)@, item@) == Ok::<(HistoryView, InsertOutcome), HistoryError>((final(self)@, o)),
                Err(e) => insert_spec(old(self)@, item@) == Err::<(HistoryView, InsertOutcome), HistoryError>(e)
                    && final(self)@ == old(self)@,
            },
    {
        let ghost old_entries = self@.entries;
        let ghost old_vec = self.entries@;
        if is_text_kind(&item.content_type) {
            if let Some(t) = &item.content {
                if let Some(i) = self.position_of_text(t) {
                    proof {
                        lemma_find_text(old_entries, t@);
                    }
                    let e = self.entries.remove(i);
                    let id = e.id;
                    self.entries.push(e);
                    proof {
                        assert(self.entries@ =~= old_vec.remove(i as int).push(e));
                        assert(self@.entries =~= move_to_newest(old_entries, i as int));
                        lemma_move_keeps_wf(old(self)@, i as int);
                    }
                    return Ok(InsertOutcome::Refreshed(id));
                }
            }
        }
        if self.next_id > 2147483647 {
            return Err(HistoryError::IdsExhausted);
        }
        let id = self.next_id as i32;
        let new_item = item.copy_with_id(id);
        self.entries.push(new_item);
        self.next_id = self.next_id + 1;
        proof {
            assert(self@.entries =~= old_entries.push(with_id(item@, id)));
        }
        Ok(InsertOutcome::Inserted(id))
    }

    /// Takes back a stored row, as the newest entry, unless an entry already
    /// carries its id; says whether it was taken. Later new entries get ids
    /// above every id taken back.
    pub fn restore(&mut self, item: ClipboardItem) -> (taken: bool)
        requires
            old(self).wf(),
        ensures
            final(self).wf(),
            taken == !old(self)@.has_id(item.id),
            taken ==> final(self)@ == (HistoryView {
                entries: old(self)@.entries.push(item@),
                next_id: if item.id < old(self)@.next_id { old(self)@.next_id } else { item.id + 1 },
            }),
            !taken ==> final(self)@ == old(self)@,
    {
        let ghost old_entries = self@.entries;
        let n = self.entries.len();
        let mut i: usize = 0;
        while i < n
            invariant
                n == self.entries.len(),
                self@ == old(self)@,
                self.wf(),
                self@.entries == old_entries,
                i <= n,
                forall|j: int| 0 <= j < i ==> #[trigger] old_entries[j].id != item.id,
            decreases n - i,
        {
            if self.entries[i].id == item.id {
                assert(old_entries[i as int].id == item.id);
                return false;
            }
            i = i + 1;
        }
        let id = item.id;
        let ghost iv = item@;
        self.entries.push(item);
        if id as i64 >= self.next_id {
            self.next_id = id as i64 + 1;
        }
        proof {
            assert(self@.entries =~= old_entries.push(iv));
        }
        true
    }

    /// Takes note of the largest id that the store has ever handed out (an
    /// `AUTOINCREMENT` table's sequence value), so that no id, not even that of
    /// a deleted row, is handed out again. Values past `i32::MAX` leave no id.
    pub fn note_last_used_id(&mut self, last_used: i64)
        requires
            old(self).wf(),
        ensures
            final(self).wf(),
            final(self)@.entries == old(self)@.entries,
            final(self)@.next_id == if last_used < old(self)@.next_id {
                old(self)@.next_id
            } else if last_used < i32::MAX {
                last_used + 1
            } else {
                i32::MAX + 1
            },
    {
        if last_used >= self.next_id {
            if last_used < 2147483647 {
                self.next_id = last_used + 1;
            } else {
                self.next_id = 2147483648;
            }
        }
    }
}

/// The texts of the first `n` entries, oldest first.
pub open spec fn texts_upto(s: Seq<ItemView>, n: int) -> Seq<Seq<char>>
    decreases n,
{
    if n <= 0 {
        Seq::empty()
    } else {
        let r = texts_upto(s, n - 1);
        match text_of(s[n - 1]) {
            Some(t) => r.push(t),
            None => r,
        }
    }
}

/// The texts that the history holds, oldest first.
pub open spec fn stored_texts(s: Seq<ItemView>) -> Seq<Seq<char>> {
    texts_upto(s, s.len() as int)
}

/// The last `limit` elements of `t`, newest first.
pub open spec fn newest_first(t: Seq<Seq<char>>, limit: int) -> Seq<Seq<char>> {
    let n = if limit < t.len() { limit } else { t.len() as int };
    Seq::new(n as nat, |k: int| t[t.len() - 1 - k])
}

/// What `get_recent_texts` lists: at most `limit` texts, the most recently copied first.
pub open spec fn recent_texts(h: HistoryView, limit: int) -> Seq<Seq<char>> {
    newest_first(stored_texts(h.entries), limit)
}

/// The first `n` texts of `ts` in which `query` occurs, ignoring ASCII case.
pub open spec fn matching_upto(ts: Seq<Seq<char>>, query: Seq<char>, n: int) -> Seq<Seq<char>>
    decreases n,
{
    if n <= 0 {
        Seq::empty()
    } else {
        let r = matching_upto(ts, query, n - 1);
        if contains_ignoring_case(ts[n - 1], query) {
            r.push(ts[n - 1])
        } else {
            r
        }
    }
}

/// What `search_texts` lists: at most `limit` stored texts in which `query`
/// occurs, the most recently copied first.
pub open spec fn search_results(h: HistoryView, query: Seq<char>, limit: int) -> Seq<Seq<char>> {
    let ts = stored_texts(h.entries);
    newest_first(matching_upto(ts, query, ts.len() as int), limit)
}

pub open spec fn string_views(v: Seq<String>) -> Seq<Seq<char>> {
    v.map_values(|s: String| s@)
}

/// The last `limit` strings of `v`, newest first.
fn newest_first_of(v: &Vec<String>, limit: usize) -> (r: Vec<String>)
    ensures
        string_views(r@) == newest_first(string_views(v@), limit as int),
{
    let len = v.len();
    let n = if limit < len { limit } else { len };
    let mut r: Vec<String> = Vec::new();
    let mut k: usize = 0;
    while k < n
        invariant
            len == v.len(),
            n <= len,
            k <= n,
            r.len() == k,
            forall|j: int| 0 <= j < k ==> #[trigger] r@[j]@ == v@[len - 1 - j]@,
        decreases n - k,
    {
        r.push(v[len - 1 - k].clone());
        k = k + 1;
    }
    assert(string_views(r@) =~= newest_first(string_views(v@), limit as int));
    r
}

impl ClipboardHistory {
    /// Every stored text, oldest first.
    fn all_texts(&self) -> (v: Vec<String>)
        ensures
            string_views(v@) == stored_texts(self@.entries),
    {
        let n = self.entries.len();
        let mut v: Vec<String> = Vec::new();
        let mut i: usize = 0;
        while i < n
            invariant
                n == self.entries.len(),
                n == self@.entries.len(),
                i <= n,
                string_views(v@) == texts_upto(self@.entries, i as int),
            decreases n - i,
        {
            let e = &self.entries[i];
            assert(self@.entries[i as int] == e@);
            if is_text_kind(&e.content_type) {
                if let Some(c) = &e.content {
                    v.push(c.clone());
                    assert(string_views(v@) =~= texts_upto(self@.entries, i as int + 1));
                }
            }
            i = i + 1;
        }
        v
    }

    /// At most `limit` texts, the most recently copied first: the rows of type
    /// text that have a content, newest first.
    pub fn get_recent_texts(&self, limit: u32) -> (r: Vec<String>)
        ensures
            string_views(r@) == recent_texts(self@, limit as int),
    {
        let all = self.all_texts();
        newest_first_of(&all, limit as usize)
    }

    /// At most `limit` stored texts in which `query` occurs (ASCII letters
    /// compared without regard to case), the most recently copied first.
    pub fn search_texts(&self, query: &str, limit: u32) -> (r: Vec<String>)
        ensures
            string_views(r@) == search_results(self@, query@, limit as int),
    {
        let all = self.all_texts();
        let ghost ts = stored_texts(self@.entries);
        let n = all.len();
        let mut found: Vec<String> = Vec::new();
        let mut i: usize = 0;
        while i < n
            invariant
                n == all.len(),
                string_views(all@) == ts,
                i <= n,
                string_views(found@) == matching_upto(ts, query@, i as int),
            decreases n - i,
        {
            assert(all@[i as int]@ == ts[i as int]);
            if contains_ignore_ascii_case(all[i].as_str(), query) {
                found.push(all[i].clone());
                assert(string_views(found@) =~= matching_upto(ts, query@, i as int + 1));
            }
            i = i + 1;
        }
        newest_first_of(&found, limit as usize)
    }
}

/// The entries among the first `n` whose mark in `keep` is set, in order.
pub open spec fn select_upto(s: Seq<ItemView>, keep: Seq<bool>, n: int) -> Seq<ItemView>
    decreases n,
{
    if n <= 0 {
        Seq::empty()
    } else {
        let r = select_upto(s, keep, n - 1);
        if keep[n - 1] {
            r.push(s[n - 1])
        } else {
            r
        }
    }
}

/// The ids of the entries among the first `n` whose mark in `keep` is clear, in order.
pub open spec fn dropped_ids_upto(s: Seq<ItemView>, keep: Seq<bool>, n: int) -> Seq<i32>
    decreases n,
{
    if n <= 0 {
        Seq::empty()
    } else {
        let r = dropped_ids_upto(s, keep, n - 1);
        if keep[n - 1] {
            r
        } else {
            r.push(s[n - 1].id)
        }
    }
}

/// Which entries survive `delete_item(t)`: those that do not hold text `t`.
pub open spec fn delete_mask(s: Seq<ItemView>, t: Seq<char>) -> Seq<bool> {
    Seq::new(s.len(), |i: int| !holds_text(s[i], t))
}

/// Which entries survive `garbage_collect(keep)`: the pinned ones and the `keep` newest.
pub open spec fn collect_mask(s: Seq<ItemView>, keep: int) -> Seq<bool> {
    Seq::new(s.len(), |i: int| s[i].is_pinned || i + keep >= s.len())
}

/// The history once only the entries marked in `keep` remain.
pub open spec fn retained(h: HistoryView, keep: Seq<bool>) -> HistoryView {
    HistoryView { entries: select_upto(h.entries, keep, h.entries.len() as int), next_id: h.next_id }
}

/// The ids of the entries that are not marked in `keep`, oldest first.
pub open spec fn dropped_ids(h: HistoryView, keep: Seq<bool>) -> Seq<i32> {
    dropped_ids_upto(h.entries, keep, h.entries.len() as int)
}

/// `e` is one of the first `n` entries of `s` that are marked in `keep`.
pub open spec fn marked_entry(s: Seq<ItemView>, keep: Seq<bool>, n: int, e: ItemView) -> bool {
    exists|j: int| 0 <= j < n && keep[j] && s[j] == e
}

/// Each selected entry is an entry of `s` marked in `keep`; selecting keeps ids distinct.
pub proof fn lemma_select(s: Seq<ItemView>, keep: Seq<bool>, n: int)
    requires
        0 <= n <= s.len(),
        n <= keep.len(),
    ensures
        forall|k: int| 0 <= k < select_upto(s, keep, n).len()
            ==> marked_entry(s, keep, n, #[trigger] select_upto(s, keep, n)[k]),
        ids_distinct(s) ==> ids_distinct(select_upto(s, keep, n)),
    decreases n,
{
    if n > 0 {
        lemma_select(s, keep, n - 1);
        let r = select_upto(s, keep, n - 1);
        let r2 = select_upto(s, keep, n);
        assert forall|k: int| 0 <= k < r2.len() implies marked_entry(s, keep, n, #[trigger] r2[k]) by {
            if k < r.len() {
                assert(marked_entry(s, keep, n - 1, r[k]));
                let j = choose|j: int| 0 <= j < n - 1 && keep[j] && s[j] == r[k];
                assert(r2[k] == r[k]);
                assert(0 <= j < n && keep[j] && s[j] == r2[k]);
            } else {
                assert(keep[n - 1] && r2[k] == s[n - 1]);
            }
        }
        if ids_distinct(s) {
            assert forall|a: int, b: int| 0 <= a < r2.len() && 0 <= b < r2.len() && a != b
                implies #[trigger] r2[a].id != #[trigger] r2[b].id by {
                if a < r.len() && b < r.len() {
                    assert(r2[a] == r[a] && r2[b] == r[b]);
                } else if a < r.len() {
                    assert(marked_entry(s, keep, n - 1, r[a]));
                    let j = choose|j: int| 0 <= j < n - 1 && keep[j] && s[j] == r[a];
                    assert(r2[a] == s[j]);
                    assert(r2[b] == s[n - 1]);
                } else {
                    assert(marked_entry(s, keep, n - 1, r[b]));
                    let j = choose|j: int| 0 <= j < n - 1 && keep[j] && s[j] == r[b];
                    assert(r2[b] == s[j]);
                    assert(r2[a] == s[n - 1]);
                }
            }
        }
    }
}

impl ClipboardHistory {
    /// Keeps the entries whose mark is set and returns the ids of the others, oldest first.
    fn retain_marked(&mut self, keep: &Vec<bool>) -> (dropped: Vec<i32>)
        requires
            old(self).wf(),
            keep.len() == old(self)@.entries.len(),
        ensures
            final(self).wf(),
            final(self)@ == retained(old(self)@, keep@),
            dropped@ == dropped_ids(old(self)@, keep@),
    {
        let n = self.entries.len();
        let mut kept: Vec<ClipboardItem> = Vec::new();
        let mut dropped: Vec<i32> = Vec::new();
        let mut i: usize = 0;
        while i < n
            invariant
                n == self.entries.len(),
                n == self@.entries.len(),
                n == keep.len(),
                i <= n,
                item_views(kept@) == select_upto(self@.entries, keep@, i as int),
                dropped@ == dropped_ids_upto(self@.entries, keep@, i as int),
            decreases n - i,
        {
            let e = &self.entries[i];
            assert(self@.entries[i as int] == e@);
            if keep[i] {
                kept.push(e.copy_with_id(e.id));
                assert(item_views(kept@) =~= select_upto(self@.entries, keep@, i as int + 1));
            } else {
                dropped.push(e.id);
            }
            i = i + 1;
        }
        proof {
            lemma_select(old(self)@.entries, keep@, n as int);
            let sel = select_upto(old(self)@.entries, keep@, n as int);
            assert forall|k: int| 0 <= k < sel.len() implies #[trigger] sel[k].id < old(self)@.next_id by {
                assert(marked_entry(old(self)@.entries, keep@, n as int, sel[k]));
                let j = choose|j: int| 0 <= j < n && keep@[j] && old(self)@.entries[j] == sel[k];
            }
        }
        self.entries = kept;
        proof {
            assert(self@.entries == select_upto(old(self)@.entries, keep@, n as int));
        }
        dropped
    }

    /// Removes every entry that holds text `text` and returns their ids, oldest first.
    pub fn delete_item(&mut self, text: &str) -> (removed: Vec<i32>)
        requires
            old(self).wf(),
        ensures
            final(self).wf(),
            final(self)@ == retained(old(self)@, delete_mask(old(self)@.entries, text@)),
            removed@ == dropped_ids(old(self)@, delete_mask(old(self)@.entries, text@)),
    {
        let target = String::from_str(text);
        let n = self.entries.len();
        let mut keep: Vec<bool> = Vec::new();
        let mut i: usize = 0;
        while i < n
            invariant
                n == self.entries.len(),
                n == self@.entries.len(),
                target@ == text@,
                i <= n,
                keep.len() == i,
                forall|j: int| 0 <= j < i ==> #[trigger] keep@[j] == !holds_text(self@.entries[j], text@),
            decreases n - i,
        {
            let e = &self.entries[i];
            assert(self@.entries[i as int] == e@);
            let mut held = false;
            if is_text_kind(&e.content_type) {
                if let Some(c) = &e.content {
                    held = *c == target;
                }
            }
            keep.push(!held);
            i = i + 1;
        }
        assert(keep@ =~= delete_mask(self@.entries, text@));
        self.retain_marked(&keep)
    }

    /// Removes every entry that is neither pinned nor among the `keep` newest,
    /// and returns their ids, oldest first.
    pub fn garbage_collect(&mut self, keep: usize) -> (removed: Vec<i32>)
        requires
            old(self).wf(),
        ensures
            final(self).wf(),
            final(self)@ == retained(old(self)@, collect_mask(old(self)@.entries, keep as int)),
            removed@ == dropped_ids(old(self)@, collect_mask(old(self)@.entries, keep as int)),
    {
        let n = self.entries.len();
        let mut mask: Vec<bool> = Vec::new();
        let mut i: usize = 0;
        while i < n
            invariant
                n == self.entries.len(),
                n == self@.entries.len(),
                i <= n,
                mask.len() == i,
                forall|j: int| 0 <= j < i ==> #[trigger] mask@[j] == (self@.entries[j].is_pinned || j + keep >= n),
            decreases n - i,
        {
            let e = &self.entries[i];
            assert(self@.entries[i as int] == e@);
            let recent = keep >= n || i >= n - keep;
            mask.push(e.is_pinned || recent);
            i = i + 1;
        }
        assert(mask@ =~= collect_mask(self@.entries, keep as int));
        self.retain_marked(&mask)
    }
}

/// How many texts the history window lists.
pub const RECENT_LIMIT: u32 = 20;

/// How many texts the window lists for a search, and after a deletion.
pub const EXTENDED_LIMIT: u32 = 50;

/// What the history window lists for the search field's `query`: the recent
/// texts when it is empty, else the texts that match it.
pub open spec fn window_texts(h: HistoryView, query: Seq<char>) -> Seq<Seq<char>> {
    if query.len() == 0 {
        recent_texts(h, RECENT_LIMIT as int)
    } else {
        search_results(h, query, EXTENDED_LIMIT as int)
    }
}

impl ClipboardHistory {
    /// The texts that the window lists while the search field holds `query`.
    pub fn texts_for_search(&self, query: &str) -> (r: Vec<String>)
        ensures
            string_views(r@) == window_texts(self@, query@),
    {
        if query.is_empty() {
            self.get_recent_texts(RECENT_LIMIT)
        } else {
            self.search_texts(query, EXTENDED_LIMIT)
        }
    }
}

/// Moving an entry to the newest place keeps the history well formed.
proof fn lemma_move_keeps_wf(h: HistoryView, i: int)
    requires
        h.wf(),
        0 <= i < h.entries.len(),
    ensures
        (HistoryView { entries: move_to_newest(h.entries, i), next_id: h.next_id }).wf(),
{
    let s = h.entries;
    let m = move_to_newest(s, i);
    assert forall|k: int| 0 <= k < m.len() implies #[trigger] m[k] == s[if k < i { k } else if k < s.len() - 1 { k + 1 } else { i }] by {}
    assert forall|a: int, b: int| 0 <= a < m.len() && 0 <= b < m.len() && a != b implies #[trigger] m[a].id != #[trigger] m[b].id by {
        let pa = if a < i { a } else if a < s.len() - 1 { a + 1 } else { i };
        let pb = if b < i { b } else if b < s.len() - 1 { b + 1 } else { i };
        assert(m[a] == s[pa]);
        assert(m[b] == s[pb]);
    }
    assert forall|k: int| 0 <= k < m.len() implies #[trigger] m[k].id < h.next_id by {
        let pk = if k < i { k } else if k < s.len() - 1 { k + 1 } else { i };
        assert(m[k] == s[pk]);
    }
}

/// A text found in a prefix is found at the same place in the whole sequence.
proof fn lemma_find_text_prefix(s: Seq<ItemView>, t: Seq<char>, i: int)
    requires
        0 <= i < s.len(),
        find_text(s.take(i + 1), t) == Some(i),
    ensures
        find_text(s, t) == Some(i),
    decreases s.len(),
{
    if s.len() > i + 1 {
        assert(s.drop_last().take(i + 1) =~= s.take(i + 1));
        lemma_find_text_prefix(s.drop_last(), t, i);
    } else {
        assert(s.take(i + 1) =~= s);
    }
}

} // verus!
