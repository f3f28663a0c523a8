//! Character-level helpers on clipboard text.

use vstd::prelude::*;

verus! {

broadcast use vstd::string::group_string_axioms;

/// Unicode `White_Space`: the characters that `char::is_whitespace` accepts and
/// that `str::trim` strips.
pub open spec fn is_white_space(c: char) -> bool {
    let u = c as u32;
    ||| 0x9 <= u <= 0xD
    ||| u == 0x20
    ||| u == 0x85
    ||| u == 0xA0
    ||| u == 0x1680
    ||| 0x2000 <= u <= 0x200A
    ||| u == 0x2028
    ||| u == 0x2029
    ||| u == 0x202F
    ||| u == 0x205F
    ||| u == 0x3000
}

/// A text is blank when trimming it leaves nothing: every character is white space.
pub open spec fn is_blank_text(s: Seq<char>) -> bool {
    forall|i: int| 0 <= i < s.len() ==> is_white_space(#[trigger] s[i])
}

/// ASCII case folding, as SQL `LIKE` compares letters.
pub open spec fn fold_ascii(c: char) -> u32 {
    let u = c as u32;
    if 65 <= u <= 90 {
        (u + 32) as u32
    } else {
        u
    }
}

/// `needle` occurs in `hay` starting at `start`, letters compared without regard to ASCII case.
pub open spec fn occurs_at(hay: Seq<char>, needle: Seq<char>, start: int) -> bool {
    &&& 0 <= start
    &&& start + needle.len() <= hay.len()
    &&& forall|j: int| 0 <= j < needle.len() ==> fold_ascii(#[trigger] hay[start + j]) == fold_ascii(needle[j])
}

/// `needle` occurs somewhere in `hay`, letters compared without regard to ASCII case.
pub open spec fn contains_ignoring_case(hay: Seq<char>, needle: Seq<char>) -> bool {
    exists|start: int| occurs_at(hay, needle, start)
}

/// Copies the characters of `s` into a vector.
pub fn chars_of(s: &str) -> (v: Vec<char>)
    ensures
        v@ == s@,
{
    let mut v: Vec<char> = Vec::new();
    for c in it: s.chars()
        invariant
            v@ == it.seq().take(it.index()),
    {
        v.push(c);
    }
    assert(v@ =~= s@);
    v
}

/// Whether `c` is Unicode white space.
pub fn is_whitespace_char(c: char) -> (b: bool)
    ensures
        b == is_white_space(c),
{
    let u = c as u32;
    (0x9 <= u && u <= 0xD) || u == 0x20 || u == 0x85 || u == 0xA0 || u == 0x1680
        || (0x2000 <= u && u <= 0x200A) || u == 0x2028 || u == 0x2029 || u == 0x202F
        || u == 0x205F || u == 0x3000
}

/// Whether `text.trim()` is empty: the text holds nothing but white space.
pub fn is_blank(text: &str) -> (b: bool)
    ensures
        b == is_blank_text(text@),
{
    let mut blank = true;
    for c in it: text.chars()
        invariant
            it.seq() == text@,
            blank == (forall|i: int| 0 <= i < it.index() ==> is_white_space(#[trigger] it.seq()[i])),
    {
        if !is_whitespace_char(c) {
            blank = false;
        }
    }
    blank
}

/// The first `max_chars` characters of `text` (all of it when shorter).
pub fn preview(text: &str, max_chars: usize) -> (p: String)
    ensures
        p@ == text@.take(if text@.len() < max_chars { text@.len() as int } else { max_chars as int }),
{
    let len = text.unicode_len();
    let end = if len < max_chars { len } else { max_chars };
    String::from_str(text.substring_char(0, end))
}

fn fold_ascii_char(c: char) -> (u: u32)
    ensures
        u == fold_ascii(c),
{
    let u = c as u32;
    if 65 <= u && u <= 90 {
        u + 32
    } else {
        u
    }
}

/// Whether `needle` occurs in `hay`, ASCII letters compared without regard to case.
pub fn contains_ignore_ascii_case(hay: &str, needle: &str) -> (b: bool)
    ensures
        b == contains_ignoring_case(hay@, needle@),
{
    let h = chars_of(hay);
    let n = chars_of(needle);
    if n.len() > h.len() {
        assert forall|start: int| !occurs_at(hay@, needle@, start) by {}
        return false;
    }
    let last = h.len() - n.len();
    let mut start: usize = 0;
    while start <= last
        invariant
            h@ == hay@,
            n@ == needle@,
            n.len() <= h.len(),
            last == h.len() - n.len(),
            start <= last + 1,
            forall|s: int| 0 <= s < start ==> !occurs_at(hay@, needle@, s),
        decreases last + 1 - start,
    {
        let mut j: usize = 0;
        while j < n.len() && fold_ascii_char(h[start + j]) == fold_ascii_char(n[j])
            invariant
                h@ == hay@,
                n@ == needle@,
                start + n.len() <= h.len(),
                j <= n.len(),
                forall|k: int| 0 <= k < j ==> fold_ascii(#[trigger] h@[start + k]) == fold_ascii(n@[k]),
            decreases n.len() - j,
        {
            j = j + 1;
        }
        if j == n.len() {
            assert(occurs_at(hay@, needle@, start as int));
            return true;
        }
        assert(fold_ascii(hay@[start + j as int]) != fold_ascii(needle@[j as int]));
        start = start + 1;
    }
    assert forall|s: int| !occurs_at(hay@, needle@, s) by {
        if 0 <= s && s + needle@.len() <= hay@.len() {
            assert(s < start);
        }
    }
    false
}

} // verus!
