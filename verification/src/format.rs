//! The bold toggle: wraps a selection in a pair of `**` markers, or removes the
//! pair that already wraps it.
//!
//! Positions are character offsets into the text. A selection is the range
//! `start..end`; a lone cursor is the empty range `start..start`.

use vstd::prelude::*;
use vstd::string::StrSliceExecFns;
use vstd::string::StringExecFns;

use crate::text::chars_of;
use crate::text::string_of;

verus! {

/// The emphasis marker. Two of them open a bold span and two close it.
pub const MARKER: char = '*';

/// Whether `start..end` is a range of `text`.
pub open spec fn in_range(text: Seq<char>, start: int, end: int) -> bool {
    0 <= start <= end <= text.len()
}

/// Whether the range counts as already bold: the two characters before it are
/// markers and, when the range is not empty, so are the two characters after
/// it. A range with no room for a pair before it, or a nonempty one with no
/// room for a pair after it, is not bold.
pub open spec fn is_bold(text: Seq<char>, start: int, end: int) -> bool {
    &&& 2 <= start <= end <= text.len()
    &&& text[start - 2] == MARKER
    &&& text[start - 1] == MARKER
    &&& start < end ==> {
        &&& end + 2 <= text.len()
        &&& text[end] == MARKER
        &&& text[end + 1] == MARKER
    }
}

/// Where the text resumes after the two characters that follow `end`, or
/// after as many of them as there are.
pub open spec fn after_pair(text: Seq<char>, end: int) -> int {
    if end + 2 <= text.len() {
        end + 2
    } else {
        text.len() as int
    }
}

/// The text with a marker pair put before `start` and another after `end`.
pub open spec fn wrapped(text: Seq<char>, start: int, end: int) -> Seq<char> {
    text.subrange(0, start) + seq![MARKER, MARKER] + text.subrange(start, end) + seq![
        MARKER,
        MARKER,
    ] + text.subrange(end, text.len() as int)
}

/// The text without the two characters before `start` and without the two
/// characters after `end` (or as many as there are).
pub open spec fn unwrapped(text: Seq<char>, start: int, end: int) -> Seq<char> {
    text.subrange(0, start - 2) + text.subrange(start, end) + text.subrange(
        after_pair(text, end),
        text.len() as int,
    )
}

/// What the toggle makes of a text and a range: the new text and the range
/// that the same characters occupy in it. A range that is not within the text
/// is left alone, with the text.
pub open spec fn toggled(text: Seq<char>, start: int, end: int) -> (Seq<char>, int, int) {
    if !in_range(text, start, end) {
        (text, start, end)
    } else if is_bold(text, start, end) {
        (unwrapped(text, start, end), start - 2, end - 2)
    } else {
        (wrapped(text, start, end), start + 2, end + 2)
    }
}

/// Says whether the range `start..end` of `text` is already bold.
pub fn detect_bold(text: &str, start: usize, end: usize) -> (bold: bool)
    ensures
        bold == is_bold(text@, start as int, end as int),
{
    let chars = chars_of(text);
    bold_in(&chars, start, end)
}

fn bold_in(chars: &Vec<char>, start: usize, end: usize) -> (bold: bool)
    ensures
        bold == is_bold(chars@, start as int, end as int),
{
    let len = chars.len();
    if start < 2 || start > end || end > len {
        return false;
    }
    if chars[start - 2] != MARKER || chars[start - 1] != MARKER {
        return false;
    }
    if start == end {
        return true;
    }
    len - end >= 2 && chars[end] == MARKER && chars[end + 1] == MARKER
}

/// Toggles bold on the range `start..end` of `text`. Returns the new text and
/// the range that the same characters occupy in it.
pub fn toggle_bold(text: &str, start: usize, end: usize) -> (out: (String, usize, usize))
    ensures
        (out.0@, out.1 as int, out.2 as int) == toggled(text@, start as int, end as int),
{
    let chars = chars_of(text);
    let len = chars.len();
    if start > end || end > len {
        return (String::from_str(text), start, end);
    }
    if bold_in(&chars, start, end) {
        let resume = if len - end >= 2 {
            end + 2
        } else {
            len
        };
        let mut result = string_of(&chars, 0, start - 2);
        result.append(string_of(&chars, start, end).as_str());
        result.append(string_of(&chars, resume, len).as_str());
        (result, start - 2, end - 2)
    } else {
        let mut result = string_of(&chars, 0, start);
        result.push(MARKER);
        result.push(MARKER);
        result.append(string_of(&chars, start, end).as_str());
        result.push(MARKER);
        result.push(MARKER);
        result.append(string_of(&chars, end, len).as_str());
        assert(result@ =~= wrapped(text@, start as int, end as int));
        let grown = result.as_str().unicode_len();
        assert(grown == len + 4);
        (result, start + 2, end + 2)
    }
}

/// Toggling an unbolded range twice gives back the text and the range.
pub proof fn lemma_toggle_twice(text: Seq<char>, start: int, end: int)
    requires
        in_range(text, start, end),
        !is_bold(text, start, end),
    ensures
        ({
            let once = toggled(text, start, end);
            toggled(once.0, once.1, once.2) == (text, start, end)
        }),
{
    let once = wrapped(text, start, end);
    assert(once.len() == text.len() + 4);
    assert(is_bold(once, start + 2, end + 2));
    assert(unwrapped(once, start + 2, end + 2) =~= text);
}

/// The first toggle of an unbolded range wraps it, and the range is then bold.
pub proof fn lemma_toggle_wraps(text: Seq<char>, start: int, end: int)
    requires
        in_range(text, start, end),
        !is_bold(text, start, end),
    ensures
        toggled(text, start, end).0 == wrapped(text, start, end),
        is_bold(toggled(text, start, end).0, start + 2, end + 2),
        toggled(text, start, end).0.subrange(start + 2, end + 2) == text.subrange(start, end),
{
    let once = wrapped(text, start, end);
    assert(once.len() == text.len() + 4);
    assert(once.subrange(start + 2, end + 2) =~= text.subrange(start, end));
}

} // verus!
