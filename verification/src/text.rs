//! The text store: `ropey` ropes and slices, seen through the sequence of chars
//! they hold, plus the grapheme-cluster segmentation of `unicode-segmentation`.
//!
//! Everything in this file is trusted: the contracts below restate what the
//! documentation of `ropey` and `unicode-segmentation` promises.
use vstd::prelude::*;
use ropey::{Rope, RopeSlice};
use ropey::iter::Chars;
use unicode_segmentation::GraphemeCursor;

verus! {

#[verifier::external_type_specification]
#[verifier::external_body]
pub struct ExRope(Rope);

#[verifier::external_type_specification]
#[verifier::external_body]
pub struct ExRopeSlice<'a>(RopeSlice<'a>);

/// The chars held by a rope, in order.
pub uninterp spec fn rope_text(r: Rope) -> Seq<char>;

/// The chars held by a rope slice, in order.
pub uninterp spec fn slice_text(s: RopeSlice) -> Seq<char>;

/// The chars `ropey` breaks lines at: LF, VT, FF, CR, NEL, LS and PS.
pub open spec fn is_line_break(c: char) -> bool {
    c == '\n' || c == '\u{b}' || c == '\u{c}' || c == '\r' || c == '\u{85}' || c == '\u{2028}'
        || c == '\u{2029}'
}

/// A line break ends just past char `i`: a break char, other than a CR that an LF
/// follows (CR LF is one break).
pub open spec fn break_ends_after(text: Seq<char>, i: int) -> bool {
    &&& 0 <= i < text.len()
    &&& is_line_break(text[i])
    &&& !(text[i] == '\r' && i + 1 < text.len() && text[i + 1] == '\n')
}

/// How many line breaks end at or before char index `c`.
#[verifier::opaque]
pub open spec fn breaks_before(text: Seq<char>, c: int) -> int
    decreases c,
{
    if c <= 0 {
        0
    } else {
        breaks_before(text, c - 1) + if break_ends_after(text, c - 1) {
            1int
        } else {
            0int
        }
    }
}

/// The number of lines `ropey` counts in a text: one more than its line breaks.
pub open spec fn line_count(text: Seq<char>) -> int {
    breaks_before(text, text.len() as int) + 1
}

/// The index of the line that holds the char at `char_idx` (`ropey`'s `char_to_line`):
/// the number of line breaks before it.
pub open spec fn line_of_char(text: Seq<char>, char_idx: int) -> int {
    breaks_before(text, char_idx)
}

/// The char index at which line `line_idx` starts (`ropey`'s `line_to_char`): just past
/// the `line_idx`-th line break; 0 for the first line, the end past the last.
#[verifier::opaque]
pub open spec fn line_start(text: Seq<char>, line_idx: int) -> int {
    if line_idx <= 0 {
        0
    } else if line_idx >= line_count(text) {
        text.len() as int
    } else {
        choose|p: int|
            0 < p <= text.len() && #[trigger] breaks_before(text, p) == line_idx && breaks_before(
                text,
                p - 1,
            ) < line_idx
    }
}

/// The first extended grapheme-cluster boundary after `char_idx`, as found by
/// `unicode_segmentation::GraphemeCursor::next_boundary`.
pub uninterp spec fn grapheme_next(text: Seq<char>, char_idx: int) -> int;

/// The last extended grapheme-cluster boundary before `char_idx`, as found by
/// `unicode_segmentation::GraphemeCursor::prev_boundary`.
pub uninterp spec fn grapheme_prev(text: Seq<char>, char_idx: int) -> int;

/// `Rope::from_str`: a rope holding exactly the chars of `text`.
pub assume_specification[ Rope::from_str ](text: &str) -> (r: Rope)
    ensures
        rope_text(r) == text@,
;

/// `Rope::len_chars`: the number of chars in the rope.
pub assume_specification[ Rope::len_chars ](r: &Rope) -> (n: usize)
    ensures
        n == rope_text(*r).len(),
;

/// `Rope::clone`: a rope of the same chars.
pub assume_specification[ <Rope as Clone>::clone ](r: &Rope) -> (c: Rope)
    ensures
        rope_text(c) == rope_text(*r),
;

/// `Rope::insert`: splices `text` in at `char_idx`; `ropey` panics when
/// `char_idx` is past the end. A rope's length is a `usize` (`len_chars`).
pub assume_specification[ Rope::insert ](r: &mut Rope, char_idx: usize, text: &str)
    requires
        char_idx <= rope_text(*old(r)).len(),
    ensures
        rope_text(*final(r)) == rope_text(*old(r)).take(char_idx as int) + text@
            + rope_text(*old(r)).skip(char_idx as int),
        rope_text(*final(r)).len() <= usize::MAX,
;

/// `Rope::remove` on `from..to`: drops those chars; `ropey` panics when
/// `from > to` or `to` is past the end.
#[verifier::external_body]
pub(crate) fn rope_remove(r: &mut Rope, from: usize, to: usize)
    requires
        from <= to <= rope_text(*old(r)).len(),
    ensures
        rope_text(*final(r)) == rope_text(*old(r)).take(from as int) + rope_text(*old(r)).skip(
            to as int,
        ),
{
    r.remove(from..to)
}

/// `Rope::slice(..)`: a slice over the whole rope. A rope's length is a `usize`.
#[verifier::external_body]
pub(crate) fn rope_full_slice(r: &Rope) -> (s: RopeSlice<'_>)
    ensures
        slice_text(s) == rope_text(*r),
        slice_text(s).len() <= usize::MAX,
{
    r.slice(..)
}

/// `Rope::slice` on `from..to`; `ropey` panics when `from > to` or `to` is past the end.
#[verifier::external_body]
pub(crate) fn rope_slice(r: &Rope, from: usize, to: usize) -> (s: RopeSlice<'_>)
    requires
        from <= to <= rope_text(*r).len(),
    ensures
        slice_text(s) == rope_text(*r).subrange(from as int, to as int),
{
    r.slice(from..to)
}

/// `RopeSlice::slice` on `from..to`; `ropey` panics when `from > to` or `to` is past the end.
#[verifier::external_body]
pub(crate) fn slice_slice<'a>(s: RopeSlice<'a>, from: usize, to: usize) -> (r: RopeSlice<'a>)
    requires
        from <= to <= slice_text(s).len(),
    ensures
        slice_text(r) == slice_text(s).subrange(from as int, to as int),
{
    s.slice(from..to)
}

/// The text of a slice as a `String` (`impl From<RopeSlice> for String`).
#[verifier::external_body]
pub(crate) fn slice_to_string(s: RopeSlice) -> (r: String)
    ensures
        r@ == slice_text(s),
{
    String::from(s)
}

/// `RopeSlice::len_chars`: the number of chars in the slice.
pub assume_specification<'a>[ RopeSlice::<'a>::len_chars ](s: &RopeSlice<'a>) -> (n: usize)
    ensures
        n == slice_text(*s).len(),
;

/// `RopeSlice::char`: the char at `char_idx`; `ropey` panics past the end.
pub assume_specification<'a>[ RopeSlice::<'a>::char ](s: &RopeSlice<'a>, char_idx: usize) -> (c:
    char)
    requires
        char_idx < slice_text(*s).len(),
    ensures
        c == slice_text(*s)[char_idx as int],
;

/// `RopeSlice::len_lines`: the number of lines, one more than the line breaks, so
/// at least one and at most one more than the chars.
pub assume_specification<'a>[ RopeSlice::<'a>::len_lines ](s: &RopeSlice<'a>) -> (n: usize)
    ensures
        n == line_count(slice_text(*s)),
        1 <= n <= slice_text(*s).len() + 1,
;

/// `RopeSlice::char_to_line`: the line holding `char_idx`, the number of line endings
/// before it (one past the end gives the last line); `ropey` panics when `char_idx`
/// is past that. The char lies between the start of its line and the start of the
/// next.
pub assume_specification<'a>[ RopeSlice::<'a>::char_to_line ](s: &RopeSlice<'a>, char_idx: usize) -> (l: usize)
    requires
        char_idx <= slice_text(*s).len(),
    ensures
        l == line_of_char(slice_text(*s), char_idx as int),
        l < line_count(slice_text(*s)),
        line_start(slice_text(*s), l as int) <= char_idx <= line_start(slice_text(*s), l + 1),
;

/// `RopeSlice::line_to_char`: the char index where line `line_idx` starts; line 0
/// starts at 0 and the line one past the last starts at the end. `ropey` panics
/// when `line_idx` is beyond that.
pub assume_specification<'a>[ RopeSlice::<'a>::line_to_char ](s: &RopeSlice<'a>, line_idx: usize) -> (c: usize)
    requires
        line_idx <= line_count(slice_text(*s)),
    ensures
        c == line_start(slice_text(*s), line_idx as int),
        c <= slice_text(*s).len(),
        line_idx == 0 ==> c == 0,
        line_idx == line_count(slice_text(*s)) ==> c == slice_text(*s).len(),
;

/// `RopeSlice::line`: the chars from the start of line `line_idx` to the start of the
/// next line (its line break included); `ropey` panics when there is no such line.
pub assume_specification<'a>[ RopeSlice::<'a>::line ](s: &RopeSlice<'a>, line_idx: usize) -> (l:
    RopeSlice<'a>)
    requires
        line_idx < line_count(slice_text(*s)),
    ensures
        0 <= line_start(slice_text(*s), line_idx as int) <= line_start(
            slice_text(*s),
            line_idx as int,
        ) + slice_text(l).len() <= slice_text(*s).len(),
        line_start(slice_text(*s), line_idx as int) + slice_text(l).len() == line_start(
            slice_text(*s),
            line_idx + 1,
        ),
        slice_text(l) == slice_text(*s).subrange(
            line_start(slice_text(*s), line_idx as int),
            line_start(slice_text(*s), line_idx as int) + slice_text(l).len(),
        ),
;

#[verifier::external_type_specification]
#[verifier::external_body]
pub struct ExRopeChars<'a>(Chars<'a>);

/// What a `ropey` char iterator stands on: the chars it walks over, its position
/// between them (a char index), and whether `reverse` has swapped `next` and `prev`.
pub uninterp spec fn chars_state(c: Chars) -> (Seq<char>, int, bool);

/// The position of an iterator lies between the first and the last char.
pub open spec fn chars_valid(st: (Seq<char>, int, bool)) -> bool {
    0 <= st.1 <= st.0.len()
}

/// What `next` does: forward it yields the char after the position and steps past
/// it, reversed the char before it; at the end it yields `None` and stays.
pub open spec fn step_next(st: (Seq<char>, int, bool)) -> (Option<char>, (Seq<char>, int, bool)) {
    let (text, pos, reversed) = st;
    if !reversed {
        if pos < text.len() {
            (Some(text[pos]), (text, pos + 1, reversed))
        } else {
            (None, st)
        }
    } else {
        if pos > 0 {
            (Some(text[pos - 1]), (text, pos - 1, reversed))
        } else {
            (None, st)
        }
    }
}

/// What `prev` does: `next` in the other direction.
pub open spec fn step_prev(st: (Seq<char>, int, bool)) -> (Option<char>, (Seq<char>, int, bool)) {
    let (c, after) = step_next((st.0, st.1, !st.2));
    (c, (after.0, after.1, st.2))
}

/// `Iterator::next` on `ropey::iter::Chars`: the char after the position (before it
/// once reversed), stepping over it; `None` at the end, where the position stays.
#[verifier::external_body]
pub(crate) fn chars_next(c: &mut Chars) -> (r: Option<char>)
    requires
        chars_valid(chars_state(*old(c))),
    ensures
        r == step_next(chars_state(*old(c))).0,
        chars_state(*final(c)) == step_next(chars_state(*old(c))).1,
{
    c.next()
}

/// `Chars::prev`: `next` in the other direction.
pub assume_specification<'a>[ Chars::<'a>::prev ](c: &mut Chars<'a>) -> (r: Option<char>)
    requires
        chars_valid(chars_state(*old(c))),
    ensures
        r == step_prev(chars_state(*old(c))).0,
        chars_state(*final(c)) == step_prev(chars_state(*old(c))).1,
;

/// `Chars::reverse`: swaps what `next` and `prev` do, in place.
pub assume_specification<'a>[ Chars::<'a>::reverse ](c: &mut Chars<'a>)
    ensures
        chars_state(*final(c)) == (chars_state(*old(c)).0, chars_state(*old(c)).1, !chars_state(
            *old(c),
        ).2),
;

/// `RopeSlice::chars_at`: an iterator over the slice standing before char `char_idx`,
/// walking forward; `ropey` panics when `char_idx` is past the end. A slice's length
/// is a `usize`.
pub assume_specification<'a>[ RopeSlice::<'a>::chars_at ](s: &RopeSlice<'a>, char_idx: usize) -> (c: Chars<'a>)
    requires
        char_idx <= slice_text(*s).len(),
    ensures
        chars_state(c) == (slice_text(*s), char_idx as int, false),
        chars_state(c).0.len() <= usize::MAX,
;

/// `RopeSlice::get_chars_at`: an iterator over the slice standing before char
/// `char_idx`, walking forward; `None` when `char_idx` is past the end. A slice's
/// length is a `usize`.
pub assume_specification<'a>[ RopeSlice::<'a>::get_chars_at ](s: &RopeSlice<'a>, char_idx: usize) -> (r: Option<Chars<'a>>)
    ensures
        r is Some <==> char_idx <= slice_text(*s).len(),
        r matches Some(c) ==> chars_state(c) == (slice_text(*s), char_idx as int, false)
            && chars_state(c).0.len() <= usize::MAX,
;

/// The number of UTF-8 bytes that encode `c`.
pub open spec fn utf8_len(c: char) -> nat {
    if (c as int) < 0x80 {
        1
    } else if (c as int) < 0x800 {
        2
    } else if (c as int) < 0x10000 {
        3
    } else {
        4
    }
}

/// The number of UTF-8 bytes that encode the first `n` chars of `text`.
pub open spec fn utf8_prefix_len(text: Seq<char>, n: int) -> nat
    decreases n,
{
    if n <= 0 {
        0
    } else {
        utf8_prefix_len(text, n - 1) + utf8_len(text[n - 1])
    }
}

/// `RopeSlice::char_to_byte`: the byte index of char `char_idx`, the UTF-8 length of
/// the chars before it; `ropey` panics when `char_idx` is past the end.
pub assume_specification<'a>[ RopeSlice::<'a>::char_to_byte ](s: &RopeSlice<'a>, char_idx: usize) -> (b: usize)
    requires
        char_idx <= slice_text(*s).len(),
    ensures
        b == utf8_prefix_len(slice_text(*s), char_idx as int),
;

/// One step of `GraphemeCursor::next_boundary` (extended clusters) from `char_idx`
/// over the whole slice: the boundary after `char_idx`, or the end when there is none.
/// It lies strictly after `char_idx` and at most at the end.
#[verifier::external_body]
pub(crate) fn grapheme_next_boundary(s: &RopeSlice, char_idx: usize) -> (b: usize)
    requires
        char_idx <= slice_text(*s).len(),
    ensures
        b == grapheme_next(slice_text(*s), char_idx as int),
        char_idx < slice_text(*s).len() ==> char_idx < b <= slice_text(*s).len(),
        char_idx == slice_text(*s).len() ==> b == char_idx,
{
    let text = String::from(*s);
    let mut cursor = GraphemeCursor::new(s.char_to_byte(char_idx), text.len(), true);
    match cursor.next_boundary(&text, 0) {
        Ok(Some(byte_idx)) => s.byte_to_char(byte_idx),
        _ => s.len_chars(),
    }
}

/// One step of `GraphemeCursor::prev_boundary` (extended clusters) from `char_idx`
/// over the whole slice: the boundary before `char_idx`, or 0 when there is none.
/// It lies strictly before `char_idx` unless `char_idx` is 0.
#[verifier::external_body]
pub(crate) fn grapheme_prev_boundary(s: &RopeSlice, char_idx: usize) -> (b: usize)
    requires
        char_idx <= slice_text(*s).len(),
    ensures
        b == grapheme_prev(slice_text(*s), char_idx as int),
        0 < char_idx ==> b < char_idx,
        char_idx == 0 ==> b == 0,
{
    let text = String::from(*s);
    let mut cursor = GraphemeCursor::new(s.char_to_byte(char_idx), text.len(), true);
    match cursor.prev_boundary(&text, 0) {
        Ok(Some(byte_idx)) => s.byte_to_char(byte_idx),
        _ => 0,
    }
}

} // verus!
