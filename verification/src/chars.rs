//! Character classes for word motions, and the scanner that walks one word motion
//! over a rope's char iterator. A word motion stops where two adjacent chars fall
//! into different classes (see `movement::is_word_boundary`).
use vstd::prelude::*;
use vstd::string::StrSliceExecFns;
use ropey::iter::Chars;
use unicode_general_category::get_general_category;
use crate::line_ending::LineEnding;
use crate::movement::{reached_target, target_reached, WordMotionTarget};
use crate::selection::Range;
use crate::text::{chars_next, chars_state, chars_valid, step_next, step_prev};

verus! {

/// The class of a char for word motions.
#[derive(Eq, PartialEq, Debug, Structural)]
pub enum CharCategory {
    WhiteSpace,
    Eol,
    Word,
    Punctuation,
    Unknown,
}

/// Whether `ch` has the Unicode `White_Space` property (`char::is_whitespace`): the
/// controls U+0009 to U+000D, the space, U+0085, U+00A0, U+1680, U+2000 to U+200A,
/// U+2028, U+2029, U+202F, U+205F and U+3000.
pub open spec fn white_space(ch: char) -> bool {
    ('\u{9}' <= ch <= '\u{d}') || ch == ' ' || ch == '\u{85}' || ch == '\u{a0}' || ch == '\u{1680}'
        || ('\u{2000}' <= ch <= '\u{200a}') || ch == '\u{2028}' || ch == '\u{2029}' || ch
        == '\u{202f}' || ch == '\u{205f}' || ch == '\u{3000}'
}

/// Whether `ch` is alphabetic or numeric (`char::is_alphanumeric`).
pub uninterp spec fn alphanumeric(ch: char) -> bool;

/// The two-letter abbreviation of the Unicode general category of `ch`, as
/// `unicode_general_category` looks it up (`"Po"`, `"Sm"`, ...).
pub uninterp spec fn category_abbreviation(ch: char) -> Seq<char>;

/// `char::is_whitespace`: whether `ch` has the `White_Space` property.
#[verifier::external_body]
pub(crate) fn is_whitespace(ch: char) -> (r: bool)
    ensures
        r == white_space(ch),
{
    ch.is_whitespace()
}

/// `char::is_alphanumeric`; its result is named, not stated.
#[verifier::external_body]
fn is_alphanumeric(ch: char) -> (r: bool)
    ensures
        r == alphanumeric(ch),
{
    ch.is_alphanumeric()
}

/// `unicode_general_category::get_general_category`, handed back as the category's
/// abbreviation (`GeneralCategory::abbreviation`); the table lookup is named, not stated.
#[verifier::external_body]
fn general_category_abbreviation(ch: char) -> (r: &'static str)
    ensures
        r@ == category_abbreviation(ch),
{
    get_general_category(ch).abbreviation()
}

/// Whether `ch` is one of the Unicode line endings.
pub open spec fn is_line_ending(ch: char) -> bool {
    LineEnding::from_char(ch) is Some
}

/// Word chars: alphanumerics and `_`.
pub open spec fn is_word_char(ch: char) -> bool {
    alphanumeric(ch) || ch == '_'
}

/// The general categories counted as punctuation: every punctuation category
/// (`Pc`, `Pd`, `Ps`, `Pe`, `Pi`, `Pf`, `Po`) and the math, currency and modifier
/// symbols (`Sm`, `Sc`, `Sk`).
pub open spec fn punctuation_category(abbr: Seq<char>) -> bool {
    &&& abbr.len() == 2
    &&& {
        ||| abbr[0] == 'P' && (abbr[1] == 'c' || abbr[1] == 'd' || abbr[1] == 's' || abbr[1]
            == 'e' || abbr[1] == 'i' || abbr[1] == 'f' || abbr[1] == 'o')
        ||| abbr[0] == 'S' && (abbr[1] == 'm' || abbr[1] == 'c' || abbr[1] == 'k')
    }
}

/// Whether `ch` counts as punctuation for word motions.
pub open spec fn is_punctuation(ch: char) -> bool {
    punctuation_category(category_abbreviation(ch))
}

/// The class of `ch`; line endings come first since they are white space too.
pub open spec fn category_of(ch: char) -> CharCategory {
    if is_line_ending(ch) {
        CharCategory::Eol
    } else if white_space(ch) {
        CharCategory::WhiteSpace
    } else if is_word_char(ch) {
        CharCategory::Word
    } else if is_punctuation(ch) {
        CharCategory::Punctuation
    } else {
        CharCategory::Unknown
    }
}

/// Buckets a char into its class.
#[inline]
pub fn categorize_char(ch: char) -> (c: CharCategory)
    ensures
        c == category_of(ch),
{
    if char_is_line_ending(ch) {
        CharCategory::Eol
    } else if is_whitespace(ch) {
        CharCategory::WhiteSpace
    } else if char_is_word(ch) {
        CharCategory::Word
    } else if char_is_punctuation(ch) {
        CharCategory::Punctuation
    } else {
        CharCategory::Unknown
    }
}

pub fn char_is_line_ending(ch: char) -> (r: bool)
    ensures
        r == is_line_ending(ch),
{
    LineEnding::from_char(ch).is_some()
}

#[inline]
pub fn char_is_punctuation(ch: char) -> (r: bool)
    ensures
        r == is_punctuation(ch),
{
    let abbr = general_category_abbreviation(ch);
    if abbr.unicode_len() != 2 {
        return false;
    }
    let major = abbr.get_char(0);
    let minor = abbr.get_char(1);
    if major == 'P' {
        minor == 'c' || minor == 'd' || minor == 's' || minor == 'e' || minor == 'i' || minor
            == 'f' || minor == 'o'
    } else if major == 'S' {
        minor == 'm' || minor == 'c' || minor == 'k'
    } else {
        false
    }
}

/// Word chars: alphanumerics plus `_`, so `foo_bar` is one word.
#[inline]
pub fn char_is_word(ch: char) -> (r: bool)
    ensures
        r == is_word_char(ch),
{
    is_alphanumeric(ch) || ch == '_'
}

/// Whether a motion toward `target` runs backward through the text.
pub open spec fn backward_target(target: WordMotionTarget) -> bool {
    target == WordMotionTarget::PrevWordStart || target == WordMotionTarget::PrevLongWordStart
}

/// One step of the head: forward it grows by one, backward it shrinks by one and
/// stops at 0.
pub open spec fn step_head(head: int, backward: bool) -> int {
    if !backward {
        head + 1
    } else if head > 0 {
        head - 1
    } else {
        0
    }
}

/// The head after `k` steps.
pub open spec fn steps_head(head: int, backward: bool, k: int) -> int {
    if !backward {
        head + k
    } else if head > k {
        head - k
    } else {
        0
    }
}

/// The chars that `next` yields from `st`, in order, until it yields `None`.
pub open spec fn upcoming(st: (Seq<char>, int, bool)) -> Seq<char> {
    let (text, pos, reversed) = st;
    if !reversed {
        text.subrange(pos, text.len() as int)
    } else {
        Seq::new(pos as nat, |i: int| text[pos - 1 - i])
    }
}

/// The iterator `k` chars further on.
pub open spec fn moved_on(st: (Seq<char>, int, bool), k: int) -> (Seq<char>, int, bool) {
    if !st.2 {
        (st.0, st.1 + k, st.2)
    } else {
        (st.0, st.1 - k, st.2)
    }
}

/// The index of the first char of `s` from `k` on that is not a line ending (the
/// length of `s` when there is none).
pub open spec fn skip_line_endings(s: Seq<char>, k: int) -> int
    decreases s.len() - k,
{
    if 0 <= k < s.len() && is_line_ending(s[k]) {
        skip_line_endings(s, k + 1)
    } else {
        k
    }
}

/// The scan for `target` over `s` from index `k`, with `prev` the char before it:
/// `(chars consumed, anchor, head)`. Where the target is reached while the head still
/// stands where the scan began, the anchor moves to the head and the scan goes on;
/// where it is reached later, the scan stops there (the char after the boundary
/// consumed). Each char passed moves the head one step.
pub open spec fn scan_to_target(
    target: WordMotionTarget,
    s: Seq<char>,
    k: int,
    prev: Option<char>,
    anchor: int,
    head: int,
    head_start: int,
) -> (int, int, int)
    decreases s.len() - k,
{
    if k < 0 || k >= s.len() {
        (k, anchor, head)
    } else {
        let next = s[k];
        let hit = match prev {
            None => true,
            Some(p) => target_reached(target, p, next),
        };
        if hit && head != head_start {
            (k + 1, anchor, head)
        } else {
            scan_to_target(
                target,
                s,
                k + 1,
                Some(next),
                if hit {
                    head
                } else {
                    anchor
                },
                step_head(head, backward_target(target)),
                head_start,
            )
        }
    }
}

/// One word motion from `origin` over an iterator in state `st`: the chars it passes
/// over and the range it gives. A backward target walks the iterator reversed. Line
/// endings right at the start are passed first, and where the char before the scan is
/// a line ending the anchor comes along to the head.
pub open spec fn word_motion(
    target: WordMotionTarget,
    st: (Seq<char>, int, bool),
    origin: Range,
) -> (int, Range) {
    let backward = backward_target(target);
    let walk = if backward {
        (st.0, st.1, !st.2)
    } else {
        st
    };
    let s = upcoming(walk);
    let skipped = skip_line_endings(s, 0);
    let prev = if skipped > 0 {
        Some(s[skipped - 1])
    } else {
        step_prev(walk).0
    };
    let head = steps_head(origin.head as int, backward, skipped);
    let anchor = match prev {
        Some(c) => if is_line_ending(c) {
            head
        } else {
            origin.anchor as int
        },
        None => origin.anchor as int,
    };
    let (consumed, anchor, head) = scan_to_target(target, s, skipped, prev, anchor, head, head);
    (consumed, Range { anchor: anchor as usize, head: head as usize, goal_col: None })
}

/// The iterator after a word motion from `st`: same text and direction, moved past
/// the chars the motion consumed.
pub open spec fn after_word_motion(
    target: WordMotionTarget,
    st: (Seq<char>, int, bool),
    origin: Range,
) -> (Seq<char>, int, bool) {
    let backward = backward_target(target);
    let walk = if backward {
        (st.0, st.1, !st.2)
    } else {
        st
    };
    let moved = moved_on(walk, word_motion(target, st, origin).0);
    (moved.0, moved.1, st.2)
}

/// Walking a word motion over a char iterator.
pub trait CharHelpers {
    /// Whether a word motion from `origin` toward `target` can run on `self`.
    spec fn motion_fits(&self, target: WordMotionTarget, origin: Range) -> bool;

    fn range_to_target(&mut self, target: WordMotionTarget, origin: Range) -> Range
        requires
            old(self).motion_fits(target, origin),
    ;
}

impl<'a> CharHelpers for Chars<'a> {
    /// The iterator stands between chars, and a forward head, moved once per char still
    /// to come, cannot pass `usize::MAX`.
    open spec fn motion_fits(&self, target: WordMotionTarget, origin: Range) -> bool {
        let st = chars_state(*self);
        &&& chars_valid(st)
        &&& (backward_target(target) || origin.head + upcoming(st).len() <= usize::MAX)
    }

    /// Scans from the iterator's position to the next `target` boundary and returns the
    /// range (anchor..head) over the span walked; the iterator is left after the chars
    /// the scan consumed, in its own direction.
    fn range_to_target(&mut self, target: WordMotionTarget, origin: Range) -> (r: Range)
        ensures
            r == word_motion(target, chars_state(*old(self)), origin).1,
            chars_state(*final(self)) == after_word_motion(target, chars_state(*old(self)), origin),
    {
        let ghost st = chars_state(*self);
        let is_prev = target == WordMotionTarget::PrevWordStart || target
            == WordMotionTarget::PrevLongWordStart;

        // Walk the other way for a backward target.
        if is_prev {
            self.reverse();
        }
        let ghost walk = chars_state(*self);
        let ghost s = upcoming(walk);

        let mut anchor = origin.anchor;
        let mut head = origin.head;
        let mut prev_ch = {
            let ch = self.prev();
            if ch.is_some() {
                let _ = chars_next(self);
            }
            ch
        };

        // Pass the line endings at the start.
        let ghost mut i: int = 0;
        loop
            invariant
                is_prev == backward_target(target),
                walk == (if is_prev { (st.0, st.1, !st.2) } else { st }),
                chars_valid(walk),
                s == upcoming(walk),
                0 <= i <= s.len(),
                chars_state(*self) == moved_on(walk, i),
                forall|m: int| 0 <= m < i ==> is_line_ending(#[trigger] s[m]),
                skip_line_endings(s, 0) == skip_line_endings(s, i),
                prev_ch == (if i > 0 { Some(s[i - 1]) } else { step_prev(walk).0 }),
                head == steps_head(origin.head as int, is_prev, i),
                anchor == origin.anchor,
                is_prev || origin.head + s.len() <= usize::MAX,
            ensures
                i == skip_line_endings(s, 0),
                chars_state(*self) == moved_on(walk, i),
                0 <= i <= s.len(),
                prev_ch == (if i > 0 { Some(s[i - 1]) } else { step_prev(walk).0 }),
                head == steps_head(origin.head as int, is_prev, i),
                anchor == origin.anchor,
            decreases s.len() - i,
        {
            proof {
                lemma_next_of_moved(walk, i);
            }
            match chars_next(self) {
                Some(ch) => {
                    if char_is_line_ending(ch) {
                        prev_ch = Some(ch);
                        head = if is_prev {
                            head.saturating_sub(1)
                        } else {
                            head + 1
                        };
                        proof {
                            i = i + 1;
                        }
                    } else {
                        proof {
                            lemma_prev_of_moved(walk, i);
                        }
                        let _ = self.prev();
                        break;
                    }
                },
                None => {
                    break;
                },
            }
        }
        if match prev_ch {
            Some(c) => char_is_line_ending(c),
            None => false,
        } {
            anchor = head;
        }

        // Find the target.
        let head_start = head;
        loop
            invariant_except_break
                prev_ch == (if i > 0 { Some(s[i - 1]) } else { step_prev(walk).0 }),
                is_prev || head + s.len() - i <= usize::MAX,
                scan_to_target(target, s, i, prev_ch, anchor as int, head as int, head_start as int)
                    == scan_to_target(
                    target,
                    s,
                    skip_line_endings(s, 0),
                    if skip_line_endings(s, 0) > 0 {
                        Some(s[skip_line_endings(s, 0) - 1])
                    } else {
                        step_prev(walk).0
                    },
                    word_motion_anchor(target, st, origin),
                    steps_head(origin.head as int, is_prev, skip_line_endings(s, 0)),
                    head_start as int,
                ),
            invariant
                is_prev == backward_target(target),
                walk == (if is_prev { (st.0, st.1, !st.2) } else { st }),
                chars_valid(walk),
                s == upcoming(walk),
                0 <= skip_line_endings(s, 0) <= i <= s.len(),
                chars_state(*self) == moved_on(walk, i),
                head_start == steps_head(origin.head as int, is_prev, skip_line_endings(s, 0)),
            ensures
                scan_to_target(
                    target,
                    s,
                    skip_line_endings(s, 0),
                    if skip_line_endings(s, 0) > 0 {
                        Some(s[skip_line_endings(s, 0) - 1])
                    } else {
                        step_prev(walk).0
                    },
                    word_motion_anchor(target, st, origin),
                    head_start as int,
                    head_start as int,
                ) == (i, anchor as int, head as int),
                chars_state(*self) == moved_on(walk, i),
            decreases s.len() - i,
        {
            proof {
                lemma_next_of_moved(walk, i);
            }
            match chars_next(self) {
                Some(next_ch) => {
                    let hit = match prev_ch {
                        None => true,
                        Some(p) => reached_target(target, p, next_ch),
                    };
                    if hit {
                        if head == head_start {
                            anchor = head;
                        } else {
                            proof {
                                i = i + 1;
                            }
                            break;
                        }
                    }
                    prev_ch = Some(next_ch);
                    head = if is_prev {
                        head.saturating_sub(1)
                    } else {
                        head + 1
                    };
                    proof {
                        i = i + 1;
                    }
                },
                None => {
                    break;
                },
            }
        }

        // Restore the iterator's direction.
        if is_prev {
            self.reverse();
        }
        Range::new(anchor, head)
    }
}

/// The anchor a word motion scans with: the origin's, or the head after the line
/// endings passed first when the char before the scan is a line ending.
pub open spec fn word_motion_anchor(
    target: WordMotionTarget,
    st: (Seq<char>, int, bool),
    origin: Range,
) -> int {
    let backward = backward_target(target);
    let walk = if backward {
        (st.0, st.1, !st.2)
    } else {
        st
    };
    let s = upcoming(walk);
    let skipped = skip_line_endings(s, 0);
    let prev = if skipped > 0 {
        Some(s[skipped - 1])
    } else {
        step_prev(walk).0
    };
    match prev {
        Some(c) => if is_line_ending(c) {
            steps_head(origin.head as int, backward, skipped)
        } else {
            origin.anchor as int
        },
        None => origin.anchor as int,
    }
}

/// `next` from `k` chars on yields the `k`-th upcoming char and moves one further.
proof fn lemma_next_of_moved(st: (Seq<char>, int, bool), k: int)
    requires
        chars_valid(st),
        0 <= k <= upcoming(st).len(),
    ensures
        chars_valid(moved_on(st, k)),
        k < upcoming(st).len() ==> step_next(moved_on(st, k)) == (
            Some(upcoming(st)[k]),
            moved_on(st, k + 1),
        ),
        k == upcoming(st).len() ==> step_next(moved_on(st, k)) == (None::<char>, moved_on(st, k)),
{
}

/// `prev` from `k + 1` chars on goes back to `k` chars on.
proof fn lemma_prev_of_moved(st: (Seq<char>, int, bool), k: int)
    requires
        chars_valid(st),
        0 <= k < upcoming(st).len(),
    ensures
        step_prev(moved_on(st, k + 1)).1 == moved_on(st, k),
{
}

/// Every line ending falls in the `Eol` class, though it is white space too.
pub proof fn law_line_endings_are_eol(ch: char)
    requires
        is_line_ending(ch),
    ensures
        category_of(ch) == CharCategory::Eol,
{
}

/// The scan never moves the head against the motion's direction.
proof fn lemma_scan_head_direction(
    target: WordMotionTarget,
    s: Seq<char>,
    k: int,
    prev: Option<char>,
    anchor: int,
    head: int,
    head_start: int,
)
    requires
        head >= 0,
        0 <= k <= s.len(),
    ensures
        !backward_target(target) ==> head <= scan_to_target(target, s, k, prev, anchor, head, head_start).2
            <= head + (s.len() - k),
        backward_target(target) ==> 0 <= scan_to_target(target, s, k, prev, anchor, head, head_start).2
            <= head,
    decreases s.len() - k,
{
    if k < 0 || k >= s.len() {
    } else {
        let next = s[k];
        let hit = match prev {
            None => true,
            Some(p) => target_reached(target, p, next),
        };
        if !(hit && head != head_start) {
            lemma_scan_head_direction(
                target,
                s,
                k + 1,
                Some(next),
                if hit {
                    head
                } else {
                    anchor
                },
                step_head(head, backward_target(target)),
                head_start,
            );
        }
    }
}

/// A forward word motion never moves the head back, and a backward one never moves
/// it forward.
pub proof fn law_word_motion_keeps_direction(
    target: WordMotionTarget,
    st: (Seq<char>, int, bool),
    origin: Range,
)
    requires
        chars_valid(st),
        backward_target(target) || origin.head + upcoming(st).len() <= usize::MAX,
    ensures
        !backward_target(target) ==> word_motion(target, st, origin).1.head >= origin.head,
        backward_target(target) ==> word_motion(target, st, origin).1.head <= origin.head,
{
    let backward = backward_target(target);
    let walk = if backward {
        (st.0, st.1, !st.2)
    } else {
        st
    };
    let s = upcoming(walk);
    let skipped = skip_line_endings(s, 0);
    let prev = if skipped > 0 {
        Some(s[skipped - 1])
    } else {
        step_prev(walk).0
    };
    let head = steps_head(origin.head as int, backward, skipped);
    let anchor = match prev {
        Some(c) => if is_line_ending(c) {
            head
        } else {
            origin.anchor as int
        },
        None => origin.anchor as int,
    };
    lemma_skip_line_endings_bounds(s, 0);
    lemma_scan_head_direction(target, s, skipped, prev, anchor, head, head);
    let h = scan_to_target(target, s, skipped, prev, anchor, head, head).2;
    assert(!backward ==> origin.head <= h <= usize::MAX);
    assert(backward ==> 0 <= h <= origin.head);
}

/// The line endings passed first lie within the text.
proof fn lemma_skip_line_endings_bounds(s: Seq<char>, k: int)
    requires
        0 <= k <= s.len(),
    ensures
        k <= skip_line_endings(s, k) <= s.len(),
    decreases s.len() - k,
{
    if 0 <= k < s.len() && is_line_ending(s[k]) {
        lemma_skip_line_endings_bounds(s, k + 1);
    }
}

/// The scan keeps anchor and head within `bound` when it starts within it and a
/// forward head has room for every char still to come.
proof fn lemma_scan_within(
    target: WordMotionTarget,
    s: Seq<char>,
    k: int,
    prev: Option<char>,
    anchor: int,
    head: int,
    head_start: int,
    bound: int,
)
    requires
        0 <= k <= s.len(),
        0 <= anchor <= bound,
        0 <= head <= bound,
        !backward_target(target) ==> head + (s.len() - k) <= bound,
    ensures
        0 <= scan_to_target(target, s, k, prev, anchor, head, head_start).1 <= bound,
        0 <= scan_to_target(target, s, k, prev, anchor, head, head_start).2 <= bound,
    decreases s.len() - k,
{
    if k < s.len() {
        let next = s[k];
        let hit = match prev {
            None => true,
            Some(p) => target_reached(target, p, next),
        };
        if !(hit && head != head_start) {
            lemma_scan_within(
                target,
                s,
                k + 1,
                Some(next),
                if hit {
                    head
                } else {
                    anchor
                },
                step_head(head, backward_target(target)),
                head_start,
                bound,
            );
        }
    }
}

/// A word motion over a whole text, from a range within it and an iterator standing at
/// the range's head, gives a range within the text.
pub proof fn lemma_word_motion_within(target: WordMotionTarget, text: Seq<char>, origin: Range)
    requires
        origin.anchor <= text.len(),
        origin.head <= text.len(),
        text.len() <= usize::MAX,
    ensures
        word_motion(target, (text, origin.head as int, false), origin).1.anchor <= text.len(),
        word_motion(target, (text, origin.head as int, false), origin).1.head <= text.len(),
{
    let st = (text, origin.head as int, false);
    let backward = backward_target(target);
    let walk = if backward {
        (st.0, st.1, !st.2)
    } else {
        st
    };
    let s = upcoming(walk);
    let skipped = skip_line_endings(s, 0);
    let prev = if skipped > 0 {
        Some(s[skipped - 1])
    } else {
        step_prev(walk).0
    };
    let head = steps_head(origin.head as int, backward, skipped);
    let anchor = match prev {
        Some(c) => if is_line_ending(c) {
            head
        } else {
            origin.anchor as int
        },
        None => origin.anchor as int,
    };
    lemma_skip_line_endings_bounds(s, 0);
    lemma_scan_within(target, s, skipped, prev, anchor, head, head, text.len() as int);
}

/// The first index `k`, from `from` on, where `target` is reached between `s[k - 1]`
/// and `s[k]`; the length of `s` where there is none.
pub open spec fn first_target(target: WordMotionTarget, s: Seq<char>, from: int) -> int
    decreases s.len() - from,
{
    if from < 1 || from >= s.len() {
        s.len() as int
    } else if target_reached(target, s[from - 1], s[from]) {
        from
    } else {
        first_target(target, s, from + 1)
    }
}

/// Once the head has left where the scan began, the scan stops just past the first
/// place the target is reached, the head one step further per char passed.
proof fn lemma_scan_first_target(
    target: WordMotionTarget,
    s: Seq<char>,
    k: int,
    anchor: int,
    head_start: int,
    k0: int,
)
    requires
        0 <= k0 < k <= s.len(),
        !backward_target(target) || head_start >= s.len() - k0,
    ensures
        ({
            let f = first_target(target, s, k);
            scan_to_target(
                target,
                s,
                k,
                Some(s[k - 1]),
                anchor,
                steps_head(head_start, backward_target(target), k - k0),
                head_start,
            ) == (if f < s.len() {
                f + 1
            } else {
                s.len() as int
            }, anchor, steps_head(head_start, backward_target(target), f - k0))
        }),
    decreases s.len() - k,
{
    if k < s.len() {
        let bw = backward_target(target);
        let h = steps_head(head_start, bw, k - k0);
        assert(step_head(h, bw) == steps_head(head_start, bw, k + 1 - k0));
        if !target_reached(target, s[k - 1], s[k]) {
            lemma_scan_first_target(target, s, k + 1, anchor, head_start, k0);
        }
    }
}

/// A word motion over a text, from a range whose head is where the walk starts, passes
/// the line endings right at the start and then moves the head to the first place
/// after the next char where the target is reached, or to the end of the walk: one
/// step per char passed, forward or backward as the target goes.
pub proof fn law_word_motion_stops_at_first_target(
    target: WordMotionTarget,
    text: Seq<char>,
    origin: Range,
)
    requires
        origin.head <= text.len(),
        text.len() <= usize::MAX,
    ensures
        ({
            let backward = backward_target(target);
            let st = (text, origin.head as int, false);
            let walk = if backward {
                (st.0, st.1, !st.2)
            } else {
                st
            };
            let s = upcoming(walk);
            let k0 = skip_line_endings(s, 0);
            word_motion(target, st, origin).1.head == steps_head(
                origin.head as int,
                backward,
                first_target(target, s, k0 + 1),
            )
        }),
{
    let st = (text, origin.head as int, false);
    let backward = backward_target(target);
    let walk = if backward {
        (st.0, st.1, !st.2)
    } else {
        st
    };
    let s = upcoming(walk);
    let k0 = skip_line_endings(s, 0);
    let prev = if k0 > 0 {
        Some(s[k0 - 1])
    } else {
        step_prev(walk).0
    };
    let head = steps_head(origin.head as int, backward, k0);
    let anchor = match prev {
        Some(c) => if is_line_ending(c) {
            head
        } else {
            origin.anchor as int
        },
        None => origin.anchor as int,
    };
    lemma_skip_line_endings_bounds(s, 0);
    assert(s.len() == if backward { origin.head as int } else { text.len() - origin.head });
    if k0 < s.len() {
        let hit = match prev {
            None => true,
            Some(p) => target_reached(target, p, s[k0]),
        };
        let a1 = if hit {
            head
        } else {
            anchor
        };
        assert(step_head(head, backward) == steps_head(head, backward, k0 + 1 - k0));
        lemma_scan_first_target(target, s, k0 + 1, a1, head, k0);
        let f = first_target(target, s, k0 + 1);
        lemma_first_target_bound(target, s, k0 + 1);
        assert(steps_head(head, backward, f - k0) == steps_head(origin.head as int, backward, f));
        assert(s[k0 + 1 - 1] == s[k0]);
        let r = scan_to_target(target, s, k0, prev, anchor, head, head);
        assert(r == scan_to_target(target, s, k0 + 1, Some(s[k0]), a1, step_head(head, backward), head));
        assert(r.2 == steps_head(origin.head as int, backward, f));
        assert(k0 + 1 <= f <= s.len());
        if backward {
            assert(s.len() == origin.head);
        } else {
            assert(origin.head + s.len() == text.len());
        }
        assert(0 <= r.2 <= text.len());
        assert(word_motion(target, st, origin).1.head == r.2 as usize);
    } else {
        assert(first_target(target, s, k0 + 1) == s.len());
        let r = scan_to_target(target, s, k0, prev, anchor, head, head);
        assert(r.2 == head);
        assert(0 <= head <= text.len());
        assert(word_motion(target, st, origin).1.head == r.2 as usize);
    }
}

/// The first place the target is reached lies between `from` and the end.
proof fn lemma_first_target_bound(target: WordMotionTarget, s: Seq<char>, from: int)
    requires
        1 <= from,
    ensures
        from <= first_target(target, s, from) <= s.len() || (from > s.len() && first_target(
            target,
            s,
            from,
        ) == s.len()),
    decreases s.len() - from,
{
    if from < s.len() && !target_reached(target, s[from - 1], s[from]) {
        lemma_first_target_bound(target, s, from + 1);
    }
}

} // verus!
