//! Cursor motions: moving a range by graphemes horizontally, by lines vertically,
//! and by words.
use vstd::prelude::*;
use ropey::RopeSlice;
use crate::chars::{backward_target, lemma_word_motion_within, word_motion, CharHelpers};
use crate::grapheme::{
    next_boundary, next_grapheme_boundary, nth_next, nth_next_grapheme_boundary, nth_prev,
    nth_prev_grapheme_boundary, prev_boundary, prev_grapheme_boundary,
};
use crate::selection::{cursor_of, put_cursor_extend, Range};
use crate::chars::{
    categorize_char, category_of, char_is_line_ending, is_line_ending, is_whitespace, white_space,
    CharCategory,
};
use crate::text::{chars_next, chars_state, line_count, line_of_char, line_start, slice_text};

verus! {

#[derive(PartialEq, Eq, Debug, Copy, Clone, Structural)]
pub enum Direction {
    Forward,
    Backward,
}

#[derive(PartialEq, Eq, Clone, Copy, Debug, Structural)]
pub enum Movement {
    Move,
    Extend,
}

/// Where a horizontal motion lands: `count` graphemes from the cursor.
pub open spec fn horizontal_target(text: Seq<char>, range: Range, direction: Direction, count: nat) -> int {
    let pos = cursor_of(range, text) as int;
    match direction {
        Direction::Forward => nth_next(text, pos, count),
        Direction::Backward => nth_prev(text, pos, count),
    }
}

/// The range a motion gives: a point at `pos`, or the range extended to cover it.
pub open spec fn moved_range(range: Range, text: Seq<char>, pos: usize, behavior: Movement) -> Range {
    match behavior {
        Movement::Move => Range { anchor: pos, head: pos, goal_col: None },
        Movement::Extend => put_cursor_extend(range, text, pos),
    }
}

/// Moves the cursor of `range` by `count` graphemes; `Move` collapses the range to a
/// point there, `Extend` stretches it over the grapheme there. Motion stops at either
/// end of the text.
pub fn move_horizontally(
    slice: &RopeSlice,
    range: Range,
    direction: Direction,
    count: usize,
    behavior: Movement,
) -> (r: Range)
    requires
        range.head <= slice_text(*slice).len(),
    ensures
        r == moved_range(
            range,
            slice_text(*slice),
            horizontal_target(slice_text(*slice), range, direction, count as nat) as usize,
            behavior,
        ),
        range.anchor <= slice_text(*slice).len() ==> r.anchor <= slice_text(*slice).len() && r.head
            <= slice_text(*slice).len(),
{
    let pos = range.cursor(*slice);
    let new_pos = match direction {
        Direction::Forward => nth_next_grapheme_boundary(slice, pos, count),
        Direction::Backward => nth_prev_grapheme_boundary(slice, pos, count),
    };
    range.put_cursor(*slice, new_pos, behavior == Movement::Extend)
}

/// The chars of line `line_idx` (from `line_start` to the next line's start).
pub open spec fn line_chars(text: Seq<char>, line_idx: int) -> Seq<char> {
    text.subrange(line_start(text, line_idx), line_start(text, line_idx + 1))
}

/// The length of line `line_idx` without a trailing `'\n'`.
pub open spec fn line_len(text: Seq<char>, line_idx: int) -> int {
    let l = line_chars(text, line_idx);
    if l.len() > 0 && l.last() == '\n' {
        l.len() - 1
    } else {
        l.len() as int
    }
}

/// Where a vertical motion lands and the goal column it keeps: `count` lines up or
/// down (clamped to the first and last line), at the goal column (the range's, else
/// the cursor's column), clamped to the length of the target line.
pub open spec fn vertical_target(text: Seq<char>, range: Range, direction: Direction, count: nat) -> (int, int) {
    let pos = cursor_of(range, text) as int;
    let line = line_of_char(text, pos);
    let col = pos - line_start(text, line);
    let goal = match range.goal_col {
        Some(g) => g as int,
        None => col,
    };
    let new_line = match direction {
        Direction::Forward => if line + count < line_count(text) - 1 {
            line + count
        } else {
            line_count(text) - 1
        },
        Direction::Backward => if line >= count {
            line - count
        } else {
            0
        },
    };
    let len = line_len(text, new_line);
    (line_start(text, new_line) + if goal <= len { goal } else { len }, goal)
}

/// The length of line `line_idx` without its trailing `'\n'`.
pub fn line_char_len(slice: &RopeSlice, line_idx: usize) -> (n: usize)
    requires
        line_idx < line_count(slice_text(*slice)),
    ensures
        n == line_len(slice_text(*slice), line_idx as int),
        line_start(slice_text(*slice), line_idx as int) + n <= line_start(
            slice_text(*slice),
            line_idx + 1,
        ) <= slice_text(*slice).len(),
{
    let line = slice.line(line_idx);
    let char_len = line.len_chars();
    if char_len > 0 && line.char(char_len - 1) == '\n' {
        char_len - 1
    } else {
        char_len
    }
}

/// Moves the cursor of `range` by `count` lines, keeping a sticky goal column: the
/// column is taken from the range's goal when it has one, else from the cursor, and
/// the result remembers it. `Move` collapses to a point, `Extend` stretches the range.
pub fn move_vertically(
    slice: &RopeSlice,
    range: Range,
    direction: Direction,
    count: usize,
    behavior: Movement,
) -> (r: Range)
    requires
        range.head <= slice_text(*slice).len(),
    ensures
        ({
            let (pos, goal) = vertical_target(slice_text(*slice), range, direction, count as nat);
            r == Range { goal_col: Some(goal as usize), ..moved_range(range, slice_text(*slice), pos as usize, behavior) }
        }),
        range.anchor <= slice_text(*slice).len() ==> r.anchor <= slice_text(*slice).len() && r.head
            <= slice_text(*slice).len(),
{
    let pos = range.cursor(*slice);
    let line_idx = slice.char_to_line(pos);
    let line_start = slice.line_to_char(line_idx);
    let col = pos - line_start;

    let goal = match range.goal_col() {
        Some(g) => g,
        None => col,
    };

    let new_line_idx = match direction {
        Direction::Forward => line_idx.saturating_add(count).min(slice.len_lines() - 1),
        Direction::Backward => line_idx.saturating_sub(count),
    };

    let new_line_start = slice.line_to_char(new_line_idx);
    let new_col = goal.min(line_char_len(slice, new_line_idx));
    // The target line ends within the text, whose length is a `usize`.
    let text_len = slice.len_chars();
    let new_pos = new_line_start + new_col;
    assert(new_pos <= text_len);

    range.put_cursor(*slice, new_pos, behavior == Movement::Extend).with_goal_col(goal)
}

/// The places a word motion can stop at.
#[derive(PartialEq, Eq, Clone, Copy, Debug, Structural)]
pub enum WordMotionTarget {
    NextWordStart,
    NextWordEnd,
    PrevWordStart,
    NextLongWordStart,
    NextLongWordEnd,
    PrevLongWordStart,
}

/// Two adjacent chars of different classes make a word boundary.
pub open spec fn word_boundary(a: char, b: char) -> bool {
    category_of(a) != category_of(b)
}

/// A long word (a WORD) runs across word chars and punctuation alike: only the other
/// changes of class are boundaries.
pub open spec fn long_word_boundary(a: char, b: char) -> bool {
    let (ca, cb) = (category_of(a), category_of(b));
    ca != cb && !(ca == CharCategory::Word && cb == CharCategory::Punctuation) && !(ca
        == CharCategory::Punctuation && cb == CharCategory::Word)
}

/// Whether the motion toward `target` stops between `prev_ch` and `next_ch`: starts
/// stop at a boundary before a char that is not blank (a line ending counts as not
/// blank), ends stop at a boundary after a char that is not blank (or before a line
/// ending).
pub open spec fn target_reached(target: WordMotionTarget, prev_ch: char, next_ch: char) -> bool {
    match target {
        WordMotionTarget::NextWordStart => word_boundary(prev_ch, next_ch) && (is_line_ending(
            next_ch,
        ) || !white_space(next_ch)),
        WordMotionTarget::NextWordEnd | WordMotionTarget::PrevWordStart => word_boundary(
            prev_ch,
            next_ch,
        ) && (!white_space(prev_ch) || is_line_ending(next_ch)),
        WordMotionTarget::NextLongWordStart => long_word_boundary(prev_ch, next_ch) && (
        is_line_ending(next_ch) || !white_space(next_ch)),
        WordMotionTarget::NextLongWordEnd | WordMotionTarget::PrevLongWordStart => long_word_boundary(
            prev_ch,
            next_ch,
        ) && (!white_space(prev_ch) || is_line_ending(next_ch)),
    }
}

/// Whether `a` and `b` fall into different classes.
pub fn is_word_boundary(a: char, b: char) -> (r: bool)
    ensures
        r == word_boundary(a, b),
{
    categorize_char(a) != categorize_char(b)
}

/// Whether `a` and `b` fall into different classes, word chars and punctuation
/// counting as one.
pub fn is_long_word_boundary(a: char, b: char) -> (r: bool)
    ensures
        r == long_word_boundary(a, b),
{
    let ca = categorize_char(a);
    let cb = categorize_char(b);
    match (ca, cb) {
        (CharCategory::Word, CharCategory::Punctuation)
        | (CharCategory::Punctuation, CharCategory::Word) => false,
        (ca, cb) => ca != cb,
    }
}

/// Whether the motion toward `target` stops between `prev_ch` and `next_ch`.
pub fn reached_target(target: WordMotionTarget, prev_ch: char, next_ch: char) -> (r: bool)
    ensures
        r == target_reached(target, prev_ch, next_ch),
{
    match target {
        WordMotionTarget::NextWordStart => is_word_boundary(prev_ch, next_ch) && (
        char_is_line_ending(next_ch) || !is_whitespace(next_ch)),
        WordMotionTarget::NextWordEnd | WordMotionTarget::PrevWordStart => is_word_boundary(
            prev_ch,
            next_ch,
        ) && (!is_whitespace(prev_ch) || char_is_line_ending(next_ch)),
        WordMotionTarget::NextLongWordStart => is_long_word_boundary(prev_ch, next_ch) && (
        char_is_line_ending(next_ch) || !is_whitespace(next_ch)),
        WordMotionTarget::NextLongWordEnd
        | WordMotionTarget::PrevLongWordStart => is_long_word_boundary(prev_ch, next_ch) && (
        !is_whitespace(prev_ch) || char_is_line_ending(next_ch)),
    }
}

/// The index of the first char of `s` from `i` on that is not white space.
pub open spec fn first_non_blank(s: Seq<char>, i: int) -> Option<int>
    decreases s.len() - i,
{
    if i < 0 || i >= s.len() {
        None
    } else if !white_space(s[i]) {
        Some(i)
    } else {
        first_non_blank(s, i + 1)
    }
}

/// The offset of the first char of `line` that is not white space, if any.
pub fn first_non_whitespace_char(line: RopeSlice) -> (r: Option<usize>)
    ensures
        (match r {
            Some(i) => Some(i as int),
            None => None::<int>,
        }) == first_non_blank(slice_text(line), 0),
        r matches Some(i) ==> i < slice_text(line).len(),
{
    let ghost t = slice_text(line);
    let mut chars = line.chars_at(0);
    let mut i: usize = 0;
    loop
        invariant
            t == slice_text(line),
            t.len() <= usize::MAX,
            i <= t.len(),
            chars_state(chars) == (t, i as int, false),
            first_non_blank(t, i as int) == first_non_blank(t, 0),
        decreases t.len() - i,
    {
        match chars_next(&mut chars) {
            Some(ch) => {
                if !is_whitespace(ch) {
                    return Some(i);
                }
                i = i + 1;
            },
            None => {
                return None;
            },
        }
    }
}

/// The range a word motion starts from: one grapheme at the head, standing on the side
/// the motion leaves from, so the block cursor's own grapheme is skipped and the
/// anchor plays no part.
pub open spec fn word_start_range(text: Seq<char>, range: Range, backward: bool) -> Range {
    let h = range.head as int;
    if backward {
        if range.anchor < range.head {
            Range { anchor: range.head, head: prev_boundary(text, h) as usize, goal_col: None }
        } else {
            Range { anchor: next_boundary(text, h) as usize, head: range.head, goal_col: None }
        }
    } else {
        if range.anchor < range.head {
            Range { anchor: prev_boundary(text, h) as usize, head: range.head, goal_col: None }
        } else {
            Range { anchor: range.head, head: next_boundary(text, h) as usize, goal_col: None }
        }
    }
}

/// Up to `count` word motions toward `target`, each from where the last one ended;
/// it stops early once a motion changes nothing.
pub open spec fn word_steps(text: Seq<char>, target: WordMotionTarget, range: Range, count: nat) -> Range
    decreases count,
{
    if count == 0 {
        range
    } else {
        let next = word_motion(target, (text, range.head as int, false), range).1;
        if next == range {
            range
        } else {
            word_steps(text, target, next, (count - 1) as nat)
        }
    }
}

/// Where `count` word motions toward `target` take `range`: nowhere when the head is
/// already at the end the motion heads for.
pub open spec fn word_moved(text: Seq<char>, range: Range, count: nat, target: WordMotionTarget) -> Range {
    let backward = backward_target(target);
    if (backward && range.head == 0) || (!backward && range.head == text.len()) {
        range
    } else {
        word_steps(text, target, word_start_range(text, range, backward), count)
    }
}

pub(crate) fn word_move(slice: RopeSlice, range: Range, count: usize, target: WordMotionTarget) -> (r: Range)
    requires
        range.anchor <= slice_text(slice).len(),
        range.head <= slice_text(slice).len(),
    ensures
        r == word_moved(slice_text(slice), range, count as nat, target),
        r.anchor <= slice_text(slice).len(),
        r.head <= slice_text(slice).len(),
{
    let ghost text = slice_text(slice);
    let is_prev = target == WordMotionTarget::PrevWordStart || target
        == WordMotionTarget::PrevLongWordStart;
    let len = slice.len_chars();
    if (is_prev && range.head == 0) || (!is_prev && range.head == len) {
        return range;
    }
    let start_range = if is_prev {
        if range.anchor < range.head {
            Range::new(range.head, prev_grapheme_boundary(&slice, range.head))
        } else {
            Range::new(next_grapheme_boundary(&slice, range.head), range.head)
        }
    } else {
        if range.anchor < range.head {
            Range::new(prev_grapheme_boundary(&slice, range.head), range.head)
        } else {
            Range::new(range.head, next_grapheme_boundary(&slice, range.head))
        }
    };
    let mut range = start_range;
    let mut k: usize = 0;
    while k < count
        invariant_except_break
            word_steps(text, target, range, (count - k) as nat) == word_steps(
                text,
                target,
                start_range,
                count as nat,
            ),
        invariant
            text == slice_text(slice),
            len == text.len(),
            k <= count,
            range.anchor <= len,
            range.head <= len,
        ensures
            range == word_steps(text, target, start_range, count as nat),
        decreases count - k,
    {
        let next_range = slice.chars_at(range.head).range_to_target(target, range);
        proof {
            lemma_word_motion_within(target, text, range);
        }
        if range == next_range {
            break;
        }
        range = next_range;
        k = k + 1;
    }
    range
}

/// `count` motions to the start of the next word.
pub fn move_next_word_start(slice: RopeSlice, range: Range, count: usize) -> (r: Range)
    requires
        range.anchor <= slice_text(slice).len(),
        range.head <= slice_text(slice).len(),
    ensures
        r == word_moved(slice_text(slice), range, count as nat, WordMotionTarget::NextWordStart),
        r.anchor <= slice_text(slice).len(),
        r.head <= slice_text(slice).len(),
{
    word_move(slice, range, count, WordMotionTarget::NextWordStart)
}

/// `count` motions to the end of the next word.
pub fn move_next_word_end(slice: RopeSlice, range: Range, count: usize) -> (r: Range)
    requires
        range.anchor <= slice_text(slice).len(),
        range.head <= slice_text(slice).len(),
    ensures
        r == word_moved(slice_text(slice), range, count as nat, WordMotionTarget::NextWordEnd),
        r.anchor <= slice_text(slice).len(),
        r.head <= slice_text(slice).len(),
{
    word_move(slice, range, count, WordMotionTarget::NextWordEnd)
}

/// `count` motions back to the start of the previous word.
pub fn move_prev_word_start(slice: RopeSlice, range: Range, count: usize) -> (r: Range)
    requires
        range.anchor <= slice_text(slice).len(),
        range.head <= slice_text(slice).len(),
    ensures
        r == word_moved(slice_text(slice), range, count as nat, WordMotionTarget::PrevWordStart),
        r.anchor <= slice_text(slice).len(),
        r.head <= slice_text(slice).len(),
{
    word_move(slice, range, count, WordMotionTarget::PrevWordStart)
}

/// `count` motions to the start of the next long word (a WORD).
pub fn move_next_long_word_start(slice: RopeSlice, range: Range, count: usize) -> (r: Range)
    requires
        range.anchor <= slice_text(slice).len(),
        range.head <= slice_text(slice).len(),
    ensures
        r == word_moved(slice_text(slice), range, count as nat, WordMotionTarget::NextLongWordStart),
        r.anchor <= slice_text(slice).len(),
        r.head <= slice_text(slice).len(),
{
    word_move(slice, range, count, WordMotionTarget::NextLongWordStart)
}

/// `count` motions to the end of the next long word (a WORD).
pub fn move_next_long_word_end(slice: RopeSlice, range: Range, count: usize) -> (r: Range)
    requires
        range.anchor <= slice_text(slice).len(),
        range.head <= slice_text(slice).len(),
    ensures
        r == word_moved(slice_text(slice), range, count as nat, WordMotionTarget::NextLongWordEnd),
        r.anchor <= slice_text(slice).len(),
        r.head <= slice_text(slice).len(),
{
    word_move(slice, range, count, WordMotionTarget::NextLongWordEnd)
}

/// `count` motions back to the start of the previous long word (a WORD).
pub fn move_prev_long_word_start(slice: RopeSlice, range: Range, count: usize) -> (r: Range)
    requires
        range.anchor <= slice_text(slice).len(),
        range.head <= slice_text(slice).len(),
    ensures
        r == word_moved(slice_text(slice), range, count as nat, WordMotionTarget::PrevLongWordStart),
        r.anchor <= slice_text(slice).len(),
        r.head <= slice_text(slice).len(),
{
    word_move(slice, range, count, WordMotionTarget::PrevLongWordStart)
}

/// A word motion stops only where two adjacent chars fall in different classes: every
/// target, long or not, lies on a word boundary, and a long word boundary is a word
/// boundary.
pub proof fn law_targets_lie_on_word_boundaries(target: WordMotionTarget, a: char, b: char)
    ensures
        target_reached(target, a, b) ==> word_boundary(a, b),
        long_word_boundary(a, b) ==> word_boundary(a, b),
{
}

/// A range that remembers a goal column `g` keeps it through vertical motion, in either
/// direction, and lands at that column of the line it reaches (at the line's end when
/// the line is shorter): `count` lines down or up from the cursor's line, stopping at
/// the last or the first line. So moving down and back up by the same count returns to
/// the same column wherever both lines are long enough.
pub proof fn law_vertical_motion_keeps_the_goal_column(
    text: Seq<char>,
    range: Range,
    direction: Direction,
    count: nat,
    g: usize,
)
    requires
        range.goal_col == Some(g),
    ensures
        ({
            let line = line_of_char(text, cursor_of(range, text) as int);
            let new_line = match direction {
                Direction::Forward => if line + count < line_count(text) - 1 {
                    line + count
                } else {
                    line_count(text) - 1
                },
                Direction::Backward => if line >= count {
                    line - count
                } else {
                    0
                },
            };
            let len = line_len(text, new_line);
            &&& vertical_target(text, range, direction, count).1 == g
            &&& vertical_target(text, range, direction, count).0 == line_start(text, new_line) + if g
                <= len {
                g as int
            } else {
                len
            }
        }),
{
}

/// Without a goal column, vertical motion takes the cursor's own column as the goal and
/// remembers it.
pub proof fn law_vertical_motion_starts_from_the_cursor_column(
    text: Seq<char>,
    range: Range,
    direction: Direction,
    count: nat,
)
    requires
        range.goal_col is None,
    ensures
        ({
            let cur = cursor_of(range, text) as int;
            vertical_target(text, range, direction, count).1 == cur - line_start(
                text,
                line_of_char(text, cur),
            )
        }),
{
}

} // verus!
