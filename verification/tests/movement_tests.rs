use mist::movement::{
    first_non_whitespace_char, line_char_len, move_horizontally, move_next_long_word_end,
    move_next_long_word_start, move_next_word_end, move_next_word_start, move_prev_long_word_start,
    move_prev_word_start, move_vertically, Direction, Movement,
};
use mist::selection::Range;
use ropey::Rope;

#[test]
fn move_right_from_point() {
    let r = Rope::from_str("hello");
    let s = r.slice(..);
    assert_eq!(
        move_horizontally(&s, Range::point(0), Direction::Forward, 1, Movement::Move),
        Range::point(1)
    );
}

#[test]
fn move_left_from_point() {
    let r = Rope::from_str("hello");
    let s = r.slice(..);
    assert_eq!(
        move_horizontally(&s, Range::point(3), Direction::Backward, 1, Movement::Move),
        Range::point(2)
    );
}

#[test]
fn count_moves_multiple_graphemes() {
    let r = Rope::from_str("hello");
    let s = r.slice(..);
    assert_eq!(
        move_horizontally(&s, Range::point(0), Direction::Forward, 3, Movement::Move),
        Range::point(3)
    );
}

#[test]
fn clamps_at_end() {
    let r = Rope::from_str("hello");
    let s = r.slice(..);
    assert_eq!(
        move_horizontally(&s, Range::point(5), Direction::Forward, 1, Movement::Move),
        Range::point(5)
    );
}

#[test]
fn clamps_at_start() {
    let r = Rope::from_str("hello");
    let s = r.slice(..);
    assert_eq!(
        move_horizontally(&s, Range::point(0), Direction::Backward, 1, Movement::Move),
        Range::point(0)
    );
}

#[test]
fn crosses_line_boundary() {
    let r = Rope::from_str("ab\ncd");
    let s = r.slice(..);
    assert_eq!(
        move_horizontally(&s, Range::point(1), Direction::Forward, 2, Movement::Move),
        Range::point(3)
    );
}

#[test]
fn steps_over_whole_grapheme_cluster() {
    let r = Rope::from_str("e\u{0301}x");
    let s = r.slice(..);
    assert_eq!(
        move_horizontally(&s, Range::point(0), Direction::Forward, 1, Movement::Move),
        Range::point(2)
    );
}

#[test]
fn move_collapses_extend_grows() {
    let r = Rope::from_str("hello world");
    let s = r.slice(..);
    let start = Range::point(2);

    let moved = move_horizontally(&s, start, Direction::Forward, 3, Movement::Move);
    assert_eq!(moved, Range::point(5));

    let extended = move_horizontally(&s, start, Direction::Forward, 3, Movement::Extend);
    assert_eq!((extended.anchor, extended.head), (2, 6));
}

#[test]
fn extend_then_move_from_nonempty_range() {
    let r = Rope::from_str("hello world");
    let s = r.slice(..);
    let sel = Range::new(2, 6);
    let moved = move_horizontally(&s, sel, Direction::Forward, 1, Movement::Move);
    assert_eq!(moved, Range::point(6));
}

#[test]
fn down_preserves_column() {
    let r = Rope::from_str("hello\nhi\nworld\n");
    let s = r.slice(..);
    let res = move_vertically(&s, Range::point(1), Direction::Forward, 1, Movement::Move);
    assert_eq!(res.head, 7);
    assert_eq!(res.goal_col(), Some(1));
}

#[test]
fn up_preserves_column() {
    let r = Rope::from_str("hello\nhi\nworld\n");
    let s = r.slice(..);
    let res = move_vertically(&s, Range::point(11), Direction::Backward, 1, Movement::Move);
    assert_eq!(res.head, 8);
}

#[test]
fn sticky_column_survives_short_line() {
    let r = Rope::from_str("hello\nhi\nworld\n");
    let s = r.slice(..);
    let a = move_vertically(&s, Range::point(4), Direction::Forward, 1, Movement::Move);
    assert_eq!(a.head, 8);
    assert_eq!(a.goal_col(), Some(4));
    let b = move_vertically(&s, a, Direction::Forward, 1, Movement::Move);
    assert_eq!(b.head, 13);
}

#[test]
fn clamps_at_last_line() {
    let r = Rope::from_str("hello\nhi\nworld\n");
    let s = r.slice(..);
    let res = move_vertically(&s, Range::point(9), Direction::Forward, 5, Movement::Move);
    assert_eq!(res.head, 15);
}

#[test]
fn clamps_at_first_line() {
    let r = Rope::from_str("hello\nhi\nworld\n");
    let s = r.slice(..);
    let res = move_vertically(&s, Range::point(7), Direction::Backward, 5, Movement::Move);
    assert_eq!(res.head, 1);
}

#[test]
fn count_moves_multiple_lines() {
    let r = Rope::from_str("hello\nhi\nworld\n");
    let s = r.slice(..);
    let res = move_vertically(&s, Range::point(0), Direction::Forward, 2, Movement::Move);
    assert_eq!(res.head, 9);
}

#[test]
fn vertical_move_collapses_extend_grows() {
    let r = Rope::from_str("hello\nhi\nworld\n");
    let s = r.slice(..);
    let start = Range::point(0);
    let moved = move_vertically(&s, start, Direction::Forward, 1, Movement::Move);
    assert_eq!(moved.head, 6);
    let ext = move_vertically(&s, start, Direction::Forward, 1, Movement::Extend);
    assert_eq!((ext.anchor, ext.head), (0, 7));
}

#[test]
fn line_length_leaves_out_the_newline() {
    let r = Rope::from_str("hello\nhi\n");
    let s = r.slice(..);
    assert_eq!(line_char_len(&s, 0), 5);
    assert_eq!(line_char_len(&s, 1), 2);
    assert_eq!(line_char_len(&s, 2), 0);
}

#[test]
fn word_motions_over_a_slice() {
    let r = Rope::from_str("foo.bar baz");
    let s = r.slice(..);
    let w = move_next_word_start(s, Range::point(0), 1);
    assert_eq!((w.anchor, w.head), (0, 3));
    let ww = move_next_long_word_start(s, Range::point(0), 1);
    assert_eq!((ww.anchor, ww.head), (0, 8));
    let e = move_next_word_end(s, Range::point(0), 1);
    assert_eq!((e.anchor, e.head), (0, 3));
    let ee = move_next_long_word_end(s, Range::point(0), 1);
    assert_eq!((ee.anchor, ee.head), (0, 7));
    let b = move_prev_word_start(s, Range::point(11), 1);
    assert_eq!((b.anchor, b.head), (11, 8));
    let bb = move_prev_long_word_start(s, Range::point(7), 1);
    assert_eq!((bb.anchor, bb.head), (8, 0));
}

#[test]
fn word_motion_counts_and_ends() {
    let r = Rope::from_str("one two three");
    let s = r.slice(..);
    let two = move_next_word_start(s, Range::point(0), 2);
    assert_eq!((two.anchor, two.head), (4, 8));
    let at_end = move_next_word_start(s, Range::point(13), 1);
    assert_eq!((at_end.anchor, at_end.head), (13, 13));
    let at_start = move_prev_word_start(s, Range::point(0), 1);
    assert_eq!((at_start.anchor, at_start.head), (0, 0));
    let none = move_next_word_start(s, Range::point(0), 0);
    assert_eq!((none.anchor, none.head), (0, 1));
}

#[test]
fn first_non_whitespace_offsets() {
    let r = Rope::from_str("   x\n");
    assert_eq!(first_non_whitespace_char(r.slice(..)), Some(3));
    let blank = Rope::from_str(" \t\n");
    assert_eq!(first_non_whitespace_char(blank.slice(..)), None);
    let empty = Rope::from_str("");
    assert_eq!(first_non_whitespace_char(empty.slice(..)), None);
}
