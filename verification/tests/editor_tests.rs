use encoding_rs::UTF_8;
use mist::document::Document;
use mist::editor::{Editor, PendingFind};
use mist::mode::Mode;
use mist::movement::{Direction, Movement};
use mist::selection::{Range, Selection};
use mist::transaction::ChangeSet;
use ropey::Rope;

fn editor_with(text: &str, pos: usize) -> Editor {
    let mut e = Editor::new(Document::new(Rope::from_str(text), UTF_8, false));
    e.selection = Selection::point(pos);
    e.mode = Mode::Normal;
    e
}

fn head(e: &Editor) -> usize {
    e.selection.primary().head
}

fn is_point(e: &Editor) -> bool {
    let r = e.selection.primary();
    r.anchor == r.head
}

fn primary(e: &Editor) -> (usize, usize) {
    let r = e.selection.primary();
    (r.anchor, r.head)
}

#[test]
fn enter_insert_collapses_selection_to_left_edge() {
    let mut e = editor_with("hello", 0);
    e.selection = Selection::single(1, 4);
    e.enter_insert();
    assert_eq!(e.mode, Mode::Insert);
    assert_eq!(head(&e), 1);
}

#[test]
fn append_moves_one_past_and_stays_a_point() {
    let mut e = editor_with("hello", 2);
    e.enter_insert_append();
    assert_eq!(e.mode, Mode::Insert);
    assert_eq!(head(&e), 3);
    assert!(is_point(&e));
}

#[test]
fn insert_at_line_start_lands_on_first_non_whitespace() {
    let mut e = editor_with("    abc\ndef", 6);
    e.insert_at_line_start();
    assert_eq!(e.mode, Mode::Insert);
    assert_eq!(head(&e), 4);
}

#[test]
fn insert_at_line_start_uses_the_cursors_own_line() {
    let mut e = editor_with("x\n   yz", 5);
    e.insert_at_line_start();
    assert_eq!(head(&e), 5);
}

#[test]
fn insert_at_line_start_blank_line_falls_back_to_line_start() {
    let mut e = editor_with("abc", 2);
    e.insert_at_line_start();
    assert_eq!(head(&e), 0);
}

#[test]
fn insert_at_line_end_lands_before_newline() {
    let mut e = editor_with("hello\nworld", 0);
    e.insert_at_line_end();
    assert_eq!(e.mode, Mode::Insert);
    assert_eq!(head(&e), 5);
}

#[test]
fn yank_copies_selection_to_register_and_exits_select() {
    let mut e = editor_with("hello", 0);
    e.selection = Selection::single(0, 3);
    e.enter_select();
    e.yank();
    assert_eq!(e.registers, vec!["hel".to_string()]);
    assert_eq!(e.mode, Mode::Normal);
    assert_eq!(e.document.rope().to_string(), "hello");
}

#[test]
fn yank_resting_cursor_grabs_char_under_it() {
    let mut e = editor_with("hello", 1);
    e.yank();
    assert_eq!(e.registers, vec!["e".to_string()]);
}

#[test]
fn yank_takes_one_register_per_range() {
    let mut e = editor_with("hello", 0);
    e.selection = Selection::new(vec![Range::new(0, 2), Range::point(3)], 0);
    e.yank();
    assert_eq!(e.registers, vec!["he".to_string(), "l".to_string()]);
}

#[test]
fn new_editor_starts_at_zero_in_normal_mode() {
    let e = Editor::new(Document::new(Rope::from_str("abc"), UTF_8, false));
    assert_eq!(primary(&e), (0, 0));
    assert_eq!(e.mode, Mode::Normal);
    assert_eq!(e.count, None);
    assert!(e.pending_find.is_none());
    assert!(!e.pending_goto);
    assert!(e.registers.is_empty());
}

#[test]
fn goto_file_start_and_end() {
    let mut e = editor_with("hello\nworld", 3);
    e.goto_file_end(false);
    assert_eq!(primary(&e), (10, 10));
    e.goto_file_start(false);
    assert_eq!(primary(&e), (0, 0));
    e.goto_file_end(true);
    assert_eq!(primary(&e), (0, 11));
}

#[test]
fn goto_line_start_and_end() {
    let mut e = editor_with("ab\ncd", 4);
    e.goto_line_start(false);
    assert_eq!(primary(&e), (3, 3));
    let mut f = editor_with("hello\nworld", 1);
    f.goto_line_end(false);
    assert_eq!(primary(&f), (4, 4));
    let mut g = editor_with("a\n\nb", 2);
    g.goto_line_end(false);
    assert_eq!(primary(&g), (2, 2));
}

#[test]
fn find_char_forward_inclusive_and_till() {
    let find = |count, inclusive| PendingFind { count, dir: Direction::Forward, inclusive, extend: false };
    let mut e = editor_with("beebee", 0);
    e.find_char(&find(1, true), 'e');
    assert_eq!(primary(&e), (0, 2));
    let mut e2 = editor_with("beebee", 0);
    e2.find_char(&find(2, true), 'e');
    assert_eq!(primary(&e2), (0, 3));
    let mut t = editor_with("beebee", 0);
    t.find_char(&find(1, false), 'e');
    assert_eq!(primary(&t), (0, 2));
    let mut none = editor_with("beebee", 0);
    none.find_char(&find(1, true), 'z');
    assert_eq!(primary(&none), (0, 0));
}

#[test]
fn find_char_backward() {
    let find = PendingFind { count: 1, dir: Direction::Backward, inclusive: true, extend: false };
    let mut e = editor_with("beebee", 5);
    e.find_char(&find, 'b');
    assert_eq!(primary(&e), (6, 3));
}

#[test]
fn word_motions_on_the_editor() {
    let mut e = editor_with("hello world", 0);
    e.move_next_word_start(1);
    assert_eq!(primary(&e), (0, 6));
    e.move_next_word_start(1);
    assert_eq!(primary(&e), (6, 11));
    let mut end = editor_with("hello world", 0);
    end.move_next_word_end(1);
    assert_eq!(primary(&end), (0, 5));
    let mut back = editor_with("hello world", 8);
    back.move_prev_word_start(1);
    assert_eq!(primary(&back), (9, 6));
    let mut ext = editor_with("hello world", 0);
    ext.extend_next_word_start(1);
    assert_eq!(primary(&ext), (0, 6));
}

#[test]
fn counts_accumulate_and_reset() {
    let mut e = editor_with("abc", 0);
    e.push_count_digit(1);
    e.push_count_digit(2);
    assert_eq!(e.count, Some(12));
    assert_eq!(e.take_count(), 12);
    assert_eq!(e.count, None);
    assert_eq!(e.take_count(), 1);
}

#[test]
fn line_motions_on_the_editor() {
    let mut e = editor_with("hello\nhi", 0);
    e.move_v(Direction::Forward, 1, Movement::Move);
    assert_eq!(primary(&e), (6, 6));
    assert_eq!(e.selection.primary().goal_col(), Some(0));
    e.move_h(Direction::Forward, 1, Movement::Extend);
    assert_eq!(primary(&e), (6, 8));
}

#[test]
fn modes_switch() {
    let mut e = editor_with("abc", 0);
    e.enter_select();
    assert_eq!(e.mode, Mode::Select);
    e.enter_normal();
    assert_eq!(e.mode, Mode::Normal);
}

#[test]
fn insert_char_inserts_at_cursor_and_advances() {
    let mut e = editor_with("hello", 0);
    e.insert_char('X');
    assert_eq!(e.document.rope().to_string(), "Xhello");
    assert_eq!(head(&e), 1);
    assert!(is_point(&e));
}

#[test]
fn append_then_type_does_not_grow_selection() {
    let mut e = editor_with("hello", 1);
    e.enter_insert_append();
    e.insert_char('X');
    e.insert_char('Y');
    assert_eq!(e.document.rope().to_string(), "heXYllo");
    assert_eq!(head(&e), 4);
    assert!(is_point(&e));
}

#[test]
fn insert_text_types_at_every_head() {
    let mut e = editor_with("ab cd", 0);
    e.selection = Selection::new(vec![Range::point(1), Range::point(4)], 1);
    e.insert_text("--");
    assert_eq!(e.document.rope().to_string(), "a--b c--d");
    let heads: Vec<usize> = e.selection.ranges().iter().map(|r| r.head).collect();
    assert_eq!(heads, vec![3, 8]);
    assert_eq!(e.selection.primary_index(), 1);
}

#[test]
fn insert_text_of_nothing_changes_nothing() {
    let mut e = editor_with("abc", 1);
    e.insert_text("");
    assert_eq!(e.document.rope().to_string(), "abc");
    assert_eq!(primary(&e), (1, 1));
}

#[test]
fn typing_keeps_a_forward_range_growing_over_the_text() {
    let mut e = editor_with("abcd", 0);
    e.selection = Selection::single(1, 3);
    e.insert_char('X');
    assert_eq!(e.document.rope().to_string(), "abcXd");
    assert_eq!(primary(&e), (1, 4));
}

#[test]
fn undo_restores_text_and_cursor() {
    let mut e = editor_with("hello", 0);
    e.insert_char('X');
    e.undo();
    assert_eq!(e.document.rope().to_string(), "hello");
    assert_eq!(head(&e), 0);
}

#[test]
fn redo_reapplies_edit() {
    let mut e = editor_with("hello", 0);
    e.insert_char('X');
    e.undo();
    e.redo();
    assert_eq!(e.document.rope().to_string(), "Xhello");
    assert_eq!(head(&e), 1);
}

#[test]
fn undo_redo_walks_multiple_steps() {
    let mut e = editor_with("hello", 0);
    e.insert_char('X');
    e.insert_char('Y');
    assert_eq!(e.document.rope().to_string(), "XYhello");
    e.undo();
    assert_eq!(e.document.rope().to_string(), "Xhello");
    e.undo();
    assert_eq!(e.document.rope().to_string(), "hello");
    e.redo();
    assert_eq!(e.document.rope().to_string(), "Xhello");
    e.redo();
    assert_eq!(e.document.rope().to_string(), "XYhello");
}

#[test]
fn new_edit_clears_redo_stack() {
    let mut e = editor_with("hello", 0);
    e.insert_char('X');
    e.undo();
    assert_eq!(e.redo_stack.len(), 1);
    e.insert_char('Y');
    assert!(e.redo_stack.is_empty());
    e.redo();
    assert_eq!(e.document.rope().to_string(), "Yhello");
}

#[test]
fn undo_on_empty_stack_is_noop() {
    let mut e = editor_with("hello", 0);
    e.undo();
    e.redo();
    assert_eq!(e.document.rope().to_string(), "hello");
    assert!(e.undo_stack.is_empty());
    assert!(e.redo_stack.is_empty());
}

#[test]
fn undo_brings_back_a_moved_selection() {
    let mut e = editor_with("ab cd", 0);
    e.selection = Selection::new(vec![Range::point(1), Range::point(4)], 0);
    e.insert_text("xy");
    e.move_h(Direction::Forward, 1, Movement::Move);
    e.undo();
    assert_eq!(e.document.rope().to_string(), "ab cd");
    let heads: Vec<usize> = e.selection.ranges().iter().map(|r| r.head).collect();
    assert_eq!(heads, vec![1, 4]);
    e.redo();
    assert_eq!(e.document.rope().to_string(), "axyb cxyd");
    let heads: Vec<usize> = e.selection.ranges().iter().map(|r| r.head).collect();
    assert_eq!(heads, vec![3, 8]);
}

#[test]
fn delete_char_backward_removes_grapheme_before_cursor() {
    let mut e = editor_with("hello", 3);
    e.delete_char_backward();
    assert_eq!(e.document.rope().to_string(), "helo");
    assert_eq!(head(&e), 2);
}

#[test]
fn delete_char_backward_at_start_is_noop() {
    let mut e = editor_with("hello", 0);
    e.delete_char_backward();
    assert_eq!(e.document.rope().to_string(), "hello");
    assert_eq!(head(&e), 0);
    assert!(e.undo_stack.is_empty());
}

#[test]
fn delete_char_backward_takes_a_whole_grapheme() {
    let mut e = editor_with("ae\u{301}z", 3);
    e.delete_char_backward();
    assert_eq!(e.document.rope().to_string(), "az");
    assert_eq!(head(&e), 1);
    e.undo();
    assert_eq!(e.document.rope().to_string(), "ae\u{301}z");
    assert_eq!(head(&e), 3);
}

#[test]
fn delete_char_backward_at_every_cursor() {
    let mut e = editor_with("abcdef", 0);
    e.selection = Selection::new(vec![Range::point(2), Range::point(5)], 1);
    e.delete_char_backward();
    assert_eq!(e.document.rope().to_string(), "acdf");
    let heads: Vec<usize> = e.selection.ranges().iter().map(|r| r.head).collect();
    assert_eq!(heads, vec![1, 3]);
}

#[test]
fn delete_selection_removes_text_fills_register_collapses() {
    let mut e = editor_with("hello", 0);
    e.selection = Selection::single(0, 3);
    e.delete_selections();
    assert_eq!(e.document.rope().to_string(), "lo");
    assert_eq!(e.registers, vec!["hel".to_string()]);
    assert_eq!(e.mode, Mode::Normal);
    assert_eq!(head(&e), 0);
}

#[test]
fn delete_resting_cursor_removes_one_grapheme() {
    let mut e = editor_with("hello", 1);
    e.delete_selections();
    assert_eq!(e.document.rope().to_string(), "hllo");
}

#[test]
fn change_deletes_and_enters_insert() {
    let mut e = editor_with("hello", 0);
    e.selection = Selection::single(0, 3);
    e.change_selections();
    assert_eq!(e.document.rope().to_string(), "lo");
    assert_eq!(e.mode, Mode::Insert);
    assert_eq!(e.registers, vec!["hel".to_string()]);
    assert_eq!(head(&e), 0);
}

#[test]
fn undo_of_delete_restores_deleted_text() {
    let mut e = editor_with("hello", 0);
    e.selection = Selection::single(0, 3);
    e.delete_selections();
    assert_eq!(e.document.rope().to_string(), "lo");
    e.undo();
    assert_eq!(e.document.rope().to_string(), "hello");
    let r = e.selection.primary();
    assert_eq!((r.anchor, r.head), (0, 3));
}

#[test]
fn delete_at_the_end_of_the_text_deletes_nothing() {
    let mut e = editor_with("ab", 2);
    e.delete_selections();
    assert_eq!(e.document.rope().to_string(), "ab");
    assert_eq!(e.registers, vec!["".to_string()]);
    assert!(e.undo_stack.is_empty());
}

#[test]
fn paste_after_inserts_register_past_cursor() {
    let mut e = editor_with("XY", 0);
    e.registers = vec!["ab".to_string()];
    e.paste(true);
    assert_eq!(e.document.rope().to_string(), "XabY");
}

#[test]
fn paste_before_inserts_register_at_cursor() {
    let mut e = editor_with("XY", 1);
    e.registers = vec!["ab".to_string()];
    e.paste(false);
    assert_eq!(e.document.rope().to_string(), "XabY");
}

#[test]
fn paste_empty_register_is_noop() {
    let mut e = editor_with("XY", 0);
    e.paste(true);
    assert_eq!(e.document.rope().to_string(), "XY");
}

#[test]
fn yank_then_paste_duplicates_text() {
    let mut e = editor_with("hello", 0);
    e.selection = Selection::single(0, 3);
    e.yank();
    e.paste(true);
    assert_eq!(e.document.rope().to_string(), "helhello");
}

#[test]
fn multi_cursor_paste_offsets_each_insertion() {
    let mut e = editor_with("ab", 0);
    e.selection = Selection::new(vec![Range::point(0), Range::point(1)], 0);
    e.registers = vec!["X".to_string()];
    e.paste(false);
    assert_eq!(e.document.rope().to_string(), "XaXb");
    let sel: Vec<(usize, usize)> = e.selection.ranges().iter().map(|r| (r.anchor, r.head)).collect();
    assert_eq!(sel, vec![(0, 1), (2, 3)]);
    assert_eq!(e.mode, Mode::Normal);
    e.undo();
    assert_eq!(e.document.rope().to_string(), "ab");
}

#[test]
fn each_cursor_pastes_its_own_register() {
    let mut e = editor_with("ab", 0);
    e.selection = Selection::new(vec![Range::point(0), Range::point(1)], 1);
    e.registers = vec!["1".to_string(), "22".to_string()];
    e.paste(true);
    assert_eq!(e.document.rope().to_string(), "a1b22");
    assert_eq!(e.selection.primary_index(), 1);
    let r = e.selection.primary();
    assert_eq!((r.anchor, r.head), (3, 5));
}

#[test]
fn open_below_inserts_newline_after_line_and_moves_down() {
    let mut e = editor_with("ab\ncd", 0);
    e.open_below();
    assert_eq!(e.mode, Mode::Insert);
    assert_eq!(e.document.rope().to_string(), "ab\n\ncd");
    assert_eq!(head(&e), 3);
    assert!(is_point(&e));
}

#[test]
fn open_above_inserts_newline_before_line_and_stays() {
    let mut e = editor_with("ab\ncd", 3);
    e.open_above();
    assert_eq!(e.mode, Mode::Insert);
    assert_eq!(e.document.rope().to_string(), "ab\n\ncd");
    assert_eq!(head(&e), 3);
    assert!(is_point(&e));
}

#[test]
fn open_below_at_every_cursor() {
    let mut e = editor_with("ab\ncd", 0);
    e.selection = Selection::new(vec![Range::point(1), Range::point(4)], 0);
    e.open_below();
    assert_eq!(e.document.rope().to_string(), "ab\n\ncd\n");
    let heads: Vec<usize> = e.selection.ranges().iter().map(|r| r.head).collect();
    assert_eq!(heads, vec![3, 7]);
    e.undo();
    assert_eq!(e.document.rope().to_string(), "ab\ncd");
}

#[test]
fn apply_transaction_inserts_and_moves_cursor() {
    let mut e = editor_with("hello", 0);
    let tx = ChangeSet::from_changes(e.document.rope(), vec![(0, 0, Some("X".to_string()))]);
    e.apply_transaction(tx, Selection::point(1));
    assert_eq!(e.document.rope().char(0), 'X');
    assert_eq!(e.selection.primary().head, 1);
    e.undo();
    assert_eq!(e.document.rope().to_string(), "hello");
}

#[test]
fn an_empty_transaction_is_not_recorded() {
    let mut e = editor_with("hello", 2);
    let tx = ChangeSet::from_changes(e.document.rope(), vec![]);
    e.apply_transaction(tx, Selection::point(0));
    assert_eq!(head(&e), 2);
    assert!(e.undo_stack.is_empty());
}
