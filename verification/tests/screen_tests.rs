use encoding_rs::UTF_8;
use mist::document::Document;
use mist::editor::Editor;
use mist::mode::Mode;
use mist::screen::{plan_line, plan_lines};
use mist::selection::{Range, Selection};
use ropey::Rope;

fn screen_editor(text: &str, sel: Selection) -> Editor {
    let mut e = Editor::new(Document::new(Rope::from_str(text), UTF_8, false));
    e.selection = sel;
    e
}

#[test]
fn caret_on_first_line_is_planned_in_bytes() {
    let e = screen_editor("héllo\nworld", Selection::point(2));
    let plans = plan_lines(&e, 10);
    assert_eq!(plans.len(), 2);
    let first = &plans[0];
    assert_eq!(first.line_idx, 0);
    assert_eq!(first.line_start, 0);
    assert_eq!(first.char_len, 5);
    assert_eq!(first.carets, vec![(3, 4)]);
    assert_eq!(first.inverted, vec![(3, 4)]);
    assert!(first.selections.is_empty());
    assert!(plans[1].carets.is_empty());
}

#[test]
fn only_visible_lines_are_planned() {
    let e = screen_editor("a\nb\nc\nd", Selection::point(0));
    assert_eq!(plan_lines(&e, 2).len(), 2);
    assert_eq!(plan_lines(&e, 9).len(), 4);
    assert_eq!(plan_lines(&e, 0).len(), 0);
}

#[test]
fn selections_are_clipped_to_each_line() {
    let e = screen_editor("abc\ndef", Selection::single(1, 6));
    let plans = plan_lines(&e, 5);
    assert_eq!(plans[0].selections, vec![(1, 3)]);
    assert_eq!(plans[1].selections, vec![(0, 2)]);
    // The cursor of the forward range sits on its last grapheme, on line 1.
    assert!(plans[0].carets.is_empty());
    assert_eq!(plans[1].carets, vec![(1, 2)]);
}

#[test]
fn cursors_thread_through_lines() {
    let sel = Selection::new(vec![Range::point(0), Range::point(2), Range::point(4)], 0);
    let e = screen_editor("ab\ncd", sel);
    let (line0, next) = plan_line(&e, 0, 0);
    assert_eq!(line0.carets, vec![(0, 1), (2, 2)]);
    assert_eq!(line0.inverted, vec![(0, 1)]);
    assert_eq!(next, 2);
    let (line1, end) = plan_line(&e, 1, next);
    assert_eq!(line1.carets, vec![(1, 2)]);
    assert_eq!(end, 3);
}

#[test]
fn insert_mode_inverts_nothing() {
    let mut e = screen_editor("abc", Selection::point(1));
    e.mode = Mode::Insert;
    let plans = plan_lines(&e, 1);
    assert_eq!(plans[0].carets, vec![(1, 2)]);
    assert!(plans[0].inverted.is_empty());
}
