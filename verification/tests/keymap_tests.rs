use encoding_rs::UTF_8;
use mist::document::Document;
use mist::editor::Editor;
use mist::keymap::{
    apply_key, convert_key, handle_key, run_command, Command, Key, KeyAction, KeyOutcome, KeyTree,
    NamedKey,
};
use mist::config::Config;
use mist::mode::Mode;
use mist::movement::{Direction, Movement};
use mist::selection::Selection;
use ropey::Rope;

const SAMPLE: &str = "use std::path::Path;\nfn open(path: &Path) -> bool {\n    path.exists()\n}\nlet x = 1;\n";

fn create_editor() -> Editor {
    editor_with(SAMPLE)
}

fn editor_with(text: &str) -> Editor {
    let mut e = Editor::new(Document::new(Rope::from_str(text), UTF_8, false));
    e.selection = Selection::point(0);
    e.mode = Mode::Normal;
    e
}

fn press(e: &mut Editor, k: &str) {
    apply_key(e, &ch(k));
}

fn cursor(e: &Editor) -> usize {
    e.selection.primary().cursor(e.document.rope().slice(..))
}

fn ch(s: &str) -> Key {
    Key::Character(s.to_string())
}

#[test]
fn normal_mode_keys_run_motions() {
    assert_eq!(handle_key(Mode::Normal, false, &ch("h")), KeyOutcome::Run("move_cursor_left"));
    assert_eq!(handle_key(Mode::Normal, false, &ch("w")), KeyOutcome::Run("move_next_word_start"));
    assert_eq!(handle_key(Mode::Normal, false, &ch("v")), KeyOutcome::Run("enter_select"));
    assert_eq!(handle_key(Mode::Normal, false, &ch("g")), KeyOutcome::Run("goto_pending"));
    assert_eq!(
        handle_key(Mode::Normal, false, &Key::Named(NamedKey::Home)),
        KeyOutcome::Run("goto_line_start")
    );
    assert_eq!(handle_key(Mode::Normal, false, &Key::Named(NamedKey::Escape)), KeyOutcome::Nothing);
    assert_eq!(handle_key(Mode::Normal, false, &ch("z")), KeyOutcome::Nothing);
    assert_eq!(handle_key(Mode::Normal, false, &ch("hh")), KeyOutcome::Nothing);
}

#[test]
fn select_mode_keys_extend() {
    assert_eq!(handle_key(Mode::Select, false, &ch("l")), KeyOutcome::Run("extend_cursor_right"));
    assert_eq!(handle_key(Mode::Select, false, &ch("w")), KeyOutcome::Run("extend_next_word_start"));
    assert_eq!(handle_key(Mode::Select, false, &ch("v")), KeyOutcome::Run("enter_normal"));
    assert_eq!(
        handle_key(Mode::Select, false, &Key::Named(NamedKey::Escape)),
        KeyOutcome::Run("enter_normal")
    );
    assert_eq!(
        handle_key(Mode::Select, false, &Key::Named(NamedKey::End)),
        KeyOutcome::Run("goto_line_end_extend")
    );
}

#[test]
fn insert_mode_types() {
    assert_eq!(handle_key(Mode::Insert, false, &ch("x")), KeyOutcome::InsertChar('x'));
    assert_eq!(handle_key(Mode::Insert, true, &ch("5")), KeyOutcome::InsertChar('5'));
    assert_eq!(handle_key(Mode::Insert, false, &ch("")), KeyOutcome::Nothing);
    assert_eq!(
        handle_key(Mode::Insert, false, &Key::Named(NamedKey::Enter)),
        KeyOutcome::InsertText("\n")
    );
    assert_eq!(
        handle_key(Mode::Insert, false, &Key::Named(NamedKey::Tab)),
        KeyOutcome::InsertText("\t")
    );
    assert_eq!(
        handle_key(Mode::Insert, false, &Key::Named(NamedKey::Backspace)),
        KeyOutcome::DeleteBackward
    );
    assert_eq!(
        handle_key(Mode::Insert, false, &Key::Named(NamedKey::Escape)),
        KeyOutcome::Run("enter_normal")
    );
    assert_eq!(handle_key(Mode::Insert, false, &Key::Named(NamedKey::Other)), KeyOutcome::Nothing);
}

#[test]
fn digits_add_to_a_pending_count() {
    assert_eq!(handle_key(Mode::Normal, true, &ch("5")), KeyOutcome::AppendCount(5));
    assert_eq!(handle_key(Mode::Select, true, &ch("12")), KeyOutcome::AppendCount(12));
    assert_eq!(handle_key(Mode::Normal, true, &ch("+3")), KeyOutcome::AppendCount(3));
    assert_eq!(handle_key(Mode::Normal, false, &ch("5")), KeyOutcome::AppendCount(5));
    assert_eq!(handle_key(Mode::Normal, false, &ch("0")), KeyOutcome::Nothing);
    assert_eq!(handle_key(Mode::Normal, true, &ch("0")), KeyOutcome::AppendCount(0));
    assert_eq!(handle_key(Mode::Normal, true, &ch("-3")), KeyOutcome::Nothing);
    assert_eq!(handle_key(Mode::Normal, true, &ch("h")), KeyOutcome::Run("move_cursor_left"));
}

#[test]
fn keys_convert_to_binding_names() {
    assert_eq!(convert_key(&ch("a")), Some("a".to_string()));
    assert_eq!(convert_key(&Key::Named(NamedKey::Escape)), Some("<ESC>".to_string()));
    assert_eq!(convert_key(&Key::Named(NamedKey::Home)), Some("<HOME>".to_string()));
    assert_eq!(convert_key(&Key::Named(NamedKey::Enter)), Some("<ENTER>".to_string()));
    assert_eq!(convert_key(&Key::Named(NamedKey::Backspace)), Some("<BACKSPACE>".to_string()));
    assert_eq!(convert_key(&Key::Named(NamedKey::Tab)), Some("<TAB>".to_string()));
    assert_eq!(convert_key(&Key::Named(NamedKey::End)), None);
    assert_eq!(convert_key(&Key::Named(NamedKey::Other)), None);
}

#[test]
fn f_finds_char_forward() {
    let mut e = create_editor();
    let start = e.selection.primary().head;
    press(&mut e, "f");
    assert!(e.pending_find.is_some());
    press(&mut e, "e");
    assert!(cursor(&e) > start);
    assert_eq!(cursor(&e), 2);
    assert!(e.pending_find.is_none());
}

#[test]
fn count_then_f_finds_nth() {
    let mut one = editor_with("beebee");
    press(&mut one, "f");
    press(&mut one, "e");
    let p1 = cursor(&one);

    let mut two = editor_with("beebee");
    press(&mut two, "2");
    press(&mut two, "f");
    press(&mut two, "e");
    let p2 = cursor(&two);

    assert_eq!(p1, 1);
    assert_eq!(p2, 2);
    assert!(two.pending_find.is_none());
    assert_eq!(two.count, None);
}

#[test]
fn t_stops_before_the_char() {
    let mut e = editor_with("abcdef");
    press(&mut e, "t");
    press(&mut e, "d");
    assert_eq!(cursor(&e), 2);
    assert!(e.pending_find.is_none());
}

#[test]
fn find_waits_through_a_named_key() {
    let mut e = editor_with("abcdef");
    press(&mut e, "3");
    press(&mut e, "f");
    apply_key(&mut e, &Key::Named(NamedKey::Escape));
    assert!(e.pending_find.is_none());
    assert_eq!(e.count, Some(3));
    assert_eq!(cursor(&e), 0);
}

#[test]
fn w_extends_in_select_mode() {
    let mut e = create_editor();
    e.enter_select();
    let anchor = e.selection.primary().anchor;
    press(&mut e, "w");
    let r = e.selection.primary();
    assert_eq!(r.anchor, anchor);
    assert!(r.head > anchor);
}

#[test]
fn l_extends_selection_in_select_mode() {
    let mut e = create_editor();
    e.enter_select();
    let anchor = e.selection.primary().anchor;
    press(&mut e, "l");
    let r = e.selection.primary();
    assert_eq!(r.anchor, anchor);
    assert!(r.head > anchor);
}

#[test]
fn l_moves_right_in_normal_mode() {
    let mut e = editor_with("abc");
    press(&mut e, "l");
    assert_eq!(cursor(&e), 1);
    assert_eq!(e.mode, Mode::Normal);
    assert_eq!(e.count, None);
}

#[test]
fn w_moves_selection_forward() {
    let mut e = create_editor();
    let before = e.selection.primary().head;
    press(&mut e, "w");
    assert!(e.selection.primary().head > before);
}

#[test]
fn e_moves_selection_forward() {
    let mut e = create_editor();
    let before = e.selection.primary().head;
    press(&mut e, "e");
    assert!(e.selection.primary().head > before);
}

#[test]
fn b_moves_selection_backward() {
    let mut e = create_editor();
    press(&mut e, "w");
    press(&mut e, "w");
    let mid = e.selection.primary().head;
    press(&mut e, "b");
    assert!(e.selection.primary().head < mid);
}

#[test]
fn i_enters_insert_mode_in_normal_mode() {
    let mut editor = create_editor();
    press(&mut editor, "i");
    assert_eq!(editor.mode, Mode::Insert);
}

#[test]
fn i_enters_insert_mode_in_select_mode() {
    let mut editor = create_editor();
    editor.enter_select();
    press(&mut editor, "i");
    assert_eq!(editor.mode, Mode::Insert);
}

#[test]
fn esc_enters_normal_mode_in_insert_mode() {
    let mut editor = create_editor();
    editor.enter_insert();
    apply_key(&mut editor, &Key::Named(NamedKey::Escape));
    assert_eq!(editor.mode, Mode::Normal);
}

#[test]
fn typing_in_insert_mode_keeps_the_mode() {
    let mut editor = editor_with("ab");
    editor.enter_insert();
    press(&mut editor, "5");
    assert_eq!(editor.mode, Mode::Insert);
    assert_eq!(editor.count, None);
    assert_eq!(editor.document.rope().to_string(), "5ab");
    apply_key(&mut editor, &Key::Named(NamedKey::Enter));
    apply_key(&mut editor, &Key::Named(NamedKey::Tab));
    assert_eq!(editor.document.rope().to_string(), "5\n\tab");
    assert_eq!(editor.selection.primary().head, 3);
    apply_key(&mut editor, &Key::Named(NamedKey::Backspace));
    assert_eq!(editor.document.rope().to_string(), "5\nab");
    assert_eq!(editor.selection.primary().head, 2);
}

#[test]
fn v_enters_select_mode_in_normal_mode() {
    let mut editor = create_editor();
    press(&mut editor, "v");
    assert_eq!(editor.mode, Mode::Select);
}

#[test]
fn v_enters_normal_mode_in_select_mode() {
    let mut editor = create_editor();
    editor.enter_select();
    press(&mut editor, "v");
    assert_eq!(editor.mode, Mode::Normal);
}

#[test]
fn digits_accumulate_into_count() {
    let mut e = create_editor();
    press(&mut e, "1");
    press(&mut e, "2");
    assert_eq!(e.count, Some(12));
}

#[test]
fn count_then_motion_moves_n_lines_and_clears() {
    let mut e = create_editor();
    let text = e.document.rope().clone();
    let line0 = text.char_to_line(e.selection.primary().head);
    press(&mut e, "3");
    press(&mut e, "j");
    let line_after = text.char_to_line(e.selection.primary().head);
    assert_eq!(line_after - line0, 3);
    assert_eq!(e.count, None);
}

#[test]
fn leading_zero_is_not_a_count() {
    let mut e = create_editor();
    press(&mut e, "0");
    assert_eq!(e.count, None);
}

#[test]
fn gg_goes_to_file_start() {
    let mut e = create_editor();
    press(&mut e, "j");
    assert!(cursor(&e) > 0);
    press(&mut e, "g");
    assert!(e.pending_goto);
    press(&mut e, "g");
    assert_eq!(cursor(&e), 0);
    assert!(!e.pending_goto);
}

#[test]
fn g_then_h_goes_to_line_start() {
    let mut e = editor_with("ab\ncdef");
    e.selection = Selection::point(5);
    press(&mut e, "g");
    press(&mut e, "h");
    assert_eq!(cursor(&e), 3);
}

#[test]
fn end_key_goes_to_the_last_grapheme() {
    let mut e = editor_with("abc\ndef");
    apply_key(&mut e, &Key::Named(NamedKey::End));
    assert_eq!(cursor(&e), 6);
    apply_key(&mut e, &Key::Named(NamedKey::Home));
    assert_eq!(cursor(&e), 4);
}

#[test]
fn home_in_select_mode_stretches_to_the_start() {
    let mut e = editor_with("abc\ndef");
    e.selection = Selection::point(5);
    e.enter_select();
    apply_key(&mut e, &Key::Named(NamedKey::Home));
    assert_eq!(cursor(&e), 0);
}

#[test]
fn yank_fills_the_registers() {
    let mut e = editor_with("hello");
    e.selection = Selection::single(0, 3);
    press(&mut e, "y");
    assert_eq!(e.registers, vec!["hel".to_string()]);
}

#[test]
fn commands_go_by_their_binding_names() {
    assert_eq!(Command::Horizontal(Direction::Forward, Movement::Extend).name(), "extend_cursor_right");
    assert_eq!(Command::EnterInsert.name(), "enter_insert");
    let mut e = editor_with("abc");
    run_command(&mut e, Command::Horizontal(Direction::Forward, Movement::Move));
    assert_eq!(cursor(&e), 1);
}

#[test]
fn u_and_shift_u_undo_and_redo_typing() {
    let mut e = editor_with("ab");
    press(&mut e, "i");
    press(&mut e, "x");
    apply_key(&mut e, &Key::Named(NamedKey::Escape));
    assert_eq!(e.document.rope().to_string(), "xab");
    press(&mut e, "u");
    assert_eq!(e.document.rope().to_string(), "ab");
    assert_eq!(cursor(&e), 0);
    press(&mut e, "U");
    assert_eq!(e.document.rope().to_string(), "xab");
}

#[test]
fn editing_keys_delete_paste_and_open_lines() {
    let mut e = editor_with("abc\nd");
    press(&mut e, "d");
    assert_eq!(e.document.rope().to_string(), "bc\nd");
    assert_eq!(e.registers, vec!["a".to_string()]);
    press(&mut e, "p");
    assert_eq!(e.document.rope().to_string(), "bac\nd");
    press(&mut e, "o");
    assert_eq!(e.mode, Mode::Insert);
    assert_eq!(e.document.rope().to_string(), "bac\n\nd");
    apply_key(&mut e, &Key::Named(NamedKey::Escape));
    press(&mut e, "u");
    assert_eq!(e.document.rope().to_string(), "bac\nd");
    press(&mut e, "c");
    assert_eq!(e.mode, Mode::Insert);
}

#[test]
fn the_default_key_tree_binds_the_default_keys() {
    let tree = KeyTree::default(vec![]);
    assert_eq!(
        tree.command_for(Mode::Normal, "h"),
        Some(Command::Horizontal(Direction::Backward, Movement::Move))
    );
    assert_eq!(tree.command_for(Mode::Select, "w").map(|c| c.name()), Some("extend_next_word_start"));
    assert_eq!(tree.command_for(Mode::Insert, "<ENTER>"), Some(Command::InsertNewLine));
    assert_eq!(tree.command_for(Mode::Insert, "<BACKSPACE>"), Some(Command::DeleteCharBackward));
    assert_eq!(tree.command_for(Mode::Normal, "<END>").map(|c| c.name()), Some("goto_line_end"));
    // the entry for E names no command, so E is not bound
    assert_eq!(tree.command_for(Mode::Normal, "E"), None);
    assert_eq!(tree.command_for(Mode::Normal, "z"), None);
}

#[test]
fn configured_bindings_override_and_remove() {
    let tree = KeyTree::default(vec![
        KeyAction::Add(("normal".to_string(), "z".to_string(), "yank".to_string())),
        KeyAction::Add(("normal".to_string(), "h".to_string(), "undo".to_string())),
        KeyAction::Remove(("select".to_string(), "w".to_string())),
        KeyAction::Add(("insert".to_string(), "q".to_string(), "no_such_command".to_string())),
    ]);
    assert_eq!(tree.command_for(Mode::Normal, "z"), Some(Command::Yank));
    assert_eq!(tree.command_for(Mode::Normal, "h"), Some(Command::Undo));
    assert_eq!(tree.command_for(Mode::Select, "w"), None);
    assert_eq!(tree.command_for(Mode::Normal, "w").map(|c| c.name()), Some("move_next_word_start"));
    assert_eq!(tree.command_for(Mode::Insert, "q"), None);
}

#[test]
fn commands_are_found_by_name() {
    assert_eq!(Command::from_name("enter_insert"), Some(Command::EnterInsert));
    assert_eq!(Command::from_name("extend_before_char_backward"), Some(Command::FindChar(Direction::Backward, false, true)));
    assert_eq!(Command::from_name("enter_insert_mode"), None);
    assert_eq!(Command::from_name(""), None);
}

#[test]
fn configured_keys_reach_the_key_tree() {
    let mut config = Config::default();
    config.add_key("select".to_string(), "x".to_string(), "yank".to_string());
    let tree = KeyTree::default(config.key_actions());
    assert_eq!(tree.command_for(Mode::Select, "x"), Some(Command::Yank));
    assert_eq!(tree.command_for(Mode::Normal, "x"), None);
}
