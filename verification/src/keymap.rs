//! Key dispatch: what a keypress means in the current mode, and carrying it out on the
//! editor. Normal-mode motions collapse the selection, Select-mode motions extend it,
//! and Insert mode types. A count typed before a motion repeats it; f/t/F/T and g wait
//! for the key after them.
use vstd::prelude::*;
use vstd::string::StrSliceExecFns;
use crate::mode::Mode;
use crate::theme::same_text;
use crate::movement::{Direction, Movement, WordMotionTarget};
use crate::editor::{
    backspaced, deleted_selections, inserted, opened, paste_fits, pasted, redone, undone,
    append_map, extend_word_map, find_map, h_map, insert_map, line_end_insert_map, line_end_map,
    line_start_insert_map, line_start_map, mapped_selection, put_map, v_map, word_map, yanked,
    Editor, PendingFind,
};
use crate::grapheme::prev_boundary;
use crate::selection::Range;

verus! {

/// The named keys the editor reads; every other named key is `Other`.
#[derive(Clone, Copy, PartialEq, Eq, Debug, Structural)]
pub enum NamedKey {
    Escape,
    Home,
    End,
    Enter,
    Backspace,
    Tab,
    Other,
}

/// A keypress: the text a key types, or a named key.
#[derive(Clone, PartialEq, Eq, Debug)]
pub enum Key {
    Character(String),
    Named(NamedKey),
}

/// What a keypress asks for.
#[derive(Clone, Copy, PartialEq, Eq, Debug)]
pub enum KeyOutcome {
    /// Another digit (or number) for the pending count.
    AppendCount(usize),
    /// Run the command of this name.
    Run(&'static str),
    /// Delete the grapheme before each cursor.
    DeleteBackward,
    /// Type this text at each cursor.
    InsertText(&'static str),
    /// Type this char at each cursor.
    InsertChar(char),
    /// Nothing.
    Nothing,
}

/// The value of a string of ASCII digits.
pub open spec fn digits_value(d: Seq<char>) -> int
    decreases d.len(),
{
    if d.len() == 0 {
        0
    } else {
        digits_value(d.drop_last()) * 10 + (d.last() as int - '0' as int)
    }
}

/// Every char of `d` is an ASCII digit.
pub open spec fn all_digits(d: Seq<char>) -> bool {
    forall|i: int| 0 <= i < d.len() ==> '0' <= #[trigger] d[i] <= '9'
}

/// What `str::parse::<usize>` reads from `s`: an optional `+` followed by one or more
/// ASCII digits whose value fits a `usize`; anything else is no number.
pub open spec fn parsed_usize(s: Seq<char>) -> Option<usize> {
    let d = if s.len() > 0 && s[0] == '+' {
        s.drop_first()
    } else {
        s
    };
    if d.len() > 0 && all_digits(d) && digits_value(d) <= usize::MAX {
        Some(digits_value(d) as usize)
    } else {
        None
    }
}

/// `str::parse::<usize>`, as its documentation describes it.
#[verifier::external_body]
fn parse_usize(s: &str) -> (r: Option<usize>)
    ensures
        r == parsed_usize(s@),
{
    s.parse::<usize>().ok()
}

/// The one char a string holds, if it holds exactly one.
pub open spec fn single_char(s: Seq<char>) -> Option<char> {
    if s.len() == 1 {
        Some(s[0])
    } else {
        None
    }
}

/// The commands a key can be bound to.
#[derive(Clone, Copy, PartialEq, Eq, Debug, Structural)]
pub enum Command {
    /// h/l: one grapheme to the side, `count` times.
    Horizontal(Direction, Movement),
    /// j/k: one line up or down, `count` times.
    Vertical(Direction, Movement),
    /// w/W/e/E/b/B: a word motion, `count` times; `true` stretches the range.
    Word(WordMotionTarget, bool),
    /// f/F/t/T: waits for a char, then searches for it. The fields are the direction,
    /// whether the cursor lands on the char (f/F) or next to it (t/T), and whether
    /// the range stretches.
    FindChar(Direction, bool, bool),
    /// Home: every cursor to the start of its line; in Select mode (`true`) the ranges
    /// stretch to the start of the text.
    GotoLineStart(bool),
    /// End: every cursor onto the last grapheme of the text (`true` stretches the
    /// ranges).
    GotoLineEnd(bool),
    /// g: waits for the key that says where to go.
    GotoPending,
    EnterInsert,
    EnterInsertAppend,
    InsertAtLineStart,
    InsertAtLineEnd,
    EnterSelect,
    EnterNormal,
    Yank,
    OpenBelow,
    OpenAbove,
    DeleteSelections,
    ChangeSelections,
    PasteAfterCursor,
    PasteBeforeCursor,
    Undo,
    Redo,
    /// Enter in Insert mode: a line break typed at every cursor.
    InsertNewLine,
    /// Tab in Insert mode: a tab typed at every cursor.
    InsertTab,
    /// Backspace in Insert mode.
    DeleteCharBackward,
}

/// The name a command goes by in key bindings.
pub open spec fn command_name(c: Command) -> &'static str {
    match c {
        Command::Horizontal(Direction::Backward, Movement::Move) => "move_cursor_left",
        Command::Horizontal(Direction::Forward, Movement::Move) => "move_cursor_right",
        Command::Horizontal(Direction::Backward, Movement::Extend) => "extend_cursor_left",
        Command::Horizontal(Direction::Forward, Movement::Extend) => "extend_cursor_right",
        Command::Vertical(Direction::Backward, Movement::Move) => "move_cursor_up",
        Command::Vertical(Direction::Forward, Movement::Move) => "move_cursor_down",
        Command::Vertical(Direction::Backward, Movement::Extend) => "extend_cursor_up",
        Command::Vertical(Direction::Forward, Movement::Extend) => "extend_cursor_down",
        Command::Word(WordMotionTarget::NextWordStart, false) => "move_next_word_start",
        Command::Word(WordMotionTarget::NextLongWordStart, false) => "move_next_long_word_start",
        Command::Word(WordMotionTarget::NextWordEnd, false) => "move_next_word_end",
        Command::Word(WordMotionTarget::NextLongWordEnd, false) => "move_next_long_word_end",
        Command::Word(WordMotionTarget::PrevWordStart, false) => "move_prev_word_start",
        Command::Word(WordMotionTarget::PrevLongWordStart, false) => "move_prev_long_word_start",
        Command::Word(WordMotionTarget::NextWordStart, true) => "extend_next_word_start",
        Command::Word(WordMotionTarget::NextLongWordStart, true) => "extend_next_long_word_start",
        Command::Word(WordMotionTarget::NextWordEnd, true) => "extend_next_word_end",
        Command::Word(WordMotionTarget::NextLongWordEnd, true) => "extend_next_long_word_end",
        Command::Word(WordMotionTarget::PrevWordStart, true) => "extend_prev_word_start",
        Command::Word(WordMotionTarget::PrevLongWordStart, true) => "extend_prev_long_word_start",
        Command::FindChar(Direction::Forward, true, false) => "move_on_next_char_forward",
        Command::FindChar(Direction::Backward, true, false) => "move_on_next_char_backward",
        Command::FindChar(Direction::Forward, false, false) => "move_before_char_forward",
        Command::FindChar(Direction::Backward, false, false) => "move_before_char_backward",
        Command::FindChar(Direction::Forward, true, true) => "extend_on_next_char_forward",
        Command::FindChar(Direction::Backward, true, true) => "extend_on_next_char_backward",
        Command::FindChar(Direction::Forward, false, true) => "extend_before_char_forward",
        Command::FindChar(Direction::Backward, false, true) => "extend_before_char_backward",
        Command::GotoLineStart(false) => "goto_line_start",
        Command::GotoLineStart(true) => "goto_line_start_extend",
        Command::GotoLineEnd(false) => "goto_line_end",
        Command::GotoLineEnd(true) => "goto_line_end_extend",
        Command::GotoPending => "goto_pending",
        Command::EnterInsert => "enter_insert",
        Command::EnterInsertAppend => "enter_insert_append",
        Command::InsertAtLineStart => "insert_at_line_start",
        Command::InsertAtLineEnd => "insert_at_line_end",
        Command::EnterSelect => "enter_select",
        Command::EnterNormal => "enter_normal",
        Command::Yank => "yank",
        Command::OpenBelow => "open_below",
        Command::OpenAbove => "open_above",
        Command::DeleteSelections => "delete_selections",
        Command::ChangeSelections => "change_selections",
        Command::PasteAfterCursor => "paste_after_cursor",
        Command::PasteBeforeCursor => "paste_before_cursor",
        Command::Undo => "undo",
        Command::Redo => "redo",
        Command::InsertNewLine => "insert_new_line",
        Command::InsertTab => "insert_tab",
        Command::DeleteCharBackward => "delete_char_backward",
    }
}

impl Command {
    /// The name the command goes by in key bindings.
    pub fn name(&self) -> (s: &'static str)
        ensures
            s == command_name(*self),
    {
        match *self {
            Command::Horizontal(Direction::Backward, Movement::Move) => "move_cursor_left",
            Command::Horizontal(Direction::Forward, Movement::Move) => "move_cursor_right",
            Command::Horizontal(Direction::Backward, Movement::Extend) => "extend_cursor_left",
            Command::Horizontal(Direction::Forward, Movement::Extend) => "extend_cursor_right",
            Command::Vertical(Direction::Backward, Movement::Move) => "move_cursor_up",
            Command::Vertical(Direction::Forward, Movement::Move) => "move_cursor_down",
            Command::Vertical(Direction::Backward, Movement::Extend) => "extend_cursor_up",
            Command::Vertical(Direction::Forward, Movement::Extend) => "extend_cursor_down",
            Command::Word(WordMotionTarget::NextWordStart, false) => "move_next_word_start",
            Command::Word(WordMotionTarget::NextLongWordStart, false) => "move_next_long_word_start",
            Command::Word(WordMotionTarget::NextWordEnd, false) => "move_next_word_end",
            Command::Word(WordMotionTarget::NextLongWordEnd, false) => "move_next_long_word_end",
            Command::Word(WordMotionTarget::PrevWordStart, false) => "move_prev_word_start",
            Command::Word(WordMotionTarget::PrevLongWordStart, false) => "move_prev_long_word_start",
            Command::Word(WordMotionTarget::NextWordStart, true) => "extend_next_word_start",
            Command::Word(WordMotionTarget::NextLongWordStart, true) => "extend_next_long_word_start",
            Command::Word(WordMotionTarget::NextWordEnd, true) => "extend_next_word_end",
            Command::Word(WordMotionTarget::NextLongWordEnd, true) => "extend_next_long_word_end",
            Command::Word(WordMotionTarget::PrevWordStart, true) => "extend_prev_word_start",
            Command::Word(WordMotionTarget::PrevLongWordStart, true) => "extend_prev_long_word_start",
            Command::FindChar(Direction::Forward, true, false) => "move_on_next_char_forward",
            Command::FindChar(Direction::Backward, true, false) => "move_on_next_char_backward",
            Command::FindChar(Direction::Forward, false, false) => "move_before_char_forward",
            Command::FindChar(Direction::Backward, false, false) => "move_before_char_backward",
            Command::FindChar(Direction::Forward, true, true) => "extend_on_next_char_forward",
            Command::FindChar(Direction::Backward, true, true) => "extend_on_next_char_backward",
            Command::FindChar(Direction::Forward, false, true) => "extend_before_char_forward",
            Command::FindChar(Direction::Backward, false, true) => "extend_before_char_backward",
            Command::GotoLineStart(false) => "goto_line_start",
            Command::GotoLineStart(true) => "goto_line_start_extend",
            Command::GotoLineEnd(false) => "goto_line_end",
            Command::GotoLineEnd(true) => "goto_line_end_extend",
            Command::GotoPending => "goto_pending",
            Command::EnterInsert => "enter_insert",
            Command::EnterInsertAppend => "enter_insert_append",
            Command::InsertAtLineStart => "insert_at_line_start",
            Command::InsertAtLineEnd => "insert_at_line_end",
            Command::EnterSelect => "enter_select",
            Command::EnterNormal => "enter_normal",
            Command::Yank => "yank",
            Command::OpenBelow => "open_below",
            Command::OpenAbove => "open_above",
            Command::DeleteSelections => "delete_selections",
            Command::ChangeSelections => "change_selections",
            Command::PasteAfterCursor => "paste_after_cursor",
            Command::PasteBeforeCursor => "paste_before_cursor",
            Command::Undo => "undo",
            Command::Redo => "redo",
            Command::InsertNewLine => "insert_new_line",
            Command::InsertTab => "insert_tab",
            Command::DeleteCharBackward => "delete_char_backward",
        }
    }
}

/// The command a char key is bound to in Normal mode, or in Select mode (`select`),
/// where the motions stretch the ranges and v goes back to Normal.
pub open spec fn char_command(c: char, select: bool) -> Option<Command> {
    let m = if select {
        Movement::Extend
    } else {
        Movement::Move
    };
    if c == 'h' {
        Some(Command::Horizontal(Direction::Backward, m))
    } else if c == 'l' {
        Some(Command::Horizontal(Direction::Forward, m))
    } else if c == 'j' {
        Some(Command::Vertical(Direction::Forward, m))
    } else if c == 'k' {
        Some(Command::Vertical(Direction::Backward, m))
    } else if c == 'w' {
        Some(Command::Word(WordMotionTarget::NextWordStart, select))
    } else if c == 'W' {
        Some(Command::Word(WordMotionTarget::NextLongWordStart, select))
    } else if c == 'e' {
        Some(Command::Word(WordMotionTarget::NextWordEnd, select))
    } else if c == 'E' {
        Some(Command::Word(WordMotionTarget::NextLongWordEnd, select))
    } else if c == 'b' {
        Some(Command::Word(WordMotionTarget::PrevWordStart, select))
    } else if c == 'B' {
        Some(Command::Word(WordMotionTarget::PrevLongWordStart, select))
    } else if c == 'f' {
        Some(Command::FindChar(Direction::Forward, true, select))
    } else if c == 'F' {
        Some(Command::FindChar(Direction::Backward, true, select))
    } else if c == 't' {
        Some(Command::FindChar(Direction::Forward, false, select))
    } else if c == 'T' {
        Some(Command::FindChar(Direction::Backward, false, select))
    } else if c == 'v' {
        Some(if select { Command::EnterNormal } else { Command::EnterSelect })
    } else if c == 'i' {
        Some(Command::EnterInsert)
    } else if c == 'a' {
        Some(Command::EnterInsertAppend)
    } else if c == 'I' {
        Some(Command::InsertAtLineStart)
    } else if c == 'A' {
        Some(Command::InsertAtLineEnd)
    } else if c == 'o' {
        Some(Command::OpenBelow)
    } else if c == 'O' {
        Some(Command::OpenAbove)
    } else if c == 'd' {
        Some(Command::DeleteSelections)
    } else if c == 'c' {
        Some(Command::ChangeSelections)
    } else if c == 'y' {
        Some(Command::Yank)
    } else if c == 'p' {
        Some(Command::PasteAfterCursor)
    } else if c == 'P' {
        Some(Command::PasteBeforeCursor)
    } else if c == 'u' {
        Some(Command::Undo)
    } else if c == 'U' {
        Some(Command::Redo)
    } else if c == 'g' {
        Some(Command::GotoPending)
    } else {
        None
    }
}

/// The command `key` is bound to in `mode`. In Normal and Select mode a key that types
/// one char goes by that char; Home and End run `GotoLineStart` and `GotoLineEnd`
/// (stretching in Select mode); Escape leaves Select and Insert mode.
pub open spec fn key_command(mode: Mode, key: Key) -> Option<Command> {
    let select = mode == Mode::Select;
    match mode {
        Mode::Insert => match key {
            Key::Named(NamedKey::Escape) => Some(Command::EnterNormal),
            Key::Named(NamedKey::Home) => Some(Command::GotoLineStart(false)),
            Key::Named(NamedKey::End) => Some(Command::GotoLineEnd(false)),
            _ => None,
        },
        _ => match key {
            Key::Character(s) => match single_char(s@) {
                Some(c) => char_command(c, select),
                None => None,
            },
            Key::Named(NamedKey::Home) => Some(Command::GotoLineStart(select)),
            Key::Named(NamedKey::End) => Some(Command::GotoLineEnd(select)),
            Key::Named(NamedKey::Escape) => if select {
                Some(Command::EnterNormal)
            } else {
                None
            },
            Key::Named(_) => None,
        },
    }
}

/// The number `key` adds to the count: outside Insert mode, a key that reads as a
/// number, when it is not 0 or a count is already pending (so a leading 0 is no count).
pub open spec fn count_number(mode: Mode, count_pending: bool, key: Key) -> Option<usize> {
    match key {
        Key::Character(s) => match parsed_usize(s@) {
            Some(n) => if mode != Mode::Insert && (count_pending || n != 0) {
                Some(n)
            } else {
                None
            },
            None => None,
        },
        Key::Named(_) => None,
    }
}

/// What `key` asks for in `mode`: a number for the count first, then the mode's
/// bindings; in Insert mode an unbound key types its first char.
pub open spec fn key_outcome(mode: Mode, count_pending: bool, key: Key) -> KeyOutcome {
    match count_number(mode, count_pending, key) {
        Some(n) => KeyOutcome::AppendCount(n),
        None => match key_command(mode, key) {
            Some(c) => KeyOutcome::Run(command_name(c)),
            None => if mode == Mode::Insert {
                match key {
                    Key::Named(NamedKey::Backspace) => KeyOutcome::DeleteBackward,
                    Key::Named(NamedKey::Enter) => KeyOutcome::InsertText("\n"),
                    Key::Named(NamedKey::Tab) => KeyOutcome::InsertText("\t"),
                    Key::Character(s) => if s@.len() > 0 {
                        KeyOutcome::InsertChar(s@[0])
                    } else {
                        KeyOutcome::Nothing
                    },
                    Key::Named(_) => KeyOutcome::Nothing,
                }
            } else {
                KeyOutcome::Nothing
            },
        },
    }
}

/// Looks up a char key in the Normal-mode (or Select-mode) bindings.
fn char_command_of(c: char, select: bool) -> (r: Option<Command>)
    ensures
        r == char_command(c, select),
{
    let m = if select {
        Movement::Extend
    } else {
        Movement::Move
    };
    match c {
        'h' => Some(Command::Horizontal(Direction::Backward, m)),
        'l' => Some(Command::Horizontal(Direction::Forward, m)),
        'j' => Some(Command::Vertical(Direction::Forward, m)),
        'k' => Some(Command::Vertical(Direction::Backward, m)),
        'w' => Some(Command::Word(WordMotionTarget::NextWordStart, select)),
        'W' => Some(Command::Word(WordMotionTarget::NextLongWordStart, select)),
        'e' => Some(Command::Word(WordMotionTarget::NextWordEnd, select)),
        'E' => Some(Command::Word(WordMotionTarget::NextLongWordEnd, select)),
        'b' => Some(Command::Word(WordMotionTarget::PrevWordStart, select)),
        'B' => Some(Command::Word(WordMotionTarget::PrevLongWordStart, select)),
        'f' => Some(Command::FindChar(Direction::Forward, true, select)),
        'F' => Some(Command::FindChar(Direction::Backward, true, select)),
        't' => Some(Command::FindChar(Direction::Forward, false, select)),
        'T' => Some(Command::FindChar(Direction::Backward, false, select)),
        'v' => Some(if select { Command::EnterNormal } else { Command::EnterSelect }),
        'i' => Some(Command::EnterInsert),
        'a' => Some(Command::EnterInsertAppend),
        'I' => Some(Command::InsertAtLineStart),
        'A' => Some(Command::InsertAtLineEnd),
        'o' => Some(Command::OpenBelow),
        'O' => Some(Command::OpenAbove),
        'd' => Some(Command::DeleteSelections),
        'c' => Some(Command::ChangeSelections),
        'y' => Some(Command::Yank),
        'p' => Some(Command::PasteAfterCursor),
        'P' => Some(Command::PasteBeforeCursor),
        'u' => Some(Command::Undo),
        'U' => Some(Command::Redo),
        'g' => Some(Command::GotoPending),
        _ => None,
    }
}

fn char_of(s: &String) -> (c: Option<char>)
    ensures
        c == single_char(s@),
{
    let text = s.as_str();
    if text.unicode_len() == 1 {
        Some(text.get_char(0))
    } else {
        None
    }
}

/// The first char of `s`, if it has one.
fn first_char(s: &String) -> (c: Option<char>)
    ensures
        c == (if s@.len() > 0 {
            Some(s@[0])
        } else {
            None::<char>
        }),
{
    let text = s.as_str();
    if text.unicode_len() > 0 {
        Some(text.get_char(0))
    } else {
        None
    }
}

/// The command `key` is bound to in `mode`.
pub fn key_command_of(mode: Mode, key: &Key) -> (r: Option<Command>)
    ensures
        r == key_command(mode, *key),
{
    let select = mode == Mode::Select;
    match mode {
        Mode::Insert => match key {
            Key::Named(NamedKey::Escape) => Some(Command::EnterNormal),
            Key::Named(NamedKey::Home) => Some(Command::GotoLineStart(false)),
            Key::Named(NamedKey::End) => Some(Command::GotoLineEnd(false)),
            _ => None,
        },
        _ => match key {
            Key::Character(s) => match char_of(s) {
                Some(c) => char_command_of(c, select),
                None => None,
            },
            Key::Named(NamedKey::Home) => Some(Command::GotoLineStart(select)),
            Key::Named(NamedKey::End) => Some(Command::GotoLineEnd(select)),
            Key::Named(NamedKey::Escape) => if select {
                Some(Command::EnterNormal)
            } else {
                None
            },
            Key::Named(_) => None,
        },
    }
}

/// The number `key` adds to the count, if it adds one.
fn count_number_of(mode: Mode, count_pending: bool, key: &Key) -> (r: Option<usize>)
    ensures
        r == count_number(mode, count_pending, *key),
{
    match key {
        Key::Character(s) => match parse_usize(s.as_str()) {
            Some(n) => if mode != Mode::Insert && (count_pending || n != 0) {
                Some(n)
            } else {
                None
            },
            None => None,
        },
        Key::Named(_) => None,
    }
}

/// Interprets one keypress in `mode`, with `count_pending` telling whether a count is
/// being typed.
pub fn handle_key(mode: Mode, count_pending: bool, key: &Key) -> (o: KeyOutcome)
    ensures
        o == key_outcome(mode, count_pending, *key),
{
    match count_number_of(mode, count_pending, key) {
        Some(n) => KeyOutcome::AppendCount(n),
        None => match key_command_of(mode, key) {
            Some(c) => KeyOutcome::Run(c.name()),
            None => if mode == Mode::Insert {
                match key {
                    Key::Named(NamedKey::Backspace) => KeyOutcome::DeleteBackward,
                    Key::Named(NamedKey::Enter) => KeyOutcome::InsertText("\n"),
                    Key::Named(NamedKey::Tab) => KeyOutcome::InsertText("\t"),
                    Key::Character(s) => match first_char(s) {
                        Some(c) => KeyOutcome::InsertChar(c),
                        None => KeyOutcome::Nothing,
                    },
                    Key::Named(_) => KeyOutcome::Nothing,
                }
            } else {
                KeyOutcome::Nothing
            },
        },
    }
}

/// The count a command takes: the one typed, or 1.
pub open spec fn count_or_one(count: Option<usize>) -> usize {
    match count {
        Some(n) => n,
        None => 1,
    }
}

/// The count typed so far, 0 when none.
pub open spec fn count_value(count: Option<usize>) -> int {
    match count {
        Some(n) => n as int,
        None => 0,
    }
}

/// `new` is `base` with the selection mapped range by range through `g`.
pub open spec fn selection_mapped(base: Editor, new: Editor, g: spec_fn(Range) -> Range) -> bool {
    &&& new == (Editor { selection: new.selection, ..base })
    &&& new.selection@ == mapped_selection(base, g)
}

/// `new` is `base` in `mode`, with the selection mapped range by range through `g`.
pub open spec fn selection_mapped_in(
    base: Editor,
    new: Editor,
    g: spec_fn(Range) -> Range,
    mode: Mode,
) -> bool {
    &&& new == (Editor { selection: new.selection, mode, ..base })
    &&& new.selection@ == mapped_selection(base, g)
}

/// What running `c` makes of `e`. Motions that repeat take the count (1 when none was
/// typed) and clear it; f/t/F/T and g wait for the next key; d and c delete, p and P
/// paste, o and O open a line, u and U undo and redo.
pub open spec fn command_effect(e: Editor, c: Command, new: Editor) -> bool {
    let t = e.document.text();
    let n = count_or_one(e.count) as nat;
    let counted = Editor { count: None, ..e };
    match c {
        Command::Horizontal(dir, m) => selection_mapped(counted, new, h_map(t, dir, n, m)),
        Command::Vertical(dir, m) => selection_mapped(counted, new, v_map(t, dir, n, m)),
        Command::Word(target, false) => selection_mapped(counted, new, word_map(t, n, target)),
        Command::Word(target, true) => selection_mapped(counted, new, extend_word_map(t, n, target)),
        Command::FindChar(dir, inclusive, extend) => new == (Editor {
            pending_find: Some(
                PendingFind { count: count_or_one(e.count), dir, inclusive, extend },
            ),
            ..e
        }),
        Command::GotoLineStart(false) => selection_mapped(e, new, line_start_map(t, false)),
        Command::GotoLineStart(true) => selection_mapped(e, new, put_map(t, 0, true)),
        Command::GotoLineEnd(extend) => selection_mapped(
            e,
            new,
            put_map(t, prev_boundary(t, t.len() as int), extend),
        ),
        Command::GotoPending => new == (Editor { pending_goto: true, ..e }),
        Command::EnterInsert => selection_mapped_in(e, new, insert_map(), Mode::Insert),
        Command::EnterInsertAppend => selection_mapped_in(e, new, append_map(t), Mode::Insert),
        Command::InsertAtLineStart => selection_mapped_in(
            e,
            new,
            line_start_insert_map(t),
            Mode::Insert,
        ),
        Command::InsertAtLineEnd => selection_mapped_in(e, new, line_end_insert_map(t), Mode::Insert),
        Command::Undo => undone(e, new),
        Command::PasteAfterCursor => pasted(e, true, new),
        Command::PasteBeforeCursor => pasted(e, false, new),
        Command::OpenBelow => opened(e, true, new),
        Command::OpenAbove => opened(e, false, new),
        Command::DeleteSelections => deleted_selections(e, new),
        Command::ChangeSelections => new.mode == Mode::Insert && deleted_selections(
            e,
            Editor { mode: Mode::Normal, ..new },
        ),
        Command::Redo => redone(e, new),
        Command::InsertNewLine => inserted(e, "\n"@, new),
        Command::InsertTab => inserted(e, "\t"@, new),
        Command::DeleteCharBackward => backspaced(e, new),
        Command::EnterSelect => new == (Editor { mode: Mode::Select, ..e }),
        Command::EnterNormal => new == (Editor { mode: Mode::Normal, ..e }),
        Command::Yank => {
            &&& new == (Editor { registers: new.registers, mode: Mode::Normal, ..e })
            &&& new.registers@.len() == e.selection@.ranges.len()
            &&& forall|i: int|
                0 <= i < new.registers@.len() ==> (#[trigger] new.registers@[i])@ == yanked(
                    e.selection@.ranges[i],
                    t,
                )
        },
    }
}

/// What `key` makes of `e`. A waiting g takes the key first (h: line start, l: last
/// grapheme of the text, g: text start), then a waiting f/t/F/T (the key's first char
/// is the target; the count is used up); either way the wait ends. Otherwise a number
/// goes to the count, and a bound key runs its command. In Insert mode an unbound key
/// types: Enter a line break, Tab a tab, a char key its first char; Backspace deletes
/// the grapheme before each head.
pub open spec fn key_applied(e: Editor, key: Key, new: Editor) -> bool {
    let t = e.document.text();
    if e.pending_goto {
        let base = Editor { pending_goto: false, ..e };
        match key {
            Key::Character(s) => if single_char(s@) == Some('h') {
                selection_mapped(base, new, line_start_map(t, false))
            } else if single_char(s@) == Some('l') {
                selection_mapped(base, new, put_map(t, prev_boundary(t, t.len() as int), false))
            } else if single_char(s@) == Some('g') {
                selection_mapped(base, new, put_map(t, 0, false))
            } else {
                new == base
            },
            Key::Named(_) => new == base,
        }
    } else if e.pending_find is Some {
        let base = Editor { pending_find: None, ..e };
        match key {
            Key::Character(s) => if s@.len() > 0 {
                selection_mapped(
                    Editor { count: None, ..base },
                    new,
                    find_map(t, e.pending_find.unwrap(), s@[0]),
                )
            } else {
                new == base
            },
            Key::Named(_) => new == base,
        }
    } else {
        match count_number(e.mode, e.count is Some, key) {
            Some(n) => new == (Editor { count: Some((count_value(e.count) * 10 + n) as usize), ..e }),
            None => match key_command(e.mode, key) {
                Some(c) => command_effect(e, c, new),
                None => if e.mode == Mode::Insert {
                    match key {
                        Key::Named(NamedKey::Enter) => inserted(e, "\n"@, new),
                        Key::Named(NamedKey::Tab) => inserted(e, "\t"@, new),
                        Key::Named(NamedKey::Backspace) => backspaced(e, new),
                        Key::Character(s) => if s@.len() > 0 {
                            inserted(e, seq![s@[0]], new)
                        } else {
                            new == e
                        },
                        Key::Named(_) => new == e,
                    }
                } else {
                    new == e
                },
            },
        }
    }
}

/// A count that `key` would add to fits a `usize`.
pub open spec fn count_fits(e: Editor, key: Key) -> bool {
    !e.pending_goto && e.pending_find is None ==> match count_number(e.mode, e.count is Some, key) {
        Some(n) => count_value(e.count) * 10 + n <= usize::MAX,
        None => true,
    }
}

/// Runs the command `c` on `editor`.
pub fn run_command(editor: &mut Editor, c: Command)
    requires
        old(editor).wf(),
        paste_fits(*old(editor)),
        old(editor).document.text().len() + old(editor).selection@.ranges.len() < usize::MAX,
        old(editor).pending_find is None,
        !old(editor).pending_goto,
    ensures
        final(editor).wf(),
        command_effect(*old(editor), c, *final(editor)),
{
    match c {
        Command::Horizontal(dir, m) => {
            let n = editor.take_count();
            editor.move_h(dir, n, m);
        },
        Command::Vertical(dir, m) => {
            let n = editor.take_count();
            editor.move_v(dir, n, m);
        },
        Command::Word(target, extend) => {
            let n = editor.take_count();
            match (target, extend) {
                (WordMotionTarget::NextWordStart, false) => editor.move_next_word_start(n),
                (WordMotionTarget::NextLongWordStart, false) => editor.move_next_long_word_start(n),
                (WordMotionTarget::NextWordEnd, false) => editor.move_next_word_end(n),
                (WordMotionTarget::NextLongWordEnd, false) => editor.move_next_long_word_end(n),
                (WordMotionTarget::PrevWordStart, false) => editor.move_prev_word_start(n),
                (WordMotionTarget::PrevLongWordStart, false) => editor.move_prev_long_word_start(n),
                (WordMotionTarget::NextWordStart, true) => editor.extend_next_word_start(n),
                (WordMotionTarget::NextLongWordStart, true) => editor.extend_next_long_word_start(n),
                (WordMotionTarget::NextWordEnd, true) => editor.extend_next_word_end(n),
                (WordMotionTarget::NextLongWordEnd, true) => editor.extend_next_long_word_end(n),
                (WordMotionTarget::PrevWordStart, true) => editor.extend_prev_word_start(n),
                (WordMotionTarget::PrevLongWordStart, true) => editor.extend_prev_long_word_start(n),
            }
        },
        Command::FindChar(dir, inclusive, extend) => {
            let count = match editor.count {
                Some(n) => n,
                None => 1,
            };
            editor.pending_find = Some(PendingFind { count, dir, inclusive, extend });
        },
        Command::GotoLineStart(false) => editor.goto_line_start(false),
        Command::GotoLineStart(true) => editor.goto_file_start(true),
        Command::GotoLineEnd(extend) => editor.goto_file_end(extend),
        Command::GotoPending => {
            editor.pending_goto = true;
        },
        Command::EnterInsert => editor.enter_insert(),
        Command::EnterInsertAppend => editor.enter_insert_append(),
        Command::InsertAtLineStart => editor.insert_at_line_start(),
        Command::InsertAtLineEnd => editor.insert_at_line_end(),
        Command::EnterSelect => editor.enter_select(),
        Command::EnterNormal => editor.enter_normal(),
        Command::Yank => editor.yank(),
        Command::Undo => editor.undo(),
        Command::PasteAfterCursor => editor.paste(true),
        Command::PasteBeforeCursor => editor.paste(false),
        Command::OpenBelow => editor.open_below(),
        Command::OpenAbove => editor.open_above(),
        Command::DeleteSelections => editor.delete_selections(),
        Command::ChangeSelections => editor.change_selections(),
        Command::Redo => editor.redo(),
        Command::InsertNewLine => {
            proof {
                reveal_strlit("\n");
                let n = editor.selection@.ranges.len();
                assert(n * 1 == n);
            }
            editor.insert_text("\n")
        },
        Command::InsertTab => {
            proof {
                reveal_strlit("\t");
                let n = editor.selection@.ranges.len();
                assert(n * 1 == n);
            }
            editor.insert_text("\t")
        },
        Command::DeleteCharBackward => editor.delete_char_backward(),
    }
}

/// Carries out one keypress on `editor`.
pub fn apply_key(editor: &mut Editor, key: &Key)
    requires
        old(editor).wf(),
        old(editor).document.text().len() + old(editor).selection@.ranges.len() < usize::MAX,
        count_fits(*old(editor), *key),
        paste_fits(*old(editor)),
    ensures
        final(editor).wf(),
        key_applied(*old(editor), *key, *final(editor)),
{
    if editor.pending_goto {
        editor.pending_goto = false;
        if let Key::Character(s) = key {
            match char_of(s) {
                Some('h') => editor.goto_line_start(false),
                Some('l') => editor.goto_file_end(false),
                Some('g') => editor.goto_file_start(false),
                _ => {},
            }
        }
        return;
    }
    if let Some(find) = editor.pending_find {
        editor.pending_find = None;
        if let Key::Character(s) = key {
            if let Some(c) = first_char(s) {
                editor.take_count();
                editor.find_char(&find, c);
            }
        }
        return;
    }
    match count_number_of(editor.mode, editor.count.is_some(), key) {
        Some(n) => editor.push_count_digit(n),
        None => match key_command_of(editor.mode, key) {
            Some(c) => run_command(editor, c),
            None => if editor.mode == Mode::Insert {
                proof {
                    reveal_strlit("\n");
                    reveal_strlit("\t");
                    let n = editor.selection@.ranges.len();
                    assert(n * 1 == n);
                }
                match key {
                    Key::Named(NamedKey::Enter) => editor.insert_text("\n"),
                    Key::Named(NamedKey::Tab) => editor.insert_text("\t"),
                    Key::Named(NamedKey::Backspace) => editor.delete_char_backward(),
                    Key::Character(s) => match first_char(s) {
                        Some(c) => editor.insert_char(c),
                        None => {},
                    },
                    Key::Named(_) => {},
                }
            },
        },
    }
}

/// The name a key goes by in a key binding: the text it types, or `<ESC>`, `<HOME>`,
/// `<ENTER>`, `<BACKSPACE>`, `<TAB>`; other named keys have none.
pub open spec fn key_name(key: Key) -> Option<Seq<char>> {
    match key {
        Key::Character(s) => Some(s@),
        Key::Named(NamedKey::Escape) => Some("<ESC>"@),
        Key::Named(NamedKey::Home) => Some("<HOME>"@),
        Key::Named(NamedKey::Enter) => Some("<ENTER>"@),
        Key::Named(NamedKey::Backspace) => Some("<BACKSPACE>"@),
        Key::Named(NamedKey::Tab) => Some("<TAB>"@),
        Key::Named(_) => None,
    }
}

/// The name `key` goes by in a key binding.
pub fn convert_key(key: &Key) -> (name: Option<String>)
    ensures
        match name {
            Some(s) => key_name(*key) == Some(s@),
            None => key_name(*key) is None,
        },
{
    match key {
        Key::Character(ch) => Some(ch.clone()),
        Key::Named(NamedKey::Escape) => Some(String::from_str("<ESC>")),
        Key::Named(NamedKey::Home) => Some(String::from_str("<HOME>")),
        Key::Named(NamedKey::Enter) => Some(String::from_str("<ENTER>")),
        Key::Named(NamedKey::Backspace) => Some(String::from_str("<BACKSPACE>")),
        Key::Named(NamedKey::Tab) => Some(String::from_str("<TAB>")),
        Key::Named(_) => None,
    }
}


/// What a configuration asks of the key bindings: bind keys in a mode to a command (by
/// name), or take the binding of keys in a mode away.
pub enum KeyAction {
    Add((String, String, String)),
    Remove((String, String)),
}

/// Whether `name` is the name of a command.
pub open spec fn is_command_name(name: Seq<char>) -> bool {
    exists|c: Command| (#[trigger] command_name(c))@ == name
}

/// The mode a binding names: `normal`, `insert` or `select`.
pub open spec fn mode_named(m: Seq<char>) -> Option<Mode> {
    if m == "normal"@ {
        Some(Mode::Normal)
    } else if m == "insert"@ {
        Some(Mode::Insert)
    } else if m == "select"@ {
        Some(Mode::Select)
    } else {
        None
    }
}

/// The bindings of `mode` after the steps `(mode, keys, command name)` one after
/// another: a later binding of the same keys wins, a name that is no command binds
/// nothing, and a step without a name takes the binding of its keys away.
pub open spec fn bindings_of(steps: Seq<(Seq<char>, Seq<char>, Option<Seq<char>>)>, mode: Mode) -> Map<
    Seq<char>,
    Seq<char>,
>
    decreases steps.len(),
{
    if steps.len() == 0 {
        Map::empty()
    } else {
        let m = bindings_of(steps.drop_last(), mode);
        let (md, keys, name) = steps.last();
        if mode_named(md) == Some(mode) {
            binding_step(m, keys, name)
        } else {
            m
        }
    }
}

/// The bindings every key tree starts from: (mode, keys, command name).
pub open spec fn default_keys() -> Seq<(&'static str, &'static str, &'static str)> {
    seq![
        ("normal", "h", "move_cursor_left"),
        ("normal", "l", "move_cursor_right"),
        ("normal", "j", "move_cursor_down"),
        ("normal", "k", "move_cursor_up"),
        ("normal", "i", "enter_insert"),
        ("normal", "a", "enter_insert_append"),
        ("normal", "I", "insert_at_line_start"),
        ("normal", "A", "insert_at_line_end"),
        ("normal", "o", "open_below"),
        ("normal", "O", "open_above"),
        ("normal", "v", "enter_select"),
        ("normal", "w", "move_next_word_start"),
        ("normal", "W", "move_next_long_word_start"),
        ("normal", "e", "move_next_word_end"),
        ("normal", "E", "move_next_load_word_end"),
        ("normal", "b", "move_prev_word_start"),
        ("normal", "B", "move_prev_long_word_start"),
        ("normal", "d", "delete_selections"),
        ("normal", "c", "change_selections"),
        ("normal", "y", "yank"),
        ("normal", "p", "paste_after_cursor"),
        ("normal", "P", "paste_before_cursor"),
        ("normal", "u", "undo"),
        ("normal", "U", "redo"),
        ("normal", "f", "move_on_next_char_forward"),
        ("normal", "F", "move_on_next_char_backward"),
        ("normal", "t", "move_before_char_forward"),
        ("normal", "T", "move_before_char_backward"),
        ("normal", "g", "goto_pending"),
        ("normal", "<HOME>", "goto_line_start"),
        ("normal", "<END>", "goto_line_end"),
        ("select", "h", "extend_cursor_left"),
        ("select", "l", "extend_cursor_right"),
        ("select", "j", "extend_cursor_down"),
        ("select", "k", "extend_cursor_up"),
        ("select", "i", "enter_insert"),
        ("select", "a", "enter_insert_append"),
        ("select", "I", "insert_at_line_start"),
        ("select", "A", "insert_at_line_end"),
        ("select", "o", "open_below"),
        ("select", "O", "open_above"),
        ("select", "v", "enter_normal"),
        ("select", "w", "extend_next_word_start"),
        ("select", "W", "extend_next_long_word_start"),
        ("select", "e", "extend_next_word_end"),
        ("select", "E", "extend_next_long_word_end"),
        ("select", "b", "extend_prev_word_start"),
        ("select", "B", "extend_prev_long_word_start"),
        ("select", "d", "delete_selections"),
        ("select", "c", "change_selections"),
        ("select", "y", "yank"),
        ("select", "p", "paste_after_cursor"),
        ("select", "P", "paste_before_cursor"),
        ("select", "u", "undo"),
        ("select", "U", "redo"),
        ("select", "f", "extend_on_next_char_forward"),
        ("select", "F", "extend_on_next_char_backward"),
        ("select", "t", "extend_before_char_forward"),
        ("select", "T", "extend_before_char_backward"),
        ("select", "g", "goto_pending"),
        ("select", "<ESC>", "enter_normal"),
        ("select", "<HOME>", "goto_line_start"),
        ("select", "<END>", "goto_line_end"),
        ("insert", "<ESC>", "enter_normal"),
        ("insert", "<HOME>", "goto_line_start"),
        ("insert", "<END>", "goto_line_end"),
        ("insert", "<BACKSPACE>", "delete_char_backward"),
        ("insert", "<ENTER>", "insert_new_line"),
        ("insert", "<TAB>", "insert_tab")
    ]
}

/// The default bindings as steps.
pub open spec fn default_steps() -> Seq<(Seq<char>, Seq<char>, Option<Seq<char>>)> {
    default_keys().map_values(
        |e: (&'static str, &'static str, &'static str)| (e.0@, e.1@, Some(e.2@)),
    )
}

/// What the configured actions ask, as steps.
pub open spec fn action_steps(actions: Seq<KeyAction>) -> Seq<(Seq<char>, Seq<char>, Option<Seq<char>>)> {
    actions.map_values(
        |a: KeyAction|
            match a {
                KeyAction::Add((m, k, c)) => (m@, k@, Some(c@)),
                KeyAction::Remove((m, k)) => (m@, k@, None),
            },
    )
}

/// The default bindings, in order.
fn default_key_table() -> (v: Vec<(&'static str, &'static str, &'static str)>)
    ensures
        v@ == default_keys(),
{
    vec![
        ("normal", "h", "move_cursor_left"),
        ("normal", "l", "move_cursor_right"),
        ("normal", "j", "move_cursor_down"),
        ("normal", "k", "move_cursor_up"),
        ("normal", "i", "enter_insert"),
        ("normal", "a", "enter_insert_append"),
        ("normal", "I", "insert_at_line_start"),
        ("normal", "A", "insert_at_line_end"),
        ("normal", "o", "open_below"),
        ("normal", "O", "open_above"),
        ("normal", "v", "enter_select"),
        ("normal", "w", "move_next_word_start"),
        ("normal", "W", "move_next_long_word_start"),
        ("normal", "e", "move_next_word_end"),
        ("normal", "E", "move_next_load_word_end"),
        ("normal", "b", "move_prev_word_start"),
        ("normal", "B", "move_prev_long_word_start"),
        ("normal", "d", "delete_selections"),
        ("normal", "c", "change_selections"),
        ("normal", "y", "yank"),
        ("normal", "p", "paste_after_cursor"),
        ("normal", "P", "paste_before_cursor"),
        ("normal", "u", "undo"),
        ("normal", "U", "redo"),
        ("normal", "f", "move_on_next_char_forward"),
        ("normal", "F", "move_on_next_char_backward"),
        ("normal", "t", "move_before_char_forward"),
        ("normal", "T", "move_before_char_backward"),
        ("normal", "g", "goto_pending"),
        ("normal", "<HOME>", "goto_line_start"),
        ("normal", "<END>", "goto_line_end"),
        ("select", "h", "extend_cursor_left"),
        ("select", "l", "extend_cursor_right"),
        ("select", "j", "extend_cursor_down"),
        ("select", "k", "extend_cursor_up"),
        ("select", "i", "enter_insert"),
        ("select", "a", "enter_insert_append"),
        ("select", "I", "insert_at_line_start"),
        ("select", "A", "insert_at_line_end"),
        ("select", "o", "open_below"),
        ("select", "O", "open_above"),
        ("select", "v", "enter_normal"),
        ("select", "w", "extend_next_word_start"),
        ("select", "W", "extend_next_long_word_start"),
        ("select", "e", "extend_next_word_end"),
        ("select", "E", "extend_next_long_word_end"),
        ("select", "b", "extend_prev_word_start"),
        ("select", "B", "extend_prev_long_word_start"),
        ("select", "d", "delete_selections"),
        ("select", "c", "change_selections"),
        ("select", "y", "yank"),
        ("select", "p", "paste_after_cursor"),
        ("select", "P", "paste_before_cursor"),
        ("select", "u", "undo"),
        ("select", "U", "redo"),
        ("select", "f", "extend_on_next_char_forward"),
        ("select", "F", "extend_on_next_char_backward"),
        ("select", "t", "extend_before_char_forward"),
        ("select", "T", "extend_before_char_backward"),
        ("select", "g", "goto_pending"),
        ("select", "<ESC>", "enter_normal"),
        ("select", "<HOME>", "goto_line_start"),
        ("select", "<END>", "goto_line_end"),
        ("insert", "<ESC>", "enter_normal"),
        ("insert", "<HOME>", "goto_line_start"),
        ("insert", "<END>", "goto_line_end"),
        ("insert", "<BACKSPACE>", "delete_char_backward"),
        ("insert", "<ENTER>", "insert_new_line"),
        ("insert", "<TAB>", "insert_tab")
    ]
}


impl Command {
    /// The command that goes by `name` in key bindings, if any.
    pub fn from_name(name: &str) -> (r: Option<Command>)
        ensures
            r matches Some(c) ==> command_name(c)@ == name@,
            r is None ==> !is_command_name(name@),
    {
        if same_text(name, "move_cursor_left") {
            Some(Command::Horizontal(Direction::Backward, Movement::Move))
        } else if same_text(name, "move_cursor_right") {
            Some(Command::Horizontal(Direction::Forward, Movement::Move))
        } else if same_text(name, "extend_cursor_left") {
            Some(Command::Horizontal(Direction::Backward, Movement::Extend))
        } else if same_text(name, "extend_cursor_right") {
            Some(Command::Horizontal(Direction::Forward, Movement::Extend))
        } else if same_text(name, "move_cursor_up") {
            Some(Command::Vertical(Direction::Backward, Movement::Move))
        } else if same_text(name, "move_cursor_down") {
            Some(Command::Vertical(Direction::Forward, Movement::Move))
        } else if same_text(name, "extend_cursor_up") {
            Some(Command::Vertical(Direction::Backward, Movement::Extend))
        } else if same_text(name, "extend_cursor_down") {
            Some(Command::Vertical(Direction::Forward, Movement::Extend))
        } else if same_text(name, "move_next_word_start") {
            Some(Command::Word(WordMotionTarget::NextWordStart, false))
        } else if same_text(name, "move_next_long_word_start") {
            Some(Command::Word(WordMotionTarget::NextLongWordStart, false))
        } else if same_text(name, "move_next_word_end") {
            Some(Command::Word(WordMotionTarget::NextWordEnd, false))
        } else if same_text(name, "move_next_long_word_end") {
            Some(Command::Word(WordMotionTarget::NextLongWordEnd, false))
        } else if same_text(name, "move_prev_word_start") {
            Some(Command::Word(WordMotionTarget::PrevWordStart, false))
        } else if same_text(name, "move_prev_long_word_start") {
            Some(Command::Word(WordMotionTarget::PrevLongWordStart, false))
        } else if same_text(name, "extend_next_word_start") {
            Some(Command::Word(WordMotionTarget::NextWordStart, true))
        } else if same_text(name, "extend_next_long_word_start") {
            Some(Command::Word(WordMotionTarget::NextLongWordStart, true))
        } else if same_text(name, "extend_next_word_end") {
            Some(Command::Word(WordMotionTarget::NextWordEnd, true))
        } else if same_text(name, "extend_next_long_word_end") {
            Some(Command::Word(WordMotionTarget::NextLongWordEnd, true))
        } else if same_text(name, "extend_prev_word_start") {
            Some(Command::Word(WordMotionTarget::PrevWordStart, true))
        } else if same_text(name, "extend_prev_long_word_start") {
            Some(Command::Word(WordMotionTarget::PrevLongWordStart, true))
        } else if same_text(name, "move_on_next_char_forward") {
            Some(Command::FindChar(Direction::Forward, true, false))
        } else if same_text(name, "move_on_next_char_backward") {
            Some(Command::FindChar(Direction::Backward, true, false))
        } else if same_text(name, "move_before_char_forward") {
            Some(Command::FindChar(Direction::Forward, false, false))
        } else if same_text(name, "move_before_char_backward") {
            Some(Command::FindChar(Direction::Backward, false, false))
        } else if same_text(name, "extend_on_next_char_forward") {
            Some(Command::FindChar(Direction::Forward, true, true))
        } else if same_text(name, "extend_on_next_char_backward") {
            Some(Command::FindChar(Direction::Backward, true, true))
        } else if same_text(name, "extend_before_char_forward") {
            Some(Command::FindChar(Direction::Forward, false, true))
        } else if same_text(name, "extend_before_char_backward") {
            Some(Command::FindChar(Direction::Backward, false, true))
        } else if same_text(name, "goto_line_start") {
            Some(Command::GotoLineStart(false))
        } else if same_text(name, "goto_line_start_extend") {
            Some(Command::GotoLineStart(true))
        } else if same_text(name, "goto_line_end") {
            Some(Command::GotoLineEnd(false))
        } else if same_text(name, "goto_line_end_extend") {
            Some(Command::GotoLineEnd(true))
        } else if same_text(name, "goto_pending") {
            Some(Command::GotoPending)
        } else if same_text(name, "enter_insert") {
            Some(Command::EnterInsert)
        } else if same_text(name, "enter_insert_append") {
            Some(Command::EnterInsertAppend)
        } else if same_text(name, "insert_at_line_start") {
            Some(Command::InsertAtLineStart)
        } else if same_text(name, "insert_at_line_end") {
            Some(Command::InsertAtLineEnd)
        } else if same_text(name, "enter_select") {
            Some(Command::EnterSelect)
        } else if same_text(name, "enter_normal") {
            Some(Command::EnterNormal)
        } else if same_text(name, "yank") {
            Some(Command::Yank)
        } else if same_text(name, "open_below") {
            Some(Command::OpenBelow)
        } else if same_text(name, "open_above") {
            Some(Command::OpenAbove)
        } else if same_text(name, "delete_selections") {
            Some(Command::DeleteSelections)
        } else if same_text(name, "change_selections") {
            Some(Command::ChangeSelections)
        } else if same_text(name, "paste_after_cursor") {
            Some(Command::PasteAfterCursor)
        } else if same_text(name, "paste_before_cursor") {
            Some(Command::PasteBeforeCursor)
        } else if same_text(name, "undo") {
            Some(Command::Undo)
        } else if same_text(name, "redo") {
            Some(Command::Redo)
        } else if same_text(name, "insert_new_line") {
            Some(Command::InsertNewLine)
        } else if same_text(name, "insert_tab") {
            Some(Command::InsertTab)
        } else if same_text(name, "delete_char_backward") {
            Some(Command::DeleteCharBackward)
        } else {
            None
        }
    }
}


/// The bindings an entry list holds: each entry binds its keys to a command name, a
/// later entry for the same keys winning.
pub open spec fn entries_map(s: Seq<(String, String)>) -> Map<Seq<char>, Seq<char>>
    decreases s.len(),
{
    if s.len() == 0 {
        Map::empty()
    } else {
        entries_map(s.drop_last()).insert(s.last().0@, s.last().1@)
    }
}

/// The entries without those for `keys`.
pub open spec fn entries_without(s: Seq<(String, String)>, keys: Seq<char>) -> Seq<(String, String)>
    decreases s.len(),
{
    if s.len() == 0 {
        s
    } else if s.last().0@ == keys {
        entries_without(s.drop_last(), keys)
    } else {
        entries_without(s.drop_last(), keys).push(s.last())
    }
}

/// Leaving out the entries for `keys` takes their binding away and keeps the others.
proof fn lemma_entries_without(s: Seq<(String, String)>, keys: Seq<char>)
    ensures
        entries_map(entries_without(s, keys)) == entries_map(s).remove(keys),
    decreases s.len(),
{
    if s.len() > 0 {
        lemma_entries_without(s.drop_last(), keys);
        let w = entries_without(s.drop_last(), keys);
        if s.last().0@ == keys {
            assert(entries_map(s).remove(keys) =~= entries_map(s.drop_last()).remove(keys));
        } else {
            assert(w.push(s.last()).drop_last() == w);
            assert(entries_map(s).remove(keys) =~= entries_map(s.drop_last()).remove(keys).insert(
                s.last().0@,
                s.last().1@,
            ));
        }
    }
}

/// Entries from `i` on that are not for `keys` do not change its binding.
proof fn lemma_entries_tail(s: Seq<(String, String)>, i: int, keys: Seq<char>)
    requires
        0 <= i <= s.len(),
        forall|j: int| i <= j < s.len() ==> (#[trigger] s[j]).0@ != keys,
    ensures
        entries_map(s).contains_key(keys) == entries_map(s.take(i)).contains_key(keys),
        entries_map(s).contains_key(keys) ==> entries_map(s)[keys] == entries_map(s.take(i))[keys],
    decreases s.len(),
{
    if s.len() > i {
        let init = s.drop_last();
        assert(init.take(i) =~= s.take(i));
        assert(s.last() == s[s.len() - 1]);
        assert forall|j: int| i <= j < init.len() implies (#[trigger] init[j]).0@ != keys by {
            assert(init[j] == s[j]);
        }
        lemma_entries_tail(init, i, keys);
    } else {
        assert(s.take(i) =~= s);
    }
}

/// The bindings of one mode: keys, as `convert_key` names them, to command names.
pub struct KeyMap {
    entries: Vec<(String, String)>,
}

impl KeyMap {
    /// The bindings the map holds.
    pub closed spec fn bound(&self) -> Map<Seq<char>, Seq<char>> {
        entries_map(self.entries@)
    }

    /// No bindings.
    pub fn new() -> (m: Self)
        ensures
            m.bound() == Map::<Seq<char>, Seq<char>>::empty(),
    {
        KeyMap { entries: Vec::new() }
    }

    /// Binds `keys` to the command named `name`, in place of any binding it had.
    pub fn insert(&mut self, keys: String, name: String)
        ensures
            final(self).bound() == old(self).bound().insert(keys@, name@),
    {
        let ghost before = self.entries@;
        self.entries.push((keys, name));
        proof {
            assert(self.entries@.drop_last() == before);
        }
    }

    /// Takes the binding of `keys` away.
    pub fn remove(&mut self, keys: &str)
        ensures
            final(self).bound() == old(self).bound().remove(keys@),
    {
        let ghost s = self.entries@;
        let mut kept: Vec<(String, String)> = Vec::new();
        let mut i: usize = 0;
        while i < self.entries.len()
            invariant
                0 <= i <= s.len(),
                self.entries@ == s,
                kept@ == entries_without(s.take(i as int), keys@),
            decreases s.len() - i,
        {
            proof {
                assert(s.take(i + 1).drop_last() =~= s.take(i as int));
                assert(s.take(i + 1).last() == s[i as int]);
            }
            let e = &self.entries[i];
            if !same_text(e.0.as_str(), keys) {
                kept.push((e.0.clone(), e.1.clone()));
            }
            i = i + 1;
        }
        proof {
            assert(s.take(s.len() as int) =~= s);
            lemma_entries_without(s, keys@);
        }
        self.entries = kept;
    }

    /// The name of the command `keys` is bound to, if any.
    pub fn get(&self, keys: &str) -> (r: Option<String>)
        ensures
            r is Some <==> self.bound().contains_key(keys@),
            r matches Some(n) ==> n@ == self.bound()[keys@],
    {
        let ghost s = self.entries@;
        let mut i: usize = self.entries.len();
        while i > 0
            invariant
                0 <= i <= s.len(),
                self.entries@ == s,
                forall|j: int| i <= j < s.len() ==> (#[trigger] s[j]).0@ != keys@,
            decreases i,
        {
            let e = &self.entries[i - 1];
            if same_text(e.0.as_str(), keys) {
                proof {
                    lemma_entries_tail(s, i as int, keys@);
                    assert(s.take(i as int).drop_last() =~= s.take(i - 1));
                    assert(s.take(i as int).last() == s[i - 1]);
                }
                return Some(e.1.clone());
            }
            i = i - 1;
        }
        proof {
            lemma_entries_tail(s, 0, keys@);
            assert(s.take(0) =~= Seq::<(String, String)>::empty());
        }
        None
    }
}


/// The mode a binding names.
fn mode_of(m: &str) -> (r: Option<Mode>)
    ensures
        r == mode_named(m@),
{
    if same_text(m, "normal") {
        Some(Mode::Normal)
    } else if same_text(m, "insert") {
        Some(Mode::Insert)
    } else if same_text(m, "select") {
        Some(Mode::Select)
    } else {
        None
    }
}

/// The mode an action names.
pub open spec fn action_mode(a: KeyAction) -> Seq<char> {
    match a {
        KeyAction::Add((m, _, _)) => m@,
        KeyAction::Remove((m, _)) => m@,
    }
}

/// The bindings `m` become by binding `keys` to `name`, or, with no name, by taking the
/// binding of `keys` away; a name that is no command binds nothing.
pub open spec fn binding_step(m: Map<Seq<char>, Seq<char>>, keys: Seq<char>, name: Option<Seq<char>>) -> Map<
    Seq<char>,
    Seq<char>,
> {
    match name {
        Some(n) => if is_command_name(n) {
            m.insert(keys, n)
        } else {
            m
        },
        None => m.remove(keys),
    }
}

/// Takes one binding step on `map`.
fn step_map(map: &mut KeyMap, keys: &str, name: Option<&str>)
    ensures
        final(map).bound() == binding_step(
            old(map).bound(),
            keys@,
            match name {
                Some(n) => Some(n@),
                None => None,
            },
        ),
{
    match name {
        Some(n) => {
            if Command::from_name(n).is_some() {
                map.insert(String::from_str(keys), String::from_str(n));
            }
        },
        None => map.remove(keys),
    }
}

/// The key bindings of every mode, and those of a multi-key command waiting for its
/// next key.
pub struct KeyTree {
    normal_map: KeyMap,
    insert_map: KeyMap,
    select_map: KeyMap,
    pending_map: Option<KeyMap>,
}

impl KeyTree {
    /// The bindings of `mode`.
    pub closed spec fn bound(&self, mode: Mode) -> Map<Seq<char>, Seq<char>> {
        match mode {
            Mode::Normal => self.normal_map.bound(),
            Mode::Insert => self.insert_map.bound(),
            Mode::Select => self.select_map.bound(),
        }
    }

    /// Whether a multi-key command waits for its next key.
    pub closed spec fn pending(&self) -> bool {
        self.pending_map is Some
    }

    /// One binding step in the mode `mode` names (none, for a name that is no mode).
    fn apply_step(&mut self, mode: &str, keys: &str, name: Option<&str>)
        ensures
            forall|md: Mode|
                #[trigger] final(self).bound(md) == if mode_named(mode@) == Some(md) {
                    binding_step(
                        old(self).bound(md),
                        keys@,
                        match name {
                            Some(n) => Some(n@),
                            None => None,
                        },
                    )
                } else {
                    old(self).bound(md)
                },
            final(self).pending() == old(self).pending(),
    {
        match mode_of(mode) {
            Some(Mode::Normal) => step_map(&mut self.normal_map, keys, name),
            Some(Mode::Insert) => step_map(&mut self.insert_map, keys, name),
            Some(Mode::Select) => step_map(&mut self.select_map, keys, name),
            None => {},
        }
    }

    /// The bindings: the default ones, then what `config_keys` asks, in order. Every
    /// action must name a mode (`normal`, `insert` or `select`).
    pub fn default(config_keys: Vec<KeyAction>) -> (t: Self)
        requires
            forall|i: int|
                0 <= i < config_keys@.len() ==> mode_named(action_mode(#[trigger] config_keys@[i])) is Some,
        ensures
            forall|md: Mode|
                #[trigger] t.bound(md) == bindings_of(default_steps() + action_steps(config_keys@), md),
            !t.pending(),
    {
        let mut t = KeyTree {
            normal_map: KeyMap::new(),
            insert_map: KeyMap::new(),
            select_map: KeyMap::new(),
            pending_map: None,
        };
        let defaults = default_key_table();
        let ghost steps = default_steps() + action_steps(config_keys@);
        let ghost nd = default_steps().len();
        let mut i: usize = 0;
        proof {
            assert(steps.take(0) =~= Seq::<(Seq<char>, Seq<char>, Option<Seq<char>>)>::empty());
            assert forall|md: Mode| #[trigger] t.bound(md) == bindings_of(steps.take(0), md) by {
                assert(t.bound(md) =~= Map::<Seq<char>, Seq<char>>::empty());
            }
        }
        while i < defaults.len()
            invariant
                0 <= i <= defaults@.len(),
                defaults@ == default_keys(),
                steps == default_steps() + action_steps(config_keys@),
                nd == defaults@.len(),
                forall|md: Mode| #[trigger] t.bound(md) == bindings_of(steps.take(i as int), md),
                !t.pending(),
            decreases defaults@.len() - i,
        {
            let (m, k, c) = defaults[i];
            proof {
                assert(steps.take(i + 1).drop_last() =~= steps.take(i as int));
                assert(steps.take(i + 1).last() == steps[i as int]);
                assert(steps[i as int] == (m@, k@, Some(c@)));
            }
            t.apply_step(m, k, Some(c));
            i = i + 1;
        }
        let mut j: usize = 0;
        while j < config_keys.len()
            invariant
                0 <= j <= config_keys@.len(),
                steps == default_steps() + action_steps(config_keys@),
                nd == default_steps().len(),
                forall|md: Mode| #[trigger] t.bound(md) == bindings_of(steps.take(nd + j), md),
                !t.pending(),
            decreases config_keys@.len() - j,
        {
            proof {
                assert(steps.take(nd + j + 1).drop_last() =~= steps.take(nd + j));
                assert(steps.take(nd + j + 1).last() == steps[nd + j]);
                assert(steps[nd + j] == action_steps(config_keys@)[j as int]);
            }
            match &config_keys[j] {
                KeyAction::Add((m, k, c)) => t.apply_step(m.as_str(), k.as_str(), Some(c.as_str())),
                KeyAction::Remove((m, k)) => t.apply_step(m.as_str(), k.as_str(), None),
            }
            j = j + 1;
        }
        proof {
            assert(steps.take(nd + j) =~= steps);
        }
        t
    }

    /// The command `keys` are bound to in `mode`, if any.
    pub fn command_for(&self, mode: Mode, keys: &str) -> (r: Option<Command>)
        ensures
            r is Some <==> self.bound(mode).contains_key(keys@) && is_command_name(
                self.bound(mode)[keys@],
            ),
            r matches Some(c) ==> command_name(c)@ == self.bound(mode)[keys@],
    {
        let name = match mode {
            Mode::Normal => self.normal_map.get(keys),
            Mode::Insert => self.insert_map.get(keys),
            Mode::Select => self.select_map.get(keys),
        };
        match name {
            Some(n) => Command::from_name(n.as_str()),
            None => None,
        }
    }
}


/// Whether the dispatch of a char key follows a default binding `e` (mode, keys,
/// command name): in Normal and Select mode, a key that types the one char of `e`'s
/// keys runs the command `e` names, when that is a command.
pub open spec fn dispatch_follows(e: (&'static str, &'static str, &'static str)) -> bool {
    let md = mode_named(e.0@);
    (e.1@.len() == 1 && (md == Some(Mode::Normal) || md == Some(Mode::Select)) && is_command_name(
        e.2@,
    )) ==> forall|s: String|
        s@ == e.1@ ==> #[trigger] key_outcome(md.unwrap(), false, Key::Character(s)) == KeyOutcome::Run(
            e.2,
        )
}

/// A misspelt name in the default bindings names no command.
proof fn lemma_misspelt_name()
    ensures
        !is_command_name("move_next_load_word_end"@),
{
    reveal_strlit("move_next_load_word_end");
    reveal_strlit("move_cursor_left");
    reveal_strlit("move_cursor_right");
    reveal_strlit("extend_cursor_left");
    reveal_strlit("extend_cursor_right");
    reveal_strlit("move_cursor_up");
    reveal_strlit("move_cursor_down");
    reveal_strlit("extend_cursor_up");
    reveal_strlit("extend_cursor_down");
    reveal_strlit("move_next_word_start");
    reveal_strlit("move_next_long_word_start");
    reveal_strlit("move_next_word_end");
    reveal_strlit("move_next_long_word_end");
    reveal_strlit("move_prev_word_start");
    reveal_strlit("move_prev_long_word_start");
    reveal_strlit("extend_next_word_start");
    reveal_strlit("extend_next_long_word_start");
    reveal_strlit("extend_next_word_end");
    reveal_strlit("extend_next_long_word_end");
    reveal_strlit("extend_prev_word_start");
    reveal_strlit("extend_prev_long_word_start");
    reveal_strlit("move_on_next_char_forward");
    reveal_strlit("move_on_next_char_backward");
    reveal_strlit("move_before_char_forward");
    reveal_strlit("move_before_char_backward");
    reveal_strlit("extend_on_next_char_forward");
    reveal_strlit("extend_on_next_char_backward");
    reveal_strlit("extend_before_char_forward");
    reveal_strlit("extend_before_char_backward");
    reveal_strlit("goto_line_start");
    reveal_strlit("goto_line_start_extend");
    reveal_strlit("goto_line_end");
    reveal_strlit("goto_line_end_extend");
    reveal_strlit("goto_pending");
    reveal_strlit("enter_insert");
    reveal_strlit("enter_insert_append");
    reveal_strlit("insert_at_line_start");
    reveal_strlit("insert_at_line_end");
    reveal_strlit("enter_select");
    reveal_strlit("enter_normal");
    reveal_strlit("yank");
    reveal_strlit("open_below");
    reveal_strlit("open_above");
    reveal_strlit("delete_selections");
    reveal_strlit("change_selections");
    reveal_strlit("paste_after_cursor");
    reveal_strlit("paste_before_cursor");
    reveal_strlit("undo");
    reveal_strlit("redo");
    reveal_strlit("insert_new_line");
    reveal_strlit("insert_tab");
    reveal_strlit("delete_char_backward");
    assert("move_next_load_word_end"@[12] == 'a');
    assert("move_next_long_word_end"@[12] == 'n');
    if is_command_name("move_next_load_word_end"@) {
        let c = choose|c: Command| (#[trigger] command_name(c))@ == "move_next_load_word_end"@;
        assert(command_name(c)@ == "move_next_load_word_end"@);
    }
}

/// The dispatch follows the default bindings 0 to 11.
proof fn lemma_dispatch_follows_0()
    ensures
        forall|i: int| 0 <= i < 12 ==> dispatch_follows(#[trigger] default_keys()[i]),
{
    reveal_strlit("normal");
    reveal_strlit("select");
    reveal_strlit("insert");
    assert("normal"@[0] == 'n' && "select"@[0] == 's' && "insert"@[0] == 'i');
    assert(dispatch_follows(default_keys()[0])) by {
        assert(default_keys()[0] == ("normal", "h", "move_cursor_left"));
        assert(mode_named("normal"@) == Some(Mode::Normal));
        reveal_strlit("h");
        assert forall|s: String| s@ == "h"@ implies #[trigger] key_outcome(Mode::Normal, false, Key::Character(s))
            == KeyOutcome::Run("move_cursor_left") by {
            assert(s@[0] == 'h');
            assert(s@[0] != '+');
            assert(!all_digits(s@));
            assert(parsed_usize(s@) is None);
            assert(single_char(s@) == Some('h'));
            assert(key_command(Mode::Normal, Key::Character(s)) == char_command('h', false));
        }
    }
    assert(dispatch_follows(default_keys()[1])) by {
        assert(default_keys()[1] == ("normal", "l", "move_cursor_right"));
        assert(mode_named("normal"@) == Some(Mode::Normal));
        reveal_strlit("l");
        assert forall|s: String| s@ == "l"@ implies #[trigger] key_outcome(Mode::Normal, false, Key::Character(s))
            == KeyOutcome::Run("move_cursor_right") by {
            assert(s@[0] == 'l');
            assert(s@[0] != '+');
            assert(!all_digits(s@));
            assert(parsed_usize(s@) is None);
            assert(single_char(s@) == Some('l'));
            assert(key_command(Mode::Normal, Key::Character(s)) == char_command('l', false));
        }
    }
    assert(dispatch_follows(default_keys()[2])) by {
        assert(default_keys()[2] == ("normal", "j", "move_cursor_down"));
        assert(mode_named("normal"@) == Some(Mode::Normal));
        reveal_strlit("j");
        assert forall|s: String| s@ == "j"@ implies #[trigger] key_outcome(Mode::Normal, false, Key::Character(s))
            == KeyOutcome::Run("move_cursor_down") by {
            assert(s@[0] == 'j');
            assert(s@[0] != '+');
            assert(!all_digits(s@));
            assert(parsed_usize(s@) is None);
            assert(single_char(s@) == Some('j'));
            assert(key_command(Mode::Normal, Key::Character(s)) == char_command('j', false));
        }
    }
    assert(dispatch_follows(default_keys()[3])) by {
        assert(default_keys()[3] == ("normal", "k", "move_cursor_up"));
        assert(mode_named("normal"@) == Some(Mode::Normal));
        reveal_strlit("k");
        assert forall|s: String| s@ == "k"@ implies #[trigger] key_outcome(Mode::Normal, false, Key::Character(s))
            == KeyOutcome::Run("move_cursor_up") by {
            assert(s@[0] == 'k');
            assert(s@[0] != '+');
            assert(!all_digits(s@));
            assert(parsed_usize(s@) is None);
            assert(single_char(s@) == Some('k'));
            assert(key_command(Mode::Normal, Key::Character(s)) == char_command('k', false));
        }
    }
    assert(dispatch_follows(default_keys()[4])) by {
        assert(default_keys()[4] == ("normal", "i", "enter_insert"));
        assert(mode_named("normal"@) == Some(Mode::Normal));
        reveal_strlit("i");
        assert forall|s: String| s@ == "i"@ implies #[trigger] key_outcome(Mode::Normal, false, Key::Character(s))
            == KeyOutcome::Run("enter_insert") by {
            assert(s@[0] == 'i');
            assert(s@[0] != '+');
            assert(!all_digits(s@));
            assert(parsed_usize(s@) is None);
            assert(single_char(s@) == Some('i'));
            assert(key_command(Mode::Normal, Key::Character(s)) == char_command('i', false));
        }
    }
    assert(dispatch_follows(default_keys()[5])) by {
        assert(default_keys()[5] == ("normal", "a", "enter_insert_append"));
        assert(mode_named("normal"@) == Some(Mode::Normal));
        reveal_strlit("a");
        assert forall|s: String| s@ == "a"@ implies #[trigger] key_outcome(Mode::Normal, false, Key::Character(s))
            == KeyOutcome::Run("enter_insert_append") by {
            assert(s@[0] == 'a');
            assert(s@[0] != '+');
            assert(!all_digits(s@));
            assert(parsed_usize(s@) is None);
            assert(single_char(s@) == Some('a'));
            assert(key_command(Mode::Normal, Key::Character(s)) == char_command('a', false));
        }
    }
    assert(dispatch_follows(default_keys()[6])) by {
        assert(default_keys()[6] == ("normal", "I", "insert_at_line_start"));
        assert(mode_named("normal"@) == Some(Mode::Normal));
        reveal_strlit("I");
        assert forall|s: String| s@ == "I"@ implies #[trigger] key_outcome(Mode::Normal, false, Key::Character(s))
            == KeyOutcome::Run("insert_at_line_start") by {
            assert(s@[0] == 'I');
            assert(s@[0] != '+');
            assert(!all_digits(s@));
            assert(parsed_usize(s@) is None);
            assert(single_char(s@) == Some('I'));
            assert(key_command(Mode::Normal, Key::Character(s)) == char_command('I', false));
        }
    }
    assert(dispatch_follows(default_keys()[7])) by {
        assert(default_keys()[7] == ("normal", "A", "insert_at_line_end"));
        assert(mode_named("normal"@) == Some(Mode::Normal));
        reveal_strlit("A");
        assert forall|s: String| s@ == "A"@ implies #[trigger] key_outcome(Mode::Normal, false, Key::Character(s))
            == KeyOutcome::Run("insert_at_line_end") by {
            assert(s@[0] == 'A');
            assert(s@[0] != '+');
            assert(!all_digits(s@));
            assert(parsed_usize(s@) is None);
            assert(single_char(s@) == Some('A'));
            assert(key_command(Mode::Normal, Key::Character(s)) == char_command('A', false));
        }
    }
    assert(dispatch_follows(default_keys()[8])) by {
        assert(default_keys()[8] == ("normal", "o", "open_below"));
        assert(mode_named("normal"@) == Some(Mode::Normal));
        reveal_strlit("o");
        assert forall|s: String| s@ == "o"@ implies #[trigger] key_outcome(Mode::Normal, false, Key::Character(s))
            == KeyOutcome::Run("open_below") by {
            assert(s@[0] == 'o');
            assert(s@[0] != '+');
            assert(!all_digits(s@));
            assert(parsed_usize(s@) is None);
            assert(single_char(s@) == Some('o'));
            assert(key_command(Mode::Normal, Key::Character(s)) == char_command('o', false));
        }
    }
    assert(dispatch_follows(default_keys()[9])) by {
        assert(default_keys()[9] == ("normal", "O", "open_above"));
        assert(mode_named("normal"@) == Some(Mode::Normal));
        reveal_strlit("O");
        assert forall|s: String| s@ == "O"@ implies #[trigger] key_outcome(Mode::Normal, false, Key::Character(s))
            == KeyOutcome::Run("open_above") by {
            assert(s@[0] == 'O');
            assert(s@[0] != '+');
            assert(!all_digits(s@));
            assert(parsed_usize(s@) is None);
            assert(single_char(s@) == Some('O'));
            assert(key_command(Mode::Normal, Key::Character(s)) == char_command('O', false));
        }
    }
    assert(dispatch_follows(default_keys()[10])) by {
        assert(default_keys()[10] == ("normal", "v", "enter_select"));
        assert(mode_named("normal"@) == Some(Mode::Normal));
        reveal_strlit("v");
        assert forall|s: String| s@ == "v"@ implies #[trigger] key_outcome(Mode::Normal, false, Key::Character(s))
            == KeyOutcome::Run("enter_select") by {
            assert(s@[0] == 'v');
            assert(s@[0] != '+');
            assert(!all_digits(s@));
            assert(parsed_usize(s@) is None);
            assert(single_char(s@) == Some('v'));
            assert(key_command(Mode::Normal, Key::Character(s)) == char_command('v', false));
        }
    }
    assert(dispatch_follows(default_keys()[11])) by {
        assert(default_keys()[11] == ("normal", "w", "move_next_word_start"));
        assert(mode_named("normal"@) == Some(Mode::Normal));
        reveal_strlit("w");
        assert forall|s: String| s@ == "w"@ implies #[trigger] key_outcome(Mode::Normal, false, Key::Character(s))
            == KeyOutcome::Run("move_next_word_start") by {
            assert(s@[0] == 'w');
            assert(s@[0] != '+');
            assert(!all_digits(s@));
            assert(parsed_usize(s@) is None);
            assert(single_char(s@) == Some('w'));
            assert(key_command(Mode::Normal, Key::Character(s)) == char_command('w', false));
        }
    }
    assert forall|i: int| 0 <= i < 12 implies dispatch_follows(#[trigger] default_keys()[i]) by {
        if i == 0 {
            assert(dispatch_follows(default_keys()[0]));
        }
        if i == 1 {
            assert(dispatch_follows(default_keys()[1]));
        }
        if i == 2 {
            assert(dispatch_follows(default_keys()[2]));
        }
        if i == 3 {
            assert(dispatch_follows(default_keys()[3]));
        }
        if i == 4 {
            assert(dispatch_follows(default_keys()[4]));
        }
        if i == 5 {
            assert(dispatch_follows(default_keys()[5]));
        }
        if i == 6 {
            assert(dispatch_follows(default_keys()[6]));
        }
        if i == 7 {
            assert(dispatch_follows(default_keys()[7]));
        }
        if i == 8 {
            assert(dispatch_follows(default_keys()[8]));
        }
        if i == 9 {
            assert(dispatch_follows(default_keys()[9]));
        }
        if i == 10 {
            assert(dispatch_follows(default_keys()[10]));
        }
        if i == 11 {
            assert(dispatch_follows(default_keys()[11]));
        }
    }
}

/// The dispatch follows the default bindings 12 to 23.
proof fn lemma_dispatch_follows_1()
    ensures
        forall|i: int| 12 <= i < 24 ==> dispatch_follows(#[trigger] default_keys()[i]),
{
    reveal_strlit("normal");
    reveal_strlit("select");
    reveal_strlit("insert");
    assert("normal"@[0] == 'n' && "select"@[0] == 's' && "insert"@[0] == 'i');
    assert(dispatch_follows(default_keys()[12])) by {
        assert(default_keys()[12] == ("normal", "W", "move_next_long_word_start"));
        assert(mode_named("normal"@) == Some(Mode::Normal));
        reveal_strlit("W");
        assert forall|s: String| s@ == "W"@ implies #[trigger] key_outcome(Mode::Normal, false, Key::Character(s))
            == KeyOutcome::Run("move_next_long_word_start") by {
            assert(s@[0] == 'W');
            assert(s@[0] != '+');
            assert(!all_digits(s@));
            assert(parsed_usize(s@) is None);
            assert(single_char(s@) == Some('W'));
            assert(key_command(Mode::Normal, Key::Character(s)) == char_command('W', false));
        }
    }
    assert(dispatch_follows(default_keys()[13])) by {
        assert(default_keys()[13] == ("normal", "e", "move_next_word_end"));
        assert(mode_named("normal"@) == Some(Mode::Normal));
        reveal_strlit("e");
        assert forall|s: String| s@ == "e"@ implies #[trigger] key_outcome(Mode::Normal, false, Key::Character(s))
            == KeyOutcome::Run("move_next_word_end") by {
            assert(s@[0] == 'e');
            assert(s@[0] != '+');
            assert(!all_digits(s@));
            assert(parsed_usize(s@) is None);
            assert(single_char(s@) == Some('e'));
            assert(key_command(Mode::Normal, Key::Character(s)) == char_command('e', false));
        }
    }
    assert(dispatch_follows(default_keys()[14])) by {
        assert(default_keys()[14] == ("normal", "E", "move_next_load_word_end"));
        assert(mode_named("normal"@) == Some(Mode::Normal));
        lemma_misspelt_name();
    }
    assert(dispatch_follows(default_keys()[15])) by {
        assert(default_keys()[15] == ("normal", "b", "move_prev_word_start"));
        assert(mode_named("normal"@) == Some(Mode::Normal));
        reveal_strlit("b");
        assert forall|s: String| s@ == "b"@ implies #[trigger] key_outcome(Mode::Normal, false, Key::Character(s))
            == KeyOutcome::Run("move_prev_word_start") by {
            assert(s@[0] == 'b');
            assert(s@[0] != '+');
            assert(!all_digits(s@));
            assert(parsed_usize(s@) is None);
            assert(single_char(s@) == Some('b'));
            assert(key_command(Mode::Normal, Key::Character(s)) == char_command('b', false));
        }
    }
    assert(dispatch_follows(default_keys()[16])) by {
        assert(default_keys()[16] == ("normal", "B", "move_prev_long_word_start"));
        assert(mode_named("normal"@) == Some(Mode::Normal));
        reveal_strlit("B");
        assert forall|s: String| s@ == "B"@ implies #[trigger] key_outcome(Mode::Normal, false, Key::Character(s))
            == KeyOutcome::Run("move_prev_long_word_start") by {
            assert(s@[0] == 'B');
            assert(s@[0] != '+');
            assert(!all_digits(s@));
            assert(parsed_usize(s@) is None);
            assert(single_char(s@) == Some('B'));
            assert(key_command(Mode::Normal, Key::Character(s)) == char_command('B', false));
        }
    }
    assert(dispatch_follows(default_keys()[17])) by {
        assert(default_keys()[17] == ("normal", "d", "delete_selections"));
        assert(mode_named("normal"@) == Some(Mode::Normal));
        reveal_strlit("d");
        assert forall|s: String| s@ == "d"@ implies #[trigger] key_outcome(Mode::Normal, false, Key::Character(s))
            == KeyOutcome::Run("delete_selections") by {
            assert(s@[0] == 'd');
            assert(s@[0] != '+');
            assert(!all_digits(s@));
            assert(parsed_usize(s@) is None);
            assert(single_char(s@) == Some('d'));
            assert(key_command(Mode::Normal, Key::Character(s)) == char_command('d', false));
        }
    }
    assert(dispatch_follows(default_keys()[18])) by {
        assert(default_keys()[18] == ("normal", "c", "change_selections"));
        assert(mode_named("normal"@) == Some(Mode::Normal));
        reveal_strlit("c");
        assert forall|s: String| s@ == "c"@ implies #[trigger] key_outcome(Mode::Normal, false, Key::Character(s))
            == KeyOutcome::Run("change_selections") by {
            assert(s@[0] == 'c');
            assert(s@[0] != '+');
            assert(!all_digits(s@));
            assert(parsed_usize(s@) is None);
            assert(single_char(s@) == Some('c'));
            assert(key_command(Mode::Normal, Key::Character(s)) == char_command('c', false));
        }
    }
    assert(dispatch_follows(default_keys()[19])) by {
        assert(default_keys()[19] == ("normal", "y", "yank"));
        assert(mode_named("normal"@) == Some(Mode::Normal));
        reveal_strlit("y");
        assert forall|s: String| s@ == "y"@ implies #[trigger] key_outcome(Mode::Normal, false, Key::Character(s))
            == KeyOutcome::Run("yank") by {
            assert(s@[0] == 'y');
            assert(s@[0] != '+');
            assert(!all_digits(s@));
            assert(parsed_usize(s@) is None);
            assert(single_char(s@) == Some('y'));
            assert(key_command(Mode::Normal, Key::Character(s)) == char_command('y', false));
        }
    }
    assert(dispatch_follows(default_keys()[20])) by {
        assert(default_keys()[20] == ("normal", "p", "paste_after_cursor"));
        assert(mode_named("normal"@) == Some(Mode::Normal));
        reveal_strlit("p");
        assert forall|s: String| s@ == "p"@ implies #[trigger] key_outcome(Mode::Normal, false, Key::Character(s))
            == KeyOutcome::Run("paste_after_cursor") by {
            assert(s@[0] == 'p');
            assert(s@[0] != '+');
            assert(!all_digits(s@));
            assert(parsed_usize(s@) is None);
            assert(single_char(s@) == Some('p'));
            assert(key_command(Mode::Normal, Key::Character(s)) == char_command('p', false));
        }
    }
    assert(dispatch_follows(default_keys()[21])) by {
        assert(default_keys()[21] == ("normal", "P", "paste_before_cursor"));
        assert(mode_named("normal"@) == Some(Mode::Normal));
        reveal_strlit("P");
        assert forall|s: String| s@ == "P"@ implies #[trigger] key_outcome(Mode::Normal, false, Key::Character(s))
            == KeyOutcome::Run("paste_before_cursor") by {
            assert(s@[0] == 'P');
            assert(s@[0] != '+');
            assert(!all_digits(s@));
            assert(parsed_usize(s@) is None);
            assert(single_char(s@) == Some('P'));
            assert(key_command(Mode::Normal, Key::Character(s)) == char_command('P', false));
        }
    }
    assert(dispatch_follows(default_keys()[22])) by {
        assert(default_keys()[22] == ("normal", "u", "undo"));
        assert(mode_named("normal"@) == Some(Mode::Normal));
        reveal_strlit("u");
        assert forall|s: String| s@ == "u"@ implies #[trigger] key_outcome(Mode::Normal, false, Key::Character(s))
            == KeyOutcome::Run("undo") by {
            assert(s@[0] == 'u');
            assert(s@[0] != '+');
            assert(!all_digits(s@));
            assert(parsed_usize(s@) is None);
            assert(single_char(s@) == Some('u'));
            assert(key_command(Mode::Normal, Key::Character(s)) == char_command('u', false));
        }
    }
    assert(dispatch_follows(default_keys()[23])) by {
        assert(default_keys()[23] == ("normal", "U", "redo"));
        assert(mode_named("normal"@) == Some(Mode::Normal));
        reveal_strlit("U");
        assert forall|s: String| s@ == "U"@ implies #[trigger] key_outcome(Mode::Normal, false, Key::Character(s))
            == KeyOutcome::Run("redo") by {
            assert(s@[0] == 'U');
            assert(s@[0] != '+');
            assert(!all_digits(s@));
            assert(parsed_usize(s@) is None);
            assert(single_char(s@) == Some('U'));
            assert(key_command(Mode::Normal, Key::Character(s)) == char_command('U', false));
        }
    }
    assert forall|i: int| 12 <= i < 24 implies dispatch_follows(#[trigger] default_keys()[i]) by {
        if i == 12 {
            assert(dispatch_follows(default_keys()[12]));
        }
        if i == 13 {
            assert(dispatch_follows(default_keys()[13]));
        }
        if i == 14 {
            assert(dispatch_follows(default_keys()[14]));
        }
        if i == 15 {
            assert(dispatch_follows(default_keys()[15]));
        }
        if i == 16 {
            assert(dispatch_follows(default_keys()[16]));
        }
        if i == 17 {
            assert(dispatch_follows(default_keys()[17]));
        }
        if i == 18 {
            assert(dispatch_follows(default_keys()[18]));
        }
        if i == 19 {
            assert(dispatch_follows(default_keys()[19]));
        }
        if i == 20 {
            assert(dispatch_follows(default_keys()[20]));
        }
        if i == 21 {
            assert(dispatch_follows(default_keys()[21]));
        }
        if i == 22 {
            assert(dispatch_follows(default_keys()[22]));
        }
        if i == 23 {
            assert(dispatch_follows(default_keys()[23]));
        }
    }
}

/// The dispatch follows the default bindings 24 to 35.
proof fn lemma_dispatch_follows_2()
    ensures
        forall|i: int| 24 <= i < 36 ==> dispatch_follows(#[trigger] default_keys()[i]),
{
    reveal_strlit("normal");
    reveal_strlit("select");
    reveal_strlit("insert");
    assert("normal"@[0] == 'n' && "select"@[0] == 's' && "insert"@[0] == 'i');
    assert(dispatch_follows(default_keys()[24])) by {
        assert(default_keys()[24] == ("normal", "f", "move_on_next_char_forward"));
        assert(mode_named("normal"@) == Some(Mode::Normal));
        reveal_strlit("f");
        assert forall|s: String| s@ == "f"@ implies #[trigger] key_outcome(Mode::Normal, false, Key::Character(s))
            == KeyOutcome::Run("move_on_next_char_forward") by {
            assert(s@[0] == 'f');
            assert(s@[0] != '+');
            assert(!all_digits(s@));
            assert(parsed_usize(s@) is None);
            assert(single_char(s@) == Some('f'));
            assert(key_command(Mode::Normal, Key::Character(s)) == char_command('f', false));
        }
    }
    assert(dispatch_follows(default_keys()[25])) by {
        assert(default_keys()[25] == ("normal", "F", "move_on_next_char_backward"));
        assert(mode_named("normal"@) == Some(Mode::Normal));
        reveal_strlit("F");
        assert forall|s: String| s@ == "F"@ implies #[trigger] key_outcome(Mode::Normal, false, Key::Character(s))
            == KeyOutcome::Run("move_on_next_char_backward") by {
            assert(s@[0] == 'F');
            assert(s@[0] != '+');
            assert(!all_digits(s@));
            assert(parsed_usize(s@) is None);
            assert(single_char(s@) == Some('F'));
            assert(key_command(Mode::Normal, Key::Character(s)) == char_command('F', false));
        }
    }
    assert(dispatch_follows(default_keys()[26])) by {
        assert(default_keys()[26] == ("normal", "t", "move_before_char_forward"));
        assert(mode_named("normal"@) == Some(Mode::Normal));
        reveal_strlit("t");
        assert forall|s: String| s@ == "t"@ implies #[trigger] key_outcome(Mode::Normal, false, Key::Character(s))
            == KeyOutcome::Run("move_before_char_forward") by {
            assert(s@[0] == 't');
            assert(s@[0] != '+');
            assert(!all_digits(s@));
            assert(parsed_usize(s@) is None);
            assert(single_char(s@) == Some('t'));
            assert(key_command(Mode::Normal, Key::Character(s)) == char_command('t', false));
        }
    }
    assert(dispatch_follows(default_keys()[27])) by {
        assert(default_keys()[27] == ("normal", "T", "move_before_char_backward"));
        assert(mode_named("normal"@) == Some(Mode::Normal));
        reveal_strlit("T");
        assert forall|s: String| s@ == "T"@ implies #[trigger] key_outcome(Mode::Normal, false, Key::Character(s))
            == KeyOutcome::Run("move_before_char_backward") by {
            assert(s@[0] == 'T');
            assert(s@[0] != '+');
            assert(!all_digits(s@));
            assert(parsed_usize(s@) is None);
            assert(single_char(s@) == Some('T'));
            assert(key_command(Mode::Normal, Key::Character(s)) == char_command('T', false));
        }
    }
    assert(dispatch_follows(default_keys()[28])) by {
        assert(default_keys()[28] == ("normal", "g", "goto_pending"));
        assert(mode_named("normal"@) == Some(Mode::Normal));
        reveal_strlit("g");
        assert forall|s: String| s@ == "g"@ implies #[trigger] key_outcome(Mode::Normal, false, Key::Character(s))
            == KeyOutcome::Run("goto_pending") by {
            assert(s@[0] == 'g');
            assert(s@[0] != '+');
            assert(!all_digits(s@));
            assert(parsed_usize(s@) is None);
            assert(single_char(s@) == Some('g'));
            assert(key_command(Mode::Normal, Key::Character(s)) == char_command('g', false));
        }
    }
    assert(dispatch_follows(default_keys()[29])) by {
        assert(default_keys()[29] == ("normal", "<HOME>", "goto_line_start"));
        reveal_strlit("<HOME>");
    }
    assert(dispatch_follows(default_keys()[30])) by {
        assert(default_keys()[30] == ("normal", "<END>", "goto_line_end"));
        reveal_strlit("<END>");
    }
    assert(dispatch_follows(default_keys()[31])) by {
        assert(default_keys()[31] == ("select", "h", "extend_cursor_left"));
        assert(mode_named("select"@) == Some(Mode::Select));
        reveal_strlit("h");
        assert forall|s: String| s@ == "h"@ implies #[trigger] key_outcome(Mode::Select, false, Key::Character(s))
            == KeyOutcome::Run("extend_cursor_left") by {
            assert(s@[0] == 'h');
            assert(s@[0] != '+');
            assert(!all_digits(s@));
            assert(parsed_usize(s@) is None);
            assert(single_char(s@) == Some('h'));
            assert(key_command(Mode::Select, Key::Character(s)) == char_command('h', true));
        }
    }
    assert(dispatch_follows(default_keys()[32])) by {
        assert(default_keys()[32] == ("select", "l", "extend_cursor_right"));
        assert(mode_named("select"@) == Some(Mode::Select));
        reveal_strlit("l");
        assert forall|s: String| s@ == "l"@ implies #[trigger] key_outcome(Mode::Select, false, Key::Character(s))
            == KeyOutcome::Run("extend_cursor_right") by {
            assert(s@[0] == 'l');
            assert(s@[0] != '+');
            assert(!all_digits(s@));
            assert(parsed_usize(s@) is None);
            assert(single_char(s@) == Some('l'));
            assert(key_command(Mode::Select, Key::Character(s)) == char_command('l', true));
        }
    }
    assert(dispatch_follows(default_keys()[33])) by {
        assert(default_keys()[33] == ("select", "j", "extend_cursor_down"));
        assert(mode_named("select"@) == Some(Mode::Select));
        reveal_strlit("j");
        assert forall|s: String| s@ == "j"@ implies #[trigger] key_outcome(Mode::Select, false, Key::Character(s))
            == KeyOutcome::Run("extend_cursor_down") by {
            assert(s@[0] == 'j');
            assert(s@[0] != '+');
            assert(!all_digits(s@));
            assert(parsed_usize(s@) is None);
            assert(single_char(s@) == Some('j'));
            assert(key_command(Mode::Select, Key::Character(s)) == char_command('j', true));
        }
    }
    assert(dispatch_follows(default_keys()[34])) by {
        assert(default_keys()[34] == ("select", "k", "extend_cursor_up"));
        assert(mode_named("select"@) == Some(Mode::Select));
        reveal_strlit("k");
        assert forall|s: String| s@ == "k"@ implies #[trigger] key_outcome(Mode::Select, false, Key::Character(s))
            == KeyOutcome::Run("extend_cursor_up") by {
            assert(s@[0] == 'k');
            assert(s@[0] != '+');
            assert(!all_digits(s@));
            assert(parsed_usize(s@) is None);
            assert(single_char(s@) == Some('k'));
            assert(key_command(Mode::Select, Key::Character(s)) == char_command('k', true));
        }
    }
    assert(dispatch_follows(default_keys()[35])) by {
        assert(default_keys()[35] == ("select", "i", "enter_insert"));
        assert(mode_named("select"@) == Some(Mode::Select));
        reveal_strlit("i");
        assert forall|s: String| s@ == "i"@ implies #[trigger] key_outcome(Mode::Select, false, Key::Character(s))
            == KeyOutcome::Run("enter_insert") by {
            assert(s@[0] == 'i');
            assert(s@[0] != '+');
            assert(!all_digits(s@));
            assert(parsed_usize(s@) is None);
            assert(single_char(s@) == Some('i'));
            assert(key_command(Mode::Select, Key::Character(s)) == char_command('i', true));
        }
    }
    assert forall|i: int| 24 <= i < 36 implies dispatch_follows(#[trigger] default_keys()[i]) by {
        if i == 24 {
            assert(dispatch_follows(default_keys()[24]));
        }
        if i == 25 {
            assert(dispatch_follows(default_keys()[25]));
        }
        if i == 26 {
            assert(dispatch_follows(default_keys()[26]));
        }
        if i == 27 {
            assert(dispatch_follows(default_keys()[27]));
        }
        if i == 28 {
            assert(dispatch_follows(default_keys()[28]));
        }
        if i == 29 {
            assert(dispatch_follows(default_keys()[29]));
        }
        if i == 30 {
            assert(dispatch_follows(default_keys()[30]));
        }
        if i == 31 {
            assert(dispatch_follows(default_keys()[31]));
        }
        if i == 32 {
            assert(dispatch_follows(default_keys()[32]));
        }
        if i == 33 {
            assert(dispatch_follows(default_keys()[33]));
        }
        if i == 34 {
            assert(dispatch_follows(default_keys()[34]));
        }
        if i == 35 {
            assert(dispatch_follows(default_keys()[35]));
        }
    }
}

/// The dispatch follows the default bindings 36 to 47.
proof fn lemma_dispatch_follows_3()
    ensures
        forall|i: int| 36 <= i < 48 ==> dispatch_follows(#[trigger] default_keys()[i]),
{
    reveal_strlit("normal");
    reveal_strlit("select");
    reveal_strlit("insert");
    assert("normal"@[0] == 'n' && "select"@[0] == 's' && "insert"@[0] == 'i');
    assert(dispatch_follows(default_keys()[36])) by {
        assert(default_keys()[36] == ("select", "a", "enter_insert_append"));
        assert(mode_named("select"@) == Some(Mode::Select));
        reveal_strlit("a");
        assert forall|s: String| s@ == "a"@ implies #[trigger] key_outcome(Mode::Select, false, Key::Character(s))
            == KeyOutcome::Run("enter_insert_append") by {
            assert(s@[0] == 'a');
            assert(s@[0] != '+');
            assert(!all_digits(s@));
            assert(parsed_usize(s@) is None);
            assert(single_char(s@) == Some('a'));
            assert(key_command(Mode::Select, Key::Character(s)) == char_command('a', true));
        }
    }
    assert(dispatch_follows(default_keys()[37])) by {
        assert(default_keys()[37] == ("select", "I", "insert_at_line_start"));
        assert(mode_named("select"@) == Some(Mode::Select));
        reveal_strlit("I");
        assert forall|s: String| s@ == "I"@ implies #[trigger] key_outcome(Mode::Select, false, Key::Character(s))
            == KeyOutcome::Run("insert_at_line_start") by {
            assert(s@[0] == 'I');
            assert(s@[0] != '+');
            assert(!all_digits(s@));
            assert(parsed_usize(s@) is None);
            assert(single_char(s@) == Some('I'));
            assert(key_command(Mode::Select, Key::Character(s)) == char_command('I', true));
        }
    }
    assert(dispatch_follows(default_keys()[38])) by {
        assert(default_keys()[38] == ("select", "A", "insert_at_line_end"));
        assert(mode_named("select"@) == Some(Mode::Select));
        reveal_strlit("A");
        assert forall|s: String| s@ == "A"@ implies #[trigger] key_outcome(Mode::Select, false, Key::Character(s))
            == KeyOutcome::Run("insert_at_line_end") by {
            assert(s@[0] == 'A');
            assert(s@[0] != '+');
            assert(!all_digits(s@));
            assert(parsed_usize(s@) is None);
            assert(single_char(s@) == Some('A'));
            assert(key_command(Mode::Select, Key::Character(s)) == char_command('A', true));
        }
    }
    assert(dispatch_follows(default_keys()[39])) by {
        assert(default_keys()[39] == ("select", "o", "open_below"));
        assert(mode_named("select"@) == Some(Mode::Select));
        reveal_strlit("o");
        assert forall|s: String| s@ == "o"@ implies #[trigger] key_outcome(Mode::Select, false, Key::Character(s))
            == KeyOutcome::Run("open_below") by {
            assert(s@[0] == 'o');
            assert(s@[0] != '+');
            assert(!all_digits(s@));
            assert(parsed_usize(s@) is None);
            assert(single_char(s@) == Some('o'));
            assert(key_command(Mode::Select, Key::Character(s)) == char_command('o', true));
        }
    }
    assert(dispatch_follows(default_keys()[40])) by {
        assert(default_keys()[40] == ("select", "O", "open_above"));
        assert(mode_named("select"@) == Some(Mode::Select));
        reveal_strlit("O");
        assert forall|s: String| s@ == "O"@ implies #[trigger] key_outcome(Mode::Select, false, Key::Character(s))
            == KeyOutcome::Run("open_above") by {
            assert(s@[0] == 'O');
            assert(s@[0] != '+');
            assert(!all_digits(s@));
            assert(parsed_usize(s@) is None);
            assert(single_char(s@) == Some('O'));
            assert(key_command(Mode::Select, Key::Character(s)) == char_command('O', true));
        }
    }
    assert(dispatch_follows(default_keys()[41])) by {
        assert(default_keys()[41] == ("select", "v", "enter_normal"));
        assert(mode_named("select"@) == Some(Mode::Select));
        reveal_strlit("v");
        assert forall|s: String| s@ == "v"@ implies #[trigger] key_outcome(Mode::Select, false, Key::Character(s))
            == KeyOutcome::Run("enter_normal") by {
            assert(s@[0] == 'v');
            assert(s@[0] != '+');
            assert(!all_digits(s@));
            assert(parsed_usize(s@) is None);
            assert(single_char(s@) == Some('v'));
            assert(key_command(Mode::Select, Key::Character(s)) == char_command('v', true));
        }
    }
    assert(dispatch_follows(default_keys()[42])) by {
        assert(default_keys()[42] == ("select", "w", "extend_next_word_start"));
        assert(mode_named("select"@) == Some(Mode::Select));
        reveal_strlit("w");
        assert forall|s: String| s@ == "w"@ implies #[trigger] key_outcome(Mode::Select, false, Key::Character(s))
            == KeyOutcome::Run("extend_next_word_start") by {
            assert(s@[0] == 'w');
            assert(s@[0] != '+');
            assert(!all_digits(s@));
            assert(parsed_usize(s@) is None);
            assert(single_char(s@) == Some('w'));
            assert(key_command(Mode::Select, Key::Character(s)) == char_command('w', true));
        }
    }
    assert(dispatch_follows(default_keys()[43])) by {
        assert(default_keys()[43] == ("select", "W", "extend_next_long_word_start"));
        assert(mode_named("select"@) == Some(Mode::Select));
        reveal_strlit("W");
        assert forall|s: String| s@ == "W"@ implies #[trigger] key_outcome(Mode::Select, false, Key::Character(s))
            == KeyOutcome::Run("extend_next_long_word_start") by {
            assert(s@[0] == 'W');
            assert(s@[0] != '+');
            assert(!all_digits(s@));
            assert(parsed_usize(s@) is None);
            assert(single_char(s@) == Some('W'));
            assert(key_command(Mode::Select, Key::Character(s)) == char_command('W', true));
        }
    }
    assert(dispatch_follows(default_keys()[44])) by {
        assert(default_keys()[44] == ("select", "e", "extend_next_word_end"));
        assert(mode_named("select"@) == Some(Mode::Select));
        reveal_strlit("e");
        assert forall|s: String| s@ == "e"@ implies #[trigger] key_outcome(Mode::Select, false, Key::Character(s))
            == KeyOutcome::Run("extend_next_word_end") by {
            assert(s@[0] == 'e');
            assert(s@[0] != '+');
            assert(!all_digits(s@));
            assert(parsed_usize(s@) is None);
            assert(single_char(s@) == Some('e'));
            assert(key_command(Mode::Select, Key::Character(s)) == char_command('e', true));
        }
    }
    assert(dispatch_follows(default_keys()[45])) by {
        assert(default_keys()[45] == ("select", "E", "extend_next_long_word_end"));
        assert(mode_named("select"@) == Some(Mode::Select));
        reveal_strlit("E");
        assert forall|s: String| s@ == "E"@ implies #[trigger] key_outcome(Mode::Select, false, Key::Character(s))
            == KeyOutcome::Run("extend_next_long_word_end") by {
            assert(s@[0] == 'E');
            assert(s@[0] != '+');
            assert(!all_digits(s@));
            assert(parsed_usize(s@) is None);
            assert(single_char(s@) == Some('E'));
            assert(key_command(Mode::Select, Key::Character(s)) == char_command('E', true));
        }
    }
    assert(dispatch_follows(default_keys()[46])) by {
        assert(default_keys()[46] == ("select", "b", "extend_prev_word_start"));
        assert(mode_named("select"@) == Some(Mode::Select));
        reveal_strlit("b");
        assert forall|s: String| s@ == "b"@ implies #[trigger] key_outcome(Mode::Select, false, Key::Character(s))
            == KeyOutcome::Run("extend_prev_word_start") by {
            assert(s@[0] == 'b');
            assert(s@[0] != '+');
            assert(!all_digits(s@));
            assert(parsed_usize(s@) is None);
            assert(single_char(s@) == Some('b'));
            assert(key_command(Mode::Select, Key::Character(s)) == char_command('b', true));
        }
    }
    assert(dispatch_follows(default_keys()[47])) by {
        assert(default_keys()[47] == ("select", "B", "extend_prev_long_word_start"));
        assert(mode_named("select"@) == Some(Mode::Select));
        reveal_strlit("B");
        assert forall|s: String| s@ == "B"@ implies #[trigger] key_outcome(Mode::Select, false, Key::Character(s))
            == KeyOutcome::Run("extend_prev_long_word_start") by {
            assert(s@[0] == 'B');
            assert(s@[0] != '+');
            assert(!all_digits(s@));
            assert(parsed_usize(s@) is None);
            assert(single_char(s@) == Some('B'));
            assert(key_command(Mode::Select, Key::Character(s)) == char_command('B', true));
        }
    }
    assert forall|i: int| 36 <= i < 48 implies dispatch_follows(#[trigger] default_keys()[i]) by {
        if i == 36 {
            assert(dispatch_follows(default_keys()[36]));
        }
        if i == 37 {
            assert(dispatch_follows(default_keys()[37]));
        }
        if i == 38 {
            assert(dispatch_follows(default_keys()[38]));
        }
        if i == 39 {
            assert(dispatch_follows(default_keys()[39]));
        }
        if i == 40 {
            assert(dispatch_follows(default_keys()[40]));
        }
        if i == 41 {
            assert(dispatch_follows(default_keys()[41]));
        }
        if i == 42 {
            assert(dispatch_follows(default_keys()[42]));
        }
        if i == 43 {
            assert(dispatch_follows(default_keys()[43]));
        }
        if i == 44 {
            assert(dispatch_follows(default_keys()[44]));
        }
        if i == 45 {
            assert(dispatch_follows(default_keys()[45]));
        }
        if i == 46 {
            assert(dispatch_follows(default_keys()[46]));
        }
        if i == 47 {
            assert(dispatch_follows(default_keys()[47]));
        }
    }
}

/// The dispatch follows the default bindings 48 to 59.
proof fn lemma_dispatch_follows_4()
    ensures
        forall|i: int| 48 <= i < 60 ==> dispatch_follows(#[trigger] default_keys()[i]),
{
    reveal_strlit("normal");
    reveal_strlit("select");
    reveal_strlit("insert");
    assert("normal"@[0] == 'n' && "select"@[0] == 's' && "insert"@[0] == 'i');
    assert(dispatch_follows(default_keys()[48])) by {
        assert(default_keys()[48] == ("select", "d", "delete_selections"));
        assert(mode_named("select"@) == Some(Mode::Select));
        reveal_strlit("d");
        assert forall|s: String| s@ == "d"@ implies #[trigger] key_outcome(Mode::Select, false, Key::Character(s))
            == KeyOutcome::Run("delete_selections") by {
            assert(s@[0] == 'd');
            assert(s@[0] != '+');
            assert(!all_digits(s@));
            assert(parsed_usize(s@) is None);
            assert(single_char(s@) == Some('d'));
            assert(key_command(Mode::Select, Key::Character(s)) == char_command('d', true));
        }
    }
    assert(dispatch_follows(default_keys()[49])) by {
        assert(default_keys()[49] == ("select", "c", "change_selections"));
        assert(mode_named("select"@) == Some(Mode::Select));
        reveal_strlit("c");
        assert forall|s: String| s@ == "c"@ implies #[trigger] key_outcome(Mode::Select, false, Key::Character(s))
            == KeyOutcome::Run("change_selections") by {
            assert(s@[0] == 'c');
            assert(s@[0] != '+');
            assert(!all_digits(s@));
            assert(parsed_usize(s@) is None);
            assert(single_char(s@) == Some('c'));
            assert(key_command(Mode::Select, Key::Character(s)) == char_command('c', true));
        }
    }
    assert(dispatch_follows(default_keys()[50])) by {
        assert(default_keys()[50] == ("select", "y", "yank"));
        assert(mode_named("select"@) == Some(Mode::Select));
        reveal_strlit("y");
        assert forall|s: String| s@ == "y"@ implies #[trigger] key_outcome(Mode::Select, false, Key::Character(s))
            == KeyOutcome::Run("yank") by {
            assert(s@[0] == 'y');
            assert(s@[0] != '+');
            assert(!all_digits(s@));
            assert(parsed_usize(s@) is None);
            assert(single_char(s@) == Some('y'));
            assert(key_command(Mode::Select, Key::Character(s)) == char_command('y', true));
        }
    }
    assert(dispatch_follows(default_keys()[51])) by {
        assert(default_keys()[51] == ("select", "p", "paste_after_cursor"));
        assert(mode_named("select"@) == Some(Mode::Select));
        reveal_strlit("p");
        assert forall|s: String| s@ == "p"@ implies #[trigger] key_outcome(Mode::Select, false, Key::Character(s))
            == KeyOutcome::Run("paste_after_cursor") by {
            assert(s@[0] == 'p');
            assert(s@[0] != '+');
            assert(!all_digits(s@));
            assert(parsed_usize(s@) is None);
            assert(single_char(s@) == Some('p'));
            assert(key_command(Mode::Select, Key::Character(s)) == char_command('p', true));
        }
    }
    assert(dispatch_follows(default_keys()[52])) by {
        assert(default_keys()[52] == ("select", "P", "paste_before_cursor"));
        assert(mode_named("select"@) == Some(Mode::Select));
        reveal_strlit("P");
        assert forall|s: String| s@ == "P"@ implies #[trigger] key_outcome(Mode::Select, false, Key::Character(s))
            == KeyOutcome::Run("paste_before_cursor") by {
            assert(s@[0] == 'P');
            assert(s@[0] != '+');
            assert(!all_digits(s@));
            assert(parsed_usize(s@) is None);
            assert(single_char(s@) == Some('P'));
            assert(key_command(Mode::Select, Key::Character(s)) == char_command('P', true));
        }
    }
    assert(dispatch_follows(default_keys()[53])) by {
        assert(default_keys()[53] == ("select", "u", "undo"));
        assert(mode_named("select"@) == Some(Mode::Select));
        reveal_strlit("u");
        assert forall|s: String| s@ == "u"@ implies #[trigger] key_outcome(Mode::Select, false, Key::Character(s))
            == KeyOutcome::Run("undo") by {
            assert(s@[0] == 'u');
            assert(s@[0] != '+');
            assert(!all_digits(s@));
            assert(parsed_usize(s@) is None);
            assert(single_char(s@) == Some('u'));
            assert(key_command(Mode::Select, Key::Character(s)) == char_command('u', true));
        }
    }
    assert(dispatch_follows(default_keys()[54])) by {
        assert(default_keys()[54] == ("select", "U", "redo"));
        assert(mode_named("select"@) == Some(Mode::Select));
        reveal_strlit("U");
        assert forall|s: String| s@ == "U"@ implies #[trigger] key_outcome(Mode::Select, false, Key::Character(s))
            == KeyOutcome::Run("redo") by {
            assert(s@[0] == 'U');
            assert(s@[0] != '+');
            assert(!all_digits(s@));
            assert(parsed_usize(s@) is None);
            assert(single_char(s@) == Some('U'));
            assert(key_command(Mode::Select, Key::Character(s)) == char_command('U', true));
        }
    }
    assert(dispatch_follows(default_keys()[55])) by {
        assert(default_keys()[55] == ("select", "f", "extend_on_next_char_forward"));
        assert(mode_named("select"@) == Some(Mode::Select));
        reveal_strlit("f");
        assert forall|s: String| s@ == "f"@ implies #[trigger] key_outcome(Mode::Select, false, Key::Character(s))
            == KeyOutcome::Run("extend_on_next_char_forward") by {
            assert(s@[0] == 'f');
            assert(s@[0] != '+');
            assert(!all_digits(s@));
            assert(parsed_usize(s@) is None);
            assert(single_char(s@) == Some('f'));
            assert(key_command(Mode::Select, Key::Character(s)) == char_command('f', true));
        }
    }
    assert(dispatch_follows(default_keys()[56])) by {
        assert(default_keys()[56] == ("select", "F", "extend_on_next_char_backward"));
        assert(mode_named("select"@) == Some(Mode::Select));
        reveal_strlit("F");
        assert forall|s: String| s@ == "F"@ implies #[trigger] key_outcome(Mode::Select, false, Key::Character(s))
            == KeyOutcome::Run("extend_on_next_char_backward") by {
            assert(s@[0] == 'F');
            assert(s@[0] != '+');
            assert(!all_digits(s@));
            assert(parsed_usize(s@) is None);
            assert(single_char(s@) == Some('F'));
            assert(key_command(Mode::Select, Key::Character(s)) == char_command('F', true));
        }
    }
    assert(dispatch_follows(default_keys()[57])) by {
        assert(default_keys()[57] == ("select", "t", "extend_before_char_forward"));
        assert(mode_named("select"@) == Some(Mode::Select));
        reveal_strlit("t");
        assert forall|s: String| s@ == "t"@ implies #[trigger] key_outcome(Mode::Select, false, Key::Character(s))
            == KeyOutcome::Run("extend_before_char_forward") by {
            assert(s@[0] == 't');
            assert(s@[0] != '+');
            assert(!all_digits(s@));
            assert(parsed_usize(s@) is None);
            assert(single_char(s@) == Some('t'));
            assert(key_command(Mode::Select, Key::Character(s)) == char_command('t', true));
        }
    }
    assert(dispatch_follows(default_keys()[58])) by {
        assert(default_keys()[58] == ("select", "T", "extend_before_char_backward"));
        assert(mode_named("select"@) == Some(Mode::Select));
        reveal_strlit("T");
        assert forall|s: String| s@ == "T"@ implies #[trigger] key_outcome(Mode::Select, false, Key::Character(s))
            == KeyOutcome::Run("extend_before_char_backward") by {
            assert(s@[0] == 'T');
            assert(s@[0] != '+');
            assert(!all_digits(s@));
            assert(parsed_usize(s@) is None);
            assert(single_char(s@) == Some('T'));
            assert(key_command(Mode::Select, Key::Character(s)) == char_command('T', true));
        }
    }
    assert(dispatch_follows(default_keys()[59])) by {
        assert(default_keys()[59] == ("select", "g", "goto_pending"));
        assert(mode_named("select"@) == Some(Mode::Select));
        reveal_strlit("g");
        assert forall|s: String| s@ == "g"@ implies #[trigger] key_outcome(Mode::Select, false, Key::Character(s))
            == KeyOutcome::Run("goto_pending") by {
            assert(s@[0] == 'g');
            assert(s@[0] != '+');
            assert(!all_digits(s@));
            assert(parsed_usize(s@) is None);
            assert(single_char(s@) == Some('g'));
            assert(key_command(Mode::Select, Key::Character(s)) == char_command('g', true));
        }
    }
    assert forall|i: int| 48 <= i < 60 implies dispatch_follows(#[trigger] default_keys()[i]) by {
        if i == 48 {
            assert(dispatch_follows(default_keys()[48]));
        }
        if i == 49 {
            assert(dispatch_follows(default_keys()[49]));
        }
        if i == 50 {
            assert(dispatch_follows(default_keys()[50]));
        }
        if i == 51 {
            assert(dispatch_follows(default_keys()[51]));
        }
        if i == 52 {
            assert(dispatch_follows(default_keys()[52]));
        }
        if i == 53 {
            assert(dispatch_follows(default_keys()[53]));
        }
        if i == 54 {
            assert(dispatch_follows(default_keys()[54]));
        }
        if i == 55 {
            assert(dispatch_follows(default_keys()[55]));
        }
        if i == 56 {
            assert(dispatch_follows(default_keys()[56]));
        }
        if i == 57 {
            assert(dispatch_follows(default_keys()[57]));
        }
        if i == 58 {
            assert(dispatch_follows(default_keys()[58]));
        }
        if i == 59 {
            assert(dispatch_follows(default_keys()[59]));
        }
    }
}

/// The dispatch follows the default bindings 60 to 68.
proof fn lemma_dispatch_follows_5()
    ensures
        forall|i: int| 60 <= i < 69 ==> dispatch_follows(#[trigger] default_keys()[i]),
{
    reveal_strlit("normal");
    reveal_strlit("select");
    reveal_strlit("insert");
    assert("normal"@[0] == 'n' && "select"@[0] == 's' && "insert"@[0] == 'i');
    assert(dispatch_follows(default_keys()[60])) by {
        assert(default_keys()[60] == ("select", "<ESC>", "enter_normal"));
        reveal_strlit("<ESC>");
    }
    assert(dispatch_follows(default_keys()[61])) by {
        assert(default_keys()[61] == ("select", "<HOME>", "goto_line_start"));
        reveal_strlit("<HOME>");
    }
    assert(dispatch_follows(default_keys()[62])) by {
        assert(default_keys()[62] == ("select", "<END>", "goto_line_end"));
        reveal_strlit("<END>");
    }
    assert(dispatch_follows(default_keys()[63])) by {
        assert(default_keys()[63] == ("insert", "<ESC>", "enter_normal"));
        reveal_strlit("<ESC>");
    }
    assert(dispatch_follows(default_keys()[64])) by {
        assert(default_keys()[64] == ("insert", "<HOME>", "goto_line_start"));
        reveal_strlit("<HOME>");
    }
    assert(dispatch_follows(default_keys()[65])) by {
        assert(default_keys()[65] == ("insert", "<END>", "goto_line_end"));
        reveal_strlit("<END>");
    }
    assert(dispatch_follows(default_keys()[66])) by {
        assert(default_keys()[66] == ("insert", "<BACKSPACE>", "delete_char_backward"));
        reveal_strlit("<BACKSPACE>");
    }
    assert(dispatch_follows(default_keys()[67])) by {
        assert(default_keys()[67] == ("insert", "<ENTER>", "insert_new_line"));
        reveal_strlit("<ENTER>");
    }
    assert(dispatch_follows(default_keys()[68])) by {
        assert(default_keys()[68] == ("insert", "<TAB>", "insert_tab"));
        reveal_strlit("<TAB>");
    }
    assert forall|i: int| 60 <= i < 69 implies dispatch_follows(#[trigger] default_keys()[i]) by {
        if i == 60 {
            assert(dispatch_follows(default_keys()[60]));
        }
        if i == 61 {
            assert(dispatch_follows(default_keys()[61]));
        }
        if i == 62 {
            assert(dispatch_follows(default_keys()[62]));
        }
        if i == 63 {
            assert(dispatch_follows(default_keys()[63]));
        }
        if i == 64 {
            assert(dispatch_follows(default_keys()[64]));
        }
        if i == 65 {
            assert(dispatch_follows(default_keys()[65]));
        }
        if i == 66 {
            assert(dispatch_follows(default_keys()[66]));
        }
        if i == 67 {
            assert(dispatch_follows(default_keys()[67]));
        }
        if i == 68 {
            assert(dispatch_follows(default_keys()[68]));
        }
    }
}

/// The char keys of Normal and Select mode dispatch as the default bindings say: for
/// every default binding of a one-char key to a command, pressing that key (no count
/// pending) runs that command.
pub proof fn law_char_keys_follow_default_bindings()
    ensures
        forall|i: int| 0 <= i < default_keys().len() ==> dispatch_follows(#[trigger] default_keys()[i]),
{
    lemma_dispatch_follows_0();
    lemma_dispatch_follows_1();
    lemma_dispatch_follows_2();
    lemma_dispatch_follows_3();
    lemma_dispatch_follows_4();
    lemma_dispatch_follows_5();
    assert(default_keys().len() == 69);
}

/// The named keys: Escape leaves Select and Insert mode (and does nothing in Normal
/// mode); Home and End run the line-start and line-end commands, stretching in Select
/// mode; Backspace, Enter and Tab edit in Insert mode only. In Insert mode a key that
/// types text types its first char, digits included.
pub proof fn law_named_keys_and_typing(mode: Mode, count_pending: bool, s: String)
    ensures
        key_outcome(mode, count_pending, Key::Named(NamedKey::Escape)) == if mode == Mode::Normal {
            KeyOutcome::Nothing
        } else {
            KeyOutcome::Run("enter_normal")
        },
        key_outcome(mode, count_pending, Key::Named(NamedKey::Home)) == KeyOutcome::Run(
            if mode == Mode::Select {
                "goto_line_start_extend"
            } else {
                "goto_line_start"
            },
        ),
        key_outcome(mode, count_pending, Key::Named(NamedKey::End)) == KeyOutcome::Run(
            if mode == Mode::Select {
                "goto_line_end_extend"
            } else {
                "goto_line_end"
            },
        ),
        key_outcome(mode, count_pending, Key::Named(NamedKey::Backspace)) == if mode == Mode::Insert {
            KeyOutcome::DeleteBackward
        } else {
            KeyOutcome::Nothing
        },
        key_outcome(mode, count_pending, Key::Named(NamedKey::Enter)) == if mode == Mode::Insert {
            KeyOutcome::InsertText("\n")
        } else {
            KeyOutcome::Nothing
        },
        mode == Mode::Insert && s@.len() > 0 ==> key_outcome(mode, count_pending, Key::Character(s))
            == KeyOutcome::InsertChar(s@[0]),
{
}

} // verus!
