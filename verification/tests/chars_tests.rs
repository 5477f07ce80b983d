use mist::chars::{
    categorize_char, char_is_line_ending, char_is_punctuation, char_is_word, CharCategory,
    CharHelpers,
};
use mist::line_ending::LineEnding;
use mist::movement::{is_long_word_boundary, is_word_boundary, reached_target, WordMotionTarget};
use mist::selection::Range;
use ropey::Rope;

#[test]
fn categorize() {
    assert_eq!(categorize_char('a'), CharCategory::Word);
    assert_eq!(categorize_char('_'), CharCategory::Word);
    assert_eq!(categorize_char('7'), CharCategory::Word);
    assert_eq!(categorize_char(' '), CharCategory::WhiteSpace);
    assert_eq!(categorize_char('\t'), CharCategory::WhiteSpace);
    assert_eq!(categorize_char('\n'), CharCategory::Eol);
    assert_eq!(categorize_char('.'), CharCategory::Punctuation);
    assert_eq!(categorize_char(','), CharCategory::Punctuation);
}

#[test]
fn word_classification() {
    assert!(char_is_word('z'));
    assert!(char_is_word('_'));
    assert!(!char_is_word('.'));
    assert!(!char_is_word(' '));
}

#[test]
fn punctuation_classification() {
    assert!(char_is_punctuation('.'));
    assert!(char_is_punctuation('+'));
    assert!(!char_is_punctuation('a'));
    assert!(!char_is_punctuation(' '));
}

#[test]
fn symbols_count_as_punctuation_but_other_symbols_do_not() {
    assert!(char_is_punctuation('$')); // currency symbol
    assert!(char_is_punctuation('^')); // modifier symbol
    assert!(char_is_punctuation('-')); // dash punctuation
    assert!(char_is_punctuation('(')); // open punctuation
    assert!(char_is_punctuation(')')); // close punctuation
    assert!(!char_is_punctuation('©')); // other symbol
    assert_eq!(categorize_char('©'), CharCategory::Unknown);
}

#[test]
fn every_line_ending_is_eol_not_whitespace() {
    for ch in ['\n', '\u{000B}', '\u{000C}', '\r', '\u{0085}', '\u{2028}', '\u{2029}'] {
        assert!(char_is_line_ending(ch));
        assert_eq!(categorize_char(ch), CharCategory::Eol);
    }
    assert!(!char_is_line_ending(' '));
    assert!(!char_is_line_ending('a'));
}

#[test]
fn line_ending_from_char_maps_each_code_point() {
    assert_eq!(LineEnding::from_char('\n'), Some(LineEnding::LF));
    assert_eq!(LineEnding::from_char('\u{000B}'), Some(LineEnding::VT));
    assert_eq!(LineEnding::from_char('\u{000C}'), Some(LineEnding::FF));
    assert_eq!(LineEnding::from_char('\r'), Some(LineEnding::CR));
    assert_eq!(LineEnding::from_char('\u{0085}'), Some(LineEnding::Nel));
    assert_eq!(LineEnding::from_char('\u{2028}'), Some(LineEnding::LS));
    assert_eq!(LineEnding::from_char('\u{2029}'), Some(LineEnding::PS));
    assert_eq!(LineEnding::from_char('x'), None);
}

#[test]
fn unicode_letters_and_digits_are_word_chars() {
    assert!(char_is_word('é'));
    assert!(char_is_word('日'));
    assert_eq!(categorize_char('\u{3000}'), CharCategory::WhiteSpace);
}

#[test]
fn word_and_long_word_boundaries() {
    assert!(is_word_boundary('a', '.'));
    assert!(!is_word_boundary('a', 'b'));
    assert!(!is_long_word_boundary('a', '.'));
    assert!(is_long_word_boundary('a', ' '));
    assert!(!is_long_word_boundary(' ', ' '));
}

#[test]
fn targets_need_a_boundary() {
    assert!(reached_target(WordMotionTarget::NextWordStart, ' ', 'a'));
    assert!(!reached_target(WordMotionTarget::NextWordStart, 'a', ' '));
    assert!(reached_target(WordMotionTarget::NextWordEnd, 'a', ' '));
    assert!(!reached_target(WordMotionTarget::NextWordEnd, ' ', 'a'));
    assert!(!reached_target(WordMotionTarget::NextWordStart, 'a', 'b'));
    assert!(!reached_target(WordMotionTarget::NextLongWordStart, 'a', '.'));
    assert!(reached_target(WordMotionTarget::NextWordStart, 'a', '.'));
    assert!(reached_target(WordMotionTarget::PrevWordStart, 'a', ' '));
}

#[test]
fn next_word_start_from_start_of_text() {
    let rope = Rope::from_str("hello world");
    let s = rope.slice(..);
    let r = s.chars_at(0).range_to_target(WordMotionTarget::NextWordStart, Range::point(0));
    assert_eq!((r.anchor, r.head), (0, 6));
}

#[test]
fn next_word_end_stops_before_blank() {
    let rope = Rope::from_str("hello world");
    let s = rope.slice(..);
    let r = s.chars_at(0).range_to_target(WordMotionTarget::NextWordEnd, Range::point(0));
    assert_eq!((r.anchor, r.head), (0, 5));
}

#[test]
fn long_word_crosses_punctuation() {
    let rope = Rope::from_str("foo.bar baz");
    let s = rope.slice(..);
    let short = s.chars_at(0).range_to_target(WordMotionTarget::NextWordStart, Range::point(0));
    assert_eq!((short.anchor, short.head), (0, 3));
    let long = s.chars_at(0).range_to_target(WordMotionTarget::NextLongWordStart, Range::point(0));
    assert_eq!((long.anchor, long.head), (0, 8));
}

#[test]
fn prev_word_start_walks_back_and_keeps_iterator_direction() {
    let rope = Rope::from_str("hello world");
    let s = rope.slice(..);
    let mut it = s.chars_at(8);
    let r = it.range_to_target(WordMotionTarget::PrevWordStart, Range::point(8));
    assert_eq!((r.anchor, r.head), (8, 6));
    // The iterator walks forward again, standing before the blank it consumed last.
    assert_eq!(it.next(), Some(' '));
}

#[test]
fn leading_newlines_are_passed_and_pull_the_anchor() {
    let rope = Rope::from_str("\n\nab cd");
    let s = rope.slice(..);
    let r = s.chars_at(0).range_to_target(WordMotionTarget::NextWordStart, Range::point(0));
    assert_eq!((r.anchor, r.head), (2, 5));
}

#[test]
fn motion_at_end_of_text_stays_put() {
    let rope = Rope::from_str("abc");
    let s = rope.slice(..);
    let r = s.chars_at(3).range_to_target(WordMotionTarget::NextWordStart, Range::point(3));
    assert_eq!((r.anchor, r.head), (3, 3));
}
