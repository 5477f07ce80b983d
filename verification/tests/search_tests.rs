use mist::movement::Direction;
use mist::search::find_nth_char;
use ropey::Rope;

#[test]
fn finds_nth_forward_from_pos() {
    let r = Rope::from_str("beebee");
    let s = r.slice(..);
    assert_eq!(find_nth_char(1, s, 'e', 0, Direction::Forward), Some(1));
    assert_eq!(find_nth_char(2, s, 'e', 0, Direction::Forward), Some(2));
    assert_eq!(find_nth_char(3, s, 'e', 0, Direction::Forward), Some(4));
    assert_eq!(find_nth_char(1, s, 'e', 1, Direction::Forward), Some(1));
    assert_eq!(find_nth_char(5, s, 'e', 0, Direction::Forward), None);
}

#[test]
fn finds_nth_backward_before_pos() {
    let r = Rope::from_str("beebee");
    let s = r.slice(..);
    assert_eq!(find_nth_char(1, s, 'b', 6, Direction::Backward), Some(3));
    assert_eq!(find_nth_char(2, s, 'b', 6, Direction::Backward), Some(0));
    assert_eq!(find_nth_char(1, s, 'e', 1, Direction::Backward), None);
    assert_eq!(find_nth_char(1, s, 'b', 3, Direction::Backward), Some(0));
}

#[test]
fn zero_count_or_past_end_finds_nothing() {
    let r = Rope::from_str("abc");
    let s = r.slice(..);
    assert_eq!(find_nth_char(0, s, 'a', 0, Direction::Forward), None);
    assert_eq!(find_nth_char(1, s, 'a', 4, Direction::Forward), None);
    assert_eq!(find_nth_char(1, s, 'a', 4, Direction::Backward), None);
    assert_eq!(find_nth_char(1, s, 'c', 3, Direction::Forward), None);
}
