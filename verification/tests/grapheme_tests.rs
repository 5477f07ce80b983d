use mist::grapheme::{
    ensure_grapheme_boundary_next, ensure_grapheme_boundary_prev, nth_next_grapheme_boundary,
    nth_prev_grapheme_boundary, next_grapheme_boundary, prev_grapheme_boundary,
};
use ropey::Rope;

#[test]
fn next_skips_whole_grapheme_cluster() {
    let r = Rope::from_str("a😀b");
    let s = r.slice(..);
    assert_eq!(next_grapheme_boundary(&s, 0), 1);
    assert_eq!(next_grapheme_boundary(&s, 1), 2);
}

#[test]
fn combining_char_is_one_grapheme() {
    let r = Rope::from_str("e\u{0301}x");
    let s = r.slice(..);
    assert_eq!(next_grapheme_boundary(&s, 0), 2);
}

#[test]
fn prev_mirrors_next() {
    let r = Rope::from_str("a😀b");
    let s = r.slice(..);
    assert_eq!(prev_grapheme_boundary(&s, 2), 1);
    assert_eq!(prev_grapheme_boundary(&s, 1), 0);
}

#[test]
fn boundaries_clamp_at_ends() {
    let r = Rope::from_str("ab");
    let s = r.slice(..);
    assert_eq!(next_grapheme_boundary(&s, 2), 2);
    assert_eq!(prev_grapheme_boundary(&s, 0), 0);
}

#[test]
fn nth_boundaries_count_clusters_and_stop_at_ends() {
    let r = Rope::from_str("e\u{0301}xy");
    let s = r.slice(..);
    assert_eq!(nth_next_grapheme_boundary(&s, 0, 2), 3);
    assert_eq!(nth_next_grapheme_boundary(&s, 0, 10), 4);
    assert_eq!(nth_next_grapheme_boundary(&s, 1, 0), 1);
    assert_eq!(nth_prev_grapheme_boundary(&s, 4, 2), 2);
    assert_eq!(nth_prev_grapheme_boundary(&s, 4, 3), 0);
    assert_eq!(nth_prev_grapheme_boundary(&s, 4, 10), 0);
}

#[test]
fn ensure_boundary_snaps_inside_clusters() {
    let r = Rope::from_str("e\u{0301}x");
    let s = r.slice(..);
    assert_eq!(ensure_grapheme_boundary_next(&s, 1), 2);
    assert_eq!(ensure_grapheme_boundary_prev(&s, 1), 0);
    assert_eq!(ensure_grapheme_boundary_next(&s, 0), 0);
    assert_eq!(ensure_grapheme_boundary_prev(&s, 3), 3);
    assert_eq!(ensure_grapheme_boundary_next(&s, 2), 2);
    assert_eq!(ensure_grapheme_boundary_prev(&s, 2), 2);
}
