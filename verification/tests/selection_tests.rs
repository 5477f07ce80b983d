use mist::movement::Direction;
use mist::selection::{Range, Selection};
use ropey::Rope;

fn fmt(sel: &Selection) -> String {
    sel.ranges()
        .iter()
        .map(|r| format!("{}/{}", r.anchor, r.head))
        .collect::<Vec<_>>()
        .join(",")
}

#[test]
fn from_to_len_empty() {
    let r = Range::new(6, 3);
    assert_eq!(r.from(), 3);
    assert_eq!(r.to(), 6);
    assert_eq!(r.len(), 3);
    assert!(!r.is_empty());
    assert!(Range::point(4).is_empty());
}

#[test]
fn direction_and_empty_is_forward() {
    assert_eq!(Range::new(2, 6).direction(), Direction::Forward);
    assert_eq!(Range::new(6, 2).direction(), Direction::Backward);
    assert_eq!(Range::point(3).direction(), Direction::Forward);
}

#[test]
fn overlap_returns_correctly() {
    let ov = |a: (usize, usize), b: (usize, usize)| {
        Range::new(a.0, a.1).overlaps(&Range::new(b.0, b.1))
    };

    assert!(!ov((0, 3), (3, 6)));
    assert!(!ov((3, 0), (6, 3)));
    assert!(ov((0, 4), (3, 6)));
    assert!(ov((6, 3), (4, 0)));
    assert!(!ov((0, 3), (3, 3)));
    assert!(ov((1, 4), (1, 1)));
    assert!(ov((3, 3), (1, 4)));
    assert!(!ov((1, 1), (2, 2)));
    assert!(ov((1, 1), (1, 1)));
}

#[test]
fn merge_forward_and_backward() {
    assert_eq!(Range::new(0, 3).merge(Range::new(2, 6)), Range::new(0, 6));
    let m = Range::new(6, 2).merge(Range::new(4, 1));

    assert_eq!((m.anchor, m.head), (6, 1));
}

#[test]
fn cursor_is_block_left_edge() {
    let rope = Rope::from_str("hello world");
    let s = rope.slice(..);
    assert_eq!(Range::point(3).cursor(s), 3);
    assert_eq!(Range::new(2, 6).cursor(s), 5);
    assert_eq!(Range::new(6, 2).cursor(s), 2);
}

#[test]
fn put_cursor_move_collapses() {
    let rope = Rope::from_str("hello world");
    let s = rope.slice(..);
    assert_eq!(Range::new(0, 5).put_cursor(s, 8, false), Range::point(8));
}

#[test]
fn put_cursor_extend_1_width() {
    let rope = Rope::from_str("hello world");
    let s = rope.slice(..);
    let f = Range::point(2).put_cursor(s, 5, true);
    assert_eq!((f.anchor, f.head), (2, 6));
    let b = Range::point(5).put_cursor(s, 2, true);
    assert_eq!((b.anchor, b.head), (6, 2));
}

#[test]
fn min_width_1() {
    let rope = Rope::from_str("hello");
    let s = rope.slice(..);
    let w = Range::point(3).min_width_1(s);
    assert_eq!((w.anchor, w.head), (3, 4));
    let nz = Range::new(1, 3);
    assert_eq!(nz.min_width_1(s), nz);
}

#[test]
fn grapheme_aligned_snaps_off_combining() {
    let rope = Rope::from_str("e\u{0301}x");
    let s = rope.slice(..);
    let a = Range::point(1).grapheme_aligned(s);
    assert_eq!((a.anchor, a.head), (0, 0));
}

#[test]
fn point_and_single() {
    assert_eq!(fmt(&Selection::point(4)), "4/4");
    assert_eq!(fmt(&Selection::single(2, 5)), "2/5");
    assert_eq!(Selection::point(4).len(), 1);
}

#[test]
fn normalize_sorts_and_merges() {
    let sel = Selection::new(
        vec![
            Range::new(10, 12),
            Range::new(6, 7),
            Range::new(4, 5),
            Range::new(3, 4),
            Range::new(0, 6),
            Range::new(7, 8),
            Range::new(9, 13),
            Range::new(13, 14),
        ],
        0,
    );
    assert_eq!(fmt(&sel), "0/6,6/7,7/8,9/13,13/14");
}

#[test]
fn normalize_recomputes_primary() {
    let sel = Selection::new(vec![Range::new(0, 2), Range::new(1, 5), Range::new(4, 7)], 2);
    assert_eq!(fmt(&sel), "0/7");
    assert_eq!(sel.primary_index(), 0);
}

#[test]
fn merges_adjacent_points() {
    let sel = Selection::new(
        vec![
            Range::new(10, 12),
            Range::new(12, 12),
            Range::new(12, 12),
            Range::new(10, 10),
            Range::new(8, 10),
        ],
        0,
    );
    assert_eq!(fmt(&sel), "8/10,10/12,12/12");
}

#[test]
fn push_sets_primary_and_normalizes() {
    let sel = Selection::point(0).push(Range::new(5, 8));
    assert_eq!(fmt(&sel), "0/0,5/8");
    assert_eq!(sel.primary(), Range::new(5, 8));
}

#[test]
fn transform_maps_every_range() {
    let sel = Selection::single(0, 0).push(Range::new(4, 4));
    let shifted = sel.transform(|r| Range::point(r.head + 1));
    assert_eq!(fmt(&shifted), "1/1,5/5");
}

#[test]
fn into_single_keeps_primary() {
    let sel = Selection::point(0).push(Range::new(5, 8));
    assert_eq!(fmt(&sel.into_single()), "5/8");
}

#[test]
fn remove_and_replace_keep_a_primary() {
    let sel = Selection::point(0).push(Range::new(5, 8)).push(Range::new(10, 12));
    assert_eq!(sel.primary_index(), 2);
    let removed = sel.remove(2);
    assert_eq!(fmt(&removed), "0/0,5/8");
    assert_eq!(removed.primary_index(), 1);
    let replaced = removed.replace(0, Range::new(1, 2));
    assert_eq!(fmt(&replaced), "1/2,5/8");
}

#[test]
fn transform_iter_splits_ranges() {
    let sel = Selection::single(0, 4);
    let split = sel.transform_iter(|r| vec![Range::new(r.from(), r.from() + 1), Range::new(r.to() - 1, r.to())]);
    assert_eq!(fmt(&split), "0/1,3/4");
}

#[test]
fn cursors_collapse_every_range() {
    let rope = Rope::from_str("hello world");
    let s = rope.slice(..);
    let sel = Selection::single(2, 6).push(Range::new(9, 7));
    assert_eq!(fmt(&sel.cursors(s)), "5/5,7/7");
}

#[test]
fn primary_index_can_be_set() {
    let mut sel = Selection::point(0).push(Range::new(5, 8));
    sel.set_primary_index(0);
    assert_eq!(sel.primary(), Range::point(0));
}

#[test]
fn extend_and_contains() {
    let r = Range::new(2, 4);
    assert_eq!(r.extend(0, 6), Range::new(0, 6));
    let b = Range::new(4, 2);
    assert_eq!(b.extend(3, 8), Range::new(8, 2));
    assert!(r.contains(2));
    assert!(!r.contains(4));
    assert!(r.contains_range(Range::new(3, 2)));
    assert_eq!(r.flip(), Range::new(4, 2));
    assert_eq!(r.with_direction(Direction::Backward), Range::new(4, 2));
    assert_eq!(r.with_goal_col(3).goal_col(), Some(3));
}

#[test]
fn primary_survives_merging() {
    let sel = Selection::point(0).push(Range::new(0, 3));
    assert_eq!(fmt(&sel), "0/3");
    let p = sel.primary();
    assert!(p.from() <= 0 && p.to() >= 3);
    let sel2 = Selection::new(vec![Range::new(5, 9), Range::new(2, 6), Range::new(12, 13)], 1);
    assert_eq!(fmt(&sel2), "2/9,12/13");
    assert_eq!(sel2.primary(), Range::new(2, 9));
}

#[test]
fn normalizing_covers_every_range_given() {
    let given = vec![Range::new(6, 4), Range::new(0, 2), Range::new(1, 3), Range::new(9, 9)];
    let sel = Selection::new(given.clone(), 0);
    for r in &given {
        assert!(sel.ranges().iter().any(|o| o.contains_range(*r)));
    }
    for o in sel.ranges() {
        assert!(given.iter().any(|r| r.from() == o.from()));
        assert!(given.iter().any(|r| r.to() == o.to()));
    }
    assert!(sel.primary().contains_range(given[0]));
}

#[test]
fn ranges_with_one_start_merge_alike_in_any_order() {
    let a = Range::new(5, 0);
    let b = Range::new(0, 2);
    let c = Range::new(3, 0);
    let one = Selection::new(vec![a, b, c], 1);
    let two = Selection::new(vec![c, b, a], 1);
    assert_eq!(one.ranges(), two.ranges());
    assert_eq!(one.ranges(), &[Range::new(0, 5)]);
    assert_eq!(Range::new(4, 1).sort_key(), (1, 4, 1, None));
}
