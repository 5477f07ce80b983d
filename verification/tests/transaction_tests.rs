use mist::transaction::{Change, ChangeSet, Operation};
use ropey::Rope;

fn cs(orig: &str, changes: Vec<Change>) -> ChangeSet {
    let rope = Rope::from_str(orig);
    ChangeSet::from_changes(&rope, changes)
}

#[test]
fn apply_insert() {
    let mut doc = Rope::from_str("helo");
    let set = cs("helo", vec![(3, 3, Some("l".into()))]);
    assert!(set.apply(&mut doc));
    assert_eq!(doc.to_string(), "hello");
}

#[test]
fn apply_delete() {
    let mut doc = Rope::from_str("hello");
    let set = cs("hello", vec![(0, 1, None)]);
    assert!(set.apply(&mut doc));
    assert_eq!(doc.to_string(), "ello");
}

#[test]
fn apply_replace() {
    let mut doc = Rope::from_str("cat");
    let set = cs("cat", vec![(0, 1, Some("b".into()))]);
    assert!(set.apply(&mut doc));
    assert_eq!(doc.to_string(), "bat");
}

#[test]
fn apply_multi_change_shifts_correctly() {
    let mut doc = Rope::from_str("a.b.c");
    let set = cs("a.b.c", vec![(1, 2, Some("!".into())), (3, 4, Some("?".into()))]);
    assert!(set.apply(&mut doc));
    assert_eq!(doc.to_string(), "a!b?c");
}

#[test]
fn apply_rejects_wrong_length_doc() {
    let mut doc = Rope::from_str("different length");
    let set = cs("cat", vec![(0, 1, Some("b".into()))]);
    assert!(!set.apply(&mut doc));
    assert_eq!(doc.to_string(), "different length");
}

#[test]
fn empty_changeset_is_identity() {
    let mut doc = Rope::from_str("unchanged");
    let set = cs("unchanged", vec![]);
    assert!(set.apply(&mut doc));
    assert_eq!(doc.to_string(), "unchanged");
    assert!(set.is_empty());
}

fn assert_roundtrip(orig: &str, changes: Vec<Change>) {
    let original = Rope::from_str(orig);
    let set = ChangeSet::from_changes(&original, changes);
    let inverse = set.invert(&original);

    let mut doc = original.clone();
    assert!(set.apply(&mut doc), "forward apply failed");
    assert!(inverse.apply(&mut doc), "inverse apply failed");
    assert_eq!(doc, original, "roundtrip did not restore original");
}

#[test]
fn roundtrip_insert() {
    assert_roundtrip("helo", vec![(3, 3, Some("l".into()))]);
}

#[test]
fn roundtrip_delete() {
    assert_roundtrip("hello", vec![(0, 1, None)]);
}

#[test]
fn roundtrip_replace() {
    assert_roundtrip("cat", vec![(0, 1, Some("bhat".into()))]);
}

#[test]
fn roundtrip_multi_change() {
    assert_roundtrip("a.b.c", vec![(1, 2, Some("!".into())), (3, 4, None)]);
}

#[test]
fn roundtrip_multibyte() {
    assert_roundtrip("café", vec![(3, 4, Some("ü".into()))]);
}

#[test]
fn builders_coalesce() {
    let mut set = ChangeSet::with_capacity(4);
    set.retain(2);
    set.retain(3);
    set.delete(1);
    set.delete(1);
    assert_eq!(set.changes, vec![Operation::Retain(5), Operation::Delete(2)]);
}

#[test]
fn zero_length_ops_are_noops() {
    let mut set = ChangeSet::with_capacity(4);
    set.retain(0);
    set.delete(0);
    set.insert(String::new());
    assert!(set.changes.is_empty());
}

#[test]
fn from_changes_retains_gaps() {
    let set = cs("abcde", vec![(2, 3, Some("X".into()))]);
    assert_eq!(
        set.changes,
        vec![
            Operation::Retain(2),
            Operation::Insert("X".into()),
            Operation::Delete(1),
            Operation::Retain(2),
        ]
    );
}

#[test]
fn length_invariants_hold() {
    let set = cs("abcde", vec![(1, 3, Some("XYZ".into()))]);
    assert_eq!(set.len, 5);
    assert_eq!(set.len_after, 6);
}

#[test]
fn insert_after_delete_follows_it_and_merges() {
    let mut set = ChangeSet::with_capacity(4);
    set.retain(1);
    set.delete(2);
    set.insert("ab".to_string());
    set.insert("c".to_string());
    assert_eq!(
        set.changes,
        vec![Operation::Retain(1), Operation::Delete(2), Operation::Insert("abc".into())]
    );
    assert_eq!(set.len, 3);
    assert_eq!(set.len_after, 4);
}

#[test]
fn operation_lengths_count_chars() {
    assert_eq!(Operation::Retain(4).len_chars(), 4);
    assert_eq!(Operation::Delete(2).len_chars(), 2);
    assert_eq!(Operation::Insert("héllo".into()).len_chars(), 5);
}

#[test]
fn new_changeset_retains_the_whole_document() {
    let rope = Rope::from_str("abc");
    let set = ChangeSet::new(rope.slice(..));
    assert!(set.changes.is_empty());
    assert_eq!(set.len, 3);
    assert_eq!(set.len_after, 3);
    assert!(set.is_empty());
}

#[test]
fn invert_of_replace_swaps_insert_and_delete() {
    let original = Rope::from_str("cat");
    let set = ChangeSet::from_changes(&original, vec![(0, 1, Some("b".into()))]);
    let inverse = set.invert(&original);
    assert_eq!(
        inverse.changes,
        vec![Operation::Delete(1), Operation::Insert("c".into()), Operation::Retain(2)]
    );
    assert_eq!(inverse.len, 3);
    assert_eq!(inverse.len_after, 3);
}

#[test]
fn built_operations_are_never_empty_or_of_one_kind_twice() {
    let set = cs(
        "abcdef",
        vec![(1, 1, Some("X".into())), (1, 3, None), (3, 3, Some(String::new())), (4, 6, Some("YZ".into()))],
    );
    for op in &set.changes {
        match op {
            Operation::Retain(n) | Operation::Delete(n) => assert!(*n > 0),
            Operation::Insert(s) => assert!(!s.is_empty()),
        }
    }
    for pair in set.changes.windows(2) {
        assert_ne!(std::mem::discriminant(&pair[0]), std::mem::discriminant(&pair[1]));
    }
}
