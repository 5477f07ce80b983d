//! The editor state: the document, the selection over it, the mode, the pending input
//! of multi-key commands, the registers and the undo history. Every motion maps each
//! range of the selection and normalizes the result; every edit builds a change set,
//! applies it, and records it with its inverse so it can be undone.
use vstd::prelude::*;
use ropey::RopeSlice;
use crate::document::Document;
use crate::mode::Mode;
use crate::grapheme::{next_boundary, next_grapheme_boundary, prev_boundary, prev_grapheme_boundary};
use crate::movement::{
    horizontal_target, line_char_len, line_len, move_horizontally, move_vertically, moved_range,
    vertical_target, word_move, word_moved, first_non_blank, first_non_whitespace_char, line_chars,
    Direction, Movement, WordMotionTarget,
};
use crate::search::{find_nth_char, nth_backward, nth_char, nth_forward};
use crate::selection::{
    cursor_of, normalized, put_cursor_anchor, put_cursor_extend, ranges_disjoint_sorted, ranges_within,
    Range, Selection,
    SelectionView,
};
use crate::text::{line_of_char, line_start, rope_full_slice, slice_text, slice_to_string};
use crate::transaction::{
    OpView, change_text, changes_in_order, law_apply_then_invert, splice, Change, ChangeSet,
};
use vstd::string::StringExecFns;

verus! {

/// Waiting for the target char of an f/t/F/T motion: the parameters fixed when the
/// motion key was pressed.
#[derive(Clone, Copy, PartialEq, Eq, Debug, Structural)]
pub struct PendingFind {
    pub count: usize,
    pub dir: Direction,
    pub inclusive: bool,
    pub extend: bool,
}

/// One edit in the history: the change set that made it and the one that undoes it,
/// each with the selection it leaves.
pub struct HistoryEntry {
    pub forward: ChangeSet,
    pub forward_selection: Selection,
    pub inverse: ChangeSet,
    pub inverse_selection: Selection,
}

/// The state of the editor.
pub struct Editor {
    pub document: Document,
    pub selection: Selection,
    pub mode: Mode,
    pub count: Option<usize>,
    pub pending_find: Option<PendingFind>,
    pub pending_goto: bool,
    pub registers: Vec<String>,
    pub undo_stack: Vec<HistoryEntry>,
    pub redo_stack: Vec<HistoryEntry>,
}

/// A selection the editor can hold over a text of `len` chars.
pub open spec fn selection_fits(s: Selection, len: nat) -> bool {
    &&& s.wf()
    &&& s.is_normalized()
    &&& ranges_within(s@.ranges, len)
}

/// `h` turns `before` into `after` and back, and its selections fit the texts they go with.
pub open spec fn entry_ok(h: HistoryEntry, before: Seq<char>, after: Seq<char>) -> bool {
    &&& h.forward.wf()
    &&& h.forward.len == before.len()
    &&& h.forward.apply_to(before) == after
    &&& h.inverse.wf()
    &&& h.inverse.len == after.len()
    &&& h.inverse.apply_to(after) == before
    &&& selection_fits(h.forward_selection, after.len())
    &&& selection_fits(h.inverse_selection, before.len())
}

/// Undoing the entries of `stack`, last first, walks back from `text` edit by edit.
pub open spec fn undo_chain(text: Seq<char>, stack: Seq<HistoryEntry>) -> bool
    decreases stack.len(),
{
    if stack.len() == 0 {
        true
    } else {
        let before = stack.last().inverse.apply_to(text);
        entry_ok(stack.last(), before, text) && undo_chain(before, stack.drop_last())
    }
}

/// Redoing the entries of `stack`, last first, walks forward from `text` edit by edit.
pub open spec fn redo_chain(text: Seq<char>, stack: Seq<HistoryEntry>) -> bool
    decreases stack.len(),
{
    if stack.len() == 0 {
        true
    } else {
        let after = stack.last().forward.apply_to(text);
        entry_ok(stack.last(), text, after) && redo_chain(after, stack.drop_last())
    }
}

/// Both ends of `r` lie at or before `len`.
pub open spec fn range_within(r: Range, len: nat) -> bool {
    r.anchor <= len && r.head <= len
}

/// Maps every range of `sel` through `f`, which gives `g` of each range within `len`
/// and puts it within `len_out`, then normalizes.
fn map_ranges<F: Fn(Range) -> Range>(
    sel: &Selection,
    f: F,
    Ghost(g): Ghost<spec_fn(Range) -> Range>,
    Ghost(len): Ghost<nat>,
    Ghost(len_out): Ghost<nat>,
) -> (s: Selection)
    requires
        sel.wf(),
        ranges_within(sel@.ranges, len),
        forall|r: Range| #[trigger] range_within(r, len) ==> f.requires((r,)),
        forall|r: Range, out: Range|
            range_within(r, len) && #[trigger] f.ensures((r,), out) ==> out == g(r) && range_within(
                out,
                len_out,
            ),
    ensures
        s.wf(),
        s.is_normalized(),
        s@ == normalized(sel@.ranges.map_values(g), sel@.primary_index),
        ranges_within(s@.ranges, len_out),
{
    let ghost ranges = sel@.ranges;
    proof {
        assert forall|i: int| 0 <= i < ranges.len() implies f.requires((ranges[i],)) by {
            assert(range_within(ranges[i], len));
        }
    }
    let s = sel.clone().transform(f);
    proof {
        let mapped = choose|mapped: Seq<Range>|
            {
                &&& mapped.len() == ranges.len()
                &&& forall|i: int|
                    0 <= i < mapped.len() ==> f.ensures((ranges[i],), #[trigger] mapped[i])
                &&& s@ == normalized(mapped, sel@.primary_index)
                &&& forall|n: nat| ranges_within(mapped, n) ==> ranges_within(s@.ranges, n)
            };
        assert forall|i: int| 0 <= i < mapped.len() implies mapped[i] == g(ranges[i])
            && range_within(mapped[i], len_out) by {
            assert(range_within(ranges[i], len));
            assert(f.ensures((ranges[i],), mapped[i]));
        }
        assert(mapped =~= ranges.map_values(g));
        assert(ranges_within(mapped, len_out));
    }
    s
}


/// The range `put_cursor` makes of `r` at `pos`: a point there, or `r` stretched over
/// the grapheme there.
pub open spec fn cursor_put(r: Range, text: Seq<char>, pos: int, extend: bool) -> Range {
    if extend {
        put_cursor_extend(r, text, pos as usize)
    } else {
        Range::point_spec(pos as usize)
    }
}

/// The line the cursor of `r` is on.
pub open spec fn cursor_line(r: Range, text: Seq<char>) -> int {
    line_of_char(text, cursor_of(r, text) as int)
}

/// Where the last grapheme of the cursor's line starts (the line start on an empty
/// line); the block caret sits there, not past the line.
pub open spec fn line_end_caret(r: Range, text: Seq<char>) -> int {
    let line = cursor_line(r, text);
    let start = line_start(text, line);
    let p = prev_boundary(text, start + line_len(text, line));
    if p >= start {
        p
    } else {
        start
    }
}

/// Where insert mode starts on the cursor's line: its first char that is not white
/// space, or the line start when there is none.
pub open spec fn line_start_caret(r: Range, text: Seq<char>) -> int {
    let line = cursor_line(r, text);
    match first_non_blank(line_chars(text, line), 0) {
        Some(off) => line_start(text, line) + off,
        None => line_start(text, line),
    }
}

/// The range insert mode starts from: flipped to run backward from its end to its start.
pub open spec fn insert_range(r: Range) -> Range {
    Range { anchor: r.to(), head: r.from(), goal_col: None }
}

/// Where an f/t/F/T search starts from the cursor at `cursor`: past the cursor's
/// grapheme going forward, at the cursor going backward, and one char further for
/// t/T so a repeated t/T does not stick before the char it stopped at.
pub open spec fn find_start(text: Seq<char>, cursor: int, find: PendingFind) -> int {
    let after = next_boundary(text, cursor);
    match (find.inclusive, find.dir) {
        (true, Direction::Forward) => after,
        (true, Direction::Backward) => cursor,
        (false, Direction::Forward) => after + 1,
        (false, Direction::Backward) => if cursor > 0 {
            cursor - 1
        } else {
            0
        },
    }
}

/// What an f/t/F/T search for `needle` makes of `r`: unchanged when there are not
/// `find.count` matches; else the cursor goes onto the match (f/F) or next to it on
/// the near side (t/T), stretching `r` (`extend`) or a point at the old cursor.
pub open spec fn found_range(r: Range, text: Seq<char>, find: PendingFind, needle: char) -> Range {
    let cursor = cursor_of(r, text) as int;
    match nth_char(text, needle, find_start(text, cursor, find), find.count as nat, find.dir) {
        None => r,
        Some(found) => {
            let pos = if find.inclusive {
                found
            } else if find.dir == Direction::Forward {
                found - 1
            } else {
                found + 1
            };
            if find.extend {
                put_cursor_extend(r, text, pos as usize)
            } else {
                put_cursor_extend(Range::point_spec(cursor as usize), text, pos as usize)
            }
        },
    }
}

/// The text a yank takes from `r`: the range widened to one grapheme when it is a point.
pub open spec fn yanked(r: Range, text: Seq<char>) -> Seq<char> {
    text.subrange(widened(r, text).from() as int, widened(r, text).to() as int)
}

/// Every cursor put at `pos`.
pub open spec fn put_map(t: Seq<char>, pos: int, extend: bool) -> spec_fn(Range) -> Range {
    |r: Range| cursor_put(r, t, pos, extend)
}

/// Every cursor put at the start of its line.
pub open spec fn line_start_map(t: Seq<char>, extend: bool) -> spec_fn(Range) -> Range {
    |r: Range| cursor_put(r, t, line_start(t, cursor_line(r, t)), extend)
}

/// Every cursor put onto the last grapheme of its line.
pub open spec fn line_end_map(t: Seq<char>, extend: bool) -> spec_fn(Range) -> Range {
    |r: Range| cursor_put(r, t, line_end_caret(r, t), extend)
}

/// Every range flipped for insert mode.
pub open spec fn insert_map() -> spec_fn(Range) -> Range {
    |r: Range| insert_range(r)
}

/// Every range a point past its cursor's grapheme.
pub open spec fn append_map(t: Seq<char>) -> spec_fn(Range) -> Range {
    |r: Range| Range::point_spec(next_boundary(t, cursor_of(r, t) as int) as usize)
}

/// Every range a point at the end of its cursor's line, before the line break.
pub open spec fn line_end_insert_map(t: Seq<char>) -> spec_fn(Range) -> Range {
    |r: Range| Range::point_spec((line_start(t, cursor_line(r, t)) + line_len(t, cursor_line(r, t))) as usize)
}

/// Every range a point at the first char of its cursor's line that is not white space.
pub open spec fn line_start_insert_map(t: Seq<char>) -> spec_fn(Range) -> Range {
    |r: Range| Range::point_spec(line_start_caret(r, t) as usize)
}

/// Every range moved `count` graphemes to the side `dir`.
pub open spec fn h_map(t: Seq<char>, dir: Direction, count: nat, movement: Movement) -> spec_fn(Range) -> Range {
    |r: Range| moved_range(r, t, horizontal_target(t, r, dir, count) as usize, movement)
}

/// Every range moved `count` lines up or down, keeping its goal column.
pub open spec fn v_map(t: Seq<char>, dir: Direction, count: nat, movement: Movement) -> spec_fn(Range) -> Range {
    |r: Range|
        {
            let (pos, goal) = vertical_target(t, r, dir, count);
            Range { goal_col: Some(goal as usize), ..moved_range(r, t, pos as usize, movement) }
        }
}

/// Every range moved by a word motion, `n` times over.
pub open spec fn word_map(t: Seq<char>, n: nat, target: WordMotionTarget) -> spec_fn(Range) -> Range {
    |r: Range| word_moved(t, r, n, target)
}

/// Every range stretched to the cursor of a word motion, `n` times over.
pub open spec fn extend_word_map(t: Seq<char>, n: nat, target: WordMotionTarget) -> spec_fn(Range) -> Range {
    |r: Range| put_cursor_extend(r, t, cursor_of(word_moved(t, r, n, target), t))
}

/// Every range moved by an f/t/F/T search for `ch`.
pub open spec fn find_map(t: Seq<char>, find: PendingFind, ch: char) -> spec_fn(Range) -> Range {
    |r: Range| found_range(r, t, find, ch)
}

/// The heads of `ranges`, in order.
pub open spec fn heads(ranges: Seq<Range>) -> Seq<usize> {
    ranges.map_values(|r: Range| r.head)
}

/// How many of `hs` lie at or before `p`.
pub open spec fn count_at_or_before(hs: Seq<usize>, p: usize) -> nat
    decreases hs.len(),
{
    if hs.len() == 0 {
        0
    } else {
        count_at_or_before(hs.drop_last(), p) + if hs.last() <= p {
            1nat
        } else {
            0nat
        }
    }
}

/// `text` with `ins` put in before each of the positions `hs`, which are in order.
pub open spec fn insert_at_all(text: Seq<char>, hs: Seq<usize>, ins: Seq<char>) -> Seq<char>
    decreases hs.len(),
{
    if hs.len() == 0 {
        text
    } else {
        insert_at_all(text.take(hs.last() as int), hs.drop_last(), ins) + ins + text.skip(
            hs.last() as int,
        )
    }
}

/// `text` with `ins[i]` put in before each position `ps[i]`, the positions in order.
pub open spec fn insert_each(text: Seq<char>, ps: Seq<usize>, ins: Seq<Seq<char>>) -> Seq<char>
    decreases ps.len(),
{
    if ps.len() == 0 || ins.len() == 0 {
        text
    } else {
        insert_each(text.take(ps.last() as int), ps.drop_last(), ins.drop_last()) + ins.last()
            + text.skip(ps.last() as int)
    }
}

/// The chars of all the pieces.
pub open spec fn total_len(ins: Seq<Seq<char>>) -> nat
    decreases ins.len(),
{
    if ins.len() == 0 {
        0
    } else {
        total_len(ins.drop_last()) + ins.last().len()
    }
}

/// The texts of the strings.
pub open spec fn texts(v: Seq<String>) -> Seq<Seq<char>> {
    v.map_values(|s: String| s@)
}

/// Where position `p` goes when `k` chars are put in at each of `hs`: past every
/// insertion at or before it.
pub open spec fn shifted_pos(p: usize, hs: Seq<usize>, k: nat) -> int {
    p + k * count_at_or_before(hs, p)
}

/// Every range with both ends moved past the insertions at or before them.
pub open spec fn shift_map(hs: Seq<usize>, k: nat) -> spec_fn(Range) -> Range {
    |r: Range|
        Range {
            anchor: shifted_pos(r.anchor, hs, k) as usize,
            head: shifted_pos(r.head, hs, k) as usize,
            goal_col: None,
        }
}

/// Positions in order, none past `len`.
pub open spec fn ordered_within(hs: Seq<usize>, len: nat) -> bool {
    &&& forall|i: int| 0 <= i < hs.len() ==> #[trigger] hs[i] <= len
    &&& forall|i: int, j: int| 0 <= i <= j < hs.len() ==> #[trigger] hs[i] <= #[trigger] hs[j]
}

proof fn lemma_count_bound(hs: Seq<usize>, p: usize)
    ensures
        count_at_or_before(hs, p) <= hs.len(),
    decreases hs.len(),
{
    if hs.len() > 0 {
        lemma_count_bound(hs.drop_last(), p);
    }
}

/// Putting `ins` in at each of `hs` adds `ins` once per position.
proof fn lemma_insert_at_all_len(text: Seq<char>, hs: Seq<usize>, ins: Seq<char>)
    requires
        ordered_within(hs, text.len()),
    ensures
        insert_at_all(text, hs, ins).len() == text.len() + hs.len() * ins.len(),
    decreases hs.len(),
{
    if hs.len() > 0 {
        let h = hs.last();
        let init = hs.drop_last();
        assert(h == hs[hs.len() - 1]);
        assert(ordered_within(init, h as nat)) by {
            assert forall|i: int| 0 <= i < init.len() implies #[trigger] init[i] <= h by {
                assert(init[i] == hs[i]);
                assert(hs[i] <= hs[hs.len() - 1]);
            }
            assert forall|i: int, j: int| 0 <= i <= j < init.len() implies #[trigger] init[i]
                <= #[trigger] init[j] by {
                assert(init[i] == hs[i] && init[j] == hs[j]);
            }
        }
        lemma_insert_at_all_len(text.take(h as int), init, ins);
        let n = init.len();
        assert(n * ins.len() + ins.len() == (n + 1) * ins.len()) by (nonlinear_arith);
    }
}

/// `n` line breaks are `n` chars.
proof fn lemma_line_breaks_len(n: nat)
    ensures
        total_len(line_breaks(n)) == n,
    decreases n,
{
    if n > 0 {
        assert(line_breaks(n).drop_last() =~= line_breaks((n - 1) as nat));
        lemma_line_breaks_len((n - 1) as nat);
    }
}

/// The pieces of a prefix have no more chars than all of them.
proof fn lemma_total_prefix(vals: Seq<Seq<char>>, i: int)
    requires
        0 <= i <= vals.len(),
    ensures
        total_len(vals.take(i)) <= total_len(vals),
        i < vals.len() ==> total_len(vals.take(i + 1)) == total_len(vals.take(i)) + vals[i].len(),
    decreases vals.len(),
{
    if i < vals.len() {
        assert(vals.take(i + 1).drop_last() =~= vals.take(i));
        lemma_total_prefix(vals.drop_last(), i);
        if i < vals.len() - 1 {
            assert(vals.drop_last().take(i) =~= vals.take(i));
            assert(vals.drop_last().take(i + 1) =~= vals.take(i + 1));
            lemma_total_prefix(vals.drop_last(), i + 1);
        } else {
            assert(vals.take(i + 1) =~= vals);
        }
    } else {
        assert(vals.take(i) =~= vals);
    }
}

/// Putting the pieces in at positions in order adds their chars.
proof fn lemma_insert_each_len(text: Seq<char>, ps: Seq<usize>, ins: Seq<Seq<char>>)
    requires
        ordered_within(ps, text.len()),
        ps.len() == ins.len(),
    ensures
        insert_each(text, ps, ins).len() == text.len() + total_len(ins),
    decreases ps.len(),
{
    if ps.len() > 0 {
        let h = ps.last();
        let init = ps.drop_last();
        assert(h == ps[ps.len() - 1]);
        assert(ordered_within(init, h as nat)) by {
            assert forall|i: int| 0 <= i < init.len() implies #[trigger] init[i] <= h by {
                assert(init[i] == ps[i]);
                assert(ps[i] <= ps[ps.len() - 1]);
            }
            assert forall|i: int, j: int| 0 <= i <= j < init.len() implies #[trigger] init[i]
                <= #[trigger] init[j] by {
                assert(init[i] == ps[i] && init[j] == ps[j]);
            }
        }
        lemma_insert_each_len(text.take(h as int), init, ins.drop_last());
    }
}

/// The edits that put `ins[i]` in at each `ps[i]` splice `text` as `insert_each` says.
proof fn lemma_splice_each(ch: Seq<Change>, text: Seq<char>, ps: Seq<usize>, ins: Seq<Seq<char>>)
    requires
        ch.len() == ps.len(),
        ins.len() == ps.len(),
        forall|i: int|
            0 <= i < ch.len() ==> (#[trigger] ch[i]).0 == ps[i] && ch[i].1 == ps[i] && ch[i].2 is Some
                && ch[i].2.unwrap()@ == ins[i],
    ensures
        splice(ch, text) == insert_each(text, ps, ins),
    decreases ch.len(),
{
    if ch.len() > 0 {
        let init = ch.drop_last();
        assert(ch.last() == ch[ch.len() - 1]);
        assert(ins.last() == ins[ins.len() - 1]);
        assert forall|i: int| 0 <= i < init.len() implies (#[trigger] init[i]).0 == ps.drop_last()[i]
            && init[i].1 == ps.drop_last()[i] && init[i].2 is Some && init[i].2.unwrap()@
            == ins.drop_last()[i] by {
            assert(init[i] == ch[i]);
        }
        lemma_splice_each(init, text.take(ch.last().0 as int), ps.drop_last(), ins.drop_last());
    }
}

/// The edits that put `ins` in at each of `hs` splice `text` as `insert_at_all` says.
proof fn lemma_splice_inserts(ch: Seq<Change>, text: Seq<char>, hs: Seq<usize>, ins: Seq<char>)
    requires
        ch.len() == hs.len(),
        forall|i: int|
            0 <= i < ch.len() ==> (#[trigger] ch[i]).0 == hs[i] && ch[i].1 == hs[i] && ch[i].2 is Some
                && ch[i].2.unwrap()@ == ins,
    ensures
        splice(ch, text) == insert_at_all(text, hs, ins),
    decreases ch.len(),
{
    if ch.len() > 0 {
        let init = ch.drop_last();
        assert(ch.last() == ch[ch.len() - 1]);
        assert forall|i: int| 0 <= i < init.len() implies (#[trigger] init[i]).0 == hs.drop_last()[i]
            && init[i].1 == hs.drop_last()[i] && init[i].2 is Some && init[i].2.unwrap()@ == ins by {
            assert(init[i] == ch[i]);
        }
        lemma_splice_inserts(init, text.take(ch.last().0 as int), hs.drop_last(), ins);
    }
}

/// Spans in order cover at most the chars before `p`, and none past the last span's end.
proof fn lemma_deleted_bound(sp: Seq<(usize, usize)>, p: usize)
    requires
        spans_in_order(sp),
    ensures
        0 <= deleted_before(sp, p) <= p,
        sp.len() > 0 ==> deleted_before(sp, p) <= sp.last().1,
    decreases sp.len(),
{
    if sp.len() > 0 {
        let init = sp.drop_last();
        assert(spans_in_order(init)) by {
            assert forall|i: int| 0 < i < init.len() implies init[i - 1].1 <= (#[trigger] init[i]).0 by {
                assert(init[i] == sp[i] && init[i - 1] == sp[i - 1]);
            }
            assert forall|i: int| 0 <= i < init.len() implies (#[trigger] init[i]).0 <= init[i].1 by {
                assert(init[i] == sp[i]);
            }
        }
        lemma_deleted_bound(init, p);
        assert(sp.last() == sp[sp.len() - 1]);
        if init.len() > 0 {
            assert(init.last() == sp[sp.len() - 2]);
        }
    }
}

/// Spans in order cover no more of `p..q` than its length.
proof fn lemma_deleted_step(sp: Seq<(usize, usize)>, p: usize, q: usize)
    requires
        spans_in_order(sp),
        p <= q,
    ensures
        0 <= deleted_before(sp, q) - deleted_before(sp, p) <= q - p,
        sp.len() > 0 ==> deleted_before(sp, q) - deleted_before(sp, p) <= (if q <= sp.last().1 {
            q as int
        } else {
            sp.last().1 as int
        }) - (if p <= sp.last().1 {
            p as int
        } else {
            sp.last().1 as int
        }),
    decreases sp.len(),
{
    if sp.len() > 0 {
        let init = sp.drop_last();
        assert(spans_in_order(init)) by {
            assert forall|i: int| 0 < i < init.len() implies init[i - 1].1 <= (#[trigger] init[i]).0 by {
                assert(init[i] == sp[i] && init[i - 1] == sp[i - 1]);
            }
            assert forall|i: int| 0 <= i < init.len() implies (#[trigger] init[i]).0 <= init[i].1 by {
                assert(init[i] == sp[i]);
            }
        }
        lemma_deleted_step(init, p, q);
        assert(sp.last() == sp[sp.len() - 1]);
        if init.len() > 0 {
            assert(init.last() == sp[sp.len() - 2]);
        }
    }
}

/// Spans that all end at or before `p` cover as many chars before `p` as before any
/// later `q`.
proof fn lemma_deleted_full(sp: Seq<(usize, usize)>, p: usize, q: usize)
    requires
        p <= q,
        forall|i: int| 0 <= i < sp.len() ==> (#[trigger] sp[i]).0 <= sp[i].1 <= p,
    ensures
        deleted_before(sp, p) == deleted_before(sp, q),
    decreases sp.len(),
{
    if sp.len() > 0 {
        let init = sp.drop_last();
        assert forall|i: int| 0 <= i < init.len() implies (#[trigger] init[i]).0 <= init[i].1 <= p by {
            assert(init[i] == sp[i]);
        }
        lemma_deleted_full(init, p, q);
        assert(sp.last() == sp[sp.len() - 1]);
    }
}

/// Deleting spans in order, all within `text`, leaves the chars they do not cover.
proof fn lemma_delete_all_len(text: Seq<char>, sp: Seq<(usize, usize)>)
    requires
        spans_in_order(sp),
        text.len() <= usize::MAX,
        forall|i: int| 0 <= i < sp.len() ==> (#[trigger] sp[i]).1 <= text.len(),
    ensures
        delete_all(text, sp).len() == text.len() - deleted_before(sp, text.len() as usize),
    decreases sp.len(),
{
    if sp.len() > 0 {
        let init = sp.drop_last();
        let (f, t) = sp.last();
        assert(sp.last() == sp[sp.len() - 1]);
        assert(f <= t <= text.len());
        assert(spans_in_order(init)) by {
            assert forall|i: int| 0 < i < init.len() implies init[i - 1].1 <= (#[trigger] init[i]).0 by {
                assert(init[i] == sp[i] && init[i - 1] == sp[i - 1]);
            }
            assert forall|i: int| 0 <= i < init.len() implies (#[trigger] init[i]).0 <= init[i].1 by {
                assert(init[i] == sp[i]);
            }
        }
        assert forall|i: int| 0 <= i < init.len() implies (#[trigger] init[i]).0 <= init[i].1 <= f by {
            assert(init[i] == sp[i]);
            if i < init.len() - 1 {
                lemma_span_ends_before(sp, i, sp.len() - 1);
            }
        }
        assert forall|i: int| 0 <= i < init.len() implies (#[trigger] init[i]).1 <= text.take(
            f as int,
        ).len() by {}
        lemma_delete_all_len(text.take(f as int), init);
        lemma_deleted_full(init, f, text.len() as usize);
    }
}

/// In spans in order, each ends no later than any later one starts.
proof fn lemma_span_ends_before(sp: Seq<(usize, usize)>, i: int, j: int)
    requires
        spans_in_order(sp),
        0 <= i < j < sp.len(),
    ensures
        sp[i].1 <= sp[j].0,
    decreases j - i,
{
    if i + 1 < j {
        lemma_span_ends_before(sp, i + 1, j);
        assert(sp[i + 1].0 <= sp[i + 1].1);
    }
}

/// The edits that delete the spans `sp` splice `text` as `delete_all` says.
proof fn lemma_splice_deletes(ch: Seq<Change>, text: Seq<char>, sp: Seq<(usize, usize)>)
    requires
        ch.len() == sp.len(),
        forall|i: int|
            0 <= i < ch.len() ==> (#[trigger] ch[i]).0 == sp[i].0 && ch[i].1 == sp[i].1 && ch[i].2
                is None,
    ensures
        splice(ch, text) == delete_all(text, sp),
    decreases ch.len(),
{
    if ch.len() > 0 {
        let init = ch.drop_last();
        assert(ch.last() == ch[ch.len() - 1]);
        assert forall|i: int| 0 <= i < init.len() implies (#[trigger] init[i]).0 == sp.drop_last()[i].0
            && init[i].1 == sp.drop_last()[i].1 && init[i].2 is None by {
            assert(init[i] == ch[i]);
        }
        lemma_splice_deletes(init, text.take(ch.last().0 as int), sp.drop_last());
        assert(change_text(ch.last()) =~= Seq::<char>::empty());
    }
}

/// The spans Backspace deletes before the heads of `ranges`, the edits that delete
/// them, and whether they are in order.
fn backspace_plan(rope: RopeSlice, ranges: &[Range]) -> (r: (Vec<(usize, usize)>, Vec<Change>, bool))
    requires
        ranges_within(ranges@, slice_text(rope).len()),
    ensures
        r.0@ == backspace_spans(slice_text(rope), heads(ranges@)),
        r.1@.len() == r.0@.len(),
        forall|j: int|
            0 <= j < r.1@.len() ==> (#[trigger] r.1@[j]).0 == r.0@[j].0 && r.1@[j].1 == r.0@[j].1
                && r.1@[j].2 is None,
        r.2 == spans_in_order(r.0@),
{
    let ghost t = slice_text(rope);
    let ghost rs = ranges@;
    let ghost want = backspace_spans(t, heads(rs));
    let n = ranges.len();
    let mut sp: Vec<(usize, usize)> = Vec::new();
    let mut changes: Vec<Change> = Vec::new();
    let mut ordered = true;
    let mut i: usize = 0;
    while i < n
        invariant
            t == slice_text(rope),
            n == rs.len(),
            ranges@ == rs,
            ranges_within(rs, t.len()),
            want == backspace_spans(t, heads(rs)),
            0 <= i <= n,
            sp@ == want.take(i as int),
            changes@.len() == i,
            forall|j: int|
                0 <= j < i ==> (#[trigger] changes@[j]).0 == sp@[j].0 && changes@[j].1 == sp@[j].1
                    && changes@[j].2 is None,
            ordered == spans_in_order(sp@),
        decreases n - i,
    {
        let h = ranges[i].head;
        let f = prev_grapheme_boundary(&rope, h);
        let ghost before = sp@;
        if i > 0 && sp[i - 1].1 > f {
            ordered = false;
        }
        sp.push((f, h));
        changes.push((f, h, None));
        proof {
            assert(want[i as int] == (f, h));
            assert(sp@ =~= want.take(i + 1));
            if ordered {
                assert(spans_in_order(sp@)) by {
                    assert forall|j: int| 0 < j < sp@.len() implies sp@[j - 1].1 <= (
                    #[trigger] sp@[j]).0 by {
                        if j < i {
                            assert(sp@[j] == before[j] && sp@[j - 1] == before[j - 1]);
                        }
                    }
                    assert forall|j: int| 0 <= j < sp@.len() implies (#[trigger] sp@[j]).0
                        <= sp@[j].1 by {
                        if j < i {
                            assert(sp@[j] == before[j]);
                        }
                    }
                }
            } else {
                if spans_in_order(sp@) {
                    assert(spans_in_order(before)) by {
                        assert forall|j: int| 0 < j < before.len() implies before[j - 1].1 <= (
                        #[trigger] before[j]).0 by {
                            assert(sp@[j] == before[j] && sp@[j - 1] == before[j - 1]);
                        }
                        assert forall|j: int| 0 <= j < before.len() implies (
                        #[trigger] before[j]).0 <= before[j].1 by {
                            assert(sp@[j] == before[j]);
                        }
                    }
                    assert(sp@[i - 1].1 <= sp@[i as int].0);
                }
            }
        }
        i = i + 1;
    }
    proof {
        assert(want.take(n as int) =~= want);
    }
    (sp, changes, ordered)
}

/// The spans `d` deletes for `ranges` (each widened to a grapheme when it is a point),
/// the edits that delete them, and whether they are in order.
fn selection_plan(rope: RopeSlice, ranges: &[Range]) -> (r: (Vec<(usize, usize)>, Vec<Change>, bool))
    requires
        ranges_within(ranges@, slice_text(rope).len()),
    ensures
        r.0@ == selection_spans(slice_text(rope), ranges@),
        r.1@.len() == r.0@.len(),
        forall|j: int|
            0 <= j < r.1@.len() ==> (#[trigger] r.1@[j]).0 == r.0@[j].0 && r.1@[j].1 == r.0@[j].1
                && r.1@[j].2 is None,
        r.2 == spans_in_order(r.0@),
        forall|j: int| 0 <= j < r.0@.len() ==> (#[trigger] r.0@[j]).1 <= slice_text(rope).len(),
{
    let ghost t = slice_text(rope);
    let ghost rs = ranges@;
    let ghost want = selection_spans(t, rs);
    let n = ranges.len();
    let mut sp: Vec<(usize, usize)> = Vec::new();
    let mut changes: Vec<Change> = Vec::new();
    let mut ordered = true;
    let mut i: usize = 0;
    while i < n
        invariant
            t == slice_text(rope),
            n == rs.len(),
            ranges@ == rs,
            ranges_within(rs, t.len()),
            want == selection_spans(t, rs),
            0 <= i <= n,
            sp@ == want.take(i as int),
            changes@.len() == i,
            forall|j: int|
                0 <= j < i ==> (#[trigger] changes@[j]).0 == sp@[j].0 && changes@[j].1 == sp@[j].1
                    && changes@[j].2 is None,
            ordered == spans_in_order(sp@),
            forall|j: int| 0 <= j < i ==> (#[trigger] sp@[j]).1 <= t.len(),
        decreases n - i,
    {
        let w = ranges[i].min_width_1(rope);
        let f = w.from();
        let h = w.to();
        let ghost before = sp@;
        if i > 0 && sp[i - 1].1 > f {
            ordered = false;
        }
        sp.push((f, h));
        changes.push((f, h, None));
        proof {
            assert(want[i as int] == (f, h));
            assert(sp@ =~= want.take(i + 1));
            if ordered {
                assert(spans_in_order(sp@)) by {
                    assert forall|j: int| 0 < j < sp@.len() implies sp@[j - 1].1 <= (
                    #[trigger] sp@[j]).0 by {
                        if j < i {
                            assert(sp@[j] == before[j] && sp@[j - 1] == before[j - 1]);
                        }
                    }
                    assert forall|j: int| 0 <= j < sp@.len() implies (#[trigger] sp@[j]).0
                        <= sp@[j].1 by {
                        if j < i {
                            assert(sp@[j] == before[j]);
                        }
                    }
                }
            } else {
                if spans_in_order(sp@) {
                    assert(spans_in_order(before)) by {
                        assert forall|j: int| 0 < j < before.len() implies before[j - 1].1 <= (
                        #[trigger] before[j]).0 by {
                            assert(sp@[j] == before[j] && sp@[j - 1] == before[j - 1]);
                        }
                        assert forall|j: int| 0 <= j < before.len() implies (
                        #[trigger] before[j]).0 <= before[j].1 by {
                            assert(sp@[j] == before[j]);
                        }
                    }
                    assert(sp@[i - 1].1 <= sp@[i as int].0);
                }
            }
        }
        i = i + 1;
    }
    proof {
        assert(want.take(n as int) =~= want);
    }
    (sp, changes, ordered)
}

/// Where `p` goes when the spans `sp` are deleted.
fn unshift_position(sp: &Vec<(usize, usize)>, p: usize) -> (r: usize)
    requires
        spans_in_order(sp@),
    ensures
        r == p - deleted_before(sp@, p),
{
    let mut d: usize = 0;
    let mut i: usize = 0;
    while i < sp.len()
        invariant
            0 <= i <= sp@.len(),
            spans_in_order(sp@),
            d == deleted_before(sp@.take(i as int), p),
        decreases sp@.len() - i,
    {
        let ghost pre = sp@.take(i + 1);
        proof {
            assert(pre.drop_last() =~= sp@.take(i as int));
            assert(pre.last() == sp@[i as int]);
            assert(spans_in_order(pre)) by {
                assert forall|j: int| 0 < j < pre.len() implies pre[j - 1].1 <= (#[trigger] pre[j]).0 by {
                    assert(pre[j] == sp@[j] && pre[j - 1] == sp@[j - 1]);
                }
                assert forall|j: int| 0 <= j < pre.len() implies (#[trigger] pre[j]).0 <= pre[j].1 by {
                    assert(pre[j] == sp@[j]);
                }
            }
            lemma_deleted_bound(pre, p);
        }
        let (f, t) = sp[i];
        if t <= p {
            d = d + (t - f);
        } else if f < p {
            d = d + (p - f);
        }
        i = i + 1;
    }
    proof {
        assert(sp@.take(sp@.len() as int) =~= sp@);
        lemma_deleted_bound(sp@, p);
    }
    p - d
}

/// The heads of sorted ranges that do not overlap are in order.
proof fn lemma_sorted_heads(s: Seq<Range>, i: int, j: int)
    requires
        ranges_disjoint_sorted(s),
        0 <= i <= j < s.len(),
    ensures
        s[i].head <= s[j].head,
    decreases j - i,
{
    if i < j {
        lemma_sorted_heads(s, i + 1, j);
        assert(s[i].to() <= s[i + 1].from());
    }
}

/// `char::to_string`: a string of the one char `c`.
#[verifier::external_body]
fn char_to_string(c: char) -> (s: String)
    ensures
        s@ == seq![c],
{
    c.to_string()
}

/// Where `p` goes when `k` chars are put in at each of `hs`.
fn shift_position(hs: &Vec<usize>, k: usize, p: usize) -> (r: usize)
    requires
        p + hs@.len() * k <= usize::MAX,
    ensures
        r == shifted_pos(p, hs@, k as nat),
        r <= p + hs@.len() * k,
{
    let mut count: usize = 0;
    let mut i: usize = 0;
    while i < hs.len()
        invariant
            0 <= i <= hs@.len(),
            count == count_at_or_before(hs@.take(i as int), p),
            count <= i,
        decreases hs@.len() - i,
    {
        proof {
            assert(hs@.take(i + 1).drop_last() =~= hs@.take(i as int));
            assert(hs@.take(i + 1).last() == hs@[i as int]);
        }
        if hs[i] <= p {
            count = count + 1;
        }
        i = i + 1;
    }
    proof {
        assert(hs@.take(hs@.len() as int) =~= hs@);
        let n = hs@.len();
        assert(k * count <= n * k) by (nonlinear_arith)
            requires
                count <= n,
        ;
    }
    p + k * count
}

/// `new` is `e` with `ins` typed at the head of every range, the edit recorded for
/// undo and the redo history dropped.
pub open spec fn inserted(e: Editor, ins: Seq<char>, new: Editor) -> bool {
    let hs = heads(e.selection@.ranges);
    &&& new.document.text() == insert_at_all(e.document.text(), hs, ins)
    &&& new.selection@ == mapped_selection(e, shift_map(hs, ins.len()))
    &&& recorded(e, new)
}

/// `new` is `e` after an edit of its text: the encoding and the mark stay, the edit
/// is the last entry of the undo history (with the selections before and after it),
/// the redo history is dropped, and nothing else changes.
pub open spec fn recorded(e: Editor, new: Editor) -> bool {
    recorded_from(e, e.selection@, e.mode, new)
}

/// As `recorded`, for an edit made once the selection had become `before` and the mode
/// `mode`: the undo history keeps `before`, and `new` is in `mode`.
pub open spec fn recorded_from(e: Editor, before: SelectionView, mode: Mode, new: Editor) -> bool {
    &&& new.document.encoding_of() == e.document.encoding_of()
    &&& new.document.bom() == e.document.bom()
    &&& new.undo_stack@.len() == e.undo_stack@.len() + 1
    &&& new.undo_stack@.drop_last() == e.undo_stack@
    &&& entry_ok(new.undo_stack@.last(), e.document.text(), new.document.text())
    &&& new.undo_stack@.last().inverse_selection@ == before
    &&& new.undo_stack@.last().forward_selection@ == new.selection@
    &&& new.redo_stack@.len() == 0
    &&& new == (Editor {
        document: new.document,
        selection: new.selection,
        undo_stack: new.undo_stack,
        redo_stack: new.redo_stack,
        mode,
        ..e
    })
}

/// Where `o` (`below`) or `O` opens a line for `r`: at the end of the line where `r`
/// starts, before its line break, or at that line's start.
pub open spec fn open_pos(r: Range, text: Seq<char>, below: bool) -> usize {
    let line = line_of_char(text, r.from() as int);
    if below {
        (line_start(text, line) + line_len(text, line)) as usize
    } else {
        line_start(text, line) as usize
    }
}

/// A line break for each of `n` ranges.
pub open spec fn line_breaks(n: nat) -> Seq<Seq<char>> {
    Seq::new(n, |i: int| seq!['\n'])
}

/// The cursors on the opened lines: past the `i` line breaks put in before, and past
/// its own for `o`.
pub open spec fn open_carets(ps: Seq<usize>, below: bool) -> Seq<Range> {
    Seq::new(
        ps.len(),
        |i: int| Range::point_spec((ps[i] + i + if below { 1int } else { 0int }) as usize),
    )
}

/// What `o` (`below`) or `O` makes of `e`: with the positions of the ranges in order,
/// a line break at each, the cursors on the new lines, Insert mode, and the edit
/// recorded; else Insert mode as `i` enters it.
pub open spec fn opened(e: Editor, below: bool, new: Editor) -> bool {
    let t = e.document.text();
    let ps = e.selection@.ranges.map_values(|r: Range| open_pos(r, t, below));
    if ordered_within(ps, t.len()) {
        &&& new.document.text() == insert_each(t, ps, line_breaks(ps.len()))
        &&& new.selection@ == normalized(open_carets(ps, below), e.selection@.primary_index)
        &&& recorded_from(e, e.selection@, Mode::Insert, new)
    } else {
        &&& new == (Editor { selection: new.selection, mode: Mode::Insert, ..e })
        &&& new.selection@ == mapped_selection(e, insert_map())
    }
}

/// What `min_width_1` makes of `r`: a point grows over the grapheme after it.
pub open spec fn widened(r: Range, text: Seq<char>) -> Range {
    if r.head == r.anchor {
        Range { head: next_boundary(text, r.head as int) as usize, ..r }
    } else {
        r
    }
}

/// The spans `d` deletes: each range, a point widened over the grapheme after it.
pub open spec fn selection_spans(text: Seq<char>, ranges: Seq<Range>) -> Seq<(usize, usize)> {
    ranges.map_values(|r: Range| (widened(r, text).from(), widened(r, text).to()))
}

/// What `d` makes of `e`: what each range covers (a point: its grapheme) goes to the
/// registers and the mode to Normal; with the spans in order and not all empty they
/// are deleted, every range moving back over what was deleted before its ends, and
/// the edit is recorded.
pub open spec fn deleted_selections(e: Editor, new: Editor) -> bool {
    let t = e.document.text();
    let sp = selection_spans(t, e.selection@.ranges);
    let yanked_into = Editor { registers: new.registers, mode: Mode::Normal, ..e };
    &&& new.registers@.len() == e.selection@.ranges.len()
    &&& forall|i: int|
        0 <= i < new.registers@.len() ==> (#[trigger] new.registers@[i])@ == yanked(
            e.selection@.ranges[i],
            t,
        )
    &&& if spans_in_order(sp) && deleted_before(sp, t.len() as usize) > 0 {
        &&& new.document.text() == delete_all(t, sp)
        &&& new.selection@ == mapped_selection(e, unshift_map(sp))
        &&& recorded(yanked_into, new)
    } else {
        new == yanked_into
    }
}

/// Where `p` (`after`) or `P` puts text for `r`: past the range (a point: past its
/// grapheme), or at its start.
pub open spec fn paste_pos(r: Range, text: Seq<char>, after: bool) -> usize {
    if after {
        widened(r, text).to()
    } else {
        r.from()
    }
}

/// The values pasted at `n` ranges: each range takes the register of its own index, or
/// the last one when there are fewer registers.
pub open spec fn paste_values(regs: Seq<String>, n: nat) -> Seq<Seq<char>> {
    Seq::new(n, |i: int| if i < regs.len() { regs[i]@ } else { regs.last()@ })
}

/// Where the values go: at each range's paste position.
pub open spec fn paste_positions(ranges: Seq<Range>, text: Seq<char>, after: bool) -> Seq<usize> {
    ranges.map_values(|r: Range| paste_pos(r, text, after))
}

/// Each pasted value selected where it lands, past the values pasted before it.
pub open spec fn paste_carets(ps: Seq<usize>, vals: Seq<Seq<char>>) -> Seq<Range> {
    Seq::new(
        ps.len(),
        |i: int|
            Range {
                anchor: (ps[i] + total_len(vals.take(i))) as usize,
                head: (ps[i] + total_len(vals.take(i + 1))) as usize,
                goal_col: None,
            },
    )
}

/// The text and the values pasted at every range fit a `usize`.
pub open spec fn paste_fits(e: Editor) -> bool {
    e.registers@.len() > 0 ==> e.document.text().len() + total_len(
        paste_values(e.registers@, e.selection@.ranges.len()),
    ) <= usize::MAX
}

/// What `p` (`after`) or `P` makes of `e`: with no registers, nothing; else the mode goes
/// to Normal and, with the positions in order and something to put in, the values go in
/// and are selected, and the edit is recorded.
pub open spec fn pasted(e: Editor, after: bool, new: Editor) -> bool {
    if e.registers@.len() == 0 {
        new == e
    } else {
        let t = e.document.text();
        let rs = e.selection@.ranges;
        let ps = paste_positions(rs, t, after);
        let vals = paste_values(e.registers@, rs.len());
        let normal = Editor { mode: Mode::Normal, ..e };
        if ordered_within(ps, t.len()) && total_len(vals) > 0 {
            &&& new.document.text() == insert_each(t, ps, vals)
            &&& new.selection@ == normalized(paste_carets(ps, vals), e.selection@.primary_index)
            &&& recorded(normal, new)
        } else {
            new == normal
        }
    }
}

/// The spans Backspace deletes: from the grapheme boundary before each head up to it.
pub open spec fn backspace_spans(text: Seq<char>, hs: Seq<usize>) -> Seq<(usize, usize)> {
    hs.map_values(|h: usize| (prev_boundary(text, h as int) as usize, h))
}

/// Spans that each run forward and end no later than the next one starts.
pub open spec fn spans_in_order(sp: Seq<(usize, usize)>) -> bool {
    &&& forall|i: int| 0 <= i < sp.len() ==> (#[trigger] sp[i]).0 <= sp[i].1
    &&& forall|i: int| 0 < i < sp.len() ==> sp[i - 1].1 <= (#[trigger] sp[i]).0
}

/// `text` without the spans `sp`, which are in order.
pub open spec fn delete_all(text: Seq<char>, sp: Seq<(usize, usize)>) -> Seq<char>
    decreases sp.len(),
{
    if sp.len() == 0 {
        text
    } else {
        delete_all(text.take(sp.last().0 as int), sp.drop_last()) + text.skip(sp.last().1 as int)
    }
}

/// How many chars before `p` the spans `sp` cover.
pub open spec fn deleted_before(sp: Seq<(usize, usize)>, p: usize) -> int
    decreases sp.len(),
{
    if sp.len() == 0 {
        0
    } else {
        let (f, t) = sp.last();
        deleted_before(sp.drop_last(), p) + if t <= p {
            t - f
        } else if f < p {
            p - f
        } else {
            0
        }
    }
}

/// Every range with both ends moved back over the deleted chars before them.
pub open spec fn unshift_map(sp: Seq<(usize, usize)>) -> spec_fn(Range) -> Range {
    |r: Range|
        Range {
            anchor: (r.anchor - deleted_before(sp, r.anchor)) as usize,
            head: (r.head - deleted_before(sp, r.head)) as usize,
            goal_col: None,
        }
}

/// What Backspace makes of `e`: with the spans before the heads in order and at least
/// one of them not empty, `e` with them deleted and the edit recorded; else `e` as it is.
pub open spec fn backspaced(e: Editor, new: Editor) -> bool {
    let t = e.document.text();
    let sp = backspace_spans(t, heads(e.selection@.ranges));
    if spans_in_order(sp) && deleted_before(sp, t.len() as usize) > 0 {
        &&& new.document.text() == delete_all(t, sp)
        &&& new.selection@ == mapped_selection(e, unshift_map(sp))
        &&& recorded(e, new)
    } else {
        new == e
    }
}

/// `new` is `e` with its last edit undone: the text and selection from before it, the
/// entry moved onto the redo history. Nothing to undo leaves `e` as it is.
pub open spec fn undone(e: Editor, new: Editor) -> bool {
    if e.undo_stack@.len() == 0 {
        new == e
    } else {
        let h = e.undo_stack@.last();
        &&& new.document.text() == h.inverse.apply_to(e.document.text())
        &&& new.document.encoding_of() == e.document.encoding_of()
        &&& new.document.bom() == e.document.bom()
        &&& new.selection@ == h.inverse_selection@
        &&& new.undo_stack@ == e.undo_stack@.drop_last()
        &&& new.redo_stack@ == e.redo_stack@.push(h)
        &&& new == (Editor {
            document: new.document,
            selection: new.selection,
            undo_stack: new.undo_stack,
            redo_stack: new.redo_stack,
            ..e
        })
    }
}

/// `new` is `e` with its last undone edit made again: the text and selection from
/// after it, the entry moved back onto the undo history. Nothing to redo leaves `e`
/// as it is.
pub open spec fn redone(e: Editor, new: Editor) -> bool {
    if e.redo_stack@.len() == 0 {
        new == e
    } else {
        let h = e.redo_stack@.last();
        &&& new.document.text() == h.forward.apply_to(e.document.text())
        &&& new.document.encoding_of() == e.document.encoding_of()
        &&& new.document.bom() == e.document.bom()
        &&& new.selection@ == h.forward_selection@
        &&& new.redo_stack@ == e.redo_stack@.drop_last()
        &&& new.undo_stack@ == e.undo_stack@.push(h)
        &&& new == (Editor {
            document: new.document,
            selection: new.selection,
            undo_stack: new.undo_stack,
            redo_stack: new.redo_stack,
            ..e
        })
    }
}

/// The selection `g` makes of the editor's selection, range by range.
pub open spec fn mapped_selection(e: Editor, g: spec_fn(Range) -> Range) -> SelectionView {
    normalized(e.selection@.ranges.map_values(g), e.selection@.primary_index)
}

impl Editor {
    /// The selection has a primary range, is sorted without overlaps, and every range
    /// lies within the text; at most one multi-key command waits for its next key; the
    /// undo history leads back from the text, and the redo history forward from it.
    pub open spec fn wf(&self) -> bool {
        &&& !(self.pending_goto && self.pending_find is Some)
        &&& undo_chain(self.document.text(), self.undo_stack@)
        &&& redo_chain(self.document.text(), self.redo_stack@)
        &&& self.selection.wf()
        &&& self.selection.is_normalized()
        &&& ranges_within(self.selection@.ranges, self.document.text().len())
    }

    /// The editor over `document`: a cursor at the start, Normal mode, nothing pending,
    /// empty registers.
    pub fn new(document: Document) -> (e: Self)
        ensures
            e.wf(),
            e.document == document,
            e.selection@ == (SelectionView {
                ranges: seq![Range { anchor: 0, head: 0, goal_col: None }],
                primary_index: 0,
            }),
            e.mode == Mode::Normal,
            e.count is None,
            e.pending_find is None,
            !e.pending_goto,
            e.registers@.len() == 0,
            e.undo_stack@.len() == 0,
            e.redo_stack@.len() == 0,
    {
        let selection = Selection::point(0);
        Self {
            document,
            selection,
            mode: Mode::Normal,
            count: None,
            pending_find: None,
            pending_goto: false,
            registers: Vec::new(),
            undo_stack: Vec::new(),
            redo_stack: Vec::new(),
        }
    }

    /// Appends a digit to the count: 1 then 2 make 12.
    pub fn push_count_digit(&mut self, n: usize)
        requires
            (match old(self).count {
                Some(c) => c as int,
                None => 0,
            }) * 10 + n <= usize::MAX,
        ensures
            final(self).count == Some(
                ((match old(self).count {
                    Some(c) => c as int,
                    None => 0,
                }) * 10 + n) as usize,
            ),
            *final(self) == (Editor { count: final(self).count, ..*old(self) }),
    {
        let c = match self.count {
            Some(c) => c,
            None => 0,
        };
        self.count = Some(c * 10 + n);
    }

    /// Takes the count, 1 when there is none, and clears it.
    pub fn take_count(&mut self) -> (n: usize)
        ensures
            n == match old(self).count {
                Some(c) => c,
                None => 1,
            },
            *final(self) == (Editor { count: None, ..*old(self) }),
    {
        match self.count.take() {
            Some(c) => c,
            None => 1,
        }
    }

    pub fn enter_normal(&mut self)
        ensures
            *final(self) == (Editor { mode: Mode::Normal, ..*old(self) }),
    {
        self.mode = Mode::Normal;
    }

    pub fn enter_select(&mut self)
        ensures
            *final(self) == (Editor { mode: Mode::Select, ..*old(self) }),
    {
        self.mode = Mode::Select;
    }

    fn goto(&mut self, pos: usize, extend: bool)
        requires
            old(self).wf(),
            pos <= old(self).document.text().len(),
        ensures
            final(self).wf(),
            final(self).selection@ == mapped_selection(*old(self), put_map(old(self).document.text(), pos as int, extend)),
            *final(self) == (Editor { selection: final(self).selection, ..*old(self) }),
    {
        let rope = rope_full_slice(self.document.rope());
        let ghost t = slice_text(rope);
        let f = |r: Range| -> (out: Range)
            requires
                range_within(r, slice_text(rope).len()),
                pos <= slice_text(rope).len(),
            ensures
                out == cursor_put(r, slice_text(rope), pos as int, extend),
                range_within(out, slice_text(rope).len()),
            { r.put_cursor(rope, pos, extend) };
        self.selection = map_ranges(
            &self.selection,
            f,
            Ghost(put_map(t, pos as int, extend)),
            Ghost(t.len()),
            Ghost(t.len()),
        );
    }

    /// Moves every cursor to the start of the text (`extend`: stretches the ranges).
    pub fn goto_file_start(&mut self, extend: bool)
        requires
            old(self).wf(),
        ensures
            final(self).wf(),
            final(self).selection@ == mapped_selection(*old(self), put_map(old(self).document.text(), 0, extend)),
            *final(self) == (Editor { selection: final(self).selection, ..*old(self) }),
    {
        self.goto(0, extend);
    }

    /// Moves every cursor onto the last grapheme of the text.
    pub fn goto_file_end(&mut self, extend: bool)
        requires
            old(self).wf(),
        ensures
            final(self).wf(),
            final(self).selection@ == mapped_selection(
                *old(self),
                put_map(
                    old(self).document.text(),
                    prev_boundary(old(self).document.text(), old(self).document.text().len() as int),
                    extend,
                ),
            ),
            *final(self) == (Editor { selection: final(self).selection, ..*old(self) }),
    {
        let rope = rope_full_slice(self.document.rope());
        let pos = prev_grapheme_boundary(&rope, rope.len_chars());
        self.goto(pos, extend);
    }

    /// Moves every cursor to the start of its line.
    pub fn goto_line_start(&mut self, extend: bool)
        requires
            old(self).wf(),
        ensures
            final(self).wf(),
            final(self).selection@ == mapped_selection(*old(self), line_start_map(old(self).document.text(), extend)),
            *final(self) == (Editor { selection: final(self).selection, ..*old(self) }),
    {
        let rope = rope_full_slice(self.document.rope());
        let ghost t = slice_text(rope);
        let f = |r: Range| -> (out: Range)
            requires
                range_within(r, slice_text(rope).len()),
            ensures
                out == cursor_put(
                    r,
                    slice_text(rope),
                    line_start(slice_text(rope), cursor_line(r, slice_text(rope))),
                    extend,
                ),
                range_within(out, slice_text(rope).len()),
            {
                let line = rope.char_to_line(r.cursor(rope));
                r.put_cursor(rope, rope.line_to_char(line), extend)
            };
        self.selection = map_ranges(
            &self.selection,
            f,
            Ghost(line_start_map(t, extend)),
            Ghost(t.len()),
            Ghost(t.len()),
        );
    }

    /// Moves every cursor onto the last grapheme of its line (an empty line keeps it at
    /// the line start).
    pub fn goto_line_end(&mut self, extend: bool)
        requires
            old(self).wf(),
        ensures
            final(self).wf(),
            final(self).selection@ == mapped_selection(*old(self), line_end_map(old(self).document.text(), extend)),
            *final(self) == (Editor { selection: final(self).selection, ..*old(self) }),
    {
        let rope = rope_full_slice(self.document.rope());
        let ghost t = slice_text(rope);
        let f = |r: Range| -> (out: Range)
            requires
                range_within(r, slice_text(rope).len()),
                slice_text(rope).len() <= usize::MAX,
            ensures
                out == cursor_put(r, slice_text(rope), line_end_caret(r, slice_text(rope)), extend),
                range_within(out, slice_text(rope).len()),
            {
                let line = rope.char_to_line(r.cursor(rope));
                let start = rope.line_to_char(line);
                let end = start + line_char_len(&rope, line);
                let before = prev_grapheme_boundary(&rope, end);
                let pos = if before >= start {
                    before
                } else {
                    start
                };
                r.put_cursor(rope, pos, extend)
            };
        self.selection = map_ranges(
            &self.selection,
            f,
            Ghost(line_end_map(t, extend)),
            Ghost(t.len()),
            Ghost(t.len()),
        );
    }

    /// Types `text` at the head of every range; each range then ends past the text put
    /// in at or before its ends. Empty text changes nothing.
    pub fn insert_text(&mut self, text: &str)
        requires
            old(self).wf(),
            old(self).document.text().len() + old(self).selection@.ranges.len() * text@.len()
                <= usize::MAX,
        ensures
            final(self).wf(),
            text@.len() == 0 ==> *final(self) == *old(self),
            text@.len() > 0 ==> inserted(*old(self), text@, *final(self)),
    {
        let k = text.unicode_len();
        if k == 0 {
            return;
        }
        let len = self.document.rope().len_chars();
        let ghost old_text = self.document.text();
        let ranges = self.selection.ranges();
        let ghost rs = ranges@;
        let n = ranges.len();
        let mut hs: Vec<usize> = Vec::new();
        let mut changes: Vec<Change> = Vec::new();
        let mut i: usize = 0;
        while i < n
            invariant
                n == rs.len(),
                ranges@ == rs,
                0 <= i <= n,
                hs@.len() == i,
                changes@.len() == i,
                forall|j: int| 0 <= j < i ==> #[trigger] hs@[j] == rs[j].head,
                forall|j: int|
                    0 <= j < i ==> (#[trigger] changes@[j]).0 == hs@[j] && changes@[j].1 == hs@[j]
                        && changes@[j].2 is Some && changes@[j].2.unwrap()@ == text@,
            decreases n - i,
        {
            let h = ranges[i].head;
            hs.push(h);
            changes.push((h, h, Some(String::from_str(text))));
            i = i + 1;
        }
        let ghost hv = hs@;
        proof {
            assert(hv =~= heads(rs));
            assert(ordered_within(hv, len as nat)) by {
                assert forall|a: int, b: int| 0 <= a <= b < hv.len() implies #[trigger] hv[a]
                    <= #[trigger] hv[b] by {
                    lemma_sorted_heads(rs, a, b);
                }
            }
            assert(changes_in_order(changes@, len as nat)) by {
                assert forall|j: int| 0 < j < changes@.len() implies #[trigger] changes@[j - 1].1
                    <= changes@[j].0 by {
                    assert(hv[j - 1] <= hv[j]);
                }
            }
            lemma_splice_inserts(changes@, old_text, hv, text@);
            lemma_insert_at_all_len(old_text, hv, text@);
        }
        let cs = ChangeSet::from_changes(self.document.rope(), changes);
        let new_len = len + n * k;
        let hs_ref = &hs;
        let f = |r: Range| -> (out: Range)
            requires
                range_within(r, len as nat),
                len + hs_ref@.len() * k <= usize::MAX,
            ensures
                out == shift_map(hs_ref@, k as nat)(r),
                range_within(out, (len + hs_ref@.len() * k) as nat),
            {
                Range {
                    anchor: shift_position(hs_ref, k, r.anchor),
                    head: shift_position(hs_ref, k, r.head),
                    goal_col: None,
                }
            };
        let selection = map_ranges(
            &self.selection,
            f,
            Ghost(shift_map(hv, k as nat)),
            Ghost(len as nat),
            Ghost(new_len as nat),
        );
        self.commit(cs, selection);
    }

    /// Applies the edit `cs`, made for the current text, leaving `selection`; the edit is
    /// recorded for undo and the redo history dropped. A change set that edits nothing
    /// changes nothing.
    pub fn apply_transaction(&mut self, cs: ChangeSet, selection: Selection)
        requires
            old(self).wf(),
            cs.wf(),
            cs.tail() == 0,
            cs.len == old(self).document.text().len(),
            selection_fits(selection, cs.apply_to(old(self).document.text()).len()),
        ensures
            final(self).wf(),
            (cs@.len() == 0 || (cs@.len() == 1 && cs@[0] == OpView::Retain(cs.len as nat)))
                ==> *final(self) == *old(self),
            !(cs@.len() == 0 || (cs@.len() == 1 && cs@[0] == OpView::Retain(cs.len as nat))) ==> ({
                &&& final(self).document.text() == cs.apply_to(old(self).document.text())
                &&& final(self).selection@ == selection@
                &&& recorded(*old(self), *final(self))
            }),
    {
        if cs.is_empty() {
            return;
        }
        self.commit(cs, selection);
    }

    /// Applies the edit `cs` with the selection it leaves, records it for undo and
    /// drops the redo history.
    fn commit(&mut self, cs: ChangeSet, selection: Selection)
        requires
            old(self).wf(),
            cs.wf(),
            cs.tail() == 0,
            cs.len == old(self).document.text().len(),
            selection_fits(selection, cs.apply_to(old(self).document.text()).len()),
        ensures
            final(self).wf(),
            final(self).document.text() == cs.apply_to(old(self).document.text()),
            final(self).document.encoding_of() == old(self).document.encoding_of(),
            final(self).document.bom() == old(self).document.bom(),
            final(self).selection@ == selection@,
            final(self).undo_stack@.len() == old(self).undo_stack@.len() + 1,
            final(self).undo_stack@.drop_last() == old(self).undo_stack@,
            entry_ok(final(self).undo_stack@.last(), old(self).document.text(), final(self).document.text()),
            final(self).undo_stack@.last().inverse_selection@ == old(self).selection@,
            final(self).undo_stack@.last().forward_selection@ == final(self).selection@,
            final(self).redo_stack@.len() == 0,
            *final(self) == (Editor {
                document: final(self).document,
                selection: final(self).selection,
                undo_stack: final(self).undo_stack,
                redo_stack: final(self).redo_stack,
                ..*old(self)
            }),
    {
        let ghost old_text = self.document.text();
        let ghost undos = self.undo_stack@;
        let inv = cs.invert(self.document.rope());
        proof {
            law_apply_then_invert(cs, inv, old_text);
        }
        self.document.apply(&cs);
        let old_selection = self.selection.clone();
        self.selection = selection;
        let forward_selection = self.selection.clone();
        let entry = HistoryEntry {
            forward: cs,
            forward_selection,
            inverse: inv,
            inverse_selection: old_selection,
        };
        proof {
            assert(entry_ok(entry, old_text, self.document.text()));
        }
        self.undo_stack.push(entry);
        self.redo_stack = Vec::new();
        proof {
            assert(self.undo_stack@.drop_last() =~= undos);
            assert(self.undo_stack@.last() == entry);
            assert(undo_chain(self.document.text(), self.undo_stack@));
        }
    }

    /// Backspace: deletes the grapheme before the head of every range, each range moving
    /// back over what was deleted before its ends. Nothing happens when no head has a
    /// grapheme before it, or when two of the deletions would overlap.
    pub fn delete_char_backward(&mut self)
        requires
            old(self).wf(),
        ensures
            final(self).wf(),
            backspaced(*old(self), *final(self)),
    {
        let rope = rope_full_slice(self.document.rope());
        let ghost t = slice_text(rope);
        let len = rope.len_chars();
        let ghost rs = self.selection@.ranges;
        let ghost want = backspace_spans(t, heads(rs));
        let (sp, changes, ordered) = backspace_plan(rope, self.selection.ranges());
        if !ordered {
            assert(!spans_in_order(want));
            return;
        }
        let kept = unshift_position(&sp, len);
        if kept == len {
            assert(deleted_before(want, t.len() as usize) == 0);
            return;
        }
        proof {
            assert forall|j: int| 0 <= j < sp@.len() implies (#[trigger] sp@[j]).1 <= t.len() by {
                assert(sp@[j] == want[j]);
                assert(rs[j].head <= t.len());
            }
            lemma_deleted_bound(sp@, len);
        }
        self.delete_spans(sp, changes);
    }

    /// Deletes the spans `sp` (in order, within the text, not all empty) by the edits
    /// `changes`, moves every range back over what was deleted before its ends, and
    /// records the edit.
    #[verifier::rlimit(40)]
    fn delete_spans(&mut self, sp: Vec<(usize, usize)>, changes: Vec<Change>)
        requires
            old(self).wf(),
            spans_in_order(sp@),
            forall|j: int| 0 <= j < sp@.len() ==> (#[trigger] sp@[j]).1 <= old(self).document.text().len(),
            changes@.len() == sp@.len(),
            forall|j: int|
                0 <= j < changes@.len() ==> (#[trigger] changes@[j]).0 == sp@[j].0 && changes@[j].1
                    == sp@[j].1 && changes@[j].2 is None,
            deleted_before(sp@, old(self).document.text().len() as usize) > 0,
        ensures
            final(self).wf(),
            final(self).document.text() == delete_all(old(self).document.text(), sp@),
            final(self).selection@ == mapped_selection(*old(self), unshift_map(sp@)),
            recorded(*old(self), *final(self)),
    {
        let rope = rope_full_slice(self.document.rope());
        let ghost t = slice_text(rope);
        let len = rope.len_chars();
        let kept = unshift_position(&sp, len);
        let ghost sv = sp@;
        proof {
            assert(changes_in_order(changes@, t.len())) by {
                assert forall|j: int| 0 < j < changes@.len() implies #[trigger] changes@[j - 1].1
                    <= changes@[j].0 by {
                    assert(sv[j - 1].1 <= sv[j].0);
                }
                assert forall|j: int| 0 <= j < changes@.len() implies #[trigger] changes@[j].0
                    <= changes@[j].1 && changes@[j].1 <= t.len() by {
                    assert(sv[j].0 <= sv[j].1);
                }
            }
            lemma_splice_deletes(changes@, t, sv);
            lemma_delete_all_len(t, sv);
            lemma_deleted_bound(sv, len);
        }
        let cs = ChangeSet::from_changes(self.document.rope(), changes);
        let sp_ref = &sp;
        let f = |r: Range| -> (out: Range)
            requires
                range_within(r, len as nat),
                spans_in_order(sp_ref@),
            ensures
                out == unshift_map(sp_ref@)(r),
                range_within(out, (len - deleted_before(sp_ref@, len)) as nat),
            {
                proof {
                    lemma_deleted_step(sp_ref@, r.anchor, len);
                    lemma_deleted_step(sp_ref@, r.head, len);
                    lemma_deleted_bound(sp_ref@, r.anchor);
                    lemma_deleted_bound(sp_ref@, r.head);
                }
                Range {
                    anchor: unshift_position(sp_ref, r.anchor),
                    head: unshift_position(sp_ref, r.head),
                    goal_col: None,
                }
            };
        let selection = map_ranges(
            &self.selection,
            f,
            Ghost(unshift_map(sv)),
            Ghost(len as nat),
            Ghost(kept as nat),
        );
        self.commit(cs, selection);
    }

    /// `d`: yanks what every range covers, deletes it (a point: its grapheme) and returns
    /// to Normal mode. Deletions that would overlap delete nothing.
    pub fn delete_selections(&mut self)
        requires
            old(self).wf(),
        ensures
            final(self).wf(),
            deleted_selections(*old(self), *final(self)),
    {
        let ghost e0 = *self;
        self.yank_ranges();
        let rope = rope_full_slice(self.document.rope());
        let ghost t = slice_text(rope);
        let len = rope.len_chars();
        let ghost rs = self.selection@.ranges;
        let ghost want = selection_spans(t, rs);
        let (sp, changes, ordered) = selection_plan(rope, self.selection.ranges());
        if ordered {
            let kept = unshift_position(&sp, len);
            if kept != len {
                proof {
                    lemma_deleted_bound(sp@, len);
                }
                self.delete_spans(sp, changes);
            }
        }
        self.enter_normal();
    }

    /// `c`: deletes as `d` does, then enters Insert mode.
    pub fn change_selections(&mut self)
        requires
            old(self).wf(),
        ensures
            final(self).wf(),
            final(self).mode == Mode::Insert,
            deleted_selections(*old(self), Editor { mode: Mode::Normal, ..*final(self) }),
    {
        self.delete_selections();
        self.mode = Mode::Insert;
    }

    /// Puts `pieces[i]` in before each position `ps[i]` (in order, within the text),
    /// leaves `selection`, and records the edit.
    fn insert_pieces(&mut self, ps: Vec<usize>, pieces: Vec<String>, selection: Selection)
        requires
            old(self).wf(),
            ordered_within(ps@, old(self).document.text().len()),
            pieces@.len() == ps@.len(),
            old(self).document.text().len() + total_len(texts(pieces@)) <= usize::MAX,
            selection_fits(selection, old(self).document.text().len() + total_len(texts(pieces@))),
        ensures
            final(self).wf(),
            final(self).document.text() == insert_each(old(self).document.text(), ps@, texts(pieces@)),
            final(self).selection@ == selection@,
            recorded(*old(self), *final(self)),
    {
        let ghost t = self.document.text();
        let ghost ins = texts(pieces@);
        let mut changes: Vec<Change> = Vec::new();
        let mut i: usize = 0;
        while i < ps.len()
            invariant
                0 <= i <= ps@.len(),
                pieces@.len() == ps@.len(),
                ins == texts(pieces@),
                changes@.len() == i,
                forall|j: int|
                    0 <= j < i ==> (#[trigger] changes@[j]).0 == ps@[j] && changes@[j].1 == ps@[j]
                        && changes@[j].2 is Some && changes@[j].2.unwrap()@ == ins[j],
            decreases ps@.len() - i,
        {
            changes.push((ps[i], ps[i], Some(pieces[i].clone())));
            i = i + 1;
        }
        proof {
            assert(changes_in_order(changes@, t.len())) by {
                assert forall|j: int| 0 < j < changes@.len() implies #[trigger] changes@[j - 1].1
                    <= changes@[j].0 by {
                    assert(ps@[j - 1] <= ps@[j]);
                }
                assert forall|j: int| 0 <= j < changes@.len() implies #[trigger] changes@[j].0
                    <= changes@[j].1 && changes@[j].1 <= t.len() by {
                    assert(ps@[j] <= t.len());
                }
            }
            lemma_splice_each(changes@, t, ps@, ins);
            lemma_insert_each_len(t, ps@, ins);
        }
        let cs = ChangeSet::from_changes(self.document.rope(), changes);
        self.commit(cs, selection);
    }

    /// `p` (`after`) and `P`: puts the registers' values in at every range (past it, or
    /// at its start), selects them, and returns to Normal mode. With no registers
    /// nothing happens; positions out of order put nothing in.
    pub fn paste(&mut self, after: bool)
        requires
            old(self).wf(),
            paste_fits(*old(self)),
        ensures
            final(self).wf(),
            pasted(*old(self), after, *final(self)),
    {
        if self.registers.len() == 0 {
            return;
        }
        let rope = rope_full_slice(self.document.rope());
        let ghost t = slice_text(rope);
        let len = rope.len_chars();
        let ranges = self.selection.ranges();
        let ghost rs = ranges@;
        let n = ranges.len();
        let nregs = self.registers.len();
        let ghost vals = paste_values(self.registers@, n as nat);
        let ghost want = paste_positions(rs, t, after);
        let ghost carets_want = paste_carets(want, vals);
        let mut ps: Vec<usize> = Vec::new();
        let mut pieces: Vec<String> = Vec::new();
        let mut carets: Vec<Range> = Vec::new();
        let mut offset: usize = 0;
        let mut ordered = true;
        let mut i: usize = 0;
        proof {
            lemma_total_prefix(vals, 0);
            assert(vals.take(0) =~= Seq::<Seq<char>>::empty());
        }
        while i < n
            invariant
                t == slice_text(rope),
                t == self.document.text(),
                len == t.len(),
                n == rs.len(),
                ranges@ == rs,
                ranges_within(rs, t.len()),
                nregs == self.registers@.len(),
                nregs > 0,
                vals == paste_values(self.registers@, n as nat),
                want == paste_positions(rs, t, after),
                carets_want == paste_carets(want, vals),
                len + total_len(vals) <= usize::MAX,
                0 <= i <= n,
                ps@ == want.take(i as int),
                texts(pieces@) == vals.take(i as int),
                carets@ == carets_want.take(i as int),
                offset == total_len(vals.take(i as int)),
                forall|j: int| 0 <= j < i ==> #[trigger] ps@[j] <= len,
                ordered == ordered_within(ps@, len as nat),
            decreases n - i,
        {
            let r = ranges[i];
            let pos = if after {
                r.min_width_1(rope).to()
            } else {
                r.from()
            };
            let idx = if i < nregs {
                i
            } else {
                nregs - 1
            };
            let value = self.registers[idx].clone();
            let l = value.as_str().unicode_len();
            proof {
                lemma_total_prefix(vals, i as int);
                lemma_total_prefix(vals, i + 1);
                assert(value@ == vals[i as int]);
                assert(pos == want[i as int]);
                assert(pos <= len);
            }
            let ghost before = ps@;
            if i > 0 && ps[i - 1] > pos {
                ordered = false;
            }
            ps.push(pos);
            carets.push(Range::new(pos + offset, pos + offset + l));
            pieces.push(value);
            offset = offset + l;
            proof {
                assert(ps@ =~= want.take(i + 1));
                assert(texts(pieces@) =~= vals.take(i + 1));
                assert(carets@ =~= carets_want.take(i + 1));
                if ordered {
                    assert forall|a: int, b: int| 0 <= a <= b < ps@.len() implies #[trigger] ps@[a]
                        <= #[trigger] ps@[b] by {
                        if b == i && a < i {
                            assert(before[a] <= before[i - 1]);
                        }
                    }
                } else if ordered_within(ps@, len as nat) {
                    assert(ps@[i - 1] <= ps@[i as int]);
                    assert forall|a: int, b: int| 0 <= a <= b < before.len() implies #[trigger] before[a]
                        <= #[trigger] before[b] by {
                        assert(ps@[a] <= ps@[b]);
                    }
                }
            }
            i = i + 1;
        }
        proof {
            assert(want.take(n as int) =~= want);
            assert(vals.take(n as int) =~= vals);
            assert(carets_want.take(n as int) =~= carets_want);
        }
        if !ordered || offset == 0 {
            self.enter_normal();
            return;
        }
        let primary = self.selection.primary_index();
        let selection = Selection::new(carets, primary);
        proof {
            assert(ranges_within(carets_want, (len + total_len(vals)) as nat)) by {
                assert forall|j: int| 0 <= j < carets_want.len() implies (
                #[trigger] carets_want[j]).anchor <= len + total_len(vals) && carets_want[j].head
                    <= len + total_len(vals) by {
                    lemma_total_prefix(vals, j);
                    lemma_total_prefix(vals, j + 1);
                    assert(want[j] <= len);
                }
            }
        }
        self.insert_pieces(ps, pieces, selection);
        self.enter_normal();
    }

    /// `o` (`below`) and `O`: Insert mode on a new empty line below (or above) the line
    /// of every cursor. Positions out of order open no line.
    #[verifier::rlimit(60)]
    pub fn open_line(&mut self, below: bool)
        requires
            old(self).wf(),
            old(self).document.text().len() + old(self).selection@.ranges.len() < usize::MAX,
        ensures
            final(self).wf(),
            opened(*old(self), below, *final(self)),
    {
        let rope = rope_full_slice(self.document.rope());
        let ghost t = slice_text(rope);
        let len = rope.len_chars();
        let ranges = self.selection.ranges();
        let ghost rs = ranges@;
        let ghost want = rs.map_values(|r: Range| open_pos(r, t, below));
        let n = ranges.len();
        let mut ps: Vec<usize> = Vec::new();
        let mut pieces: Vec<String> = Vec::new();
        let mut carets: Vec<Range> = Vec::new();
        let mut ordered = true;
        let mut i: usize = 0;
        while i < n
            invariant
                t == slice_text(rope),
                len == t.len(),
                n == rs.len(),
                ranges@ == rs,
                ranges_within(rs, t.len()),
                len + n < usize::MAX,
                want == rs.map_values(|r: Range| open_pos(r, t, below)),
                0 <= i <= n,
                ps@ == want.take(i as int),
                texts(pieces@) == line_breaks(i as nat),
                carets@ == open_carets(want, below).take(i as int),
                forall|j: int| 0 <= j < i ==> #[trigger] ps@[j] <= len,
                ordered == ordered_within(ps@, len as nat),
            decreases n - i,
        {
            let r = ranges[i];
            let line = rope.char_to_line(r.from());
            let start = rope.line_to_char(line);
            let pos = if below {
                start + line_char_len(&rope, line)
            } else {
                start
            };
            let ghost before = ps@;
            proof {
                assert(pos == want[i as int]);
            }
            if i > 0 && ps[i - 1] > pos {
                ordered = false;
            }
            ps.push(pos);
            let piece = String::from_str("\n");
            proof {
                reveal_strlit("\n");
                assert(piece@ == seq!['\n']);
            }
            let ghost pieces_before = texts(pieces@);
            pieces.push(piece);
            carets.push(
                Range::point(
                    if below {
                        pos + i + 1
                    } else {
                        pos + i
                    },
                ),
            );
            proof {
                assert(ps@ =~= want.take(i + 1));
                assert(texts(pieces@) =~= pieces_before.push(seq!['\n']));
                assert(line_breaks((i + 1) as nat) =~= line_breaks(i as nat).push(seq!['\n']));
                assert(carets@ =~= open_carets(want, below).take(i + 1));
                if ordered {
                    assert forall|a: int, b: int| 0 <= a <= b < ps@.len() implies #[trigger] ps@[a]
                        <= #[trigger] ps@[b] by {
                        if b == i && a < i {
                            assert(before[a] <= before[i - 1]);
                        }
                    }
                } else if ordered_within(ps@, len as nat) {
                    assert(ps@[i - 1] <= ps@[i as int]);
                    assert forall|a: int, b: int| 0 <= a <= b < before.len() implies #[trigger] before[a]
                        <= #[trigger] before[b] by {
                        assert(ps@[a] <= ps@[b]);
                    }
                }
            }
            i = i + 1;
        }
        proof {
            assert(want.take(n as int) =~= want);
            assert(open_carets(want, below).take(n as int) =~= open_carets(want, below));
            lemma_line_breaks_len(n as nat);
        }
        if !ordered {
            self.enter_insert();
            return;
        }
        let primary = self.selection.primary_index();
        let selection = Selection::new(carets, primary);
        proof {
            assert(ranges_within(open_carets(want, below), (len + n) as nat)) by {
                assert forall|j: int| 0 <= j < want.len() implies (
                #[trigger] open_carets(want, below)[j]).anchor <= len + n && open_carets(want, below)[j].head
                    <= len + n by {
                    assert(want[j] <= len);
                }
            }
        }
        self.insert_pieces(ps, pieces, selection);
        self.mode = Mode::Insert;
    }

    /// `o`: a new empty line below every cursor's line, in Insert mode.
    pub fn open_below(&mut self)
        requires
            old(self).wf(),
            old(self).document.text().len() + old(self).selection@.ranges.len() < usize::MAX,
        ensures
            final(self).wf(),
            opened(*old(self), true, *final(self)),
    {
        self.open_line(true);
    }

    /// `O`: a new empty line above every cursor's line, in Insert mode.
    pub fn open_above(&mut self)
        requires
            old(self).wf(),
            old(self).document.text().len() + old(self).selection@.ranges.len() < usize::MAX,
        ensures
            final(self).wf(),
            opened(*old(self), false, *final(self)),
    {
        self.open_line(false);
    }

    /// Undoes the last edit: the text and selection from before it come back, and the
    /// edit can be redone. Nothing to undo changes nothing.
    pub fn undo(&mut self)
        requires
            old(self).wf(),
        ensures
            final(self).wf(),
            undone(*old(self), *final(self)),
    {
        if self.undo_stack.len() == 0 {
            return;
        }
        let ghost text = self.document.text();
        let ghost undos = self.undo_stack@;
        let ghost redos = self.redo_stack@;
        match self.undo_stack.pop() {
            None => {},
            Some(entry) => {
                let ghost before = entry.inverse.apply_to(text);
                proof {
                    assert(entry == undos.last());
                    assert(entry_ok(entry, before, text));
                    assert(undo_chain(before, self.undo_stack@));
                }
                self.document.apply(&entry.inverse);
                self.selection = entry.inverse_selection.clone();
                self.redo_stack.push(entry);
                proof {
                    assert(self.document.text() == before);
                    assert(self.redo_stack@.drop_last() =~= redos);
                    assert(self.redo_stack@.last() == entry);
                    assert(entry.forward.apply_to(before) == text);
                    assert(redo_chain(before, self.redo_stack@));
                }
            },
        }
    }

    /// Makes the last undone edit again: the text and selection from after it come
    /// back, and it can be undone again. Nothing to redo changes nothing.
    pub fn redo(&mut self)
        requires
            old(self).wf(),
        ensures
            final(self).wf(),
            redone(*old(self), *final(self)),
    {
        if self.redo_stack.len() == 0 {
            return;
        }
        let ghost text = self.document.text();
        let ghost undos = self.undo_stack@;
        let ghost redos = self.redo_stack@;
        match self.redo_stack.pop() {
            None => {},
            Some(entry) => {
                let ghost after = entry.forward.apply_to(text);
                proof {
                    assert(entry == redos.last());
                    assert(entry_ok(entry, text, after));
                    assert(redo_chain(after, self.redo_stack@));
                }
                self.document.apply(&entry.forward);
                self.selection = entry.forward_selection.clone();
                self.undo_stack.push(entry);
                proof {
                    assert(self.document.text() == after);
                    assert(self.undo_stack@.drop_last() =~= undos);
                    assert(self.undo_stack@.last() == entry);
                    assert(entry.inverse.apply_to(after) == text);
                    assert(undo_chain(after, self.undo_stack@));
                }
            },
        }
    }

    /// Types `c` at the head of every range, as `insert_text` does.
    pub fn insert_char(&mut self, c: char)
        requires
            old(self).wf(),
            old(self).document.text().len() + old(self).selection@.ranges.len() <= usize::MAX,
        ensures
            final(self).wf(),
            inserted(*old(self), seq![c], *final(self)),
    {
        let s = char_to_string(c);
        proof {
            let n = self.selection@.ranges.len();
            assert(s@.len() == 1);
            assert(n * s@.len() == n) by (nonlinear_arith)
                requires
                    s@.len() == 1,
            ;
        }
        self.insert_text(s.as_str());
    }

    /// Insert mode, each range flipped to run from its end back to its start.
    pub fn enter_insert(&mut self)
        requires
            old(self).wf(),
        ensures
            final(self).wf(),
            final(self).selection@ == mapped_selection(*old(self), insert_map()),
            *final(self) == (Editor {
                selection: final(self).selection,
                mode: Mode::Insert,
                ..*old(self)
            }),
    {
        let len = self.document.rope().len_chars();
        let f = |r: Range| -> (out: Range)
            ensures
                out == insert_range(r),
                range_within(r, len as nat) ==> range_within(out, len as nat),
            { Range::new(r.to(), r.from()) };
        self.selection = map_ranges(
            &self.selection,
            f,
            Ghost(insert_map()),
            Ghost(len as nat),
            Ghost(len as nat),
        );
        self.mode = Mode::Insert;
    }

    /// Insert mode after the cursor: every range becomes a point past its cursor's grapheme.
    pub fn enter_insert_append(&mut self)
        requires
            old(self).wf(),
        ensures
            final(self).wf(),
            final(self).selection@ == mapped_selection(*old(self), append_map(old(self).document.text())),
            *final(self) == (Editor {
                selection: final(self).selection,
                mode: Mode::Insert,
                ..*old(self)
            }),
    {
        let rope = rope_full_slice(self.document.rope());
        let ghost t = slice_text(rope);
        let f = |r: Range| -> (out: Range)
            requires
                range_within(r, slice_text(rope).len()),
            ensures
                out == Range::point_spec(
                    next_boundary(slice_text(rope), cursor_of(r, slice_text(rope)) as int) as usize,
                ),
                range_within(out, slice_text(rope).len()),
            {
                let pos = next_grapheme_boundary(&rope, r.cursor(rope));
                r.put_cursor(rope, pos, false)
            };
        self.selection = map_ranges(
            &self.selection,
            f,
            Ghost(append_map(t)),
            Ghost(t.len()),
            Ghost(t.len()),
        );
        self.mode = Mode::Insert;
    }

    /// Insert mode at the end of each cursor's line, before its line break.
    pub fn insert_at_line_end(&mut self)
        requires
            old(self).wf(),
        ensures
            final(self).wf(),
            final(self).selection@ == mapped_selection(*old(self), line_end_insert_map(old(self).document.text())),
            *final(self) == (Editor {
                selection: final(self).selection,
                mode: Mode::Insert,
                ..*old(self)
            }),
    {
        let rope = rope_full_slice(self.document.rope());
        let ghost t = slice_text(rope);
        let f = |r: Range| -> (out: Range)
            requires
                range_within(r, slice_text(rope).len()),
                slice_text(rope).len() <= usize::MAX,
            ensures
                out == Range::point_spec(
                    (line_start(slice_text(rope), cursor_line(r, slice_text(rope))) + line_len(
                        slice_text(rope),
                        cursor_line(r, slice_text(rope)),
                    )) as usize,
                ),
                range_within(out, slice_text(rope).len()),
            {
                let line = rope.char_to_line(r.cursor(rope));
                let line_start = rope.line_to_char(line);
                let pos = line_start + line_char_len(&rope, line);
                r.put_cursor(rope, pos, false)
            };
        self.selection = map_ranges(
            &self.selection,
            f,
            Ghost(line_end_insert_map(t)),
            Ghost(t.len()),
            Ghost(t.len()),
        );
        self.mode = Mode::Insert;
    }

    /// Horizontal motion (h/l): `Move` in Normal mode, `Extend` in Select mode.
    pub fn move_h(&mut self, dir: Direction, count: usize, movement: Movement)
        requires
            old(self).wf(),
        ensures
            final(self).wf(),
            final(self).selection@ == mapped_selection(*old(self), h_map(old(self).document.text(), dir, count as nat, movement)),
            *final(self) == (Editor { selection: final(self).selection, ..*old(self) }),
    {
        let rope = rope_full_slice(self.document.rope());
        let ghost t = slice_text(rope);
        let f = |r: Range| -> (out: Range)
            requires
                range_within(r, slice_text(rope).len()),
            ensures
                out == moved_range(
                    r,
                    slice_text(rope),
                    horizontal_target(slice_text(rope), r, dir, count as nat) as usize,
                    movement,
                ),
                range_within(out, slice_text(rope).len()),
            { move_horizontally(&rope, r, dir, count, movement) };
        self.selection = map_ranges(
            &self.selection,
            f,
            Ghost(h_map(t, dir, count as nat, movement)),
            Ghost(t.len()),
            Ghost(t.len()),
        );
    }

    /// Vertical motion (j/k), keeping a sticky goal column.
    pub fn move_v(&mut self, dir: Direction, count: usize, movement: Movement)
        requires
            old(self).wf(),
        ensures
            final(self).wf(),
            final(self).selection@ == mapped_selection(*old(self), v_map(old(self).document.text(), dir, count as nat, movement)),
            *final(self) == (Editor { selection: final(self).selection, ..*old(self) }),
    {
        let rope = rope_full_slice(self.document.rope());
        let ghost t = slice_text(rope);
        let f = |r: Range| -> (out: Range)
            requires
                range_within(r, slice_text(rope).len()),
            ensures
                ({
                    let (pos, goal) = vertical_target(slice_text(rope), r, dir, count as nat);
                    out == Range {
                        goal_col: Some(goal as usize),
                        ..moved_range(r, slice_text(rope), pos as usize, movement)
                    }
                }),
                range_within(out, slice_text(rope).len()),
            { move_vertically(&rope, r, dir, count, movement) };
        self.selection = map_ranges(
            &self.selection,
            f,
            Ghost(v_map(t, dir, count as nat, movement)),
            Ghost(t.len()),
            Ghost(t.len()),
        );
    }

    fn move_word(&mut self, target: WordMotionTarget, n: usize)
        requires
            old(self).wf(),
        ensures
            final(self).wf(),
            final(self).selection@ == mapped_selection(*old(self), word_map(old(self).document.text(), n as nat, target)),
            *final(self) == (Editor { selection: final(self).selection, ..*old(self) }),
    {
        let rope = rope_full_slice(self.document.rope());
        let ghost t = slice_text(rope);
        let f = |r: Range| -> (out: Range)
            requires
                range_within(r, slice_text(rope).len()),
            ensures
                out == word_moved(slice_text(rope), r, n as nat, target),
                range_within(out, slice_text(rope).len()),
            { word_move(rope, r, n, target) };
        self.selection = map_ranges(
            &self.selection,
            f,
            Ghost(word_map(t, n as nat, target)),
            Ghost(t.len()),
            Ghost(t.len()),
        );
    }

    /// Select-mode word motion: the motion finds its target, and the range stretches
    /// from its own anchor to the motion's cursor.
    fn extend_word(&mut self, target: WordMotionTarget, n: usize)
        requires
            old(self).wf(),
        ensures
            final(self).wf(),
            final(self).selection@ == mapped_selection(*old(self), extend_word_map(old(self).document.text(), n as nat, target)),
            *final(self) == (Editor { selection: final(self).selection, ..*old(self) }),
    {
        let rope = rope_full_slice(self.document.rope());
        let ghost t = slice_text(rope);
        let f = |r: Range| -> (out: Range)
            requires
                range_within(r, slice_text(rope).len()),
            ensures
                out == put_cursor_extend(
                    r,
                    slice_text(rope),
                    cursor_of(word_moved(slice_text(rope), r, n as nat, target), slice_text(rope)),
                ),
                range_within(out, slice_text(rope).len()),
            {
                let w = word_move(rope, r, n, target);
                r.put_cursor(rope, w.cursor(rope), true)
            };
        self.selection = map_ranges(
            &self.selection,
            f,
            Ghost(extend_word_map(t, n as nat, target)),
            Ghost(t.len()),
            Ghost(t.len()),
        );
    }

    /// Stretches every range to the end of the next word, `n` times over.
    pub fn extend_next_word_end(&mut self, n: usize)
        requires
            old(self).wf(),
        ensures
            final(self).wf(),
            final(self).selection@ == mapped_selection(*old(self), extend_word_map(old(self).document.text(), n as nat, WordMotionTarget::NextWordEnd)),
            *final(self) == (Editor { selection: final(self).selection, ..*old(self) }),
    {
        self.extend_word(WordMotionTarget::NextWordEnd, n);
    }

    /// Moves every range to the end of the next word, `n` times over.
    pub fn move_next_word_end(&mut self, n: usize)
        requires
            old(self).wf(),
        ensures
            final(self).wf(),
            final(self).selection@ == mapped_selection(*old(self), word_map(old(self).document.text(), n as nat, WordMotionTarget::NextWordEnd)),
            *final(self) == (Editor { selection: final(self).selection, ..*old(self) }),
    {
        self.move_word(WordMotionTarget::NextWordEnd, n);
    }

    /// Stretches every range to the end of the next long word, `n` times over.
    pub fn extend_next_long_word_end(&mut self, n: usize)
        requires
            old(self).wf(),
        ensures
            final(self).wf(),
            final(self).selection@ == mapped_selection(*old(self), extend_word_map(old(self).document.text(), n as nat, WordMotionTarget::NextLongWordEnd)),
            *final(self) == (Editor { selection: final(self).selection, ..*old(self) }),
    {
        self.extend_word(WordMotionTarget::NextLongWordEnd, n);
    }

    /// Moves every range to the end of the next long word, `n` times over.
    pub fn move_next_long_word_end(&mut self, n: usize)
        requires
            old(self).wf(),
        ensures
            final(self).wf(),
            final(self).selection@ == mapped_selection(*old(self), word_map(old(self).document.text(), n as nat, WordMotionTarget::NextLongWordEnd)),
            *final(self) == (Editor { selection: final(self).selection, ..*old(self) }),
    {
        self.move_word(WordMotionTarget::NextLongWordEnd, n);
    }

    /// Stretches every range to the start of the next word, `n` times over.
    pub fn extend_next_word_start(&mut self, n: usize)
        requires
            old(self).wf(),
        ensures
            final(self).wf(),
            final(self).selection@ == mapped_selection(*old(self), extend_word_map(old(self).document.text(), n as nat, WordMotionTarget::NextWordStart)),
            *final(self) == (Editor { selection: final(self).selection, ..*old(self) }),
    {
        self.extend_word(WordMotionTarget::NextWordStart, n);
    }

    /// Moves every range to the start of the next word, `n` times over.
    pub fn move_next_word_start(&mut self, n: usize)
        requires
            old(self).wf(),
        ensures
            final(self).wf(),
            final(self).selection@ == mapped_selection(*old(self), word_map(old(self).document.text(), n as nat, WordMotionTarget::NextWordStart)),
            *final(self) == (Editor { selection: final(self).selection, ..*old(self) }),
    {
        self.move_word(WordMotionTarget::NextWordStart, n);
    }

    /// Stretches every range to the start of the next long word, `n` times over.
    pub fn extend_next_long_word_start(&mut self, n: usize)
        requires
            old(self).wf(),
        ensures
            final(self).wf(),
            final(self).selection@ == mapped_selection(*old(self), extend_word_map(old(self).document.text(), n as nat, WordMotionTarget::NextLongWordStart)),
            *final(self) == (Editor { selection: final(self).selection, ..*old(self) }),
    {
        self.extend_word(WordMotionTarget::NextLongWordStart, n);
    }

    /// Moves every range to the start of the next long word, `n` times over.
    pub fn move_next_long_word_start(&mut self, n: usize)
        requires
            old(self).wf(),
        ensures
            final(self).wf(),
            final(self).selection@ == mapped_selection(*old(self), word_map(old(self).document.text(), n as nat, WordMotionTarget::NextLongWordStart)),
            *final(self) == (Editor { selection: final(self).selection, ..*old(self) }),
    {
        self.move_word(WordMotionTarget::NextLongWordStart, n);
    }

    /// Stretches every range to the start of the previous word, `n` times over.
    pub fn extend_prev_word_start(&mut self, n: usize)
        requires
            old(self).wf(),
        ensures
            final(self).wf(),
            final(self).selection@ == mapped_selection(*old(self), extend_word_map(old(self).document.text(), n as nat, WordMotionTarget::PrevWordStart)),
            *final(self) == (Editor { selection: final(self).selection, ..*old(self) }),
    {
        self.extend_word(WordMotionTarget::PrevWordStart, n);
    }

    /// Moves every range to the start of the previous word, `n` times over.
    pub fn move_prev_word_start(&mut self, n: usize)
        requires
            old(self).wf(),
        ensures
            final(self).wf(),
            final(self).selection@ == mapped_selection(*old(self), word_map(old(self).document.text(), n as nat, WordMotionTarget::PrevWordStart)),
            *final(self) == (Editor { selection: final(self).selection, ..*old(self) }),
    {
        self.move_word(WordMotionTarget::PrevWordStart, n);
    }

    /// Stretches every range to the start of the previous long word, `n` times over.
    pub fn extend_prev_long_word_start(&mut self, n: usize)
        requires
            old(self).wf(),
        ensures
            final(self).wf(),
            final(self).selection@ == mapped_selection(*old(self), extend_word_map(old(self).document.text(), n as nat, WordMotionTarget::PrevLongWordStart)),
            *final(self) == (Editor { selection: final(self).selection, ..*old(self) }),
    {
        self.extend_word(WordMotionTarget::PrevLongWordStart, n);
    }

    /// Moves every range to the start of the previous long word, `n` times over.
    pub fn move_prev_long_word_start(&mut self, n: usize)
        requires
            old(self).wf(),
        ensures
            final(self).wf(),
            final(self).selection@ == mapped_selection(*old(self), word_map(old(self).document.text(), n as nat, WordMotionTarget::PrevLongWordStart)),
            *final(self) == (Editor { selection: final(self).selection, ..*old(self) }),
    {
        self.move_word(WordMotionTarget::PrevLongWordStart, n);
    }

    /// f/t/F/T: moves every cursor to the `find.count`-th `ch` (onto it, or next to it
    /// for t/T); a range without that many matches stays.
    pub fn find_char(&mut self, find: &PendingFind, ch: char)
        requires
            old(self).wf(),
            old(self).document.text().len() < usize::MAX,
        ensures
            final(self).wf(),
            final(self).selection@ == mapped_selection(*old(self), find_map(old(self).document.text(), *find, ch)),
            *final(self) == (Editor { selection: final(self).selection, ..*old(self) }),
    {
        let rope = rope_full_slice(self.document.rope());
        let ghost t = slice_text(rope);
        let f = |r: Range| -> (out: Range)
            requires
                range_within(r, slice_text(rope).len()),
                slice_text(rope).len() < usize::MAX,
            ensures
                out == found_range(r, slice_text(rope), *find, ch),
                range_within(out, slice_text(rope).len()),
            {
                let cursor_anchor = r.cursor(rope);
                let cursor_head = next_grapheme_boundary(&rope, cursor_anchor);
                let search_start = match (find.inclusive, find.dir) {
                    (true, Direction::Forward) => cursor_head,
                    (true, Direction::Backward) => cursor_anchor,
                    (false, Direction::Forward) => cursor_head + 1,
                    (false, Direction::Backward) => cursor_anchor.saturating_sub(1),
                };
                match find_nth_char(find.count, rope, ch, search_start, find.dir) {
                    None => r,
                    Some(found) => {
                        let pos = match (find.inclusive, find.dir) {
                            (true, _) => found,
                            (false, Direction::Forward) => found - 1,
                            (false, Direction::Backward) => found + 1,
                        };
                        if find.extend {
                            r.put_cursor(rope, pos, true)
                        } else {
                            Range::point(r.cursor(rope)).put_cursor(rope, pos, true)
                        }
                    },
                }
            };
        self.selection = map_ranges(
            &self.selection,
            f,
            Ghost(find_map(t, *find, ch)),
            Ghost(t.len()),
            Ghost(t.len()),
        );
    }

    fn yank_ranges(&mut self)
        requires
            old(self).wf(),
        ensures
            final(self).registers@.len() == old(self).selection@.ranges.len(),
            forall|i: int|
                0 <= i < final(self).registers@.len() ==> (#[trigger] final(self).registers@[i])@
                    == yanked(old(self).selection@.ranges[i], old(self).document.text()),
            *final(self) == (Editor { registers: final(self).registers, ..*old(self) }),
    {
        let rope = rope_full_slice(self.document.rope());
        let ghost t = slice_text(rope);
        let ranges = self.selection.ranges();
        let mut registers: Vec<String> = Vec::new();
        let mut i: usize = 0;
        while i < ranges.len()
            invariant
                t == slice_text(rope),
                ranges@ == self.selection@.ranges,
                ranges_within(ranges@, t.len()),
                0 <= i <= ranges@.len(),
                registers@.len() == i,
                forall|k: int| 0 <= k < i ==> (#[trigger] registers@[k])@ == yanked(ranges@[k], t),
            decreases ranges@.len() - i,
        {
            let r = ranges[i];
            let w = r.min_width_1(rope);
            registers.push(slice_to_string(w.slice(rope)));
            i = i + 1;
        }
        self.registers = registers;
    }

    /// Copies what every range covers (a point: its grapheme) into the registers, one
    /// per range, and returns to Normal mode.
    pub fn yank(&mut self)
        requires
            old(self).wf(),
        ensures
            final(self).wf(),
            final(self).registers@.len() == old(self).selection@.ranges.len(),
            forall|i: int|
                0 <= i < final(self).registers@.len() ==> (#[trigger] final(self).registers@[i])@
                    == yanked(old(self).selection@.ranges[i], old(self).document.text()),
            *final(self) == (Editor {
                registers: final(self).registers,
                mode: Mode::Normal,
                ..*old(self)
            }),
    {
        self.yank_ranges();
        self.enter_normal();
    }

    /// Insert mode at the first char of each cursor's line that is not white space
    /// (the line start when there is none).
    pub fn insert_at_line_start(&mut self)
        requires
            old(self).wf(),
        ensures
            final(self).wf(),
            final(self).selection@ == mapped_selection(*old(self), line_start_insert_map(old(self).document.text())),
            *final(self) == (Editor {
                selection: final(self).selection,
                mode: Mode::Insert,
                ..*old(self)
            }),
    {
        let rope = rope_full_slice(self.document.rope());
        let ghost t = slice_text(rope);
        let f = |r: Range| -> (out: Range)
            requires
                range_within(r, slice_text(rope).len()),
                slice_text(rope).len() <= usize::MAX,
            ensures
                out == Range::point_spec(line_start_caret(r, slice_text(rope)) as usize),
                range_within(out, slice_text(rope).len()),
            {
                let line = rope.char_to_line(r.cursor(rope));
                let line_start = rope.line_to_char(line);
                let pos = match first_non_whitespace_char(rope.line(line)) {
                    Some(off) => line_start + off,
                    None => line_start,
                };
                r.put_cursor(rope, pos, false)
            };
        self.selection = map_ranges(
            &self.selection,
            f,
            Ghost(line_start_insert_map(t)),
            Ghost(t.len()),
            Ghost(t.len()),
        );
        self.mode = Mode::Insert;
    }
}

/// Undoing an edit that typed text brings back the text, the selection and the undo
/// history from before the edit.
pub proof fn law_undo_restores(e0: Editor, ins: Seq<char>, e1: Editor, e2: Editor)
    requires
        e0.wf(),
        inserted(e0, ins, e1),
        undone(e1, e2),
    ensures
        e2.document.text() == e0.document.text(),
        e2.selection@ == e0.selection@,
        e2.undo_stack@ == e0.undo_stack@,
{
}

/// Redoing an edit just undone brings back the text and both histories from before
/// the undo.
pub proof fn law_redo_after_undo(e1: Editor, e2: Editor, e3: Editor)
    requires
        e1.wf(),
        e1.undo_stack@.len() > 0,
        undone(e1, e2),
        redone(e2, e3),
    ensures
        e3.document.text() == e1.document.text(),
        e3.undo_stack@ == e1.undo_stack@,
        e3.redo_stack@ == e1.redo_stack@,
{
    let h = e1.undo_stack@.last();
    assert(e2.redo_stack@.last() == h);
    assert(e2.redo_stack@.drop_last() =~= e1.redo_stack@);
    assert(e1.undo_stack@.drop_last().push(h) =~= e1.undo_stack@);
}

/// F and T (backward, in Normal mode) from a cursor at `c`: with the `count`-th `ch`
/// before the cursor at `m`, F puts the cursor on it, at `m`, and T just past it, at
/// `m + 1`, which is still before `c`: T never lands on the char it found. Without
/// such a `ch` the range stays. (The grapheme after the cursor ends no earlier than the
/// cursor, as grapheme boundaries go forward.)
pub proof fn law_backward_find_lands_by_the_match(r: Range, text: Seq<char>, find: PendingFind, ch: char)
    requires
        find.dir == Direction::Backward,
        !find.extend,
    ensures
        ({
            let c = cursor_of(r, text) as int;
            let res = found_range(r, text, find, ch);
            match nth_backward(text, ch, if find.inclusive { c } else { c - 1 }, find.count as nat) {
                Some(m) => {
                    &&& text[m] == ch
                    &&& (if find.inclusive { m } else { m + 1 }) < c
                    &&& c <= next_boundary(text, c) <= usize::MAX ==> cursor_of(res, text) == if find.inclusive {
                        m
                    } else {
                        m + 1
                    }
                },
                None => res == r,
            }
        }),
{
    let c = cursor_of(r, text) as int;
    let start = if find.inclusive { c } else { c - 1 };
    crate::search::law_nth_backward_finds_needle(text, ch, start, find.count as nat);
    assert(find_start(text, c, find) == if start >= 0 { start } else { 0 });
    if !find.inclusive && c == 0 {
        assert(nth_backward(text, ch, 0, find.count as nat) is None);
        assert(nth_backward(text, ch, -1, find.count as nat) is None);
    }
    match nth_backward(text, ch, start, find.count as nat) {
        Some(m) => {
            let pos = if find.inclusive { m } else { m + 1 };
            assert(0 <= pos < c);
            let p = Range::point_spec(c as usize);
            if c <= next_boundary(text, c) <= usize::MAX {
                assert(put_cursor_anchor(p, text, pos as usize) == next_boundary(text, c));
                let res = put_cursor_extend(p, text, pos as usize);
                assert(res == Range { anchor: next_boundary(text, c) as usize, head: pos as usize, goal_col: None });
                assert(found_range(r, text, find, ch) == res);
                assert(cursor_of(res, text) == pos);
            }
        },
        None => {},
    }
}

/// f and t (forward, in Normal mode) from a cursor at `c`: with the `count`-th `ch` at
/// `m`, found from the end of the cursor's grapheme on (for t one char further), f
/// selects from the old cursor through the grapheme at `m`, and t through the grapheme
/// just before `m`, leaving the char found outside. Without such a `ch` the range stays.
pub proof fn law_forward_find_lands_by_the_match(r: Range, text: Seq<char>, find: PendingFind, ch: char)
    requires
        find.dir == Direction::Forward,
        !find.extend,
        text.len() <= usize::MAX,
    ensures
        ({
            let c = cursor_of(r, text) as int;
            let after = next_boundary(text, c);
            let res = found_range(r, text, find, ch);
            match nth_forward(text, ch, if find.inclusive { after } else { after + 1 }, find.count as nat) {
                Some(m) => {
                    &&& text[m] == ch
                    &&& after >= c ==> res == Range {
                        anchor: c as usize,
                        head: next_boundary(text, if find.inclusive { m } else { m - 1 }) as usize,
                        goal_col: None,
                    }
                },
                None => res == r,
            }
        }),
{
    let c = cursor_of(r, text) as int;
    let after = next_boundary(text, c);
    let start = if find.inclusive { after } else { after + 1 };
    crate::search::law_nth_forward_finds_needle(text, ch, start, find.count as nat);
    assert(find_start(text, c, find) == start);
    match nth_forward(text, ch, start, find.count as nat) {
        Some(m) => {
            let pos = if find.inclusive { m } else { m - 1 };
            if after >= c {
                assert(c <= pos < text.len());
                let p = Range::point_spec(c as usize);
                assert(put_cursor_anchor(p, text, pos as usize) == c);
                assert(found_range(r, text, find, ch) == put_cursor_extend(p, text, pos as usize));
            }
        },
        None => {},
    }
}

/// In Select mode an f/t/F/T search goes to the same place as in Normal mode, and the
/// range stretches there from its own anchor instead of starting at the old cursor:
/// with the `count`-th `ch` at `m`, the place is `m` for f and F, `m - 1` for t and
/// `m + 1` for T.
pub proof fn law_select_find_stretches_to_the_same_place(r: Range, text: Seq<char>, find: PendingFind, ch: char)
    requires
        find.extend,
    ensures
        ({
            let c = cursor_of(r, text) as int;
            let after = next_boundary(text, c);
            let start = find_start(text, c, find);
            let res = found_range(r, text, find, ch);
            match nth_char(text, ch, start, find.count as nat, find.dir) {
                Some(m) => res == put_cursor_extend(
                    r,
                    text,
                    (if find.inclusive {
                        m
                    } else if find.dir == Direction::Forward {
                        m - 1
                    } else {
                        m + 1
                    }) as usize,
                ),
                None => res == r,
            }
        }),
{
}

} // verus!
