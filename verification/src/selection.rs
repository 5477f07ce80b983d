//! Ranges (an anchor and a head in char indices) and selections (a sorted,
//! non-overlapping set of ranges with one primary range).
use vstd::prelude::*;
use ropey::RopeSlice;
use smallvec::SmallVec;
use crate::grapheme::{
    ensure_grapheme_boundary_next, ensure_grapheme_boundary_prev, ensure_next, ensure_prev,
    next_boundary, next_grapheme_boundary, prev_boundary, prev_grapheme_boundary,
};
use crate::movement::Direction;
use crate::text::{slice_slice, slice_text};

verus! {

#[derive(Debug, Clone, Copy, PartialEq, Eq, Structural)]
pub struct Range {
    pub anchor: usize,
    pub head: usize,
    pub goal_col: Option<usize>,
}

impl Range {
    pub fn new(anchor: usize, head: usize) -> (r: Self)
        ensures
            r == (Range { anchor, head, goal_col: None }),
    {
        Self { anchor, head, goal_col: None }
    }

    pub fn point(head: usize) -> (r: Self)
        ensures
            r == (Range { anchor: head, head, goal_col: None }),
    {
        Self::new(head, head)
    }

    pub fn goal_col(&self) -> (g: Option<usize>)
        ensures
            g == self.goal_col,
    {
        self.goal_col
    }

    #[must_use]
    pub fn with_goal_col(self, goal_col: usize) -> (r: Self)
        ensures
            r == (Range { goal_col: Some(goal_col), ..self }),
    {
        let mut r = self;
        r.goal_col = Some(goal_col);
        r
    }

    /// The key ranges are sorted by before they are merged: the start, then the anchor,
    /// the head and the goal column, so that only equal ranges share a key.
    pub fn sort_key(&self) -> (k: (usize, usize, usize, Option<usize>))
        ensures
            k == (self.from(), self.anchor, self.head, self.goal_col),
    {
        (self.from(), self.anchor, self.head, self.goal_col)
    }

    /// The start of the range: the smaller of anchor and head.
    #[inline]
    #[must_use]
    #[verifier::allow_in_spec]
    pub fn from(&self) -> usize
        returns
            if self.anchor <= self.head { self.anchor } else { self.head },
    {
        if self.anchor <= self.head {
            self.anchor
        } else {
            self.head
        }
    }

    /// The end of the range: the larger of anchor and head.
    #[inline]
    #[must_use]
    #[verifier::allow_in_spec]
    pub fn to(&self) -> usize
        returns
            if self.anchor <= self.head { self.head } else { self.anchor },
    {
        if self.anchor <= self.head {
            self.head
        } else {
            self.anchor
        }
    }

    /// The number of chars the range covers.
    #[inline]
    #[must_use]
    pub fn len(&self) -> (n: usize)
        ensures
            n == self.to() - self.from(),
    {
        self.to() - self.from()
    }

    #[inline]
    #[must_use]
    pub fn is_empty(&self) -> (e: bool)
        ensures
            e == (self.anchor == self.head),
    {
        self.anchor == self.head
    }

    /// Backward when the head is before the anchor; an empty range is forward.
    #[inline]
    #[must_use]
    #[verifier::allow_in_spec]
    pub fn direction(&self) -> Direction
        returns
            if self.head < self.anchor { Direction::Backward } else { Direction::Forward },
    {
        if self.head < self.anchor {
            Direction::Backward
        } else {
            Direction::Forward
        }
    }

    /// Swaps anchor and head, keeping the goal column.
    #[inline]
    #[must_use]
    pub fn flip(&self) -> (r: Self)
        ensures
            r == (Range { anchor: self.head, head: self.anchor, goal_col: self.goal_col }),
    {
        Self { anchor: self.head, head: self.anchor, goal_col: self.goal_col }
    }

    /// The range itself if it already points in `direction`, else flipped.
    #[inline]
    #[must_use]
    pub fn with_direction(self, direction: Direction) -> (r: Self)
        ensures
            self.direction() == direction ==> r == self,
            self.direction() != direction ==> r == (Range {
                anchor: self.head,
                head: self.anchor,
                goal_col: self.goal_col,
            }),
    {
        if self.direction() == direction {
            self
        } else {
            self.flip()
        }
    }

    /// Two ranges overlap when they start at the same place or share a char.
    #[must_use]
    #[verifier::allow_in_spec]
    pub fn overlaps(&self, other: &Self) -> bool
        returns
            self.from() == other.from() || (self.to() > other.from() && other.to() > self.from()),
    {
        self.from() == other.from() || (self.to() > other.from() && other.to() > self.from())
    }

    #[must_use]
    pub fn contains_range(&self, other: Self) -> (c: bool)
        ensures
            c == (self.from() <= other.from() && self.to() >= other.to()),
    {
        self.from() <= other.from() && self.to() >= other.to()
    }

    #[must_use]
    pub fn contains(&self, pos: usize) -> (c: bool)
        ensures
            c == (self.from() <= pos && pos < self.to()),
    {
        self.from() <= pos && pos < self.to()
    }

    /// Grows the range to also cover `from..to`, keeping its direction; the goal
    /// column is dropped.
    #[must_use]
    pub fn extend(&self, from: usize, to: usize) -> (r: Self)
        requires
            from <= to,
        ensures
            self.anchor <= self.head ==> r == (Range {
                anchor: if self.anchor <= from { self.anchor } else { from },
                head: if self.head >= to { self.head } else { to },
                goal_col: None,
            }),
            self.anchor > self.head ==> r == (Range {
                anchor: if self.anchor >= to { self.anchor } else { to },
                head: if self.head <= from { self.head } else { from },
                goal_col: None,
            }),
    {
        if self.anchor <= self.head {
            Self { anchor: self.anchor.min(from), head: self.head.max(to), goal_col: None }
        } else {
            Self { anchor: self.anchor.max(to), head: self.head.min(from), goal_col: None }
        }
    }

    /// The smallest range covering both: backward when both are backward, else forward.
    #[must_use]
    #[verifier::allow_in_spec]
    pub fn merge(&self, other: Self) -> Self
        returns
            if self.anchor > self.head && other.anchor > other.head {
                Range {
                    anchor: if self.anchor >= other.anchor { self.anchor } else { other.anchor },
                    head: if self.head <= other.head { self.head } else { other.head },
                    goal_col: None,
                }
            } else {
                Range {
                    anchor: if self.from() <= other.from() { self.from() } else { other.from() },
                    head: if self.to() >= other.to() { self.to() } else { other.to() },
                    goal_col: None,
                }
            },
    {
        if self.anchor > self.head && other.anchor > other.head {
            Self {
                anchor: self.anchor.max(other.anchor),
                head: self.head.min(other.head),
                goal_col: None,
            }
        } else {
            Self {
                anchor: self.from().min(other.from()),
                head: self.to().max(other.to()),
                goal_col: None,
            }
        }
    }

    /// The text the range covers.
    #[inline]
    pub fn slice<'a>(&self, text: RopeSlice<'a>) -> (s: RopeSlice<'a>)
        requires
            self.to() <= slice_text(text).len(),
        ensures
            slice_text(s) == slice_text(text).subrange(self.from() as int, self.to() as int),
    {
        slice_slice(text, self.from(), self.to())
    }

    /// Snaps both ends onto grapheme boundaries, outwards: the start moves back and
    /// the end moves forward (a point moves back). The goal column survives only
    /// when the anchor did not move.
    #[must_use]
    pub fn grapheme_aligned(&self, slice: RopeSlice) -> (r: Self)
        requires
            self.anchor <= slice_text(slice).len(),
            self.head <= slice_text(slice).len(),
        ensures
            ({
                let t = slice_text(slice);
                let (a, h) = if self.anchor == self.head {
                    (ensure_prev(t, self.anchor as int), ensure_prev(t, self.anchor as int))
                } else if self.anchor < self.head {
                    (ensure_prev(t, self.anchor as int), ensure_next(t, self.head as int))
                } else {
                    (ensure_next(t, self.anchor as int), ensure_prev(t, self.head as int))
                };
                &&& r.anchor == a
                &&& r.head == h
                &&& r.goal_col == if a == self.anchor { self.goal_col } else { None }
            }),
    {
        let (new_anchor, new_head) = if self.anchor == self.head {
            let pos = ensure_grapheme_boundary_prev(&slice, self.anchor);
            (pos, pos)
        } else if self.anchor < self.head {
            (
                ensure_grapheme_boundary_prev(&slice, self.anchor),
                ensure_grapheme_boundary_next(&slice, self.head),
            )
        } else {
            (
                ensure_grapheme_boundary_next(&slice, self.anchor),
                ensure_grapheme_boundary_prev(&slice, self.head),
            )
        };
        Self {
            anchor: new_anchor,
            head: new_head,
            goal_col: if new_anchor == self.anchor {
                self.goal_col
            } else {
                None
            },
        }
    }

    /// A point grows to cover the grapheme after it; a non-empty range is unchanged.
    #[inline]
    #[must_use]
    pub fn min_width_1(&self, text: RopeSlice) -> (r: Self)
        requires
            self.head == self.anchor ==> self.head <= slice_text(text).len(),
        ensures
            self.head == self.anchor ==> r == (Range {
                head: next_boundary(slice_text(text), self.head as int) as usize,
                ..*self
            }),
            self.head != self.anchor ==> r == *self,
            self.head == self.anchor ==> self.head <= r.head <= slice_text(text).len(),
    {
        if self.head == self.anchor {
            Self {
                anchor: self.anchor,
                head: next_grapheme_boundary(&text, self.head),
                goal_col: self.goal_col,
            }
        } else {
            *self
        }
    }

    /// Where the block cursor sits: on the last grapheme of a forward range, else
    /// on the head.
    #[inline]
    #[must_use]
    pub fn cursor(&self, text: RopeSlice) -> (c: usize)
        requires
            self.head > self.anchor ==> self.head <= slice_text(text).len(),
        ensures
            c == if self.head > self.anchor {
                prev_boundary(slice_text(text), self.head as int) as usize
            } else {
                self.head
            },
            c <= self.head,
    {
        if self.head > self.anchor {
            prev_grapheme_boundary(&text, self.head)
        } else {
            self.head
        }
    }

    /// Moves the cursor to `char_idx`. Without `extend` the range collapses to a point
    /// there; with it the anchor stays (shifted by a grapheme when the range changes
    /// direction) and the range covers the grapheme at `char_idx`.
    #[inline]
    #[must_use]
    pub fn put_cursor(self, text: RopeSlice, char_idx: usize, extend: bool) -> (r: Range)
        requires
            extend ==> put_cursor_in_bounds(self, slice_text(text).len(), char_idx),
        ensures
            !extend ==> r == Range::point_spec(char_idx),
            extend ==> r == put_cursor_extend(self, slice_text(text), char_idx),
            self.anchor <= slice_text(text).len() && char_idx <= slice_text(text).len() ==> r.anchor
                <= slice_text(text).len() && r.head <= slice_text(text).len(),
    {
        if extend {
            let anchor = if self.head >= self.anchor && char_idx < self.anchor {
                next_grapheme_boundary(&text, self.anchor)
            } else if self.head < self.anchor && char_idx >= self.anchor {
                prev_grapheme_boundary(&text, self.anchor)
            } else {
                self.anchor
            };
            if anchor <= char_idx {
                Range::new(anchor, next_grapheme_boundary(&text, char_idx))
            } else {
                Range::new(anchor, char_idx)
            }
        } else {
            Range::point(char_idx)
        }
    }

    pub open spec fn point_spec(pos: usize) -> Range {
        Range { anchor: pos, head: pos, goal_col: None }
    }
}

/// The anchor `put_cursor` keeps when extending to `char_idx`.
pub open spec fn put_cursor_anchor(r: Range, text: Seq<char>, char_idx: usize) -> int {
    if r.head >= r.anchor && char_idx < r.anchor {
        next_boundary(text, r.anchor as int)
    } else if r.head < r.anchor && char_idx >= r.anchor {
        prev_boundary(text, r.anchor as int)
    } else {
        r.anchor as int
    }
}

/// The range `put_cursor` gives when extending to `char_idx`.
pub open spec fn put_cursor_extend(r: Range, text: Seq<char>, char_idx: usize) -> Range {
    let anchor = put_cursor_anchor(r, text, char_idx);
    if anchor <= char_idx {
        Range { anchor: anchor as usize, head: next_boundary(text, char_idx as int) as usize, goal_col: None }
    } else {
        Range { anchor: anchor as usize, head: char_idx, goal_col: None }
    }
}

/// The indices `put_cursor` looks up in a text of `len` chars are inside it.
pub open spec fn put_cursor_in_bounds(r: Range, len: nat, char_idx: usize) -> bool {
    if r.head >= r.anchor && char_idx < r.anchor {
        r.anchor <= len
    } else {
        r.anchor <= char_idx ==> char_idx <= len
    }
}

/// The ranges of a selection, held in a `smallvec::SmallVec` with room for one inline.
#[verifier::external_body]
#[derive(Debug, PartialEq, Eq)]
pub struct RangeList {
    items: SmallVec<[Range; 1]>,
}

impl Clone for RangeList {
    /// `SmallVec::clone`: a list of the same ranges.
    #[verifier::external_body]
    fn clone(&self) -> (r: Self)
        ensures
            range_list_items(r) == range_list_items(*self),
    {
        RangeList { items: self.items.clone() }
    }
}

/// The ranges a `RangeList` holds, in order.
pub uninterp spec fn range_list_items(v: RangeList) -> Seq<Range>;

/// `SmallVec::from_vec`: a list holding the vector's ranges.
#[verifier::external_body]
fn range_list_from_vec(v: Vec<Range>) -> (l: RangeList)
    ensures
        range_list_items(l) == v@,
{
    RangeList { items: SmallVec::from_vec(v) }
}

/// `SmallVec::into_vec`: a vector holding the list's ranges.
#[verifier::external_body]
fn range_list_into_vec(l: RangeList) -> (v: Vec<Range>)
    ensures
        v@ == range_list_items(l),
{
    l.items.into_vec()
}

/// `SmallVec::len`.
#[verifier::external_body]
fn range_list_len(l: &RangeList) -> (n: usize)
    ensures
        n == range_list_items(*l).len(),
{
    l.items.len()
}

/// Indexing a `SmallVec`; it panics out of bounds.
#[verifier::external_body]
fn range_list_get(l: &RangeList, i: usize) -> (r: Range)
    requires
        i < range_list_items(*l).len(),
    ensures
        r == range_list_items(*l)[i as int],
{
    l.items[i]
}

/// Mutable indexing of a `SmallVec`; it panics out of bounds.
#[verifier::external_body]
fn range_list_get_mut(l: &mut RangeList, i: usize) -> (r: &mut Range)
    requires
        i < range_list_items(*old(l)).len(),
    ensures
        *r == range_list_items(*old(l))[i as int],
        range_list_items(*final(l)) == range_list_items(*old(l)).update(i as int, *final(r)),
{
    &mut l.items[i]
}

/// `SmallVec::as_slice`.
#[verifier::external_body]
fn range_list_as_slice(l: &RangeList) -> (s: &[Range])
    ensures
        s@ == range_list_items(*l),
{
    l.items.as_slice()
}

/// `SmallVec::push`.
#[verifier::external_body]
fn range_list_push(l: &mut RangeList, r: Range)
    ensures
        range_list_items(*final(l)) == range_list_items(*old(l)).push(r),
{
    l.items.push(r)
}

/// `SmallVec::remove`: takes out the range at `i`; it panics out of bounds.
#[verifier::external_body]
fn range_list_remove(l: &mut RangeList, i: usize) -> (r: Range)
    requires
        i < range_list_items(*old(l)).len(),
    ensures
        r == range_list_items(*old(l))[i as int],
        range_list_items(*final(l)) == range_list_items(*old(l)).remove(i as int),
{
    l.items.remove(i)
}

/// A goal column sorts after none, and goal columns by their value.
pub open spec fn goal_le(a: Option<usize>, b: Option<usize>) -> bool {
    match (a, b) {
        (None, _) => true,
        (Some(_), None) => false,
        (Some(x), Some(y)) => x <= y,
    }
}

/// `a` sorts no later than `b` by `Range::sort_key`: by start, then anchor, head and
/// goal column.
pub open spec fn key_le(a: Range, b: Range) -> bool {
    a.from() < b.from() || (a.from() == b.from() && (a.anchor < b.anchor || (a.anchor == b.anchor
        && (a.head < b.head || (a.head == b.head && goal_le(a.goal_col, b.goal_col))))))
}

/// The ranges of `v` in increasing order of `Range::sort_key`. Only equal ranges share a
/// key, so there is one such order of them.
pub open spec fn sorted_ranges(v: Seq<Range>) -> Seq<Range> {
    choose|s: Seq<Range>|
        s.to_multiset() == v.to_multiset() && forall|i: int, j: int|
            0 <= i <= j < s.len() ==> key_le(#[trigger] s[i], #[trigger] s[j])
}

/// `slice::sort_unstable_by_key` with `Range::sort_key`: the same ranges, in increasing
/// order of the key (tuples compare field by field, and `None` before any `Some`).
/// Only equal ranges share a key, so exactly one order meets both: `sorted_ranges`.
#[verifier::external_body]
fn sort_ranges(v: &mut Vec<Range>)
    ensures
        final(v)@ == sorted_ranges(old(v)@),
        final(v)@.to_multiset() == old(v)@.to_multiset(),
        forall|i: int, j: int|
            0 <= i <= j < final(v)@.len() ==> key_le(#[trigger] final(v)@[i], #[trigger] final(v)@[j]),
{
    v.sort_unstable_by_key(Range::sort_key)
}

/// Folds `curr` into the merged ranges so far: it joins the last one when they
/// overlap, and the tracked primary range follows the merge.
pub open spec fn merge_step(acc: Seq<Range>, prim: Range, curr: Range) -> (Seq<Range>, Range) {
    let prev = acc.last();
    if prev.overlaps(&curr) {
        let m = prev.merge(curr);
        (acc.update(acc.len() - 1, m), if prev == prim || curr == prim { m } else { prim })
    } else {
        (acc.push(curr), prim)
    }
}

/// Merges overlapping neighbours of a list sorted by start, left to right, tracking
/// what became of the primary range.
pub open spec fn merge_sorted(s: Seq<Range>, prim: Range) -> (Seq<Range>, Range)
    decreases s.len(),
{
    if s.len() <= 1 {
        (s, prim)
    } else {
        let (acc, p) = merge_sorted(s.drop_last(), prim);
        merge_step(acc, p, s.last())
    }
}

/// The first position of `x` in `s`.
pub open spec fn first_index_of(s: Seq<Range>, x: Range) -> int {
    choose|i: int| 0 <= i < s.len() && s[i] == x && forall|j: int| 0 <= j < i ==> s[j] != x
}

/// One merge step keeps the merged ranges disjoint and sorted, keeps the tracked
/// primary range among the merged ranges or the ones still to come, and keeps the
/// last merged range starting no later than the ones still to come.
proof fn lemma_merge_step(acc: Seq<Range>, p: Range, curr: Range, sorted: Seq<Range>, i: int)
    requires
        1 <= i < sorted.len(),
        sorted[i] == curr,
        forall|a: int, b: int|
            0 <= a <= b < sorted.len() ==> (#[trigger] sorted[a]).from() <= (
            #[trigger] sorted[b]).from(),
        acc.len() >= 1,
        ranges_disjoint_sorted(acc),
        forall|k: int| i <= k < sorted.len() ==> acc.last().from() <= #[trigger] sorted[k].from(),
        acc.contains(p) || exists|k: int| i <= k < sorted.len() && sorted[k] == p,
    ensures
        ({
            let (acc2, p2) = merge_step(acc, p, curr);
            &&& acc2.len() >= 1
            &&& acc2.len() <= acc.len() + 1
            &&& ranges_disjoint_sorted(acc2)
            &&& forall|k: int| i + 1 <= k < sorted.len() ==> acc2.last().from() <= #[trigger] sorted[k].from()
            &&& acc2.contains(p2) || exists|k: int| i + 1 <= k < sorted.len() && sorted[k] == p2
        }),
{
    let prev = acc.last();
    let (acc2, p2) = merge_step(acc, p, curr);
    assert(prev.from() <= curr.from());
    if prev.overlaps(&curr) {
        let m = prev.merge(curr);
        assert(acc2 =~= acc.update(acc.len() - 1, m));
        assert(m.from() == prev.from());
        assert(acc2.last() == m);
        if acc.len() >= 2 {
            assert(acc[acc.len() - 2].from() < acc[acc.len() - 1].from() && acc[acc.len() - 2].to()
                <= acc[acc.len() - 1].from());
        }
        assert forall|j: int| 0 <= j < acc2.len() - 1 implies (#[trigger] acc2[j]).from()
            < acc2[j + 1].from() && acc2[j].to() <= acc2[j + 1].from() by {
            assert(acc[j].from() < acc[j + 1].from() && acc[j].to() <= acc[j + 1].from());
        }
        assert forall|k: int| i + 1 <= k < sorted.len() implies acc2.last().from()
            <= #[trigger] sorted[k].from() by {
            assert(acc.last().from() <= sorted[k].from());
        }
        if prev == p || curr == p {
            assert(acc2[acc2.len() - 1] == p2);
        } else if acc.contains(p) {
            let w = choose|w: int| 0 <= w < acc.len() && acc[w] == p;
            assert(w != acc.len() - 1);
            assert(acc2[w] == p2);
        } else {
            let k = choose|k: int| i <= k < sorted.len() && sorted[k] == p;
            assert(k != i);
            assert(sorted[k] == p2);
        }
    } else {
        assert(acc2 =~= acc.push(curr));
        assert(curr.from() != prev.from());
        assert(prev.to() <= curr.from());
        assert forall|j: int| 0 <= j < acc2.len() - 1 implies (#[trigger] acc2[j]).from()
            < acc2[j + 1].from() && acc2[j].to() <= acc2[j + 1].from() by {
            if j < acc.len() - 1 {
                assert(acc[j].from() < acc[j + 1].from() && acc[j].to() <= acc[j + 1].from());
            }
        }
        assert forall|k: int| i + 1 <= k < sorted.len() implies acc2.last().from()
            <= #[trigger] sorted[k].from() by {
            assert(sorted[i].from() <= sorted[k].from());
        }
        if acc.contains(p) {
            let w = choose|w: int| 0 <= w < acc.len() && acc[w] == p;
            assert(acc2[w] == p2);
        } else {
            let k = choose|k: int| i <= k < sorted.len() && sorted[k] == p;
            if k == i {
                assert(acc2[acc2.len() - 1] == p2);
            } else {
                assert(sorted[k] == p2);
            }
        }
    }
}

/// Merges the overlapping neighbours of `v`, sorted by start, following `primary`.
fn merge_sorted_ranges(v: &Vec<Range>, primary: Range) -> (res: (Vec<Range>, Range))
    requires
        v@.len() >= 2,
        v@.contains(primary),
        forall|a: int, b: int|
            0 <= a <= b < v@.len() ==> (#[trigger] v@[a]).from() <= (#[trigger] v@[b]).from(),
    ensures
        (res.0@, res.1) == merge_sorted(v@, primary),
        res.0@.len() >= 1,
        res.0@.len() <= v@.len(),
        ranges_disjoint_sorted(res.0@),
        res.0@.contains(res.1),
{
    let ghost sorted = v@;
    let mut primary = primary;
    let ghost p_start = primary;
    let mut out: Vec<Range> = Vec::new();
    out.push(v[0]);
    let mut i: usize = 1;
    proof {
        assert(sorted.take(1) =~= out@);
        let w = choose|w: int| 0 <= w < sorted.len() && sorted[w] == primary;
        if w == 0 {
            assert(out@[0] == primary);
        } else {
            assert(sorted[w] == primary);
        }
    }
    while i < v.len()
        invariant
            1 <= i <= v@.len(),
            v@ == sorted,
            sorted.len() >= 2,
            forall|a: int, b: int|
                0 <= a <= b < sorted.len() ==> (#[trigger] sorted[a]).from() <= (
                #[trigger] sorted[b]).from(),
            (out@, primary) == merge_sorted(sorted.take(i as int), p_start),
            out@.len() >= 1,
            out@.len() <= i,
            ranges_disjoint_sorted(out@),
            forall|k: int| i <= k < sorted.len() ==> out@.last().from() <= #[trigger] sorted[k].from(),
            out@.contains(primary) || exists|k: int| i <= k < sorted.len() && sorted[k] == primary,
        decreases v@.len() - i,
    {
        let curr = v[i];
        let last = out.len() - 1;
        let prev = out[last];
        let ghost acc = out@;
        let ghost p0 = primary;
        proof {
            assert(sorted.take(i + 1).drop_last() =~= sorted.take(i as int));
            assert(sorted.take(i + 1).last() == curr);
            lemma_merge_step(acc, p0, curr, sorted, i as int);
        }
        if prev.overlaps(&curr) {
            let merged = prev.merge(curr);
            if prev == primary || curr == primary {
                primary = merged;
            }
            out.set(last, merged);
            proof {
                assert(out@ =~= acc.update(acc.len() - 1, merged));
            }
        } else {
            out.push(curr);
            proof {
                assert(out@ =~= acc.push(curr));
            }
        }
        i = i + 1;
    }
    proof {
        assert(sorted.take(i as int) =~= sorted);
    }
    (out, primary)
}

/// The first position of `x` in `out`, which holds it.
fn first_position(out: &Vec<Range>, x: Range) -> (idx: usize)
    requires
        out@.contains(x),
    ensures
        idx == first_index_of(out@, x),
        0 <= idx < out@.len(),
        out@[idx as int] == x,
{
    let mut idx: usize = 0;
    while idx < out.len() && out[idx] != x
        invariant
            0 <= idx <= out@.len(),
            out@.contains(x),
            forall|j: int| 0 <= j < idx ==> out@[j] != x,
        decreases out@.len() - idx,
    {
        idx = idx + 1;
    }
    proof {
        if idx == out@.len() {
            let w = choose|w: int| 0 <= w < out@.len() && out@[w] == x;
            assert(out@[w] != x);
        }
        assert(0 <= idx < out@.len() && out@[idx as int] == x && forall|j: int|
            0 <= j < idx ==> out@[j] != x);
        let c = first_index_of(out@, x);
        if c != idx {
            if c < idx {
                assert(out@[c] != x);
            } else {
                assert(out@[idx as int] != x);
            }
        }
    }
    idx
}

/// Where `Range::cursor` puts the block cursor of `r` in `text`.
pub open spec fn cursor_of(r: Range, text: Seq<char>) -> usize {
    if r.head > r.anchor {
        prev_boundary(text, r.head as int) as usize
    } else {
        r.head
    }
}

/// What `ensure_invariants` makes of one range: `min_width_1`, then `grapheme_aligned`.
pub open spec fn aligned_min_width_1(r: Range, text: Seq<char>) -> Range {
    let w = if r.head == r.anchor {
        Range { head: next_boundary(text, r.head as int) as usize, ..r }
    } else {
        r
    };
    let (a, h) = if w.anchor == w.head {
        (ensure_prev(text, w.anchor as int), ensure_prev(text, w.anchor as int))
    } else if w.anchor < w.head {
        (ensure_prev(text, w.anchor as int), ensure_next(text, w.head as int))
    } else {
        (ensure_next(text, w.anchor as int), ensure_prev(text, w.head as int))
    };
    Range { anchor: a as usize, head: h as usize, goal_col: if a == w.anchor { w.goal_col } else { None } }
}

/// `o` is the list of ranges of some vector that `f` may give for `r`.
pub open spec fn produced_by<F: Fn(Range) -> Vec<Range>>(f: F, r: Range, o: Seq<Range>) -> bool {
    exists|v: Vec<Range>| f.ensures((r,), v) && v@ == o
}

/// The lists of ranges one after another.
pub open spec fn concat_ranges(outs: Seq<Seq<Range>>) -> Seq<Range>
    decreases outs.len(),
{
    if outs.len() == 0 {
        Seq::empty()
    } else {
        concat_ranges(outs.drop_last()) + outs.last()
    }
}

/// What a selection sees: its ranges and which one is primary.
pub struct SelectionView {
    pub ranges: Seq<Range>,
    pub primary_index: nat,
}

/// The selection `normalize` makes of `ranges` with primary `primary_index`: with two
/// or more ranges, they are sorted by start, overlapping neighbours are merged, and the
/// primary is the first range equal to what became of the old primary.
pub open spec fn normalized(ranges: Seq<Range>, primary_index: nat) -> SelectionView {
    if ranges.len() < 2 {
        SelectionView { ranges, primary_index }
    } else {
        let (acc, p) = merge_sorted(sorted_ranges(ranges), ranges[primary_index as int]);
        SelectionView { ranges: acc, primary_index: first_index_of(acc, p) as nat }
    }
}

/// Ranges in strictly increasing order of start, none overlapping the next.
pub open spec fn ranges_disjoint_sorted(s: Seq<Range>) -> bool {
    forall|i: int|
        0 <= i < s.len() - 1 ==> (#[trigger] s[i]).from() < s[i + 1].from() && s[i].to() <= s[i
            + 1].from()
}

/// `a` covers every char `b` covers: it starts no later and ends no earlier.
pub open spec fn covers(a: Range, b: Range) -> bool {
    a.from() <= b.from() && b.to() <= a.to()
}

/// The range the merges make of the primary range covers it.
proof fn lemma_merge_sorted_primary_covers(s: Seq<Range>, p: Range)
    ensures
        covers(merge_sorted(s, p).1, p),
    decreases s.len(),
{
    if s.len() > 1 {
        lemma_merge_sorted_primary_covers(s.drop_last(), p);
    }
}

/// Some range of `o` covers `r`.
pub open spec fn covered_by(r: Range, o: Seq<Range>) -> bool {
    exists|j: int| 0 <= j < o.len() && covers(#[trigger] o[j], r)
}

/// Some range of `s` starts at `x`.
pub open spec fn starts_among(x: usize, s: Seq<Range>) -> bool {
    exists|a: int| 0 <= a < s.len() && (#[trigger] s[a]).from() == x
}

/// Some range of `s` ends at `x`.
pub open spec fn ends_among(x: usize, s: Seq<Range>) -> bool {
    exists|b: int| 0 <= b < s.len() && (#[trigger] s[b]).to() == x
}

/// Every range of `s` lies within some range of `o`.
#[verifier::opaque]
pub open spec fn all_covered(s: Seq<Range>, o: Seq<Range>) -> bool {
    forall|i: int| 0 <= i < s.len() ==> covered_by(#[trigger] s[i], o)
}

/// Every range of `o` starts where a range of `s` starts and ends where a range of `s`
/// ends.
#[verifier::opaque]
pub open spec fn ends_taken_from(o: Seq<Range>, s: Seq<Range>) -> bool {
    forall|j: int|
        0 <= j < o.len() ==> starts_among((#[trigger] o[j]).from(), s) && ends_among(o[j].to(), s)
}

/// Folding `curr` into the last merged range covers `init` and `curr`.
proof fn lemma_fold_covers(init: Seq<Range>, acc: Seq<Range>, curr: Range)
    requires
        acc.len() >= 1,
        all_covered(init, acc),
        acc.last().overlaps(&curr),
    ensures
        all_covered(init.push(curr), acc.update(acc.len() - 1, acc.last().merge(curr))),
{
    reveal(all_covered);
    let s = init.push(curr);
    let k = acc.len() - 1;
    let out = acc.update(k, acc.last().merge(curr));
    assert forall|i: int| 0 <= i < s.len() implies covered_by(s[i], out) by {
        if i == init.len() {
            assert(covers(out[k], s[i]));
        } else {
            assert(s[i] == init[i]);
            let j = choose|j: int| 0 <= j < acc.len() && covers(#[trigger] acc[j], init[i]);
            assert(covers(out[j], s[i]));
        }
    }
}

/// Folding `curr` into the last merged range keeps its ends among the given ones.
proof fn lemma_fold_ends(init: Seq<Range>, acc: Seq<Range>, curr: Range)
    requires
        acc.len() >= 1,
        ends_taken_from(acc, init),
    ensures
        ends_taken_from(acc.update(acc.len() - 1, acc.last().merge(curr)), init.push(curr)),
{
    reveal(ends_taken_from);
    let s = init.push(curr);
    let k = acc.len() - 1;
    let out = acc.update(k, acc.last().merge(curr));
    let last = init.len() as int;
    assert(s[last] == curr);
    assert forall|j: int| 0 <= j < out.len() implies starts_among(out[j].from(), s) && ends_among(out[j].to(), s) by {
        let a = choose|a: int| 0 <= a < init.len() && (#[trigger] init[a]).from() == acc[j].from();
        let b = choose|b: int| 0 <= b < init.len() && (#[trigger] init[b]).to() == acc[j].to();
        assert(s[a] == init[a] && s[b] == init[b]);
        if j == k {
            if out[j].from() != acc[j].from() {
                assert(out[j].from() == s[last].from());
            }
            if out[j].to() != acc[j].to() {
                assert(out[j].to() == s[last].to());
            }
        } else {
            assert(out[j] == acc[j]);
        }
    }
}

/// Adding `curr` as a merged range of its own covers `init` and `curr`.
proof fn lemma_push_covers(init: Seq<Range>, acc: Seq<Range>, curr: Range)
    requires
        all_covered(init, acc),
    ensures
        all_covered(init.push(curr), acc.push(curr)),
{
    reveal(all_covered);
    let s = init.push(curr);
    let out = acc.push(curr);
    let last = init.len() as int;
    assert(s[last] == curr);
    assert forall|i: int| 0 <= i < s.len() implies covered_by(s[i], out) by {
        if i == last {
            assert(covers(out[acc.len() as int], s[i]));
        } else {
            assert(s[i] == init[i]);
            let j = choose|j: int| 0 <= j < acc.len() && covers(#[trigger] acc[j], init[i]);
            assert(covers(out[j], s[i]));
        }
    }
}

/// Adding `curr` as a merged range of its own keeps the ends among the given ones.
proof fn lemma_push_ends(init: Seq<Range>, acc: Seq<Range>, curr: Range)
    requires
        ends_taken_from(acc, init),
    ensures
        ends_taken_from(acc.push(curr), init.push(curr)),
{
    reveal(ends_taken_from);
    let s = init.push(curr);
    let out = acc.push(curr);
    let last = init.len() as int;
    assert(s[last] == curr);
    assert forall|j: int| 0 <= j < out.len() implies starts_among(out[j].from(), s) && ends_among(out[j].to(), s) by {
        if j == acc.len() {
            assert(out[j] == s[last]);
        } else {
            let a = choose|a: int| 0 <= a < init.len() && (#[trigger] init[a]).from() == acc[j].from();
            let b = choose|b: int| 0 <= b < init.len() && (#[trigger] init[b]).to() == acc[j].to();
            assert(s[a] == init[a] && s[b] == init[b]);
            assert(out[j] == acc[j]);
        }
    }
}

/// The merges cover every range they were given, and start and end each merged range
/// where given ranges start and end.
proof fn lemma_merge_sorted_covers(s: Seq<Range>, p: Range)
    requires
        s.len() >= 1,
    ensures
        merge_sorted(s, p).0.len() >= 1,
        all_covered(s, merge_sorted(s, p).0),
        ends_taken_from(merge_sorted(s, p).0, s),
    decreases s.len(),
{
    if s.len() <= 1 {
        reveal(all_covered);
        reveal(ends_taken_from);
        let out = merge_sorted(s, p).0;
        assert(out == s);
        assert forall|i: int| 0 <= i < s.len() implies covered_by(s[i], out) by {
            assert(covers(out[i], s[i]));
        }
    } else {
        let init = s.drop_last();
        lemma_merge_sorted_covers(init, p);
        let (acc, q) = merge_sorted(init, p);
        assert(init.push(s.last()) =~= s);
        if acc.last().overlaps(&s.last()) {
            lemma_fold_covers(init, acc, s.last());
            lemma_fold_ends(init, acc, s.last());
            assert(merge_sorted(s, p).0 == acc.update(acc.len() - 1, acc.last().merge(s.last())));
        } else {
            lemma_push_covers(init, acc, s.last());
            lemma_push_ends(init, acc, s.last());
            assert(merge_sorted(s, p).0 == acc.push(s.last()));
        }
    }
}

/// Normalizing keeps every range given inside some range it makes, and starts and ends
/// every range it makes where given ranges start and end: `Selection::new` ensures the
/// two facts this law spells out range by range.
pub proof fn law_normalized_covers(given: Seq<Range>, made: Seq<Range>)
    requires
        all_covered(given, made),
        ends_taken_from(made, given),
    ensures
        forall|i: int| 0 <= i < given.len() ==> covered_by(#[trigger] given[i], made),
        forall|j: int|
            0 <= j < made.len() ==> starts_among((#[trigger] made[j]).from(), given) && ends_among(
                made[j].to(),
                given,
            ),
{
    assert forall|i: int| 0 <= i < given.len() implies covered_by(#[trigger] given[i], made) by {
        reveal(all_covered);
    }
    assert forall|j: int| 0 <= j < made.len() implies starts_among((#[trigger] made[j]).from(), given)
        && ends_among(made[j].to(), given) by {
        reveal(ends_taken_from);
    }
}

/// A list covers itself and takes its ends from itself.
proof fn lemma_covers_itself(s: Seq<Range>)
    ensures
        all_covered(s, s),
        ends_taken_from(s, s),
{
    reveal(all_covered);
    reveal(ends_taken_from);
    assert forall|i: int| 0 <= i < s.len() implies covered_by(s[i], s) by {
        assert(covers(s[i], s[i]));
    }
}

/// A range of one list is a range of any reordering of it.
proof fn lemma_in_reordered(a: Seq<Range>, b: Seq<Range>, x: Range)
    requires
        a.to_multiset() == b.to_multiset(),
        a.contains(x),
    ensures
        b.contains(x),
{
    broadcast use vstd::seq_lib::group_to_multiset_ensures;

    assert(a.to_multiset().count(x) > 0);
}

/// What covers a list covers any reordering of it.
proof fn lemma_covers_reordered(v: Seq<Range>, orig: Seq<Range>, out: Seq<Range>)
    requires
        v.to_multiset() == orig.to_multiset(),
        all_covered(v, out),
    ensures
        all_covered(orig, out),
{
    reveal(all_covered);
    assert forall|i: int| 0 <= i < orig.len() implies covered_by(orig[i], out) by {
        let x = orig[i];
        assert(orig.contains(x));
        lemma_in_reordered(orig, v, x);
        let k = choose|k: int| 0 <= k < v.len() && v[k] == x;
        assert(covered_by(v[k], out));
    }
}

/// What takes its ends from a list takes them from any reordering of it.
proof fn lemma_ends_reordered(v: Seq<Range>, orig: Seq<Range>, out: Seq<Range>)
    requires
        v.to_multiset() == orig.to_multiset(),
        ends_taken_from(out, v),
    ensures
        ends_taken_from(out, orig),
{
    reveal(ends_taken_from);
    assert forall|j: int| 0 <= j < out.len() implies starts_among(out[j].from(), orig) && ends_among(
        out[j].to(),
        orig,
    ) by {
        let o = out[j];
        assert(starts_among(o.from(), v) && ends_among(o.to(), v));
        let a = choose|a: int| 0 <= a < v.len() && (#[trigger] v[a]).from() == o.from();
        let b = choose|b: int| 0 <= b < v.len() && (#[trigger] v[b]).to() == o.to();
        let (xa, xb) = (v[a], v[b]);
        assert(v.contains(xa) && v.contains(xb));
        lemma_in_reordered(v, orig, xa);
        lemma_in_reordered(v, orig, xb);
        let a2 = choose|a2: int| 0 <= a2 < orig.len() && orig[a2] == xa;
        let b2 = choose|b2: int| 0 <= b2 < orig.len() && orig[b2] == xb;
        assert(orig[a2].from() == o.from());
        assert(orig[b2].to() == o.to());
    }
}

/// Every anchor and head lies at or before `len`.
pub open spec fn ranges_within(s: Seq<Range>, len: nat) -> bool {
    forall|i: int| 0 <= i < s.len() ==> (#[trigger] s[i]).anchor <= len && s[i].head <= len
}

/// Merging neighbours keeps at least one range, and keeps every range within `len`.
proof fn lemma_merge_sorted_within(s: Seq<Range>, p: Range, len: nat)
    requires
        s.len() >= 1,
        ranges_within(s, len),
    ensures
        merge_sorted(s, p).0.len() >= 1,
        ranges_within(merge_sorted(s, p).0, len),
    decreases s.len(),
{
    if s.len() > 1 {
        let init = s.drop_last();
        assert(ranges_within(init, len)) by {
            assert forall|i: int| 0 <= i < init.len() implies (#[trigger] init[i]).anchor <= len
                && init[i].head <= len by {
                assert(init[i] == s[i]);
            }
        }
        lemma_merge_sorted_within(init, p, len);
        let (acc, q) = merge_sorted(init, p);
        let curr = s.last();
        assert(curr == s[s.len() - 1]);
        let (acc2, _) = merge_step(acc, q, curr);
        let prev = acc.last();
        assert(prev == acc[acc.len() - 1]);
        if prev.overlaps(&curr) {
            assert forall|i: int| 0 <= i < acc2.len() implies (#[trigger] acc2[i]).anchor <= len
                && acc2[i].head <= len by {
                if i < acc.len() - 1 {
                    assert(acc2[i] == acc[i]);
                }
            }
        } else {
            assert forall|i: int| 0 <= i < acc2.len() implies (#[trigger] acc2[i]).anchor <= len
                && acc2[i].head <= len by {
                if i < acc.len() {
                    assert(acc2[i] == acc[i]);
                }
            }
        }
    }
}

#[derive(Debug, PartialEq, Eq)]
pub struct Selection {
    ranges: RangeList,
    primary_index: usize,
}

impl View for Selection {
    type V = SelectionView;

    closed spec fn view(&self) -> SelectionView {
        SelectionView {
            ranges: range_list_items(self.ranges),
            primary_index: self.primary_index as nat,
        }
    }
}

impl Clone for Selection {
    fn clone(&self) -> (r: Self)
        ensures
            r@ == self@,
    {
        Selection { ranges: self.ranges.clone(), primary_index: self.primary_index }
    }
}

impl Selection {
    /// At least one range, and the primary index points at one.
    pub open spec fn wf(&self) -> bool {
        &&& self@.ranges.len() >= 1
        &&& self@.primary_index < self@.ranges.len()
    }

    /// Sorted by start, without overlaps.
    pub open spec fn is_normalized(&self) -> bool {
        ranges_disjoint_sorted(self@.ranges)
    }

    #[inline]
    #[must_use]
    pub fn primary(&self) -> (r: Range)
        requires
            self.wf(),
        ensures
            r == self@.ranges[self@.primary_index as int],
    {
        range_list_get(&self.ranges, self.primary_index)
    }

    #[inline]
    #[must_use]
    pub fn primary_mut(&mut self) -> (r: &mut Range)
        requires
            old(self).wf(),
        ensures
            *r == old(self)@.ranges[old(self)@.primary_index as int],
            final(self)@.ranges == old(self)@.ranges.update(
                old(self)@.primary_index as int,
                *final(r),
            ),
            final(self)@.primary_index == old(self)@.primary_index,
    {
        range_list_get_mut(&mut self.ranges, self.primary_index)
    }

    pub fn ranges(&self) -> (s: &[Range])
        ensures
            s@ == self@.ranges,
    {
        range_list_as_slice(&self.ranges)
    }

    pub fn primary_index(&self) -> (i: usize)
        ensures
            i == self@.primary_index,
    {
        self.primary_index
    }

    /// Makes range `idx` the primary one; there must be such a range.
    pub fn set_primary_index(&mut self, idx: usize)
        requires
            idx < old(self)@.ranges.len(),
        ensures
            final(self)@.ranges == old(self)@.ranges,
            final(self)@.primary_index == idx,
    {
        self.primary_index = idx;
    }

    pub fn len(&self) -> (n: usize)
        ensures
            n == self@.ranges.len(),
    {
        range_list_len(&self.ranges)
    }

    /// A selection of the one range `anchor..head`.
    pub fn single(anchor: usize, head: usize) -> (s: Self)
        ensures
            s.wf(),
            s.is_normalized(),
            s@.ranges == seq![Range { anchor, head, goal_col: None }],
            s@.primary_index == 0,
    {
        let mut v = Vec::new();
        v.push(Range::new(anchor, head));
        proof {
            assert(v@ =~= seq![Range { anchor, head, goal_col: None }]);
        }
        Self { ranges: range_list_from_vec(v), primary_index: 0 }
    }

    /// A selection of one point.
    pub fn point(pos: usize) -> (s: Self)
        ensures
            s.wf(),
            s.is_normalized(),
            s@.ranges == seq![Range { anchor: pos, head: pos, goal_col: None }],
            s@.primary_index == 0,
    {
        Self::single(pos, pos)
    }

    /// Sorts the ranges by start and merges overlapping neighbours; the primary range
    /// is whatever the old primary became.
    fn normalize(self) -> (s: Self)
        requires
            self.wf(),
        ensures
            s.wf(),
            s@ == normalized(self@.ranges, self@.primary_index),
            s.is_normalized(),
            self@.ranges.len() < 2 ==> s@ == self@,
            forall|n: nat| #[trigger] ranges_within(self@.ranges, n) ==> ranges_within(s@.ranges, n),
            covers(
                s@.ranges[s@.primary_index as int],
                self@.ranges[self@.primary_index as int],
            ),
            all_covered(self@.ranges, s@.ranges),
            ends_taken_from(s@.ranges, self@.ranges),
    {
        if range_list_len(&self.ranges) < 2 {
            proof {
                lemma_covers_itself(self@.ranges);
            }
            return self;
        }
        let ghost old_ranges = self@.ranges;
        let ghost old_primary = self@.primary_index;
        let primary = range_list_get(&self.ranges, self.primary_index);
        let mut v = range_list_into_vec(self.ranges);
        sort_ranges(&mut v);
        proof {
            assert forall|a: int, b: int| 0 <= a <= b < v@.len() implies (#[trigger] v@[a]).from()
                <= (#[trigger] v@[b]).from() by {
                assert(key_le(v@[a], v@[b]));
            }
            broadcast use vstd::seq_lib::group_to_multiset_ensures;

            assert(old_ranges.contains(primary));
            assert(old_ranges.to_multiset().count(primary) > 0);
            assert(v@.to_multiset().count(primary) > 0);
            assert(v@.contains(primary));
            assert(v@.len() == v@.to_multiset().len());
            assert(old_ranges.len() == old_ranges.to_multiset().len());
        }
        let (out, new_primary) = merge_sorted_ranges(&v, primary);
        proof {
            broadcast use vstd::seq_lib::group_to_multiset_ensures;

            assert forall|n: nat| #[trigger] ranges_within(old_ranges, n) implies ranges_within(
                out@,
                n,
            ) by {
                assert forall|i: int| 0 <= i < v@.len() implies (#[trigger] v@[i]).anchor <= n
                    && v@[i].head <= n by {
                    assert(v@.contains(v@[i]));
                    assert(v@.to_multiset().count(v@[i]) > 0);
                    assert(old_ranges.to_multiset().count(v@[i]) > 0);
                    assert(old_ranges.contains(v@[i]));
                    let j = choose|j: int| 0 <= j < old_ranges.len() && old_ranges[j] == v@[i];
                    assert(old_ranges[j].anchor <= n);
                }
                lemma_merge_sorted_within(v@, primary, n);
            }
        }
        let idx = first_position(&out, new_primary);
        proof {
            lemma_merge_sorted_primary_covers(v@, primary);
            lemma_merge_sorted_covers(v@, primary);
            lemma_covers_reordered(v@, old_ranges, out@);
            lemma_ends_reordered(v@, old_ranges, out@);
        }
        Self { ranges: range_list_from_vec(out), primary_index: idx }
    }

    /// A normalized selection of `ranges` with range `primary_idx` primary; there
    /// must be a range, and `primary_idx` must point at one.
    #[must_use]
    pub fn new(ranges: Vec<Range>, primary_idx: usize) -> (s: Self)
        requires
            ranges@.len() > 0,
            primary_idx < ranges@.len(),
        ensures
            s.wf(),
            s.is_normalized(),
            s@ == normalized(ranges@, primary_idx as nat),
            covers(s@.ranges[s@.primary_index as int], ranges@[primary_idx as int]),
            all_covered(ranges@, s@.ranges),
            ends_taken_from(s@.ranges, ranges@),
            forall|n: nat| #[trigger] ranges_within(ranges@, n) ==> ranges_within(s@.ranges, n),
    {
        Self { ranges: range_list_from_vec(ranges), primary_index: primary_idx }.normalize()
    }

    /// Keeps only the primary range.
    pub fn into_single(self) -> (s: Self)
        requires
            self.wf(),
        ensures
            s.wf(),
            self@.ranges.len() == 1 ==> s@ == self@,
            self@.ranges.len() != 1 ==> s@.ranges == seq![self@.ranges[self@.primary_index as int]]
                && s@.primary_index == 0,
    {
        if range_list_len(&self.ranges) == 1 {
            self
        } else {
            let r = range_list_get(&self.ranges, self.primary_index);
            let mut v = Vec::new();
            v.push(r);
            proof {
                assert(v@ =~= seq![self@.ranges[self@.primary_index as int]]);
            }
            Self { ranges: range_list_from_vec(v), primary_index: 0 }
        }
    }

    /// Adds `range` as the new primary range, then normalizes.
    pub fn push(self, range: Range) -> (s: Self)
        requires
            self.wf(),
            self@.ranges.len() < usize::MAX,
        ensures
            s.wf(),
            s.is_normalized(),
            s@ == normalized(self@.ranges.push(range), self@.ranges.len()),
            covers(s@.ranges[s@.primary_index as int], range),
    {
        let mut sel = self;
        range_list_push(&mut sel.ranges, range);
        sel.primary_index = range_list_len(&sel.ranges) - 1;
        sel.normalize()
    }

    /// Takes out range `index`; the primary index follows its range, or moves to the
    /// range before when the last range was primary and goes. There must be two ranges
    /// or more, and `index` must point at one.
    pub fn remove(self, index: usize) -> (s: Self)
        requires
            self.wf(),
            self@.ranges.len() > 1,
            index < self@.ranges.len(),
        ensures
            s.wf(),
            s@.ranges == self@.ranges.remove(index as int),
            s@.primary_index == if index < self@.primary_index || self@.primary_index
                == self@.ranges.len() - 1 {
                self@.primary_index - 1
            } else {
                self@.primary_index as int
            },
    {
        let mut sel = self;
        range_list_remove(&mut sel.ranges, index);
        if index < sel.primary_index || sel.primary_index == range_list_len(&sel.ranges) {
            sel.primary_index = sel.primary_index - 1;
        }
        sel
    }

    /// Puts `range` in place of range `index`, then normalizes; `index` must point at a range.
    pub fn replace(self, index: usize, range: Range) -> (s: Self)
        requires
            self.wf(),
            index < self@.ranges.len(),
        ensures
            s.wf(),
            s.is_normalized(),
            s@ == normalized(self@.ranges.update(index as int, range), self@.primary_index),
            index == self@.primary_index ==> covers(s@.ranges[s@.primary_index as int], range),
    {
        let mut sel = self;
        let slot = range_list_get_mut(&mut sel.ranges, index);
        *slot = range;
        sel.normalize()
    }

    /// Maps every range through `f`, then normalizes.
    pub fn transform<F: Fn(Range) -> Range>(self, f: F) -> (s: Self)
        requires
            self.wf(),
            forall|i: int| 0 <= i < self@.ranges.len() ==> f.requires((self@.ranges[i],)),
        ensures
            s.wf(),
            s.is_normalized(),
            exists|mapped: Seq<Range>|
                {
                    &&& mapped.len() == self@.ranges.len()
                    &&& forall|i: int|
                        0 <= i < mapped.len() ==> f.ensures((self@.ranges[i],), #[trigger] mapped[i])
                    &&& s@ == normalized(mapped, self@.primary_index)
                    &&& forall|n: nat| ranges_within(mapped, n) ==> ranges_within(s@.ranges, n)
                },
    {
        let ghost orig = self@.ranges;
        let primary_index = self.primary_index;
        let v = range_list_into_vec(self.ranges);
        let mut out: Vec<Range> = Vec::new();
        let mut i: usize = 0;
        while i < v.len()
            invariant
                v@ == orig,
                0 <= i <= v@.len(),
                out@.len() == i,
                forall|k: int| 0 <= k < orig.len() ==> f.requires((orig[k],)),
                forall|k: int| 0 <= k < i ==> f.ensures((orig[k],), #[trigger] out@[k]),
            decreases v@.len() - i,
        {
            out.push(f(v[i]));
            i = i + 1;
        }
        let s = Self { ranges: range_list_from_vec(out), primary_index }.normalize();
        proof {
            assert(out@.len() == orig.len());
            assert(forall|k: int| 0 <= k < out@.len() ==> f.ensures((orig[k],), #[trigger] out@[k]));
        }
        s
    }

    /// Replaces every range by the ranges `f` gives for it, in order, then normalizes.
    /// Each call of `f` must give at least one range, so the primary index still
    /// points at one.
    pub fn transform_iter<F: Fn(Range) -> Vec<Range>>(self, f: F) -> (s: Self)
        requires
            self.wf(),
            forall|i: int| 0 <= i < self@.ranges.len() ==> f.requires((self@.ranges[i],)),
            forall|r: Range, out: Vec<Range>| #[trigger] f.ensures((r,), out) ==> out@.len() >= 1,
        ensures
            s.wf(),
            s.is_normalized(),
            exists|outs: Seq<Seq<Range>>|
                {
                    &&& outs.len() == self@.ranges.len()
                    &&& forall|i: int|
                        0 <= i < outs.len() ==> #[trigger] produced_by(f, self@.ranges[i], outs[i])
                    &&& s@ == normalized(concat_ranges(outs), self@.primary_index)
                },
    {
        let primary_index = self.primary_index;
        let v = range_list_into_vec(self.ranges);
        let ghost orig = v@;
        let ghost mut outs: Seq<Seq<Range>> = Seq::empty();
        let mut out: Vec<Range> = Vec::new();
        let mut i: usize = 0;
        while i < v.len()
            invariant
                v@ == orig,
                0 <= i <= v@.len(),
                outs.len() == i,
                out@ == concat_ranges(outs),
                out@.len() >= i,
                forall|k: int| 0 <= k < orig.len() ==> f.requires((orig[k],)),
                forall|r: Range, o: Vec<Range>| #[trigger] f.ensures((r,), o) ==> o@.len() >= 1,
                forall|k: int| 0 <= k < i ==> #[trigger] produced_by(f, orig[k], outs[k]),
            decreases v@.len() - i,
        {
            let mut produced = f(v[i]);
            let ghost pv = produced;
            let ghost old_outs = outs;
            out.append(&mut produced);
            proof {
                outs = outs.push(pv@);
                assert(outs.drop_last() =~= old_outs);
                assert forall|k: int| 0 <= k < i + 1 implies #[trigger] produced_by(
                    f,
                    orig[k],
                    outs[k],
                ) by {
                    if k < i {
                        assert(outs[k] == old_outs[k]);
                        assert(produced_by(f, orig[k], old_outs[k]));
                    } else {
                        assert(f.ensures((orig[k],), pv) && pv@ == outs[k]);
                    }
                }
            }
            i = i + 1;
        }
        let s = Self { ranges: range_list_from_vec(out), primary_index }.normalize();
        proof {
            assert(outs.len() == orig.len());
        }
        s
    }

    /// Widens points to one grapheme and snaps every range onto grapheme boundaries.
    pub fn ensure_invariants(self, text: RopeSlice) -> (s: Self)
        requires
            self.wf(),
            forall|i: int|
                0 <= i < self@.ranges.len() ==> (#[trigger] self@.ranges[i]).anchor <= slice_text(
                    text,
                ).len() && self@.ranges[i].head <= slice_text(text).len(),
        ensures
            s.wf(),
            s.is_normalized(),
            s@ == normalized(
                self@.ranges.map_values(|r: Range| aligned_min_width_1(r, slice_text(text))),
                self@.primary_index,
            ),
    {
        let ghost ranges = self@.ranges;
        let ghost primary = self@.primary_index;
        let align = |r: Range| -> (out: Range)
            requires
                r.anchor <= slice_text(text).len(),
                r.head <= slice_text(text).len(),
            ensures
                out == aligned_min_width_1(r, slice_text(text)),
            {
                let w = r.min_width_1(text);
                w.grapheme_aligned(text)
            };
        let s = self.transform(align);
        proof {
            let mapped = choose|mapped: Seq<Range>|
                {
                    &&& mapped.len() == ranges.len()
                    &&& forall|i: int|
                        0 <= i < mapped.len() ==> align.ensures((ranges[i],), #[trigger] mapped[i])
                    &&& s@ == normalized(mapped, primary)
                    &&& forall|n: nat| ranges_within(mapped, n) ==> ranges_within(s@.ranges, n)
                };
            assert(mapped =~= ranges.map_values(|r: Range| aligned_min_width_1(r, slice_text(text))));
        }
        s
    }

    /// Collapses every range to a point at its cursor.
    pub fn cursors(self, text: RopeSlice) -> (s: Self)
        requires
            self.wf(),
            forall|i: int|
                0 <= i < self@.ranges.len() ==> (#[trigger] self@.ranges[i]).head <= slice_text(
                    text,
                ).len(),
        ensures
            s.wf(),
            s.is_normalized(),
            s@ == normalized(
                self@.ranges.map_values(|r: Range| Range::point_spec(cursor_of(r, slice_text(text)))),
                self@.primary_index,
            ),
    {
        let ghost ranges = self@.ranges;
        let ghost primary = self@.primary_index;
        let collapse = |r: Range| -> (out: Range)
            requires
                r.head <= slice_text(text).len(),
            ensures
                out == Range::point_spec(cursor_of(r, slice_text(text))),
            { Range::point(r.cursor(text)) };
        let s = self.transform(collapse);
        proof {
            let mapped = choose|mapped: Seq<Range>|
                {
                    &&& mapped.len() == ranges.len()
                    &&& forall|i: int|
                        0 <= i < mapped.len() ==> collapse.ensures((ranges[i],), #[trigger] mapped[i])
                    &&& s@ == normalized(mapped, primary)
                    &&& forall|n: nat| ranges_within(mapped, n) ==> ranges_within(s@.ranges, n)
                };
            assert(mapped =~= ranges.map_values(|r: Range| Range::point_spec(cursor_of(r, slice_text(text)))));
        }
        s
    }

}

/// Stretching a backward range to a place at or past its anchor turns it forward and
/// keeps the grapheme it started on: the new range starts at the grapheme boundary
/// before the old anchor, so the char just before the old anchor stays covered, and it
/// runs through the grapheme at `char_idx`. (Grapheme boundaries step backward before
/// a place and forward after it.)
pub proof fn law_flipping_forward_keeps_the_anchor_grapheme(r: Range, text: Seq<char>, char_idx: usize)
    requires
        r.head < r.anchor,
        r.anchor <= char_idx,
    ensures
        ({
            let res = put_cursor_extend(r, text, char_idx);
            let before = prev_boundary(text, r.anchor as int);
            let after = next_boundary(text, char_idx as int);
            (0 <= before < r.anchor && char_idx < after <= usize::MAX) ==> ({
                &&& res.anchor == before
                &&& res.anchor <= res.head
                &&& res.from() <= r.anchor - 1
                &&& res.to() > char_idx
                &&& res.head == after
            })
        }),
{
}

/// Stretching a forward range (or a point) to a place before its anchor turns it
/// backward and keeps the grapheme it started on: the new range ends at the grapheme
/// boundary after the old anchor, so the char at the old anchor stays covered, and it
/// starts at `char_idx`.
pub proof fn law_flipping_backward_keeps_the_anchor_grapheme(r: Range, text: Seq<char>, char_idx: usize)
    requires
        r.head >= r.anchor,
        char_idx < r.anchor,
    ensures
        ({
            let res = put_cursor_extend(r, text, char_idx);
            let after = next_boundary(text, r.anchor as int);
            r.anchor < after <= usize::MAX ==> ({
                &&& res.anchor == after
                &&& res.head == char_idx
                &&& res.from() == char_idx
                &&& res.to() > r.anchor
            })
        }),
{
}

/// Stretching a range without turning it around keeps its anchor: a forward range (or
/// a point) stretched to a place at or past its anchor, or a backward range stretched
/// to a place before it. The head goes to `char_idx`, past its grapheme when the range
/// runs forward.
pub proof fn law_stretching_keeps_the_anchor(r: Range, text: Seq<char>, char_idx: usize)
    requires
        (r.head >= r.anchor && char_idx >= r.anchor) || (r.head < r.anchor && char_idx < r.anchor),
    ensures
        put_cursor_extend(r, text, char_idx).anchor == r.anchor,
        r.anchor <= char_idx && 0 <= next_boundary(text, char_idx as int) <= usize::MAX ==> put_cursor_extend(
            r,
            text,
            char_idx,
        ).head == next_boundary(text, char_idx as int),
        char_idx < r.anchor ==> put_cursor_extend(r, text, char_idx).head == char_idx,
{
}

} // verus!
