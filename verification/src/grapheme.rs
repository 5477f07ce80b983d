//! Grapheme-cluster stepping over a rope slice: the n-th boundary after or before
//! a char index, and snapping an index onto a boundary.
use vstd::prelude::*;
use ropey::RopeSlice;
use crate::text::{grapheme_next, grapheme_next_boundary, grapheme_prev, grapheme_prev_boundary, slice_text};

verus! {

/// The n-th grapheme boundary after `char_idx`; stepping stops at the end of the text.
pub open spec fn nth_next(text: Seq<char>, char_idx: int, n: nat) -> int
    decreases n,
{
    if n == 0 || char_idx >= text.len() {
        char_idx
    } else {
        nth_next(text, grapheme_next(text, char_idx), (n - 1) as nat)
    }
}

/// The n-th grapheme boundary before `char_idx`; stepping stops at the start of the text.
pub open spec fn nth_prev(text: Seq<char>, char_idx: int, n: nat) -> int
    decreases n,
{
    if n == 0 || char_idx <= 0 {
        char_idx
    } else {
        nth_prev(text, grapheme_prev(text, char_idx), (n - 1) as nat)
    }
}

/// The grapheme boundary after `char_idx`, or `char_idx` itself at the end.
pub open spec fn next_boundary(text: Seq<char>, char_idx: int) -> int {
    nth_next(text, char_idx, 1)
}

/// The grapheme boundary before `char_idx`, or `char_idx` itself at the start.
pub open spec fn prev_boundary(text: Seq<char>, char_idx: int) -> int {
    nth_prev(text, char_idx, 1)
}

/// `char_idx` if it is a boundary, else the boundary that follows it.
pub open spec fn ensure_next(text: Seq<char>, char_idx: int) -> int {
    if char_idx == 0 {
        char_idx
    } else {
        next_boundary(text, char_idx - 1)
    }
}

/// `char_idx` if it is a boundary, else the boundary that precedes it.
pub open spec fn ensure_prev(text: Seq<char>, char_idx: int) -> int {
    if char_idx == text.len() {
        char_idx
    } else {
        prev_boundary(text, char_idx + 1)
    }
}

/// The `n`-th grapheme boundary after `char_idx` (the end if there are fewer).
#[must_use]
pub fn nth_next_grapheme_boundary(slice: &RopeSlice, char_idx: usize, n: usize) -> (b: usize)
    requires
        char_idx <= slice_text(*slice).len(),
    ensures
        b == nth_next(slice_text(*slice), char_idx as int, n as nat),
        char_idx <= b <= slice_text(*slice).len(),
        0 < n && char_idx < slice_text(*slice).len() ==> char_idx < b,
{
    let ghost text = slice_text(*slice);
    let len = slice.len_chars();
    let mut idx = char_idx;
    let mut k: usize = 0;
    while k < n
        invariant
            text == slice_text(*slice),
            len == text.len(),
            char_idx <= idx <= len,
            k <= n,
            nth_next(text, char_idx as int, n as nat) == nth_next(text, idx as int, (n - k) as nat),
            0 < k && char_idx < len ==> char_idx < idx,
        decreases n - k,
    {
        if idx == len {
            return len;
        }
        idx = grapheme_next_boundary(slice, idx);
        k = k + 1;
    }
    idx
}

/// The grapheme boundary after `char_idx` (the end if there is none).
#[must_use]
pub fn next_grapheme_boundary(slice: &RopeSlice, char_idx: usize) -> (b: usize)
    requires
        char_idx <= slice_text(*slice).len(),
    ensures
        b == next_boundary(slice_text(*slice), char_idx as int),
        char_idx <= b <= slice_text(*slice).len(),
        char_idx < slice_text(*slice).len() ==> char_idx < b,
{
    nth_next_grapheme_boundary(slice, char_idx, 1)
}

/// `char_idx` when it already is a grapheme boundary, else the boundary after it.
#[must_use]
pub fn ensure_grapheme_boundary_next(slice: &RopeSlice, char_idx: usize) -> (b: usize)
    requires
        char_idx <= slice_text(*slice).len() + 1,
    ensures
        b == ensure_next(slice_text(*slice), char_idx as int),
{
    if char_idx == 0 {
        char_idx
    } else {
        next_grapheme_boundary(slice, char_idx - 1)
    }
}

/// The `n`-th grapheme boundary before `char_idx` (0 if there are fewer).
#[must_use]
pub fn nth_prev_grapheme_boundary(slice: &RopeSlice, char_idx: usize, n: usize) -> (b: usize)
    requires
        char_idx <= slice_text(*slice).len(),
    ensures
        b == nth_prev(slice_text(*slice), char_idx as int, n as nat),
        b <= char_idx,
        0 < n && 0 < char_idx ==> b < char_idx,
{
    let ghost text = slice_text(*slice);
    let mut idx = char_idx;
    let mut k: usize = 0;
    while k < n
        invariant
            text == slice_text(*slice),
            idx <= char_idx <= text.len(),
            k <= n,
            nth_prev(text, char_idx as int, n as nat) == nth_prev(text, idx as int, (n - k) as nat),
            0 < k && 0 < char_idx ==> idx < char_idx,
        decreases n - k,
    {
        if idx == 0 {
            return 0;
        }
        idx = grapheme_prev_boundary(slice, idx);
        k = k + 1;
    }
    idx
}

/// The grapheme boundary before `char_idx` (0 if there is none).
#[must_use]
pub fn prev_grapheme_boundary(slice: &RopeSlice, char_idx: usize) -> (b: usize)
    requires
        char_idx <= slice_text(*slice).len(),
    ensures
        b == prev_boundary(slice_text(*slice), char_idx as int),
        b <= char_idx,
        0 < char_idx ==> b < char_idx,
{
    nth_prev_grapheme_boundary(slice, char_idx, 1)
}

/// `char_idx` when it already is a grapheme boundary, else the boundary before it.
#[must_use]
pub fn ensure_grapheme_boundary_prev(slice: &RopeSlice, char_idx: usize) -> (b: usize)
    requires
        char_idx <= slice_text(*slice).len(),
    ensures
        b == ensure_prev(slice_text(*slice), char_idx as int),
        b <= char_idx,
{
    if char_idx == slice.len_chars() {
        char_idx
    } else {
        prev_grapheme_boundary(slice, char_idx + 1)
    }
}

} // verus!
