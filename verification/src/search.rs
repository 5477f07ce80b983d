//! Char search over a rope slice: the primitive behind the find-char motions.
use vstd::prelude::*;
use ropey::RopeSlice;
use crate::movement::Direction;
use crate::text::{chars_next, chars_state, slice_text};

verus! {

/// How many times `needle` occurs in `text[lo..hi]`.
pub open spec fn count_char(text: Seq<char>, needle: char, lo: int, hi: int) -> nat
    decreases hi - lo,
{
    if hi <= lo {
        0
    } else {
        count_char(text, needle, lo, hi - 1) + if text[hi - 1] == needle { 1nat } else { 0nat }
    }
}

/// The `n`th `needle` at or after index `i`, scanning forward.
pub open spec fn nth_forward(text: Seq<char>, needle: char, i: int, n: nat) -> Option<int>
    decreases text.len() - i,
{
    if n == 0 || i < 0 || i >= text.len() {
        None
    } else if text[i] == needle {
        if n == 1 {
            Some(i)
        } else {
            nth_forward(text, needle, i + 1, (n - 1) as nat)
        }
    } else {
        nth_forward(text, needle, i + 1, n)
    }
}

/// The `n`th `needle` before index `i`, scanning backward.
pub open spec fn nth_backward(text: Seq<char>, needle: char, i: int, n: nat) -> Option<int>
    decreases i,
{
    if n == 0 || i <= 0 || i > text.len() {
        None
    } else if text[i - 1] == needle {
        if n == 1 {
            Some(i - 1)
        } else {
            nth_backward(text, needle, i - 1, (n - 1) as nat)
        }
    } else {
        nth_backward(text, needle, i - 1, n)
    }
}

/// Where `find_nth_char` finds the `n`th `needle` from `pos` in `direction`.
pub open spec fn nth_char(text: Seq<char>, needle: char, pos: int, n: nat, direction: Direction) -> Option<int> {
    match direction {
        Direction::Forward => nth_forward(text, needle, pos, n),
        Direction::Backward => nth_backward(text, needle, pos, n),
    }
}

proof fn lemma_count_from_front(text: Seq<char>, needle: char, lo: int, hi: int)
    requires
        lo < hi,
    ensures
        count_char(text, needle, lo, hi) == count_char(text, needle, lo + 1, hi) + if text[lo]
            == needle {
            1nat
        } else {
            0nat
        },
    decreases hi - lo,
{
    if lo + 1 < hi {
        lemma_count_from_front(text, needle, lo, hi - 1);
        assert(count_char(text, needle, lo + 1, hi) == count_char(text, needle, lo + 1, hi - 1)
            + if text[hi - 1] == needle {
            1nat
        } else {
            0nat
        });
    } else {
        assert(count_char(text, needle, lo, lo) == 0);
        assert(count_char(text, needle, lo + 1, hi) == 0);
    }
}

/// The char index of the `n`th `needle` scanning from `pos` in `direction`: forward it
/// looks at `pos`, `pos + 1`, ...; backward at `pos - 1`, `pos - 2`, .... `None` when
/// `n` is 0, `pos` is past the end, or there are fewer than `n`.
pub fn find_nth_char(
    n: usize,
    text: RopeSlice,
    needle: char,
    pos: usize,
    direction: Direction,
) -> (found: Option<usize>)
    ensures
        (n == 0 || pos > slice_text(text).len()) ==> found is None,
        n > 0 && pos <= slice_text(text).len() && direction == Direction::Forward ==> match found {
            Some(p) => pos <= p < slice_text(text).len() && slice_text(text)[p as int] == needle
                && count_char(slice_text(text), needle, pos as int, p as int) == n - 1,
            None => count_char(slice_text(text), needle, pos as int, slice_text(text).len() as int)
                < n,
        },
        n > 0 && pos <= slice_text(text).len() && direction == Direction::Backward ==> match found {
            Some(p) => p < pos && slice_text(text)[p as int] == needle && count_char(
                slice_text(text),
                needle,
                p + 1,
                pos as int,
            ) == n - 1,
            None => count_char(slice_text(text), needle, 0, pos as int) < n,
        },
        (match found {
            Some(p) => Some(p as int),
            None => None::<int>,
        }) == nth_char(slice_text(text), needle, pos as int, n as nat, direction),
{
    if n == 0 {
        return None;
    }
    let ghost t = slice_text(text);
    let mut left = n;
    let mut idx = pos;
    let mut chars = match text.get_chars_at(idx) {
        Some(c) => c,
        None => return None,
    };
    match direction {
        Direction::Forward => {
            loop
                invariant
                    t == slice_text(text),
                    pos <= idx <= t.len() <= usize::MAX,
                    0 < left,
                    chars_state(chars) == (t, idx as int, false),
                    left <= n,
                    count_char(t, needle, pos as int, idx as int) == n - left,
                    direction == Direction::Forward,
                    n > 0,
                    nth_forward(t, needle, idx as int, left as nat) == nth_forward(t, needle, pos as int, n as nat),
                decreases t.len() - idx,
            {
                let c = match chars_next(&mut chars) {
                    Some(c) => c,
                    None => return None,
                };
                if c == needle {
                    left -= 1;
                    if left == 0 {
                        return Some(idx);
                    }
                }
                idx += 1;
            }
        },
        Direction::Backward => {
            loop
                invariant
                    t == slice_text(text),
                    idx <= pos <= t.len(),
                    0 < left,
                    chars_state(chars) == (t, idx as int, false),
                    left <= n,
                    count_char(t, needle, idx as int, pos as int) == n - left,
                    direction == Direction::Backward,
                    n > 0,
                    nth_backward(t, needle, idx as int, left as nat) == nth_backward(t, needle, pos as int, n as nat),
                decreases idx,
            {
                let c = match chars.prev() {
                    Some(c) => c,
                    None => return None,
                };
                idx -= 1;
                proof {
                    lemma_count_from_front(t, needle, idx as int, pos as int);
                }
                if c == needle {
                    left -= 1;
                    if left == 0 {
                        return Some(idx);
                    }
                }
            }
        },
    }
}

/// The `n`th `needle` found forward from `i` is a `needle` at or after `i`.
pub proof fn law_nth_forward_finds_needle(text: Seq<char>, needle: char, i: int, n: nat)
    ensures
        nth_forward(text, needle, i, n) matches Some(m) ==> i <= m < text.len() && text[m] == needle,
    decreases text.len() - i,
{
    if !(n == 0 || i < 0 || i >= text.len()) {
        if text[i] == needle {
            if n != 1 {
                law_nth_forward_finds_needle(text, needle, i + 1, (n - 1) as nat);
            }
        } else {
            law_nth_forward_finds_needle(text, needle, i + 1, n);
        }
    }
}

/// The `n`th `needle` found backward from `i` is a `needle` before `i`.
pub proof fn law_nth_backward_finds_needle(text: Seq<char>, needle: char, i: int, n: nat)
    ensures
        nth_backward(text, needle, i, n) matches Some(m) ==> 0 <= m < i && text[m] == needle,
    decreases i,
{
    if !(n == 0 || i <= 0 || i > text.len()) {
        if text[i - 1] == needle {
            if n != 1 {
                law_nth_backward_finds_needle(text, needle, i - 1, (n - 1) as nat);
            }
        } else {
            law_nth_backward_finds_needle(text, needle, i - 1, n);
        }
    }
}

} // verus!
