//! What the visible lines of the editor show, in byte offsets within each line (the
//! unit text layout works in): where the carets are, which glyphs a block caret
//! inverts, and which spans are selected. Turning these into pixels is the window's
//! part.
use vstd::prelude::*;
use crate::editor::Editor;
use crate::grapheme::{next_boundary, next_grapheme_boundary};
use crate::mode::Mode;
use crate::movement::{line_char_len, line_chars, line_len};
use crate::selection::{cursor_of, Range};
use crate::text::{
    line_count, line_of_char, line_start, rope_full_slice, slice_text, utf8_prefix_len,
};

verus! {

/// One visible line: its place in the text and its byte spans.
pub struct LinePlan {
    pub line_idx: usize,
    /// Char index of the line's first char.
    pub line_start: usize,
    /// Chars of the line without its trailing line feed.
    pub char_len: usize,
    /// For each cursor on the line, the bytes of its grapheme (empty past the text).
    pub carets: Vec<(usize, usize)>,
    /// In Normal mode, the bytes of the char under each block cursor that has one.
    pub inverted: Vec<(usize, usize)>,
    /// The bytes of each range's part of the line, where it has one.
    pub selections: Vec<(usize, usize)>,
}

/// The byte offset of char `col` of `line`.
pub open spec fn line_byte(text: Seq<char>, line: int, col: int) -> int {
    utf8_prefix_len(line_chars(text, line), col) as int
}

/// Whether the cursor of `r` is on `line`.
pub open spec fn cursor_on_line(r: Range, text: Seq<char>, line: int) -> bool {
    line_of_char(text, cursor_of(r, text) as int) == line
}

/// The index of the first range from `k` on whose cursor is not on `line`: the ranges
/// are sorted, so the cursors on a line come one after another.
pub open spec fn cursors_end(ranges: Seq<Range>, text: Seq<char>, line: int, k: int) -> int
    decreases ranges.len() - k,
{
    if k < 0 || k >= ranges.len() || !cursor_on_line(ranges[k], text, line) {
        k
    } else {
        cursors_end(ranges, text, line, k + 1)
    }
}

/// The first range whose cursor may be on `line`, walking the lines from the top.
pub open spec fn first_range_of_line(ranges: Seq<Range>, text: Seq<char>, line: nat) -> int
    decreases line,
{
    if line == 0 {
        0
    } else {
        let prev = (line - 1) as nat;
        cursors_end(ranges, text, prev as int, first_range_of_line(ranges, text, prev))
    }
}

/// The caret span of `r` on `line`: from its cursor to the end of the cursor's
/// grapheme, the end kept within the line.
pub open spec fn caret_span(r: Range, text: Seq<char>, line: int) -> (usize, usize) {
    let start = line_start(text, line);
    let cur = cursor_of(r, text) as int;
    let next = next_boundary(text, cur) - start;
    let next_col = if next <= line_len(text, line) {
        next
    } else {
        line_len(text, line)
    };
    (line_byte(text, line, cur - start) as usize, line_byte(text, line, next_col) as usize)
}

/// The glyph a block caret at `r`'s cursor inverts, if the cursor is on a char of the line.
pub open spec fn inverted_span(r: Range, text: Seq<char>, line: int) -> Option<(usize, usize)> {
    let col = cursor_of(r, text) as int - line_start(text, line);
    if col < line_len(text, line) {
        Some((line_byte(text, line, col) as usize, line_byte(text, line, col + 1) as usize))
    } else {
        None
    }
}

/// The part of the line `r` covers, if any.
pub open spec fn selection_span(r: Range, text: Seq<char>, line: int) -> Option<(usize, usize)> {
    let start = line_start(text, line);
    let end = start + line_len(text, line);
    let from = if r.from() >= start {
        r.from() as int
    } else {
        start
    };
    let to = if r.to() <= end {
        r.to() as int
    } else {
        end
    };
    if from < to {
        Some((line_byte(text, line, from - start) as usize, line_byte(text, line, to - start) as usize))
    } else {
        None
    }
}

/// The caret spans of `rs`, in order.
pub open spec fn caret_spans(rs: Seq<Range>, text: Seq<char>, line: int) -> Seq<(usize, usize)> {
    rs.map_values(|r: Range| caret_span(r, text, line))
}

/// The inverted glyphs of `rs` that have one, in order.
pub open spec fn inverted_spans(rs: Seq<Range>, text: Seq<char>, line: int) -> Seq<(usize, usize)>
    decreases rs.len(),
{
    if rs.len() == 0 {
        Seq::empty()
    } else {
        let rest = inverted_spans(rs.drop_last(), text, line);
        match inverted_span(rs.last(), text, line) {
            Some(s) => rest.push(s),
            None => rest,
        }
    }
}

/// The selected spans of `rs` on the line, in order.
pub open spec fn selection_spans(rs: Seq<Range>, text: Seq<char>, line: int) -> Seq<(usize, usize)>
    decreases rs.len(),
{
    if rs.len() == 0 {
        Seq::empty()
    } else {
        let rest = selection_spans(rs.drop_last(), text, line);
        match selection_span(rs.last(), text, line) {
            Some(s) => rest.push(s),
            None => rest,
        }
    }
}

/// Whether `p` is the plan of `line` in editor `e`, its cursors starting at range `first`.
pub open spec fn plans_line(p: LinePlan, e: Editor, line: int, first: int) -> bool {
    let t = e.document.text();
    let rs = e.selection@.ranges;
    let end = cursors_end(rs, t, line, first);
    &&& p.line_idx == line
    &&& p.line_start == line_start(t, line)
    &&& p.char_len == line_len(t, line)
    &&& p.carets@ == caret_spans(rs.subrange(first, end), t, line)
    &&& p.inverted@ == if e.mode == Mode::Normal {
        inverted_spans(rs.subrange(first, end), t, line)
    } else {
        Seq::empty()
    }
    &&& p.selections@ == selection_spans(rs, t, line)
}

/// Plans `line`, whose cursors start at range `first`; also gives the first range after
/// them, where the next line's cursors start.
pub fn plan_line(editor: &Editor, line: usize, first: usize) -> (r: (LinePlan, usize))
    requires
        editor.wf(),
        line < line_count(editor.document.text()),
        first <= editor.selection@.ranges.len(),
    ensures
        ({
            let t = editor.document.text();
            let rs = editor.selection@.ranges;
            &&& r.1 == cursors_end(rs, t, line as int, first as int)
            &&& first <= r.1 <= rs.len()
            &&& r.0.line_idx == line
            &&& r.0.line_start == line_start(t, line as int)
            &&& r.0.char_len == line_len(t, line as int)
            &&& r.0.carets@ == caret_spans(rs.subrange(first as int, r.1 as int), t, line as int)
            &&& r.0.inverted@ == if editor.mode == Mode::Normal {
                inverted_spans(rs.subrange(first as int, r.1 as int), t, line as int)
            } else {
                Seq::empty()
            }
            &&& r.0.selections@ == selection_spans(rs, t, line as int)
        }),
{
    let ghost t = editor.document.text();
    let ghost rs = editor.selection@.ranges;
    let ghost l = line as int;
    let rope = rope_full_slice(editor.document.rope());
    let line_slice = editor.document.line(line);
    let start = editor.document.line_start(line);
    let char_len = line_char_len(&rope, line);
    let ranges = editor.selection.ranges();
    let normal = editor.mode == Mode::Normal;

    let mut carets: Vec<(usize, usize)> = Vec::new();
    let mut inverted: Vec<(usize, usize)> = Vec::new();
    let mut k = first;
    while k < ranges.len()
        invariant_except_break
            cursors_end(rs, t, l, k as int) == cursors_end(rs, t, l, first as int),
        invariant
            t == editor.document.text(),
            t == slice_text(rope),
            rs == editor.selection@.ranges,
            ranges@ == rs,
            editor.wf(),
            l == line,
            line < line_count(t),
            slice_text(line_slice) == line_chars(t, l),
            start == line_start(t, l),
            char_len == line_len(t, l),
            start + char_len <= line_start(t, l + 1) <= t.len(),
            normal == (editor.mode == Mode::Normal),
            first <= k <= rs.len(),
            carets@ == caret_spans(rs.subrange(first as int, k as int), t, l),
            inverted@ == if normal {
                inverted_spans(rs.subrange(first as int, k as int), t, l)
            } else {
                Seq::empty()
            },
        ensures
            k == cursors_end(rs, t, l, first as int),
            first <= k <= rs.len(),
            carets@ == caret_spans(rs.subrange(first as int, k as int), t, l),
            inverted@ == if normal {
                inverted_spans(rs.subrange(first as int, k as int), t, l)
            } else {
                Seq::empty()
            },
        decreases rs.len() - k,
    {
        let r = ranges[k];
        proof {
            assert(r.anchor <= t.len() && r.head <= t.len());
        }
        let cur = r.cursor(rope);
        if editor.document.line_idx(cur) != line {
            break;
        }
        let col = cur - start;
        let byte = editor.document.char_to_byte_in_line(col, line_slice);
        let next = next_grapheme_boundary(&rope, cur);
        let next_col = if next - start <= char_len {
            next - start
        } else {
            char_len
        };
        let next_byte = editor.document.char_to_byte_in_line(next_col, line_slice);
        let ghost old_carets = carets@;
        let ghost old_inverted = inverted@;
        if normal && col < char_len {
            let end = editor.document.char_to_byte_in_line(col + 1, line_slice);
            inverted.push((byte, end));
        }
        carets.push((byte, next_byte));
        proof {
            let sub = rs.subrange(first as int, k + 1);
            assert(sub.drop_last() =~= rs.subrange(first as int, k as int));
            assert(sub.last() == r);
            assert(caret_spans(sub, t, l) =~= caret_spans(rs.subrange(first as int, k as int), t, l).push(
                caret_span(r, t, l),
            ));
        }
        k = k + 1;
    }

    let mut selections: Vec<(usize, usize)> = Vec::new();
    let line_end = start + char_len;
    let mut i: usize = 0;
    while i < ranges.len()
        invariant
            t == editor.document.text(),
            ranges@ == rs,
            l == line,
            slice_text(line_slice) == line_chars(t, l),
            start == line_start(t, l),
            char_len == line_len(t, l),
            line_end == start + char_len,
            start + char_len <= line_start(t, l + 1) <= t.len(),
            i <= rs.len(),
            selections@ == selection_spans(rs.subrange(0, i as int), t, l),
        decreases rs.len() - i,
    {
        let r = ranges[i];
        let from = if r.from() >= start {
            r.from()
        } else {
            start
        };
        let to = if r.to() <= line_end {
            r.to()
        } else {
            line_end
        };
        if from < to {
            let b0 = editor.document.char_to_byte_in_line(from - start, line_slice);
            let b1 = editor.document.char_to_byte_in_line(to - start, line_slice);
            selections.push((b0, b1));
        }
        proof {
            let sub = rs.subrange(0, i + 1);
            assert(sub.drop_last() =~= rs.subrange(0, i as int));
            assert(sub.last() == r);
        }
        i = i + 1;
    }
    proof {
        assert(rs.subrange(0, rs.len() as int) =~= rs);
    }
    (LinePlan { line_idx: line, line_start: start, char_len, carets, inverted, selections }, k)
}

/// Plans the first `visible` lines of the text (all of them when it has fewer), the
/// cursors of each line following those of the lines above.
pub fn plan_lines(editor: &Editor, visible: usize) -> (plans: Vec<LinePlan>)
    requires
        editor.wf(),
    ensures
        plans@.len() == if visible <= line_count(editor.document.text()) {
            visible as int
        } else {
            line_count(editor.document.text())
        },
        forall|i: int|
            0 <= i < plans@.len() ==> plans_line(
                #[trigger] plans@[i],
                *editor,
                i,
                first_range_of_line(editor.selection@.ranges, editor.document.text(), i as nat),
            ),
{
    let ghost t = editor.document.text();
    let ghost rs = editor.selection@.ranges;
    let lines = editor.document.line_count();
    let last = if visible <= lines {
        visible
    } else {
        lines
    };
    let mut plans: Vec<LinePlan> = Vec::new();
    let mut first: usize = 0;
    let mut line: usize = 0;
    while line < last
        invariant
            editor.wf(),
            t == editor.document.text(),
            rs == editor.selection@.ranges,
            lines == line_count(t),
            last <= lines,
            line <= last,
            plans@.len() == line,
            first == first_range_of_line(rs, t, line as nat),
            first <= rs.len(),
            forall|i: int|
                0 <= i < line ==> plans_line(
                    #[trigger] plans@[i],
                    *editor,
                    i,
                    first_range_of_line(rs, t, i as nat),
                ),
        decreases last - line,
    {
        let (plan, next) = plan_line(editor, line, first);
        plans.push(plan);
        proof {
            assert(first_range_of_line(rs, t, (line + 1) as nat) == cursors_end(rs, t, line as int, first as int));
        }
        first = next;
        line = line + 1;
    }
    plans
}

/// Every cursor on a char of the line has that char inverted: for each range whose
/// cursor sits at a column of the line below its length (the line break left out), the
/// last char included, the inverted spans hold the bytes from that column to the next.
/// And there are no more inverted spans than ranges.
pub proof fn law_block_cursor_inverts_its_char(rs: Seq<Range>, text: Seq<char>, line: int, i: int)
    requires
        0 <= i < rs.len(),
        0 <= cursor_of(rs[i], text) as int - line_start(text, line) < line_len(text, line),
    ensures
        ({
            let col = cursor_of(rs[i], text) as int - line_start(text, line);
            inverted_spans(rs, text, line).contains(
                (line_byte(text, line, col) as usize, line_byte(text, line, col + 1) as usize),
            )
        }),
        inverted_spans(rs, text, line).len() <= rs.len(),
    decreases rs.len(),
{
    let col = cursor_of(rs[i], text) as int - line_start(text, line);
    let span = (line_byte(text, line, col) as usize, line_byte(text, line, col + 1) as usize);
    let rest = inverted_spans(rs.drop_last(), text, line);
    if i == rs.len() - 1 {
        assert(rs.last() == rs[i]);
        assert(inverted_span(rs.last(), text, line) == Some(span));
        assert(inverted_spans(rs, text, line) == rest.push(span));
        assert(inverted_spans(rs, text, line)[rest.len() as int] == span);
        lemma_inverted_spans_len(rs.drop_last(), text, line);
    } else {
        assert(rs.drop_last()[i] == rs[i]);
        law_block_cursor_inverts_its_char(rs.drop_last(), text, line, i);
        let k = choose|k: int| 0 <= k < rest.len() && rest[k] == span;
        match inverted_span(rs.last(), text, line) {
            Some(s) => {
                assert(inverted_spans(rs, text, line)[k] == span);
            },
            None => {},
        }
    }
}

/// No more inverted spans than ranges.
proof fn lemma_inverted_spans_len(rs: Seq<Range>, text: Seq<char>, line: int)
    ensures
        inverted_spans(rs, text, line).len() <= rs.len(),
    decreases rs.len(),
{
    if rs.len() > 0 {
        lemma_inverted_spans_len(rs.drop_last(), text, line);
    }
}

} // verus!
