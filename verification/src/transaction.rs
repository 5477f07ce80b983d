//! Change sets: a document edit as a run of retain / delete / insert operations
//! over char positions, with application to a rope and inversion (undo).
use vstd::prelude::*;
use ropey::{Rope, RopeSlice};
use crate::text::{rope_text, rope_remove, rope_slice, slice_to_string, slice_text};

verus! {

/// One edit: replace the chars `from..to` by the text, or delete them when there is none.
pub type Change = (usize, usize, Option<String>);

pub type Deletion = (usize, usize);

#[derive(Debug, Clone, PartialEq, Eq)]
pub enum Operation {
    Retain(usize),
    Delete(usize),
    Insert(String),
}

/// What an operation means: keep `n` chars, drop `n` chars, or put in a text.
pub enum OpView {
    Retain(nat),
    Delete(nat),
    Insert(Seq<char>),
}

impl View for Operation {
    type V = OpView;

    open spec fn view(&self) -> OpView {
        match self {
            Operation::Retain(n) => OpView::Retain(*n as nat),
            Operation::Delete(n) => OpView::Delete(*n as nat),
            Operation::Insert(s) => OpView::Insert(s@),
        }
    }
}

/// The chars of the old document an operation consumes.
pub open spec fn op_len_before(op: OpView) -> nat {
    match op {
        OpView::Retain(n) => n,
        OpView::Delete(n) => n,
        OpView::Insert(_) => 0,
    }
}

/// The chars of the new document an operation produces.
pub open spec fn op_len_after(op: OpView) -> nat {
    match op {
        OpView::Retain(n) => n,
        OpView::Delete(_) => 0,
        OpView::Insert(s) => s.len(),
    }
}

/// The length of the document a run of operations applies to.
pub open spec fn ops_len_before(ops: Seq<OpView>) -> nat
    decreases ops.len(),
{
    if ops.len() == 0 {
        0
    } else {
        ops_len_before(ops.drop_last()) + op_len_before(ops.last())
    }
}

/// The length of the document a run of operations produces.
pub open spec fn ops_len_after(ops: Seq<OpView>) -> nat
    decreases ops.len(),
{
    if ops.len() == 0 {
        0
    } else {
        ops_len_after(ops.drop_last()) + op_len_after(ops.last())
    }
}

/// What one operation turns the chars it consumes (`span`) into.
pub open spec fn op_effect(op: OpView, span: Seq<char>) -> Seq<char> {
    match op {
        OpView::Retain(_) => span,
        OpView::Delete(_) => Seq::empty(),
        OpView::Insert(s) => s,
    }
}

/// The document that a run of operations makes of `text`, each operation consuming
/// its share of `text` from the left (meaningful when `text` has `ops_len_before` chars).
pub open spec fn apply_ops(ops: Seq<OpView>, text: Seq<char>) -> Seq<char>
    decreases ops.len(),
{
    if ops.len() == 0 {
        text
    } else {
        let k = ops_len_before(ops.drop_last());
        apply_ops(ops.drop_last(), text.take(k as int)) + op_effect(ops.last(), text.skip(k as int))
    }
}

/// Two runs of operations mean the same edit: same lengths, same result on every document.
pub open spec fn ops_equiv(a: Seq<OpView>, b: Seq<OpView>) -> bool {
    &&& ops_len_before(a) == ops_len_before(b)
    &&& ops_len_after(a) == ops_len_after(b)
    &&& forall|t: Seq<char>| t.len() == ops_len_before(a) ==> #[trigger] apply_ops(a, t) == apply_ops(b, t)
}

/// The operation that undoes `op`, given the chars `span` it consumed.
pub open spec fn invert_op(op: OpView, span: Seq<char>) -> OpView {
    match op {
        OpView::Retain(n) => OpView::Retain(n),
        OpView::Delete(_) => OpView::Insert(span),
        OpView::Insert(s) => OpView::Delete(s.len()),
    }
}

/// The run of operations that undoes `ops` once they have been applied to `text`.
pub open spec fn invert_ops(ops: Seq<OpView>, text: Seq<char>) -> Seq<OpView>
    decreases ops.len(),
{
    if ops.len() == 0 {
        Seq::empty()
    } else {
        let k = ops_len_before(ops.drop_last());
        invert_ops(ops.drop_last(), text.take(k as int)).push(
            invert_op(ops.last(), text.skip(k as int)),
        )
    }
}

pub proof fn lemma_len_before_prefix(ops: Seq<OpView>, i: int)
    requires
        0 <= i <= ops.len(),
    ensures
        ops_len_before(ops.take(i)) <= ops_len_before(ops),
        ops_len_after(ops.take(i)) <= ops_len_after(ops),
    decreases ops.len() - i,
{
    if i < ops.len() {
        lemma_len_before_prefix(ops, i + 1);
        assert(ops.take(i + 1).drop_last() =~= ops.take(i));
    } else {
        assert(ops.take(i) =~= ops);
    }
}

pub proof fn lemma_apply_len(ops: Seq<OpView>, t: Seq<char>)
    requires
        t.len() == ops_len_before(ops),
    ensures
        apply_ops(ops, t).len() == ops_len_after(ops),
    decreases ops.len(),
{
    if ops.len() > 0 {
        let k = ops_len_before(ops.drop_last());
        lemma_apply_len(ops.drop_last(), t.take(k as int));
    }
}

pub proof fn lemma_equiv_refl(a: Seq<OpView>)
    ensures
        ops_equiv(a, a),
{
}

pub proof fn lemma_equiv_trans(a: Seq<OpView>, b: Seq<OpView>, c: Seq<OpView>)
    requires
        ops_equiv(a, b),
        ops_equiv(b, c),
    ensures
        ops_equiv(a, c),
{
    assert forall|t: Seq<char>| t.len() == ops_len_before(a) implies #[trigger] apply_ops(a, t)
        == apply_ops(c, t) by {
        assert(apply_ops(a, t) == apply_ops(b, t));
        assert(apply_ops(b, t) == apply_ops(c, t));
    }
}

/// Appending the same operation keeps two equivalent runs equivalent.
pub proof fn lemma_equiv_push(a: Seq<OpView>, b: Seq<OpView>, op: OpView)
    requires
        ops_equiv(a, b),
    ensures
        ops_equiv(a.push(op), b.push(op)),
{
    assert(a.push(op).drop_last() =~= a);
    assert(b.push(op).drop_last() =~= b);
    assert forall|t: Seq<char>| t.len() == ops_len_before(a.push(op)) implies #[trigger] apply_ops(
        a.push(op),
        t,
    ) == apply_ops(b.push(op), t) by {
        let k = ops_len_before(a);
        assert(apply_ops(a, t.take(k as int)) == apply_ops(b, t.take(k as int)));
    }
}

/// An operation that consumes and produces nothing can be dropped.
pub proof fn lemma_equiv_push_empty(a: Seq<OpView>, op: OpView)
    requires
        op_len_before(op) == 0,
        op_effect(op, Seq::empty()) == Seq::<char>::empty(),
    ensures
        ops_equiv(a.push(op), a),
{
    assert(a.push(op).drop_last() =~= a);
    assert forall|t: Seq<char>| t.len() == ops_len_before(a.push(op)) implies #[trigger] apply_ops(
        a.push(op),
        t,
    ) == apply_ops(a, t) by {
        let k = ops_len_before(a);
        assert(t.take(k as int) =~= t);
        assert(t.skip(k as int) =~= Seq::<char>::empty());
        assert(apply_ops(a.push(op), t) =~= apply_ops(a, t));
    }
    assert(op_len_after(op) == 0);
}

/// Two deletions in a row are one deletion of both counts.
pub proof fn lemma_merge_delete(a: Seq<OpView>, c: nat, n: nat)
    requires
        a.len() > 0,
        a.last() == OpView::Delete(c),
    ensures
        ops_equiv(a.drop_last().push(OpView::Delete(c + n)), a.push(OpView::Delete(n))),
{
    let a0 = a.drop_last();
    let x = a0.push(OpView::Delete(c + n));
    let y = a.push(OpView::Delete(n));
    assert(x.drop_last() =~= a0);
    assert(y.drop_last() =~= a);
    assert(ops_len_before(a) == ops_len_before(a0) + op_len_before(a.last()));
    assert(ops_len_after(a) == ops_len_after(a0) + op_len_after(a.last()));
    assert(ops_len_before(x) == ops_len_before(y) && ops_len_after(x) == ops_len_after(y));
    assert forall|t: Seq<char>| t.len() == ops_len_before(x) implies #[trigger] apply_ops(x, t)
        == apply_ops(y, t) by {
        let k0 = ops_len_before(a0);
        let k = ops_len_before(a);
        let u = t.take(k as int);
        assert(u.take(k0 as int) =~= t.take(k0 as int));
        assert(apply_ops(y, t) == apply_ops(a, u) + Seq::<char>::empty());
        assert(apply_ops(a, u) == apply_ops(a0, u.take(k0 as int)) + Seq::<char>::empty());
        assert(apply_ops(x, t) == apply_ops(a0, t.take(k0 as int)) + Seq::<char>::empty());
        assert(apply_ops(x, t) =~= apply_ops(y, t));
    }
}

/// Two retains in a row are one retain of both counts.
pub proof fn lemma_merge_retain(a: Seq<OpView>, c: nat, n: nat)
    requires
        a.len() > 0,
        a.last() == OpView::Retain(c),
    ensures
        ops_equiv(a.drop_last().push(OpView::Retain(c + n)), a.push(OpView::Retain(n))),
{
    let a0 = a.drop_last();
    let x = a0.push(OpView::Retain(c + n));
    let y = a.push(OpView::Retain(n));
    assert(x.drop_last() =~= a0);
    assert(y.drop_last() =~= a);
    assert(ops_len_before(a) == ops_len_before(a0) + op_len_before(a.last()));
    assert(ops_len_after(a) == ops_len_after(a0) + op_len_after(a.last()));
    assert(ops_len_before(x) == ops_len_before(y) && ops_len_after(x) == ops_len_after(y));
    assert forall|t: Seq<char>| t.len() == ops_len_before(x) implies #[trigger] apply_ops(x, t)
        == apply_ops(y, t) by {
        let k0 = ops_len_before(a0);
        let k = ops_len_before(a);
        let u = t.take(k as int);
        assert(u.take(k0 as int) =~= t.take(k0 as int));
        assert(u.skip(k0 as int) + t.skip(k as int) =~= t.skip(k0 as int));
        assert(apply_ops(y, t) == apply_ops(a, u) + t.skip(k as int));
        assert(apply_ops(a, u) == apply_ops(a0, u.take(k0 as int)) + u.skip(k0 as int));
        assert(apply_ops(x, t) == apply_ops(a0, t.take(k0 as int)) + t.skip(k0 as int));
        assert(apply_ops(x, t) =~= apply_ops(y, t));
    }
}

/// Two insertions in a row are one insertion of both texts.
pub proof fn lemma_merge_insert(a: Seq<OpView>, p: Seq<char>, f: Seq<char>)
    requires
        a.len() > 0,
        a.last() == OpView::Insert(p),
    ensures
        ops_equiv(a.drop_last().push(OpView::Insert(p + f)), a.push(OpView::Insert(f))),
{
    let a0 = a.drop_last();
    let x = a0.push(OpView::Insert(p + f));
    let y = a.push(OpView::Insert(f));
    assert(x.drop_last() =~= a0);
    assert(y.drop_last() =~= a);
    assert(ops_len_before(a) == ops_len_before(a0) + op_len_before(a.last()));
    assert(ops_len_after(a) == ops_len_after(a0) + op_len_after(a.last()));
    assert(ops_len_before(x) == ops_len_before(y) && ops_len_after(x) == ops_len_after(y));
    assert forall|t: Seq<char>| t.len() == ops_len_before(x) implies #[trigger] apply_ops(x, t)
        == apply_ops(y, t) by {
        let k = ops_len_before(a);
        assert(t.take(k as int) =~= t);
        assert(apply_ops(y, t) == apply_ops(a, t.take(k as int)) + f);
        assert(apply_ops(a, t) == apply_ops(a0, t.take(k as int)) + p);
        assert(apply_ops(x, t) == apply_ops(a0, t.take(k as int)) + (p + f));
        assert(apply_ops(x, t) =~= apply_ops(y, t));
    }
}

/// An insertion right after an insertion-then-deletion joins the earlier insertion.
pub proof fn lemma_merge_insert_over_delete(a: Seq<OpView>, p: Seq<char>, d: nat, f: Seq<char>)
    requires
        a.len() > 1,
        a[a.len() - 2] == OpView::Insert(p),
        a.last() == OpView::Delete(d),
    ensures
        ops_equiv(
            a.drop_last().drop_last().push(OpView::Insert(p + f)).push(OpView::Delete(d)),
            a.push(OpView::Insert(f)),
        ),
{
    let a00 = a.drop_last().drop_last();
    let a0 = a.drop_last();
    let x0 = a00.push(OpView::Insert(p + f));
    let x = x0.push(OpView::Delete(d));
    let y = a.push(OpView::Insert(f));
    assert(x.drop_last() =~= x0);
    assert(x0.drop_last() =~= a00);
    assert(y.drop_last() =~= a);
    assert(a0.drop_last() =~= a00);
    assert(a0.last() == OpView::Insert(p));
    assert(ops_len_before(a0) == ops_len_before(a00) + op_len_before(a0.last()));
    assert(ops_len_after(a0) == ops_len_after(a00) + op_len_after(a0.last()));
    assert(ops_len_before(a) == ops_len_before(a0) + op_len_before(a.last()));
    assert(ops_len_after(a) == ops_len_after(a0) + op_len_after(a.last()));
    assert(ops_len_before(x0) == ops_len_before(a00));
    assert(ops_len_after(x0) == ops_len_after(a00) + p.len() + f.len());
    assert(ops_len_before(x) == ops_len_before(y) && ops_len_after(x) == ops_len_after(y));
    assert forall|t: Seq<char>| t.len() == ops_len_before(x) implies #[trigger] apply_ops(x, t)
        == apply_ops(y, t) by {
        let k1 = ops_len_before(a00);
        let k = ops_len_before(a);
        assert(ops_len_before(x0) == k1);
        assert(ops_len_before(a0) == k1);
        assert(k == k1 + d);
        assert(t.take(k as int) =~= t);
        let u = t.take(k1 as int);
        assert(u.take(k1 as int) =~= u);
        assert(apply_ops(y, t) == apply_ops(a, t.take(k as int)) + f);
        assert(apply_ops(a, t) == apply_ops(a0, u) + Seq::<char>::empty());
        assert(apply_ops(a0, u) == apply_ops(a00, u.take(k1 as int)) + p);
        assert(apply_ops(x, t) == apply_ops(x0, u) + Seq::<char>::empty());
        assert(apply_ops(x0, u) == apply_ops(a00, u.take(k1 as int)) + (p + f));
        assert(apply_ops(x, t) =~= apply_ops(y, t));
    }
}

/// Applying the inverse of a run of operations to its result gives the original text back.
pub proof fn lemma_invert_roundtrip(ops: Seq<OpView>, t: Seq<char>)
    requires
        t.len() == ops_len_before(ops),
    ensures
        ops_len_before(invert_ops(ops, t)) == ops_len_after(ops),
        ops_len_after(invert_ops(ops, t)) == ops_len_before(ops),
        apply_ops(invert_ops(ops, t), apply_ops(ops, t)) == t,
    decreases ops.len(),
{
    if ops.len() == 0 {
        assert(t =~= Seq::<char>::empty());
    } else {
        let a0 = ops.drop_last();
        let op = ops.last();
        let k = ops_len_before(a0);
        let t0 = t.take(k as int);
        let r = t.skip(k as int);
        lemma_invert_roundtrip(a0, t0);
        lemma_apply_len(a0, t0);
        let inv0 = invert_ops(a0, t0);
        let inv = invert_ops(ops, t);
        assert(inv.drop_last() =~= inv0);
        let mid = apply_ops(ops, t);
        let m0 = apply_ops(a0, t0);
        let kk = ops_len_before(inv0);
        assert(mid.take(kk as int) =~= m0);
        assert(mid.skip(kk as int) =~= op_effect(op, r));
        assert(t0 + r =~= t);
        assert(op_effect(invert_op(op, r), op_effect(op, r)) =~= r);
    }
}

/// Appending an operation adds its lengths.
pub proof fn lemma_push_lens(a: Seq<OpView>, op: OpView)
    ensures
        ops_len_before(a.push(op)) == ops_len_before(a) + op_len_before(op),
        ops_len_after(a.push(op)) == ops_len_after(a) + op_len_after(op),
{
    assert(a.push(op).drop_last() =~= a);
}

/// The views of a list of operations.
pub open spec fn ops_view(v: Seq<Operation>) -> Seq<OpView> {
    Seq::new(v.len(), |i: int| v[i]@)
}

pub proof fn lemma_equiv_sym(a: Seq<OpView>, b: Seq<OpView>)
    requires
        ops_equiv(a, b),
    ensures
        ops_equiv(b, a),
{
    assert forall|t: Seq<char>| t.len() == ops_len_before(b) implies #[trigger] apply_ops(b, t)
        == apply_ops(a, t) by {
        assert(apply_ops(a, t) == apply_ops(b, t));
    }
}

/// How `ChangeSet::delete` extends a run: a trailing deletion grows, otherwise one is added.
pub open spec fn delete_merged(ops: Seq<OpView>, n: nat) -> Seq<OpView> {
    if n == 0 {
        ops
    } else if ops.len() > 0 && ops.last() is Delete {
        ops.drop_last().push(OpView::Delete(ops.last()->Delete_0 + n))
    } else {
        ops.push(OpView::Delete(n))
    }
}

/// How `ChangeSet::retain` extends a run: a trailing retain grows, otherwise one is added.
pub open spec fn retain_merged(ops: Seq<OpView>, n: nat) -> Seq<OpView> {
    if n == 0 {
        ops
    } else if ops.len() > 0 && ops.last() is Retain {
        ops.drop_last().push(OpView::Retain(ops.last()->Retain_0 + n))
    } else {
        ops.push(OpView::Retain(n))
    }
}

/// How `ChangeSet::insert` extends a run: the text joins a trailing insertion, or the
/// insertion just before a trailing deletion, otherwise a new insertion is added.
pub open spec fn insert_merged(ops: Seq<OpView>, f: Seq<char>) -> Seq<OpView> {
    if f.len() == 0 {
        ops
    } else if ops.len() > 0 && ops.last() is Insert {
        ops.drop_last().push(OpView::Insert(ops.last()->Insert_0 + f))
    } else if ops.len() > 1 && ops.last() is Delete && ops[ops.len() - 2] is Insert {
        ops.drop_last().drop_last().push(
            OpView::Insert(ops[ops.len() - 2]->Insert_0 + f),
        ).push(ops.last())
    } else {
        ops.push(OpView::Insert(f))
    }
}

/// The operations `from_changes` builds for the edits `ch`, before its final retain:
/// for each edit a retain up to it, then its text inserted (if any) and its span
/// deleted, each merged into the run as the builders merge.
pub open spec fn built_ops(ch: Seq<Change>) -> Seq<OpView>
    decreases ch.len(),
{
    if ch.len() == 0 {
        Seq::empty()
    } else {
        let c = ch.last();
        let kept = retain_merged(built_ops(ch.drop_last()), (c.0 - change_end(ch.drop_last())) as nat);
        let inserted = match c.2 {
            Some(t) => insert_merged(kept, t@),
            None => kept,
        };
        delete_merged(inserted, (c.1 - c.0) as nat)
    }
}

/// The operations `invert` builds from `ops` over the document `doc`: a retain stays,
/// a deletion becomes an insertion of the chars it deleted, an insertion becomes a
/// deletion of its length, each merged into the run as the builders merge.
pub open spec fn inverse_built(ops: Seq<OpView>, doc: Seq<char>) -> Seq<OpView>
    decreases ops.len(),
{
    if ops.len() == 0 {
        Seq::empty()
    } else {
        let prev = inverse_built(ops.drop_last(), doc);
        let k = ops_len_before(ops.drop_last());
        match ops.last() {
            OpView::Retain(n) => retain_merged(prev, n),
            OpView::Delete(n) => insert_merged(prev, doc.subrange(k as int, (k + n) as int)),
            OpView::Insert(t) => delete_merged(prev, t.len()),
        }
    }
}

/// The operation moves, removes or adds at least one char.
pub open spec fn op_nonempty(op: OpView) -> bool {
    match op {
        OpView::Retain(n) => n > 0,
        OpView::Delete(n) => n > 0,
        OpView::Insert(t) => t.len() > 0,
    }
}

/// Two operations of one kind.
pub open spec fn same_kind(a: OpView, b: OpView) -> bool {
    (a is Retain && b is Retain) || (a is Delete && b is Delete) || (a is Insert && b is Insert)
}

/// No operation is empty and no two neighbours are of one kind.
pub open spec fn ops_compact(ops: Seq<OpView>) -> bool {
    &&& forall|i: int| 0 <= i < ops.len() ==> op_nonempty(#[trigger] ops[i])
    &&& forall|i: int| 0 < i < ops.len() ==> !same_kind(ops[i - 1], #[trigger] ops[i])
}

/// Each builder keeps a compact run compact.
pub proof fn lemma_merged_compact(ops: Seq<OpView>, n: nat, f: Seq<char>)
    requires
        ops_compact(ops),
    ensures
        ops_compact(retain_merged(ops, n)),
        ops_compact(delete_merged(ops, n)),
        ops_compact(insert_merged(ops, f)),
{
    let r = retain_merged(ops, n);
    if n > 0 && ops.len() > 0 && ops.last() is Retain {
        assert forall|i: int| 0 < i < r.len() implies !same_kind(r[i - 1], #[trigger] r[i]) by {
            if i < r.len() - 1 {
                assert(r[i] == ops[i] && r[i - 1] == ops[i - 1]);
            } else {
                assert(same_kind(ops[i], r[i]));
            }
        }
    }
    let d = delete_merged(ops, n);
    if n > 0 && ops.len() > 0 && ops.last() is Delete {
        assert forall|i: int| 0 < i < d.len() implies !same_kind(d[i - 1], #[trigger] d[i]) by {
            if i < d.len() - 1 {
                assert(d[i] == ops[i] && d[i - 1] == ops[i - 1]);
            } else {
                assert(same_kind(ops[i], d[i]));
            }
        }
    }
    let m = insert_merged(ops, f);
    if f.len() > 0 && ops.len() > 0 && ops.last() is Insert {
        assert forall|i: int| 0 < i < m.len() implies !same_kind(m[i - 1], #[trigger] m[i]) by {
            if i < m.len() - 1 {
                assert(m[i] == ops[i] && m[i - 1] == ops[i - 1]);
            } else {
                assert(same_kind(ops[i], m[i]));
            }
        }
    } else if f.len() > 0 && ops.len() > 1 && ops.last() is Delete && ops[ops.len() - 2] is Insert {
        let k = ops.len() - 2;
        assert forall|i: int| 0 <= i < m.len() implies op_nonempty(#[trigger] m[i]) by {
            if i != k {
                assert(m[i] == ops[i]);
            }
        }
        assert forall|i: int| 0 < i < m.len() implies !same_kind(m[i - 1], #[trigger] m[i]) by {
            if i < k {
                assert(m[i] == ops[i] && m[i - 1] == ops[i - 1]);
            } else if i == k {
                assert(m[i - 1] == ops[i - 1]);
                assert(same_kind(ops[i], m[i]));
            } else {
                assert(m[i] == ops[i]);
            }
        }
    }
}

/// The operations `from_changes` builds before its final retain are compact.
pub proof fn lemma_built_ops_compact(ch: Seq<Change>)
    ensures
        ops_compact(built_ops(ch)),
    decreases ch.len(),
{
    if ch.len() > 0 {
        lemma_built_ops_compact(ch.drop_last());
        let c = ch.last();
        let kept = retain_merged(built_ops(ch.drop_last()), (c.0 - change_end(ch.drop_last())) as nat);
        lemma_merged_compact(built_ops(ch.drop_last()), (c.0 - change_end(ch.drop_last())) as nat, Seq::empty());
        let inserted = match c.2 {
            Some(t) => insert_merged(kept, t@),
            None => kept,
        };
        lemma_merged_compact(kept, (c.1 - c.0) as nat, change_text(c));
        lemma_merged_compact(inserted, (c.1 - c.0) as nat, Seq::empty());
    }
}

/// The char just past the last edited span (0 when there are no edits).
pub open spec fn change_end(ch: Seq<Change>) -> nat {
    if ch.len() == 0 {
        0
    } else {
        ch.last().1 as nat
    }
}

/// The text an edit puts in (nothing for a pure deletion).
pub open spec fn change_text(c: Change) -> Seq<char> {
    match c.2 {
        Some(s) => s@,
        None => Seq::empty(),
    }
}

/// Edits that are in order, do not overlap, and lie inside a document of `len` chars.
pub open spec fn changes_in_order(ch: Seq<Change>, len: nat) -> bool {
    &&& forall|i: int| 0 <= i < ch.len() ==> #[trigger] ch[i].0 <= ch[i].1 && ch[i].1 <= len
    &&& forall|i: int| 0 < i < ch.len() ==> #[trigger] ch[i - 1].1 <= ch[i].0
}

/// The operations for a list of edits, one retain / insert / delete triple per edit,
/// up to the end of the last edit.
pub open spec fn changes_ops(ch: Seq<Change>) -> Seq<OpView>
    decreases ch.len(),
{
    if ch.len() == 0 {
        Seq::empty()
    } else {
        let c = ch.last();
        let e = change_end(ch.drop_last());
        changes_ops(ch.drop_last()).push(OpView::Retain((c.0 - e) as nat)).push(
            OpView::Insert(change_text(c)),
        ).push(OpView::Delete((c.1 - c.0) as nat))
    }
}

/// `text` with each edited span replaced by the edit's text.
pub open spec fn splice(ch: Seq<Change>, text: Seq<char>) -> Seq<char>
    decreases ch.len(),
{
    if ch.len() == 0 {
        text
    } else {
        let c = ch.last();
        splice(ch.drop_last(), text.take(c.0 as int)) + change_text(c) + text.skip(c.1 as int)
    }
}

/// The chars the edits replace, all spans together.
pub open spec fn removed_len(ch: Seq<Change>) -> int
    decreases ch.len(),
{
    if ch.len() == 0 {
        0
    } else {
        removed_len(ch.drop_last()) + ch.last().1 - ch.last().0
    }
}

/// The chars the edits put in, all texts together.
pub open spec fn added_len(ch: Seq<Change>) -> int
    decreases ch.len(),
{
    if ch.len() == 0 {
        0
    } else {
        added_len(ch.drop_last()) + change_text(ch.last()).len()
    }
}

/// Splicing edits in order into a text of `len` chars leaves `len` less what they
/// replace plus what they put in.
pub proof fn lemma_splice_len(ch: Seq<Change>, text: Seq<char>)
    requires
        changes_in_order(ch, text.len()),
    ensures
        splice(ch, text).len() == text.len() - removed_len(ch) + added_len(ch),
    decreases ch.len(),
{
    if ch.len() > 0 {
        let init = ch.drop_last();
        let c = ch.last();
        assert(c == ch[ch.len() - 1]);
        assert(changes_in_order(init, c.0 as nat)) by {
            assert forall|j: int| 0 <= j < init.len() implies #[trigger] init[j].0 <= init[j].1
                && init[j].1 <= c.0 by {
                assert(init[j] == ch[j]);
                lemma_change_before_last(ch, text.len(), j);
            }
            assert forall|j: int| 0 < j < init.len() implies #[trigger] init[j - 1].1 <= init[j].0 by {
                assert(init[j] == ch[j] && init[j - 1] == ch[j - 1]);
            }
        }
        lemma_splice_len(init, text.take(c.0 as int));
    }
}

/// In edits in order, every edit ends no later than the last one starts.
proof fn lemma_change_before_last(ch: Seq<Change>, len: nat, j: int)
    requires
        changes_in_order(ch, len),
        0 <= j < ch.len() - 1,
    ensures
        ch[j].1 <= ch[ch.len() - 1].0,
    decreases ch.len() - 1 - j,
{
    let i = j + 1;
    assert(ch[i - 1].1 <= ch[i].0);
    if j < ch.len() - 2 {
        lemma_change_before_last(ch, len, i);
        assert(ch[i].0 <= ch[i].1);
    }
}

pub proof fn lemma_changes_in_order_prefix(ch: Seq<Change>, len: nat, i: int)
    requires
        changes_in_order(ch, len),
        0 <= i <= ch.len(),
    ensures
        changes_in_order(ch.take(i), len),
        i > 0 ==> change_end(ch.take(i)) == ch[i - 1].1,
        ch.take(i).len() == i,
{
    assert forall|j: int| 0 < j < ch.take(i).len() implies #[trigger] ch.take(i)[j - 1].1 <= ch.take(
        i,
    )[j].0 by {
        assert(ch[j - 1].1 <= ch[j].0);
    }
}

/// Edits in order end no later than the end of the last one, and their operations
/// consume exactly that many chars.
pub proof fn lemma_changes_ops_len(ch: Seq<Change>, len: nat)
    requires
        changes_in_order(ch, len),
    ensures
        ops_len_before(changes_ops(ch)) == change_end(ch),
        change_end(ch) <= len,
    decreases ch.len(),
{
    if ch.len() > 0 {
        let c0 = ch.drop_last();
        lemma_changes_in_order_prefix(ch, len, ch.len() - 1);
        assert(ch.take(ch.len() - 1) =~= c0);
        lemma_changes_ops_len(c0, len);
        let o0 = changes_ops(c0);
        let e = change_end(c0);
        let c = ch.last();
        assert(e <= c.0) by {
            if c0.len() > 0 {
                assert(ch[ch.len() - 2].1 <= ch[ch.len() - 1].0);
            }
        }
        let x1 = o0.push(OpView::Retain((c.0 - e) as nat));
        let x2 = x1.push(OpView::Insert(change_text(c)));
        lemma_push_lens(o0, OpView::Retain((c.0 - e) as nat));
        lemma_push_lens(x1, OpView::Insert(change_text(c)));
        lemma_push_lens(x2, OpView::Delete((c.1 - c.0) as nat));
    }
}

/// Splicing into a longer text leaves the chars past the last edit alone.
pub proof fn lemma_splice_extend(ch: Seq<Change>, len: nat, t: Seq<char>)
    requires
        changes_in_order(ch, len),
        change_end(ch) <= t.len(),
    ensures
        splice(ch, t) == splice(ch, t.take(change_end(ch) as int)) + t.skip(change_end(ch) as int),
    decreases ch.len(),
{
    if ch.len() == 0 {
        assert(t.take(0) + t.skip(0) =~= t);
    } else {
        let c = ch.last();
        let u = t.take(c.1 as int);
        assert(u.take(c.0 as int) =~= t.take(c.0 as int));
        assert(u.skip(c.1 as int) =~= Seq::<char>::empty());
        assert(splice(ch, t) =~= splice(ch, u) + t.skip(c.1 as int));
    }
}

/// Applying the operations of a list of edits splices the edits in.
pub proof fn lemma_changes_ops_apply(ch: Seq<Change>, len: nat, t: Seq<char>)
    requires
        changes_in_order(ch, len),
        t.len() == change_end(ch),
    ensures
        apply_ops(changes_ops(ch), t) == splice(ch, t),
    decreases ch.len(),
{
    if ch.len() > 0 {
        let c0 = ch.drop_last();
        lemma_changes_in_order_prefix(ch, len, ch.len() - 1);
        assert(ch.take(ch.len() - 1) =~= c0);
        lemma_changes_ops_len(c0, len);
        let o0 = changes_ops(c0);
        let e = change_end(c0);
        let c = ch.last();
        assert(e <= c.0) by {
            if c0.len() > 0 {
                assert(ch[ch.len() - 2].1 <= ch[ch.len() - 1].0);
            }
        }
        let x1 = o0.push(OpView::Retain((c.0 - e) as nat));
        let x2 = x1.push(OpView::Insert(change_text(c)));
        let x3 = x2.push(OpView::Delete((c.1 - c.0) as nat));
        lemma_push_lens(o0, OpView::Retain((c.0 - e) as nat));
        lemma_push_lens(x1, OpView::Insert(change_text(c)));
        assert(x3.drop_last() =~= x2);
        assert(x2.drop_last() =~= x1);
        assert(x1.drop_last() =~= o0);
        let t0 = t.take(c.1 as int);
        assert(t0 =~= t);
        let u = t.take(c.0 as int);
        lemma_changes_ops_apply(c0, len, u.take(e as int));
        lemma_splice_extend(c0, len, u);
        assert(apply_ops(x3, t) == apply_ops(x2, t.take(c.0 as int)) + Seq::<char>::empty());
        assert(apply_ops(x2, u) == apply_ops(x1, u.take(c.0 as int)) + change_text(c));
        assert(u.take(c.0 as int) =~= u);
        assert(apply_ops(x1, u) == apply_ops(o0, u.take(e as int)) + u.skip(e as int));
        assert(t.skip(c.1 as int) =~= Seq::<char>::empty());
        assert(apply_ops(changes_ops(ch), t) =~= splice(ch, t));
    }
}

/// Each prefix of a list of edits produces no more chars than the whole list.
pub proof fn lemma_ops_after_prefix_bound(ch: Seq<Change>, len: nat, t: Seq<char>, i: int)
    requires
        changes_in_order(ch, len),
        t.len() == len,
        0 <= i <= ch.len(),
    ensures
        ops_len_after(changes_ops(ch.take(i))) <= splice(ch, t).len(),
    decreases ch.len() - i,
{
    if i < ch.len() {
        lemma_ops_after_prefix_bound(ch, len, t, i + 1);
        let c0 = ch.take(i);
        let c1 = ch.take(i + 1);
        assert(c1.drop_last() =~= c0);
        let o0 = changes_ops(c0);
        let c = c1.last();
        let e = change_end(c0);
        let x1 = o0.push(OpView::Retain((c.0 - e) as nat));
        let x2 = x1.push(OpView::Insert(change_text(c)));
        lemma_push_lens(o0, OpView::Retain((c.0 - e) as nat));
        lemma_push_lens(x1, OpView::Insert(change_text(c)));
        lemma_push_lens(x2, OpView::Delete((c.1 - c.0) as nat));
    } else {
        assert(ch.take(i) =~= ch);
        lemma_changes_ops_len(ch, len);
        let full = changes_ops(ch).push(OpView::Retain((len - change_end(ch)) as nat));
        lemma_push_lens(changes_ops(ch), OpView::Retain((len - change_end(ch)) as nat));
        assert(t.take(change_end(ch) as int).len() == change_end(ch));
        lemma_changes_ops_apply(ch, len, t.take(change_end(ch) as int));
        lemma_splice_extend(ch, len, t);
        lemma_apply_len(changes_ops(ch), t.take(change_end(ch) as int));
    }
}

/// A change set: operations over the old document, then an untouched tail of
/// `len - ops_len_before` chars. `len` and `len_after` are the lengths of the
/// document before and after.
#[derive(Debug, Clone, Default, PartialEq, Eq)]
pub struct ChangeSet {
    pub changes: Vec<Operation>,
    pub len: usize,
    pub len_after: usize,
}

impl View for ChangeSet {
    type V = Seq<OpView>;

    open spec fn view(&self) -> Seq<OpView> {
        ops_view(self.changes@)
    }
}

impl Operation {
    /// The count an operation carries: chars kept, chars dropped, or chars inserted.
    pub fn len_chars(&self) -> (n: usize)
        ensures
            n == match self@ {
                OpView::Retain(k) => k,
                OpView::Delete(k) => k,
                OpView::Insert(s) => s.len(),
            },
    {
        match self {
            Operation::Retain(n) | Operation::Delete(n) => *n,
            Operation::Insert(s) => s.as_str().unicode_len(),
        }
    }
}

impl ChangeSet {
    /// The chars at the end of the document that no operation covers.
    pub open spec fn tail(&self) -> int {
        self.len - ops_len_before(self@)
    }

    /// The lengths agree with the operations: both documents share the same tail.
    pub open spec fn wf(&self) -> bool {
        &&& ops_len_before(self@) <= self.len
        &&& self.len_after == ops_len_after(self@) + self.tail()
    }

    /// The document this change set makes of `text` (of `len` chars): the operations
    /// rewrite the front, the tail stays.
    pub open spec fn apply_to(&self, text: Seq<char>) -> Seq<char> {
        let k = ops_len_before(self@);
        apply_ops(self@, text.take(k as int)) + text.skip(k as int)
    }

    /// An empty change set over `doc`: no operations, the whole document is tail.
    #[inline]
    pub fn new(doc: RopeSlice) -> (cs: Self)
        ensures
            cs.wf(),
            cs@ == Seq::<OpView>::empty(),
            cs.len == slice_text(doc).len(),
            cs.len_after == cs.len,
    {
        let len = doc.len_chars();
        let cs = Self { changes: Vec::new(), len: len, len_after: len };
        assert(cs@ =~= Seq::<OpView>::empty());
        cs
    }

    /// An empty change set over an empty document.
    pub fn with_capacity(capacity: usize) -> (cs: Self)
        ensures
            cs.wf(),
            cs@ == Seq::<OpView>::empty(),
            cs.len == 0,
            cs.len_after == 0,
    {
        let cs = Self { changes: Vec::with_capacity(capacity), len: 0, len_after: 0 };
        assert(cs@ =~= Seq::<OpView>::empty());
        cs
    }

    /// Deletes the next `n` chars; a deletion right after a deletion extends it.
    pub fn delete(&mut self, n: usize)
        requires
            old(self).wf(),
            old(self).len + n <= usize::MAX,
        ensures
            final(self).wf(),
            final(self)@ == delete_merged(old(self)@, n as nat),
            ops_equiv(final(self)@, old(self)@.push(OpView::Delete(n as nat))),
            final(self).len == old(self).len + n,
            final(self).len_after == old(self).len_after,
            final(self).tail() == old(self).tail(),
    {
        let ghost before = self@;
        proof {
            lemma_push_lens(before, OpView::Delete(n as nat));
        }
        if n == 0 {
            proof {
                lemma_equiv_push_empty(before, OpView::Delete(0));
                lemma_equiv_sym(before.push(OpView::Delete(0)), before);
            }
            return;
        }
        self.len = self.len + n;
        let last = self.changes.pop();
        match last {
            Some(Operation::Delete(count)) => {
                proof {
                    assert(before.last() == OpView::Delete(count as nat));
                    assert(ops_len_before(before) == ops_len_before(before.drop_last()) + count);
                }
                self.changes.push(Operation::Delete(count + n));
                proof {
                    assert(self@ =~= before.drop_last().push(OpView::Delete((count + n) as nat)));
                    lemma_merge_delete(before, count as nat, n as nat);
                }
            },
            Some(op) => {
                self.changes.push(op);
                self.changes.push(Operation::Delete(n));
                proof {
                    assert(self@ =~= before.push(OpView::Delete(n as nat)));
                    lemma_equiv_refl(self@);
                }
            },
            None => {
                self.changes.push(Operation::Delete(n));
                proof {
                    assert(self@ =~= before.push(OpView::Delete(n as nat)));
                    lemma_equiv_refl(self@);
                }
            },
        }
    }

    /// Inserts `fragment`; it joins a trailing insertion, or the insertion just before
    /// a trailing deletion.
    pub fn insert(&mut self, fragment: String)
        requires
            old(self).wf(),
            old(self).len_after + fragment@.len() <= usize::MAX,
        ensures
            final(self).wf(),
            final(self)@ == insert_merged(old(self)@, fragment@),
            ops_equiv(final(self)@, old(self)@.push(OpView::Insert(fragment@))),
            final(self).len == old(self).len,
            final(self).len_after == old(self).len_after + fragment@.len(),
            final(self).tail() == old(self).tail(),
    {
        let ghost before = self@;
        proof {
            lemma_push_lens(before, OpView::Insert(fragment@));
        }
        if fragment.as_str().is_empty() {
            proof {
                assert(fragment@ =~= Seq::<char>::empty());
                lemma_equiv_push_empty(before, OpView::Insert(fragment@));
                lemma_equiv_sym(before.push(OpView::Insert(fragment@)), before);
            }
            return;
        }
        self.len_after = self.len_after + fragment.as_str().unicode_len();
        let last = self.changes.pop();
        match last {
            Some(Operation::Insert(prev)) => {
                let mut prev = prev;
                let ghost p = prev@;
                prev.append(fragment.as_str());
                self.changes.push(Operation::Insert(prev));
                proof {
                    assert(before.last() == OpView::Insert(p));
                    assert(self@ =~= before.drop_last().push(OpView::Insert(p + fragment@)));
                    lemma_merge_insert(before, p, fragment@);
                }
            },
            Some(Operation::Delete(d)) => {
                let second = self.changes.pop();
                match second {
                    Some(Operation::Insert(prev)) => {
                        let mut prev = prev;
                        let ghost p = prev@;
                        prev.append(fragment.as_str());
                        self.changes.push(Operation::Insert(prev));
                        self.changes.push(Operation::Delete(d));
                        proof {
                            assert(before[before.len() - 2] == OpView::Insert(p));
                            assert(before.last() == OpView::Delete(d as nat));
                            assert(self@ =~= before.drop_last().drop_last().push(
                                OpView::Insert(p + fragment@),
                            ).push(OpView::Delete(d as nat)));
                            lemma_merge_insert_over_delete(before, p, d as nat, fragment@);
                        }
                    },
                    Some(op) => {
                        self.changes.push(op);
                        self.changes.push(Operation::Delete(d));
                        self.changes.push(Operation::Insert(fragment));
                        proof {
                            assert(self@ =~= before.push(OpView::Insert(fragment@)));
                            lemma_equiv_refl(self@);
                        }
                    },
                    None => {
                        self.changes.push(Operation::Delete(d));
                        self.changes.push(Operation::Insert(fragment));
                        proof {
                            assert(self@ =~= before.push(OpView::Insert(fragment@)));
                            lemma_equiv_refl(self@);
                        }
                    },
                }
            },
            Some(op) => {
                self.changes.push(op);
                self.changes.push(Operation::Insert(fragment));
                proof {
                    assert(self@ =~= before.push(OpView::Insert(fragment@)));
                    lemma_equiv_refl(self@);
                }
            },
            None => {
                self.changes.push(Operation::Insert(fragment));
                proof {
                    assert(self@ =~= before.push(OpView::Insert(fragment@)));
                    lemma_equiv_refl(self@);
                }
            },
        }
    }

    /// Keeps the next `n` chars; a retain right after a retain extends it.
    pub fn retain(&mut self, n: usize)
        requires
            old(self).wf(),
            old(self).len + n <= usize::MAX,
            old(self).len_after + n <= usize::MAX,
        ensures
            final(self).wf(),
            final(self)@ == retain_merged(old(self)@, n as nat),
            ops_equiv(final(self)@, old(self)@.push(OpView::Retain(n as nat))),
            final(self).len == old(self).len + n,
            final(self).len_after == old(self).len_after + n,
            final(self).tail() == old(self).tail(),
    {
        let ghost before = self@;
        proof {
            lemma_push_lens(before, OpView::Retain(n as nat));
        }
        if n == 0 {
            proof {
                lemma_equiv_push_empty(before, OpView::Retain(0));
                lemma_equiv_sym(before.push(OpView::Retain(0)), before);
            }
            return;
        }
        self.len = self.len + n;
        self.len_after = self.len_after + n;
        let last = self.changes.pop();
        match last {
            Some(Operation::Retain(count)) => {
                proof {
                    assert(before.last() == OpView::Retain(count as nat));
                    assert(ops_len_before(before) == ops_len_before(before.drop_last()) + count);
                }
                self.changes.push(Operation::Retain(count + n));
                proof {
                    assert(self@ =~= before.drop_last().push(OpView::Retain((count + n) as nat)));
                    lemma_merge_retain(before, count as nat, n as nat);
                }
            },
            Some(op) => {
                self.changes.push(op);
                self.changes.push(Operation::Retain(n));
                proof {
                    assert(self@ =~= before.push(OpView::Retain(n as nat)));
                    lemma_equiv_refl(self@);
                }
            },
            None => {
                self.changes.push(Operation::Retain(n));
                proof {
                    assert(self@ =~= before.push(OpView::Retain(n as nat)));
                    lemma_equiv_refl(self@);
                }
            },
        }
    }

    /// The change set that replaces each edited span `from..to` of `doc` by the edit's
    /// text (or deletes it). The edits must be in order, not overlap, lie inside the
    /// document, and leave a result whose length fits in a `usize`.
    pub fn from_changes(doc: &Rope, changes: Vec<Change>) -> (cs: Self)
        requires
            changes_in_order(changes@, rope_text(*doc).len()),
            splice(changes@, rope_text(*doc)).len() <= usize::MAX,
        ensures
            cs.wf(),
            cs.tail() == 0,
            cs.len == rope_text(*doc).len(),
            cs.len_after == splice(changes@, rope_text(*doc)).len(),
            ops_equiv(
                cs@,
                changes_ops(changes@).push(
                    OpView::Retain((rope_text(*doc).len() - change_end(changes@)) as nat),
                ),
            ),
            cs.apply_to(rope_text(*doc)) == splice(changes@, rope_text(*doc)),
            cs@ == retain_merged(
                built_ops(changes@),
                (rope_text(*doc).len() - change_end(changes@)) as nat,
            ),
            ops_compact(cs@),
            ops_len_before(cs@) == cs.len,
            ops_len_after(cs@) == cs.len_after,
            cs.len_after == rope_text(*doc).len() - removed_len(changes@) + added_len(changes@),
    {
        let len = doc.len_chars();
        let ghost text = rope_text(*doc);
        let ghost ch = changes@;
        let size = changes.len();
        let capacity = if size <= (usize::MAX - 1) / 2 {
            2 * size + 1
        } else {
            size
        };
        let mut changeset = ChangeSet::with_capacity(capacity);
        let ghost full = changes_ops(ch).push(OpView::Retain((len - change_end(ch)) as nat));
        proof {
            lemma_changes_ops_len(ch, len as nat);
            lemma_push_lens(changes_ops(ch), OpView::Retain((len - change_end(ch)) as nat));
            assert(text.take(len as int) =~= text);
            lemma_changes_ops_apply(ch, len as nat, text.take(change_end(ch) as int));
            lemma_splice_extend(ch, len as nat, text);
            lemma_apply_len(full, text);
            assert(full.drop_last() =~= changes_ops(ch));
            assert(apply_ops(full, text) == apply_ops(changes_ops(ch), text.take(
                change_end(ch) as int,
            )) + text.skip(change_end(ch) as int));
            assert(apply_ops(full, text) == splice(ch, text));
            assert(changeset@ =~= changes_ops(ch.take(0)));
            assert(changeset@ =~= built_ops(ch.take(0)));
        }
        let mut last: usize = 0;
        let mut i: usize = 0;
        while i < changes.len()
            invariant
                0 <= i <= changes@.len(),
                ch == changes@,
                text == rope_text(*doc),
                len == text.len(),
                changes_in_order(ch, len as nat),
                splice(ch, text).len() <= usize::MAX,
                ops_len_after(full) == splice(ch, text).len(),
                full == changes_ops(ch).push(OpView::Retain((len - change_end(ch)) as nat)),
                last == change_end(ch.take(i as int)),
                changeset.wf(),
                changeset.tail() == 0,
                changeset.len == last,
                changeset.len_after == ops_len_after(changes_ops(ch.take(i as int))),
                ops_equiv(changeset@, changes_ops(ch.take(i as int))),
                changeset@ == built_ops(ch.take(i as int)),
            decreases changes@.len() - i,
        {
            let from = changes[i].0;
            let to = changes[i].1;
            let ghost c = ch[i as int];
            let ghost prev_ops = changes_ops(ch.take(i as int));
            proof {
                lemma_changes_in_order_prefix(ch, len as nat, i as int);
                lemma_changes_in_order_prefix(ch, len as nat, i + 1);
                assert(ch.take(i + 1).drop_last() =~= ch.take(i as int));
                assert(ch.take(i + 1).last() == c);
                assert(last <= from) by {
                    if i > 0 {
                        assert(ch[i - 1].1 <= ch[i as int].0);
                    }
                }
                lemma_ops_after_prefix_bound(ch, len as nat, text, i as int + 1);
            }
            let ghost x1 = prev_ops.push(OpView::Retain((from - last) as nat));
            let ghost x2 = x1.push(OpView::Insert(change_text(c)));
            let ghost x3 = x2.push(OpView::Delete((to - from) as nat));
            proof {
                lemma_push_lens(prev_ops, OpView::Retain((from - last) as nat));
                lemma_push_lens(x1, OpView::Insert(change_text(c)));
                lemma_push_lens(x2, OpView::Delete((to - from) as nat));
                assert(x3 == changes_ops(ch.take(i + 1)));
            }
            let ghost cs0 = changeset@;
            changeset.retain(from - last);
            proof {
                lemma_equiv_push(cs0, prev_ops, OpView::Retain((from - last) as nat));
                lemma_equiv_trans(changeset@, cs0.push(OpView::Retain((from - last) as nat)), x1);
            }
            let span = to - from;
            let ghost cs1 = changeset@;
            match &changes[i].2 {
                Some(text) => {
                    changeset.insert(text.clone());
                    proof {
                        lemma_equiv_push(cs1, x1, OpView::Insert(change_text(c)));
                        lemma_equiv_trans(changeset@, cs1.push(OpView::Insert(change_text(c))), x2);
                    }
                    let ghost cs2 = changeset@;
                    changeset.delete(span);
                    proof {
                        lemma_equiv_push(cs2, x2, OpView::Delete(span as nat));
                        lemma_equiv_trans(changeset@, cs2.push(OpView::Delete(span as nat)), x3);
                    }
                },
                None => {
                    proof {
                        assert(change_text(c) =~= Seq::<char>::empty());
                        lemma_equiv_push_empty(x1, OpView::Insert(change_text(c)));
                        lemma_equiv_sym(x2, x1);
                        lemma_equiv_trans(changeset@, x1, x2);
                    }
                    let ghost cs2 = changeset@;
                    changeset.delete(span);
                    proof {
                        lemma_equiv_push(cs2, x2, OpView::Delete(span as nat));
                        lemma_equiv_trans(changeset@, cs2.push(OpView::Delete(span as nat)), x3);
                    }
                },
            }
            proof {
                assert(changeset@ == built_ops(ch.take(i + 1)));
            }
            last = to;
            i = i + 1;
        }
        proof {
            lemma_changes_in_order_prefix(ch, len as nat, ch.len() as int);
            assert(ch.take(ch.len() as int) =~= ch);
        }
        let ghost cs0 = changeset@;
        changeset.retain(len - last);
        proof {
            lemma_equiv_push(cs0, changes_ops(ch), OpView::Retain((len - last) as nat));
            lemma_equiv_trans(changeset@, cs0.push(OpView::Retain((len - last) as nat)), full);
            assert(text.take(len as int) =~= text);
            assert(text.skip(len as int) =~= Seq::<char>::empty());
            assert(apply_ops(changeset@, text) == apply_ops(full, text));
            assert(changeset.apply_to(text) =~= apply_ops(changeset@, text));
            lemma_built_ops_compact(ch);
            lemma_splice_len(ch, text);
            lemma_merged_compact(cs0, (len - last) as nat, Seq::empty());
        }
        changeset
    }


    /// Applies the change set to `text` when it has `len` chars and says so; leaves
    /// any other text untouched and returns `false`.
    pub fn apply(&self, text: &mut Rope) -> (applied: bool)
        requires
            self.wf(),
        ensures
            applied == (rope_text(*old(text)).len() == self.len),
            applied ==> rope_text(*final(text)) == self.apply_to(rope_text(*old(text))),
            !applied ==> rope_text(*final(text)) == rope_text(*old(text)),
    {
        if text.len_chars() != self.len {
            return false;
        }
        let ghost orig = rope_text(*text);
        let ghost ops = self@;
        let mut pos: usize = 0;
        let ghost mut consumed: nat = 0;
        let mut i: usize = 0;
        proof {
            assert(ops.take(0) =~= Seq::<OpView>::empty());
            assert(orig.take(0) =~= Seq::<char>::empty());
            assert(rope_text(*text) =~= apply_ops(ops.take(0), orig.take(0)) + orig.skip(0));
        }
        while i < self.changes.len()
            invariant
                0 <= i <= self.changes@.len(),
                ops == self@,
                self.wf(),
                orig.len() == self.len,
                consumed == ops_len_before(ops.take(i as int)),
                pos == ops_len_after(ops.take(i as int)),
                consumed <= orig.len(),
                rope_text(*text) == apply_ops(ops.take(i as int), orig.take(consumed as int))
                    + orig.skip(consumed as int),
                rope_text(*text).len() <= usize::MAX,
            decreases self.changes@.len() - i,
        {
            let ghost prefix = apply_ops(ops.take(i as int), orig.take(consumed as int));
            let ghost op = ops[i as int];
            proof {
                lemma_apply_len(ops.take(i as int), orig.take(consumed as int));
                assert(ops.take(i + 1).drop_last() =~= ops.take(i as int));
                assert(ops.take(i + 1).last() == op);
                lemma_len_before_prefix(ops, i + 1);
                lemma_push_lens(ops.take(i as int), op);
                assert(ops.take(i as int).push(op) =~= ops.take(i + 1));
            }
            let ghost next = consumed + op_len_before(op);
            proof {
                let u = orig.take(next as int);
                assert(u.take(consumed as int) =~= orig.take(consumed as int));
                assert(u.skip(consumed as int) =~= orig.subrange(consumed as int, next as int));
                assert(apply_ops(ops.take(i + 1), u) == prefix + op_effect(
                    op,
                    orig.subrange(consumed as int, next as int),
                ));
            }
            match &self.changes[i] {
                Operation::Retain(n) => {
                    proof {
                        assert(orig.skip(consumed as int) =~= orig.subrange(
                            consumed as int,
                            next as int,
                        ) + orig.skip(next as int));
                    }
                    pos = pos + *n;
                },
                Operation::Delete(n) => {
                    rope_remove(text, pos, pos + *n);
                    proof {
                        assert(rope_text(*text) =~= prefix + orig.skip(next as int));
                    }
                },
                Operation::Insert(s) => {
                    text.insert(pos, s.as_str());
                    proof {
                        assert(rope_text(*text) =~= (prefix + s@) + orig.skip(next as int));
                    }
                    pos = pos + s.as_str().unicode_len();
                },
            }
            proof {
                consumed = next;
            }
            i = i + 1;
        }
        proof {
            assert(ops.take(i as int) =~= ops);
        }
        true
    }

    /// The change set that undoes this one: built against the document it applies to,
    /// it keeps what was kept, puts back what was deleted and deletes what was inserted.
    /// The document must have `len` chars.
    pub fn invert(&self, original_doc: &Rope) -> (inv: Self)
        requires
            self.wf(),
            rope_text(*original_doc).len() == self.len,
        ensures
            inv.wf(),
            inv.tail() == 0,
            inv.len == ops_len_after(self@),
            inv.len_after == ops_len_before(self@),
            ops_equiv(
                inv@,
                invert_ops(
                    self@,
                    rope_text(*original_doc).take(ops_len_before(self@) as int),
                ),
            ),
            inv@ == inverse_built(self@, rope_text(*original_doc)),
    {
        let ghost doc = rope_text(*original_doc);
        let ghost ops = self@;
        let mut changes = Self::with_capacity(self.changes.len());
        let mut pos: usize = 0;
        let mut i: usize = 0;
        proof {
            assert(ops.take(0) =~= Seq::<OpView>::empty());
            assert(changes@ =~= invert_ops(ops.take(0), doc.take(0)));
            assert(changes@ =~= inverse_built(ops.take(0), doc));
            lemma_len_before_prefix(ops, ops.len() as int);
            assert(ops.take(ops.len() as int) =~= ops);
        }
        while i < self.changes.len()
            invariant
                0 <= i <= self.changes@.len(),
                ops == self@,
                self.wf(),
                doc == rope_text(*original_doc),
                doc.len() == self.len,
                pos == ops_len_before(ops.take(i as int)),
                changes.wf(),
                changes.tail() == 0,
                changes.len == ops_len_after(ops.take(i as int)),
                changes.len_after == pos,
                ops_equiv(changes@, invert_ops(ops.take(i as int), doc.take(pos as int))),
                changes@ == inverse_built(ops.take(i as int), doc),
            decreases self.changes@.len() - i,
        {
            let ghost op = ops[i as int];
            let ghost next = pos + op_len_before(op);
            proof {
                assert(ops.take(i + 1).drop_last() =~= ops.take(i as int));
                assert(ops.take(i + 1).last() == op);
                lemma_len_before_prefix(ops, i + 1);
                lemma_push_lens(ops.take(i as int), op);
                assert(ops.take(i as int).push(op) =~= ops.take(i + 1));
                let u = doc.take(next as int);
                assert(u.take(pos as int) =~= doc.take(pos as int));
                assert(u.skip(pos as int) =~= doc.subrange(pos as int, next as int));
            }
            let ghost target = invert_ops(ops.take(i as int), doc.take(pos as int)).push(
                invert_op(op, doc.subrange(pos as int, next as int)),
            );
            proof {
                assert(target == invert_ops(ops.take(i + 1), doc.take(next as int)));
            }
            let ghost before = changes@;
            match &self.changes[i] {
                Operation::Retain(n) => {
                    changes.retain(*n);
                    pos = pos + *n;
                },
                Operation::Delete(n) => {
                    proof {
                        assert(op == OpView::Delete(*n as nat));
                        assert(ops_len_before(ops.take(i + 1)) <= ops_len_before(ops));
                        assert(pos + *n <= doc.len());
                    }
                    let text = slice_to_string(rope_slice(original_doc, pos, pos + *n));
                    changes.insert(text);
                    pos = pos + *n;
                },
                Operation::Insert(s) => {
                    let chars = s.as_str().unicode_len();
                    changes.delete(chars);
                },
            }
            proof {
                let iop = invert_op(op, doc.subrange(pos - op_len_before(op), pos as int));
                lemma_equiv_push(
                    before,
                    invert_ops(ops.take(i as int), doc.take((pos - op_len_before(op)) as int)),
                    iop,
                );
                lemma_equiv_trans(changes@, before.push(iop), target);
                assert(changes@ == inverse_built(ops.take(i + 1), doc));
            }
            i = i + 1;
        }
        proof {
            assert(ops.take(i as int) =~= ops);
        }
        changes
    }

    /// The change set edits nothing: no operations, or one retain of the whole document.
    #[inline]
    pub fn is_empty(&self) -> (empty: bool)
        ensures
            empty == (self@.len() == 0 || (self@.len() == 1 && self@[0] == OpView::Retain(
                self.len as nat,
            ))),
    {
        if self.changes.len() == 0 {
            return true;
        }
        if self.changes.len() != 1 {
            return false;
        }
        match &self.changes[0] {
            Operation::Retain(n) => *n == self.len,
            _ => false,
        }
    }

}

/// A well-formed change set turns a document of `len` chars into one of `len_after` chars.
pub proof fn law_apply_length(cs: ChangeSet, doc: Seq<char>)
    requires
        cs.wf(),
        doc.len() == cs.len,
    ensures
        cs.apply_to(doc).len() == cs.len_after,
{
    let k = ops_len_before(cs@);
    lemma_apply_len(cs@, doc.take(k as int));
}

/// Undo: applying a change set that covers the whole document, then the change set
/// that `invert` builds from the same document, gives the document back; the inverse
/// fits the edited document, so its `apply` goes through.
pub proof fn law_apply_then_invert(cs: ChangeSet, inv: ChangeSet, doc: Seq<char>)
    requires
        cs.wf(),
        cs.tail() == 0,
        doc.len() == cs.len,
        inv.wf(),
        inv.tail() == 0,
        inv.len == ops_len_after(cs@),
        ops_equiv(inv@, invert_ops(cs@, doc.take(ops_len_before(cs@) as int))),
    ensures
        cs.apply_to(doc).len() == inv.len,
        inv.apply_to(cs.apply_to(doc)) == doc,
{
    let k = ops_len_before(cs@);
    assert(doc.take(k as int) =~= doc);
    assert(doc.skip(k as int) =~= Seq::<char>::empty());
    let mid = cs.apply_to(doc);
    assert(mid =~= apply_ops(cs@, doc));
    lemma_apply_len(cs@, doc);
    lemma_invert_roundtrip(cs@, doc);
    let ki = ops_len_before(inv@);
    assert(mid.take(ki as int) =~= mid);
    assert(mid.skip(ki as int) =~= Seq::<char>::empty());
    assert(apply_ops(inv@, mid) == apply_ops(invert_ops(cs@, doc), mid));
    assert(inv.apply_to(mid) =~= apply_ops(inv@, mid));
}

/// A change set that `is_empty` reports empty leaves every document it fits unchanged.
pub proof fn law_empty_is_identity(cs: ChangeSet, doc: Seq<char>)
    requires
        cs.wf(),
        doc.len() == cs.len,
        cs@.len() == 0 || (cs@.len() == 1 && cs@[0] == OpView::Retain(cs.len as nat)),
    ensures
        cs.apply_to(doc) == doc,
{
    let k = ops_len_before(cs@);
    if cs@.len() == 0 {
        assert(doc.take(0) + doc.skip(0) =~= doc);
    } else {
        assert(cs@.drop_last() =~= Seq::<OpView>::empty());
        assert(k == cs.len);
        assert(doc.take(k as int) =~= doc);
        assert(doc.take(k as int).take(0) =~= Seq::<char>::empty());
        assert(doc.take(k as int).skip(0) =~= doc);
        let ops = cs@;
        assert(apply_ops(ops, doc) == apply_ops(ops.drop_last(), doc.take(0)) + op_effect(
            ops.last(),
            doc.skip(0),
        ));
        assert(apply_ops(ops.drop_last(), doc.take(0)) =~= Seq::<char>::empty());
        assert(doc.skip(0) =~= doc);
        assert(doc.skip(k as int) =~= Seq::<char>::empty());
        assert(cs.apply_to(doc) =~= doc);
    }
}

} // verus!
