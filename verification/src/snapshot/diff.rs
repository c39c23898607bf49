//! The changes between two states of one file, and how they are applied again.
use std::ops::Range;
use vstd::prelude::*;

use super::ops::{OpModel, SnapshotOp};
use crate::text::sub_bytes;
#[allow(unused_imports)]
use super::ops::op_models;

verus! {

/// A stretch of two byte rows that a comparison set side by side.
#[derive(Debug, Clone, Copy, PartialEq, Eq, Structural)]
pub struct DiffSpan {
    /// Whether both rows hold the same bytes there.
    pub equal: bool,
    pub old_start: usize,
    pub old_end: usize,
    pub new_start: usize,
    pub new_end: usize,
}

/// Whether the spans lead from position `i` of `old` and `j` of `new` to the end
/// of both, each span beginning where the one before it ended, and the spans
/// that claim equal bytes having them.
pub open spec fn edit_path(
    spans: Seq<DiffSpan>,
    old: Seq<u8>,
    new: Seq<u8>,
    i: int,
    j: int,
) -> bool
    decreases spans.len(),
{
    if spans.len() == 0 {
        i == old.len() && j == new.len()
    } else {
        let d = spans[0];
        &&& d.old_start == i
        &&& d.new_start == j
        &&& i <= d.old_end <= old.len()
        &&& j <= d.new_end <= new.len()
        &&& d.equal ==> old.subrange(i, d.old_end as int) == new.subrange(j, d.new_end as int)
        &&& edit_path(spans.skip(1), old, new, d.old_end as int, d.new_end as int)
    }
}

/// Whether all spans claim equal bytes.
pub open spec fn all_equal(spans: Seq<DiffSpan>) -> bool {
    forall|i: int| 0 <= i < spans.len() ==> (#[trigger] spans[i]).equal
}

/// The spans into which Myers' algorithm divides `old` and `new`.
pub uninterp spec fn diff_spans(old: Seq<u8>, new: Seq<u8>) -> Seq<DiffSpan>;

/// [`similar::capture_diff_slices`] with Myers' algorithm. Its operations form
/// contiguous ranges over both rows, and an equal range holds the same bytes on
/// both sides. All ranges over two equal rows are equal ones. Which of the possible
/// divisions it picks is left unsaid.
#[verifier::external_body]
fn diff_slices(old: &[u8], new: &[u8]) -> (r: Vec<DiffSpan>)
    ensures
        r@ == diff_spans(old@, new@),
        edit_path(r@, old@, new@, 0, 0),
        old@ == new@ ==> all_equal(r@),
{
    similar::capture_diff_slices(similar::Algorithm::Myers, old, new)
        .iter()
        .map(|op| DiffSpan {
            equal: op.tag() == similar::DiffTag::Equal,
            old_start: op.old_range().start,
            old_end: op.old_range().end,
            new_start: op.new_range().start,
            new_end: op.new_range().end,
        })
        .collect()
}

/// One change for each span in which the rows differ.
pub open spec fn modify_ops(name: Seq<char>, spans: Seq<DiffSpan>, new: Seq<u8>) -> Seq<OpModel>
    decreases spans.len(),
{
    if spans.len() == 0 {
        Seq::empty()
    } else {
        let d = spans[0];
        let rest = modify_ops(name, spans.skip(1), new);
        if d.equal {
            rest
        } else {
            seq![
                OpModel::Modify(
                    name,
                    (d.old_start as u64, d.old_end as u64),
                    (d.new_start as u64, d.new_end as u64),
                    new.subrange(d.new_start as int, d.new_end as int),
                ),
            ] + rest
        }
    }
}

/// The changes that turn one state of a file into another, where `None` is a
/// file that does not exist.
pub open spec fn generated(name: Seq<char>, source: Option<Seq<u8>>, new: Option<Seq<u8>>) -> Seq<
    OpModel,
> {
    match (source, new) {
        (Some(s), Some(n)) => modify_ops(name, diff_spans(s, n), n),
        (Some(_), None) => seq![OpModel::Delete(name)],
        (None, Some(n)) => seq![OpModel::Create(name, n)],
        (None, None) => Seq::empty(),
    }
}

/// Where all spans claim equal bytes, nothing changes.
pub proof fn lemma_equal_spans_change_nothing(
    name: Seq<char>,
    spans: Seq<DiffSpan>,
    new: Seq<u8>,
)
    requires
        all_equal(spans),
    ensures
        modify_ops(name, spans, new) == Seq::<OpModel>::empty(),
    decreases spans.len(),
{
    if spans.len() > 0 {
        assert(spans[0].equal);
        assert forall|i: int| 0 <= i < spans.skip(1).len() implies (#[trigger] spans.skip(
            1,
        )[i]).equal by {
            assert(spans[i + 1].equal);
        }
        lemma_equal_spans_change_nothing(name, spans.skip(1), new);
    }
}

/// Spans that lead to the end of both rows stay within them.
pub proof fn lemma_path_in_bounds(
    spans: Seq<DiffSpan>,
    old: Seq<u8>,
    new: Seq<u8>,
    i: int,
    j: int,
)
    requires
        edit_path(spans, old, new, i, j),
        0 <= i,
        0 <= j,
    ensures
        forall|k: int|
            0 <= k < spans.len() ==> {
                let d = #[trigger] spans[k];
                d.old_start <= d.old_end <= old.len() && d.new_start <= d.new_end <= new.len()
            },
    decreases spans.len(),
{
    if spans.len() > 0 {
        let d = spans[0];
        lemma_path_in_bounds(spans.skip(1), old, new, d.old_end as int, d.new_end as int);
        assert forall|k: int| 0 <= k < spans.len() implies {
            let d = #[trigger] spans[k];
            d.old_start <= d.old_end <= old.len() && d.new_start <= d.new_end <= new.len()
        } by {
            if k > 0 {
                assert(spans[k] == spans.skip(1)[k - 1]);
            }
        }
    }
}

/// The changes to file `name` that the spans call for.
pub fn ops_of_diff(name: &String, spans: &Vec<DiffSpan>, new: &[u8]) -> (r: Vec<SnapshotOp>)
    requires
        forall|k: int|
            0 <= k < spans@.len() ==> {
                let d = #[trigger] spans@[k];
                d.new_start <= d.new_end <= new@.len()
            },
    ensures
        op_models(r@) == modify_ops(name@, spans@, new@),
{
    let mut out: Vec<SnapshotOp> = Vec::new();
    let mut i: usize = 0;
    assert(spans@.skip(0) =~= spans@);
    assert(op_models(out@) + modify_ops(name@, spans@, new@) =~= modify_ops(name@, spans@, new@));
    while i < spans.len()
        invariant
            0 <= i <= spans@.len(),
            forall|k: int|
                0 <= k < spans@.len() ==> {
                    let d = #[trigger] spans@[k];
                    d.new_start <= d.new_end <= new@.len()
                },
            op_models(out@) + modify_ops(name@, spans@.skip(i as int), new@) == modify_ops(
                name@,
                spans@,
                new@,
            ),
        decreases spans@.len() - i,
    {
        let d = spans[i];
        let ghost before = op_models(out@);
        let ghost rest = modify_ops(name@, spans@.skip(i + 1), new@);
        assert(spans@.skip(i as int)[0] == d);
        assert(spans@.skip(i as int).skip(1) =~= spans@.skip(i + 1));
        if !d.equal {
            let contents = sub_bytes(new, d.new_start, d.new_end);
            let op = SnapshotOp::Modify(
                name.clone(),
                Range { start: d.old_start as u64, end: d.old_end as u64 },
                Range { start: d.new_start as u64, end: d.new_end as u64 },
                contents,
            );
            let ghost model = op@;
            out.push(op);
            proof {
                assert(op_models(out@) =~= before.push(model));
                assert(before + (seq![model] + rest) =~= op_models(out@) + rest);
            }
        }
        i += 1;
    }
    assert(spans@.skip(i as int) =~= Seq::empty());
    assert(op_models(out@) =~= modify_ops(name@, spans@, new@));
    out
}

/// The changes that turn one state of a file into another.
pub fn generate_ops(name: String, source_bytes: Option<&[u8]>, new_bytes: Option<&[u8]>) -> (r: Vec<
    SnapshotOp,
>)
    ensures
        op_models(r@) == generated(
            name@,
            match source_bytes {
                Some(s) => Some(s@),
                None => None,
            },
            match new_bytes {
                Some(n) => Some(n@),
                None => None,
            },
        ),
        match (source_bytes, new_bytes) {
            (Some(s), Some(n)) => {
                &&& edit_path(diff_spans(s@, n@), s@, n@, 0, 0)
                &&& s@ == n@ ==> all_equal(diff_spans(s@, n@)) && r@.len() == 0
            },
            _ => r@.len() <= 1,
        },
{
    match (source_bytes, new_bytes) {
        (Some(source), Some(new)) => {
            let spans = diff_slices(source, new);
            proof {
                lemma_path_in_bounds(spans@, source@, new@, 0, 0);
            }
            let r = ops_of_diff(&name, &spans, new);
            proof {
                if source@ == new@ {
                    lemma_equal_spans_change_nothing(name@, spans@, new@);
                    assert(op_models(r@).len() == r@.len());
                }
            }
            r
        },
        (Some(_), None) => {
            let r = vec![SnapshotOp::Delete(name)];
            assert(op_models(r@) =~= seq![OpModel::Delete(name@)]);
            r
        },
        (None, Some(new)) => {
            let contents = sub_bytes(new, 0, new.len());
            assert(contents@ =~= new@);
            let r = vec![SnapshotOp::Create(name, contents)];
            assert(op_models(r@) =~= seq![OpModel::Create(name@, new@)]);
            r
        },
        (None, None) => {
            let r: Vec<SnapshotOp> = Vec::new();
            assert(op_models(r@) =~= Seq::empty());
            r
        },
    }
}

/// A number of 64 bits after it wrapped around.
#[verifier::opaque]
pub open spec fn wrapped(n: int) -> u64 {
    (n % 0x1_0000_0000_0000_0000) as u64
}

fn add_wrapped(a: u64, b: u64) -> (r: u64)
    ensures
        r == wrapped(a + b),
{
    proof {
        reveal(wrapped);
    }
    a.wrapping_add(b)
}

fn sub_wrapped(a: u64, b: u64) -> (r: u64)
    ensures
        r == wrapped(a - b),
{
    proof {
        reveal(wrapped);
    }
    a.wrapping_sub(b)
}

/// A file's contents and how far they have moved, after one change to it. There
/// is no result where a range runs backwards or leaves the contents.
pub open spec fn edited(
    contents: Seq<u8>,
    offset: u64,
    from: (u64, u64),
    to: (u64, u64),
    with: Seq<u8>,
) -> Option<(Seq<u8>, u64)> {
    let start = wrapped(from.0 + offset);
    let end = wrapped(from.1 + offset);
    if from.0 <= from.1 && to.0 <= to.1 && start <= end && end <= contents.len() {
        Some(
            (
                contents.take(start as int) + with + contents.skip(end as int),
                wrapped(offset + wrapped((to.1 - to.0) - (from.1 - from.0))),
            ),
        )
    } else {
        None
    }
}

/// Applies one change to a file's contents.
pub fn edit_contents(
    contents: &Vec<u8>,
    offset: u64,
    from: &Range<u64>,
    to: &Range<u64>,
    with: &Vec<u8>,
) -> (r: Option<(Vec<u8>, u64)>)
    ensures
        match r {
            Some((c, o)) => edited(
                contents@,
                offset,
                (from.start, from.end),
                (to.start, to.end),
                with@,
            ) == Some((c@, o)),
            None => edited(
                contents@,
                offset,
                (from.start, from.end),
                (to.start, to.end),
                with@,
            ) is None,
        },
{
    let start: u64 = add_wrapped(from.start, offset);
    let end: u64 = add_wrapped(from.end, offset);
    let len: usize = contents.len();
    if from.start > from.end || to.start > to.end || start > end || end > len as u64 {
        return None;
    }
    let mut out = sub_bytes(contents.as_slice(), 0, start as usize);
    let tail = sub_bytes(contents.as_slice(), end as usize, len);
    crate::text::push_bytes(&mut out, with.as_slice());
    crate::text::push_bytes(&mut out, tail.as_slice());
    assert(contents@.take(start as int) =~= contents@.subrange(0, start as int));
    assert(contents@.skip(end as int) =~= tail@);
    let source_len: u64 = from.end - from.start;
    let new_len: u64 = to.end - to.start;
    let moved: u64 = add_wrapped(offset, sub_wrapped(new_len, source_len));
    Some((out, moved))
}

/// The contents after every change of `ops` to the file, in order.
pub open spec fn edited_by(contents: Seq<u8>, offset: u64, ops: Seq<OpModel>) -> Option<Seq<u8>>
    decreases ops.len(),
{
    if ops.len() == 0 {
        Some(contents)
    } else {
        match ops[0] {
            OpModel::Modify(_, from, to, with) => match edited(contents, offset, from, to, with) {
                Some((c, o)) => edited_by(c, o, ops.skip(1)),
                None => None,
            },
            _ => None,
        }
    }
}

proof fn lemma_wrapped_sum(a: int, b: int)
    ensures
        wrapped(a + wrapped(b)) == wrapped(a + b),
        0 <= a < 0x1_0000_0000_0000_0000 ==> wrapped(a) == a,
{
    reveal(wrapped);
    vstd::arithmetic::div_mod::lemma_add_mod_noop_right(a, b, 0x1_0000_0000_0000_0000);
}

proof fn lemma_edit_moves_on(
    old: Seq<u8>,
    new: Seq<u8>,
    i: int,
    j: int,
    oe: int,
    ne: int,
)
    requires
        0 <= i <= oe <= old.len(),
        0 <= j <= ne <= new.len(),
        old.len() + new.len() <= u64::MAX,
    ensures
        edited(
            new.take(j) + old.skip(i),
            wrapped(j - i),
            (i as u64, oe as u64),
            (j as u64, ne as u64),
            new.subrange(j, ne),
        ) == Some((new.take(ne) + old.skip(oe), wrapped(ne - oe))),
{
    let contents = new.take(j) + old.skip(i);
    let offset = wrapped(j - i);
    lemma_wrapped_sum(i, j - i);
    lemma_wrapped_sum(j, 0);
    lemma_wrapped_sum(oe, j - i);
    lemma_wrapped_sum(oe + j - i, 0);
    assert(contents.take(j) =~= new.take(j));
    assert(contents.skip(j + (oe - i)) =~= old.skip(oe));
    assert(new.take(j) + new.subrange(j, ne) =~= new.take(ne));
    let grown = (ne - j) - (oe - i);
    lemma_wrapped_sum(offset as int, grown);
    lemma_wrapped_sum(grown, j - i);
}

proof fn lemma_edit_path_leads_to_new(
    name: Seq<char>,
    spans: Seq<DiffSpan>,
    old: Seq<u8>,
    new: Seq<u8>,
    i: int,
    j: int,
)
    requires
        edit_path(spans, old, new, i, j),
        0 <= i <= old.len(),
        0 <= j <= new.len(),
        old.len() + new.len() <= u64::MAX,
    ensures
        edited_by(new.take(j) + old.skip(i), wrapped(j - i), modify_ops(name, spans, new)) == Some(
            new,
        ),
    decreases spans.len(),
{
    let contents = new.take(j) + old.skip(i);
    if spans.len() == 0 {
        assert(contents =~= new);
    } else {
        let d = spans[0];
        let (oe, ne) = (d.old_end as int, d.new_end as int);
        lemma_edit_path_leads_to_new(name, spans.skip(1), old, new, oe, ne);
        if d.equal {
            assert(old.subrange(i, oe).len() == new.subrange(j, ne).len());
            assert(new.take(ne) =~= new.take(j) + new.subrange(j, ne));
            assert(old.skip(i) =~= old.subrange(i, oe) + old.skip(oe));
            assert(contents =~= new.take(ne) + old.skip(oe));
        } else {
            let with = new.subrange(j, ne);
            let ops = modify_ops(name, spans, new);
            let rest = modify_ops(name, spans.skip(1), new);
            let op = OpModel::Modify(
                name,
                (d.old_start as u64, d.old_end as u64),
                (d.new_start as u64, d.new_end as u64),
                with,
            );
            assert(ops == seq![op] + rest);
            assert(ops[0] == op);
            assert(ops.skip(1) =~= rest);
            lemma_edit_moves_on(old, new, i, j, oe, ne);
        }
    }
}

/// The changes between two states of a file, applied to the first state, give
/// the second.
pub proof fn generated_ops_lead_to_new(
    name: Seq<char>,
    spans: Seq<DiffSpan>,
    source: Seq<u8>,
    new: Seq<u8>,
)
    requires
        edit_path(spans, source, new, 0, 0),
        source.len() + new.len() <= u64::MAX,
    ensures
        edited_by(source, 0, modify_ops(name, spans, new)) == Some(new),
{
    lemma_edit_path_leads_to_new(name, spans, source, new, 0, 0);
    lemma_wrapped_sum(0, 0);
    assert(new.take(0) + source.skip(0) =~= source);
}

} // verus!
