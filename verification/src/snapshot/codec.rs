//! How changes are written into a snapshot and read back.
//!
//! Each change is one record. A line feed ends each record, and may be missing behind the
//! last one:
//!
//! - `I_LXD-` and a path for something that goes away,
//! - `I_LXC+`, a path and `I_LXMD__` for a new directory,
//! - `I_LXC+`, a path and contents for a new file,
//! - `I_LXM@`, a path, `:`, a range, `:`, a range, `:` and contents for a changed
//!   file, where a range is two numbers of twenty digits with a comma between
//!   them.
//!
//! A path stands between `I_LXPS__..` and `..I_LXPE__`, contents between
//! `I_LXBS__` and `I_LXBE__`.
use std::ops::Range;
use vstd::prelude::*;
use vstd::utf8::{decode_utf8, encode_utf8, valid_utf8};

use super::ops::{OpModel, SnapshotOp};
use crate::numbers::{padded, parse_unsigned};
use crate::text::{bytes_at, bytes_of, find_bytes, push_bytes, string_from_utf8, sub_bytes};
#[allow(unused_imports)]
use super::ops::op_models;
#[allow(unused_imports)]
use crate::numbers::{padded_bytes, unsigned_value};
#[allow(unused_imports)]
use crate::text::{contains_seq, find_from, occurs_at};

verus! {

/// `I_LXD-`
pub open spec fn delete_start() -> Seq<u8> {
    seq![73u8, 95, 76, 88, 68, 45]
}

/// `I_LXC+`
pub open spec fn create_start() -> Seq<u8> {
    seq![73u8, 95, 76, 88, 67, 43]
}

/// `I_LXM@`
pub open spec fn modify_start() -> Seq<u8> {
    seq![73u8, 95, 76, 88, 77, 64]
}

/// `I_LXPS__..`
pub open spec fn path_start() -> Seq<u8> {
    seq![73u8, 95, 76, 88, 80, 83, 95, 95, 46, 46]
}

/// `..I_LXPE__`
pub open spec fn path_end() -> Seq<u8> {
    seq![46u8, 46, 73, 95, 76, 88, 80, 69, 95, 95]
}

/// `I_LXBS__`
pub open spec fn bytes_start() -> Seq<u8> {
    seq![73u8, 95, 76, 88, 66, 83, 95, 95]
}

/// `I_LXBE__`
pub open spec fn bytes_end() -> Seq<u8> {
    seq![73u8, 95, 76, 88, 66, 69, 95, 95]
}

/// `I_LXMD__`
pub open spec fn mark_dir() -> Seq<u8> {
    seq![73u8, 95, 76, 88, 77, 68, 95, 95]
}

/// `:`
pub const COLON: u8 = 58;

/// `,`
pub const COMMA: u8 = 44;

/// The byte that ends a record.
pub const LINE_FEED: u8 = 10;

/// The digits with which a number of 64 bits is written.
pub const U64_WIDTH: usize = 20;

/// A path as a record holds it.
pub open spec fn encoded_path(path: Seq<char>) -> Seq<u8> {
    path_start() + (encode_utf8(path) + path_end())
}

/// Contents as a record holds them.
pub open spec fn encoded_contents(contents: Seq<u8>) -> Seq<u8> {
    bytes_start() + (contents + bytes_end())
}

/// A range as a record holds it.
pub open spec fn encoded_range(range: (u64, u64)) -> Seq<u8> {
    seq![COLON] + (padded_bytes(range.0 as nat, 20) + (seq![COMMA] + padded_bytes(
        range.1 as nat,
        20,
    )))
}

/// The record of a change, without the line feed that ends it.
pub open spec fn encoded_body(op: OpModel) -> Seq<u8> {
    match op {
        OpModel::Delete(path) => delete_start() + encoded_path(path),
        OpModel::CreateDir(path) => create_start() + (encoded_path(path) + mark_dir()),
        OpModel::Create(path, contents) => create_start() + (encoded_path(path)
            + encoded_contents(contents)),
        OpModel::Modify(path, from, to, contents) => modify_start() + (encoded_path(path) + (
        encoded_range(from) + (encoded_range(to) + (seq![COLON] + encoded_contents(contents))))),
    }
}

/// The record of a change.
pub open spec fn encoded(op: OpModel) -> Seq<u8> {
    encoded_body(op) + seq![LINE_FEED]
}

/// The records of the changes, one after the other.
pub open spec fn encoded_all(ops: Seq<OpModel>) -> Seq<u8>
    decreases ops.len(),
{
    if ops.len() == 0 {
        Seq::empty()
    } else {
        encoded(ops[0]) + encoded_all(ops.skip(1))
    }
}

/// Why bytes are no records of changes.
#[derive(Debug, Clone, Copy, PartialEq, Eq, Structural)]
pub enum DecodeError {
    /// Something else stands where a part of a record should.
    InvalidData,
    /// The bytes end within a record.
    UnexpectedEof,
}

/// Reads exactly `marker`, and gives the position behind it.
pub open spec fn read_marker(s: Seq<u8>, marker: Seq<u8>, at: int) -> Result<int, DecodeError> {
    if at + marker.len() > s.len() {
        Err(DecodeError::UnexpectedEof)
    } else if occurs_at(s, marker, at) {
        Ok(at + marker.len())
    } else {
        Err(DecodeError::InvalidData)
    }
}

/// Reads one byte, which must be `byte`.
pub open spec fn read_byte(s: Seq<u8>, byte: u8, at: int) -> Result<int, DecodeError> {
    if at < s.len() && s[at] == byte {
        Ok(at + 1)
    } else {
        Err(DecodeError::InvalidData)
    }
}

/// Reads up to the first `end`, and gives what stands before it and the
/// position behind it.
pub open spec fn read_until(s: Seq<u8>, end: Seq<u8>, at: int) -> Result<
    (Seq<u8>, int),
    DecodeError,
> {
    match find_from(s, end, at) {
        Some(i) => Ok((s.subrange(at, i), i + end.len())),
        None => Err(DecodeError::UnexpectedEof),
    }
}

pub open spec fn read_path(s: Seq<u8>, at: int) -> Result<(Seq<char>, int), DecodeError> {
    match read_marker(s, path_start(), at) {
        Err(e) => Err(e),
        Ok(start) => match read_until(s, path_end(), start) {
            Err(e) => Err(e),
            Ok((bytes, next)) => if valid_utf8(bytes) {
                Ok((decode_utf8(bytes), next))
            } else {
                Err(DecodeError::InvalidData)
            },
        },
    }
}

/// Reads a number of twenty digits.
pub open spec fn read_number(s: Seq<u8>, at: int) -> Result<(u64, int), DecodeError> {
    if at + 20 > s.len() {
        Err(DecodeError::UnexpectedEof)
    } else {
        match unsigned_value(s.subrange(at, at + 20), u64::MAX as nat) {
            Some(n) => Ok((n as u64, at + 20)),
            None => Err(DecodeError::InvalidData),
        }
    }
}

/// Reads a colon, a number, a comma and a number.
pub open spec fn read_range(s: Seq<u8>, at: int) -> Result<((u64, u64), int), DecodeError> {
    match read_byte(s, COLON, at) {
        Err(e) => Err(e),
        Ok(a) => match read_number(s, a) {
            Err(e) => Err(e),
            Ok((start, b)) => match read_byte(s, COMMA, b) {
                Err(e) => Err(e),
                Ok(c) => match read_number(s, c) {
                    Err(e) => Err(e),
                    Ok((end, d)) => Ok(((start, end), d)),
                },
            },
        },
    }
}

/// Reads what follows the path in the record of something new.
pub open spec fn read_created(s: Seq<u8>, path: Seq<char>, at: int) -> Result<
    (OpModel, int),
    DecodeError,
> {
    if at + 8 > s.len() {
        Err(DecodeError::UnexpectedEof)
    } else if occurs_at(s, mark_dir(), at) {
        Ok((OpModel::CreateDir(path), at + 8))
    } else if occurs_at(s, bytes_start(), at) {
        match read_until(s, bytes_end(), at + 8) {
            Err(e) => Err(e),
            Ok((contents, next)) => Ok((OpModel::Create(path, contents), next)),
        }
    } else {
        Err(DecodeError::InvalidData)
    }
}

/// Reads what follows the path in the record of a changed file.
pub open spec fn read_modified(s: Seq<u8>, path: Seq<char>, at: int) -> Result<
    (OpModel, int),
    DecodeError,
> {
    match read_range(s, at) {
        Err(e) => Err(e),
        Ok((from, a)) => match read_range(s, a) {
            Err(e) => Err(e),
            Ok((to, b)) => match read_byte(s, COLON, b) {
                Err(e) => Err(e),
                Ok(c) => match read_marker(s, bytes_start(), c) {
                    Err(e) => Err(e),
                    Ok(d) => match read_until(s, bytes_end(), d) {
                        Err(e) => Err(e),
                        Ok((contents, next)) => Ok(
                            (OpModel::Modify(path, from, to, contents), next),
                        ),
                    },
                },
            },
        },
    }
}

/// Reads a record without the line feed that ends it.
pub open spec fn read_op(s: Seq<u8>, at: int) -> Result<(OpModel, int), DecodeError> {
    if occurs_at(s, delete_start(), at) {
        match read_path(s, at + 6) {
            Err(e) => Err(e),
            Ok((path, next)) => Ok((OpModel::Delete(path), next)),
        }
    } else if occurs_at(s, create_start(), at) {
        match read_path(s, at + 6) {
            Err(e) => Err(e),
            Ok((path, next)) => read_created(s, path, next),
        }
    } else if occurs_at(s, modify_start(), at) {
        match read_path(s, at + 6) {
            Err(e) => Err(e),
            Ok((path, next)) => read_modified(s, path, next),
        }
    } else {
        Err(DecodeError::InvalidData)
    }
}

/// Reads the line feed behind a record. The end of the bytes passes for it.
pub open spec fn read_line_end(s: Seq<u8>, at: int) -> Result<int, DecodeError> {
    if at >= s.len() {
        Ok(at)
    } else {
        read_byte(s, LINE_FEED, at)
    }
}

/// Reading a record moves on by at least its first marker, within the bytes.
pub proof fn lemma_read_op_moves_on(s: Seq<u8>, at: int)
    requires
        0 <= at,
    ensures
        match read_op(s, at) {
            Ok((_, next)) => at + 6 <= next <= s.len(),
            Err(_) => true,
        },
{
    if let Ok(start) = read_marker(s, path_start(), at + 6) {
        crate::text::lemma_find_from(s, path_end(), start);
    }
    if let Ok((path, next)) = read_path(s, at + 6) {
        crate::text::lemma_find_from(s, bytes_end(), next + 8);
        if let Ok((from, a)) = read_range(s, next) {
            if let Ok((to, b)) = read_range(s, a) {
                crate::text::lemma_find_from(s, bytes_end(), b + 9);
            }
        }
    }
}

/// The changes whose records stand in `s` from `at` on.
pub open spec fn decoded(s: Seq<u8>, at: int) -> Result<Seq<OpModel>, DecodeError>
    decreases s.len() - at,
{
    if at < 0 || at >= s.len() {
        Ok(Seq::empty())
    } else if at + 6 > s.len() {
        Err(DecodeError::UnexpectedEof)
    } else {
        proof {
            lemma_read_op_moves_on(s, at);
        }
        match read_op(s, at) {
            Err(e) => Err(e),
            Ok((op, next)) => match read_line_end(s, next) {
                Err(e) => Err(e),
                Ok(line) => match decoded(s, line) {
                    Err(e) => Err(e),
                    Ok(rest) => Ok(seq![op] + rest),
                },
            },
        }
    }
}

fn put_marker_delete(out: &mut Vec<u8>)
    ensures
        final(out)@ == old(out)@ + delete_start(),
{
    let marker: Vec<u8> = vec![73, 95, 76, 88, 68, 45];
    assert(marker@ =~= delete_start());
    push_bytes(out, marker.as_slice());
}

fn put_marker_create(out: &mut Vec<u8>)
    ensures
        final(out)@ == old(out)@ + create_start(),
{
    let marker: Vec<u8> = vec![73, 95, 76, 88, 67, 43];
    assert(marker@ =~= create_start());
    push_bytes(out, marker.as_slice());
}

fn put_marker_modify(out: &mut Vec<u8>)
    ensures
        final(out)@ == old(out)@ + modify_start(),
{
    let marker: Vec<u8> = vec![73, 95, 76, 88, 77, 64];
    assert(marker@ =~= modify_start());
    push_bytes(out, marker.as_slice());
}

fn path_start_bytes() -> (r: Vec<u8>)
    ensures
        r@ == path_start(),
{
    let marker: Vec<u8> = vec![73, 95, 76, 88, 80, 83, 95, 95, 46, 46];
    assert(marker@ =~= path_start());
    marker
}

fn path_end_bytes() -> (r: Vec<u8>)
    ensures
        r@ == path_end(),
{
    let marker: Vec<u8> = vec![46, 46, 73, 95, 76, 88, 80, 69, 95, 95];
    assert(marker@ =~= path_end());
    marker
}

fn bytes_start_bytes() -> (r: Vec<u8>)
    ensures
        r@ == bytes_start(),
{
    let marker: Vec<u8> = vec![73, 95, 76, 88, 66, 83, 95, 95];
    assert(marker@ =~= bytes_start());
    marker
}

fn bytes_end_bytes() -> (r: Vec<u8>)
    ensures
        r@ == bytes_end(),
{
    let marker: Vec<u8> = vec![73, 95, 76, 88, 66, 69, 95, 95];
    assert(marker@ =~= bytes_end());
    marker
}

fn mark_dir_bytes() -> (r: Vec<u8>)
    ensures
        r@ == mark_dir(),
{
    let marker: Vec<u8> = vec![73, 95, 76, 88, 77, 68, 95, 95];
    assert(marker@ =~= mark_dir());
    marker
}

fn put_path(path: &str, out: &mut Vec<u8>)
    ensures
        final(out)@ == old(out)@ + encoded_path(path@),
{
    let ghost start = out@;
    let head = path_start_bytes();
    let bytes = bytes_of(path);
    let tail = path_end_bytes();
    push_bytes(out, head.as_slice());
    push_bytes(out, bytes.as_slice());
    push_bytes(out, tail.as_slice());
    assert(out@ =~= start + encoded_path(path@));
}

fn put_contents(contents: &Vec<u8>, out: &mut Vec<u8>)
    ensures
        final(out)@ == old(out)@ + encoded_contents(contents@),
{
    let ghost start = out@;
    let head = bytes_start_bytes();
    let tail = bytes_end_bytes();
    push_bytes(out, head.as_slice());
    push_bytes(out, contents.as_slice());
    push_bytes(out, tail.as_slice());
    assert(out@ =~= start + encoded_contents(contents@));
}

fn put_range(range: &Range<u64>, out: &mut Vec<u8>)
    ensures
        final(out)@ == old(out)@ + encoded_range((range.start, range.end)),
{
    let ghost start = out@;
    let low = padded(range.start, U64_WIDTH);
    let high = padded(range.end, U64_WIDTH);
    out.push(COLON);
    push_bytes(out, low.as_slice());
    out.push(COMMA);
    push_bytes(out, high.as_slice());
    assert(out@ =~= start + encoded_range((range.start, range.end)));
}

/// Appends the record of a change.
pub fn encode_op(op: &SnapshotOp, out: &mut Vec<u8>)
    ensures
        final(out)@ == old(out)@ + encoded(op@),
{
    let ghost start = out@;
    match op {
        SnapshotOp::Delete(path) => {
            put_marker_delete(out);
            put_path(path.as_str(), out);
        },
        SnapshotOp::CreateDir(path) => {
            put_marker_create(out);
            put_path(path.as_str(), out);
            let mark = mark_dir_bytes();
            push_bytes(out, mark.as_slice());
        },
        SnapshotOp::Create(path, contents) => {
            put_marker_create(out);
            put_path(path.as_str(), out);
            put_contents(contents, out);
        },
        SnapshotOp::Modify(path, from, to, contents) => {
            put_marker_modify(out);
            put_path(path.as_str(), out);
            put_range(from, out);
            put_range(to, out);
            out.push(COLON);
            put_contents(contents, out);
        },
    }
    assert(out@ =~= start + encoded_body(op@));
    out.push(LINE_FEED);
    assert(out@ =~= start + encoded(op@));
}

/// The records of the changes, one after the other.
pub fn encode_ops(ops: &Vec<SnapshotOp>) -> (r: Vec<u8>)
    ensures
        r@ == encoded_all(op_models(ops@)),
{
    let mut out: Vec<u8> = Vec::new();
    let ghost all = op_models(ops@);
    let mut i: usize = 0;
    assert(all.skip(0) =~= all);
    assert(out@ + encoded_all(all) =~= encoded_all(all));
    while i < ops.len()
        invariant
            0 <= i <= ops.len(),
            all == op_models(ops@),
            out@ + encoded_all(all.skip(i as int)) == encoded_all(all),
        decreases ops.len() - i,
    {
        let ghost before = out@;
        let ghost rest = all.skip(i as int);
        encode_op(&ops[i], &mut out);
        proof {
            assert(rest[0] == ops@[i as int]@);
            assert(rest.skip(1) =~= all.skip(i + 1));
            assert(before + (encoded(rest[0]) + encoded_all(all.skip(i + 1))) =~= out@
                + encoded_all(all.skip(i + 1)));
        }
        i += 1;
    }
    assert(all.skip(i as int) =~= Seq::empty());
    assert(out@ =~= encoded_all(all));
    out
}

/// What [`read_until_match`] refuses.
#[derive(Debug, Clone, Copy, PartialEq, Eq, Structural)]
pub enum MatchError {
    /// The pattern is empty.
    EmptyPattern,
    /// The pattern does not occur.
    NotFound,
}

/// Clears `buffer` and reads from `reader`, at its position, into `buffer` until
/// and including when `pattern` is found, and moves the position behind it.
/// Errors if `pattern` is empty or not found; the position then stays, and an
/// unsuccessful search leaves in `buffer` all that it read.
pub fn read_until_match(
    buffer: &mut Vec<u8>,
    reader: &[u8],
    position: &mut usize,
    pattern: &[u8],
) -> (r: Result<(), MatchError>)
    requires
        *old(position) <= reader@.len(),
    ensures
        *final(position) <= reader@.len(),
        match r {
            Ok(()) => {
                let at = *old(position) as int;
                let end = *final(position) as int;
                &&& pattern@.len() > 0
                &&& find_from(reader@, pattern@, at) == Some(end - pattern@.len())
                &&& final(buffer)@ == reader@.subrange(at, end)
            },
            Err(MatchError::EmptyPattern) => {
                &&& pattern@.len() == 0
                &&& final(buffer)@ == Seq::<u8>::empty()
                &&& *final(position) == *old(position)
            },
            Err(MatchError::NotFound) => {
                &&& pattern@.len() > 0
                &&& find_from(reader@, pattern@, *old(position) as int) is None
                &&& final(buffer)@ == reader@.skip(*old(position) as int)
                &&& *final(position) == *old(position)
            },
        },
{
    buffer.clear();
    if pattern.len() == 0 {
        return Err(MatchError::EmptyPattern);
    }
    let total: usize = reader.len();
    match find_bytes(reader, pattern, *position) {
        Some(i) => {
            assert(i + pattern@.len() <= total);
            let end: usize = i + pattern.len();
            *buffer = sub_bytes(reader, *position, end);
            *position = end;
            Ok(())
        },
        None => {
            *buffer = sub_bytes(reader, *position, total);
            assert(buffer@ =~= reader@.skip(*position as int));
            Err(MatchError::NotFound)
        },
    }
}

fn take_marker(s: &[u8], marker: &Vec<u8>, at: usize) -> (r: Result<usize, DecodeError>)
    requires
        at <= s@.len(),
    ensures
        match r {
            Ok(next) => read_marker(s@, marker@, at as int) == Ok::<int, DecodeError>(next as int)
                && next <= s@.len(),
            Err(e) => read_marker(s@, marker@, at as int) == Err::<int, DecodeError>(e),
        },
{
    let total: usize = s.len();
    if marker.len() > total - at {
        Err(DecodeError::UnexpectedEof)
    } else if bytes_at(s, marker.as_slice(), at) {
        Ok(at + marker.len())
    } else {
        Err(DecodeError::InvalidData)
    }
}

fn take_byte(s: &[u8], byte: u8, at: usize) -> (r: Result<usize, DecodeError>)
    requires
        at <= s@.len(),
    ensures
        match r {
            Ok(next) => read_byte(s@, byte, at as int) == Ok::<int, DecodeError>(next as int)
                && next <= s@.len(),
            Err(e) => read_byte(s@, byte, at as int) == Err::<int, DecodeError>(e),
        },
{
    let total: usize = s.len();
    if at < total && s[at] == byte {
        Ok(at + 1)
    } else {
        Err(DecodeError::InvalidData)
    }
}

fn take_until(s: &[u8], end: &Vec<u8>, at: usize) -> (r: Result<(Vec<u8>, usize), DecodeError>)
    requires
        at <= s@.len(),
        end@.len() > 0,
    ensures
        match r {
            Ok((found, next)) => read_until(s@, end@, at as int) == Ok::<
                (Seq<u8>, int),
                DecodeError,
            >((found@, next as int)) && next <= s@.len(),
            Err(e) => read_until(s@, end@, at as int) == Err::<(Seq<u8>, int), DecodeError>(e),
        },
{
    let mut scratch: Vec<u8> = Vec::new();
    let mut position: usize = at;
    match read_until_match(&mut scratch, s, &mut position, end.as_slice()) {
        Ok(()) => {
            proof {
                crate::text::lemma_find_from(s@, end@, at as int);
            }
            let found = sub_bytes(s, at, position - end.len());
            Ok((found, position))
        },
        Err(_) => Err(DecodeError::UnexpectedEof),
    }
}

fn take_path(s: &[u8], at: usize) -> (r: Result<(String, usize), DecodeError>)
    requires
        at <= s@.len(),
    ensures
        match r {
            Ok((path, next)) => read_path(s@, at as int) == Ok::<(Seq<char>, int), DecodeError>(
                (path@, next as int),
            ) && next <= s@.len(),
            Err(e) => read_path(s@, at as int) == Err::<(Seq<char>, int), DecodeError>(e),
        },
{
    let head = path_start_bytes();
    let start: usize = match take_marker(s, &head, at) {
        Ok(start) => start,
        Err(e) => return Err(e),
    };
    let tail = path_end_bytes();
    match take_until(s, &tail, start) {
        Ok((bytes, next)) => match string_from_utf8(bytes.as_slice()) {
            Some(path) => Ok((path, next)),
            None => Err(DecodeError::InvalidData),
        },
        Err(e) => Err(e),
    }
}

fn take_number(s: &[u8], at: usize) -> (r: Result<(u64, usize), DecodeError>)
    requires
        at <= s@.len(),
    ensures
        match r {
            Ok((n, next)) => read_number(s@, at as int) == Ok::<(u64, int), DecodeError>(
                (n, next as int),
            ) && next <= s@.len(),
            Err(e) => read_number(s@, at as int) == Err::<(u64, int), DecodeError>(e),
        },
{
    let total: usize = s.len();
    if U64_WIDTH > total - at {
        return Err(DecodeError::UnexpectedEof);
    }
    let digits = sub_bytes(s, at, at + U64_WIDTH);
    match parse_unsigned(digits.as_slice(), u64::MAX) {
        Some(n) => Ok((n, at + U64_WIDTH)),
        None => Err(DecodeError::InvalidData),
    }
}

fn take_range(s: &[u8], at: usize) -> (r: Result<(Range<u64>, usize), DecodeError>)
    requires
        at <= s@.len(),
    ensures
        match r {
            Ok((range, next)) => read_range(s@, at as int) == Ok::<((u64, u64), int), DecodeError>(
                ((range.start, range.end), next as int),
            ) && next <= s@.len(),
            Err(e) => read_range(s@, at as int) == Err::<((u64, u64), int), DecodeError>(e),
        },
{
    let a: usize = match take_byte(s, COLON, at) {
        Ok(next) => next,
        Err(e) => return Err(e),
    };
    let (start, b): (u64, usize) = match take_number(s, a) {
        Ok(read) => read,
        Err(e) => return Err(e),
    };
    let c: usize = match take_byte(s, COMMA, b) {
        Ok(next) => next,
        Err(e) => return Err(e),
    };
    match take_number(s, c) {
        Ok((end, next)) => Ok((Range { start, end }, next)),
        Err(e) => Err(e),
    }
}

/// What [`decode_ops`] owes for one record.
pub open spec fn took_op(
    r: Result<(SnapshotOp, usize), DecodeError>,
    expected: Result<(OpModel, int), DecodeError>,
    len: nat,
) -> bool {
    match r {
        Ok((op, next)) => expected == Ok::<(OpModel, int), DecodeError>((op@, next as int)) && next
            <= len,
        Err(e) => expected == Err::<(OpModel, int), DecodeError>(e),
    }
}

fn take_created(s: &[u8], path: String, at: usize) -> (r: Result<(SnapshotOp, usize), DecodeError>)
    requires
        at <= s@.len(),
    ensures
        took_op(r, read_created(s@, path@, at as int), s@.len()),
{
    let total: usize = s.len();
    if 8 > total - at {
        return Err(DecodeError::UnexpectedEof);
    }
    let dir = mark_dir_bytes();
    let head = bytes_start_bytes();
    if bytes_at(s, dir.as_slice(), at) {
        Ok((SnapshotOp::CreateDir(path), at + 8))
    } else if bytes_at(s, head.as_slice(), at) {
        let tail = bytes_end_bytes();
        match take_until(s, &tail, at + 8) {
            Ok((contents, next)) => Ok((SnapshotOp::Create(path, contents), next)),
            Err(e) => Err(e),
        }
    } else {
        Err(DecodeError::InvalidData)
    }
}

fn take_modified(s: &[u8], path: String, at: usize) -> (r: Result<
    (SnapshotOp, usize),
    DecodeError,
>)
    requires
        at <= s@.len(),
    ensures
        took_op(r, read_modified(s@, path@, at as int), s@.len()),
{
    let (from, a): (Range<u64>, usize) = match take_range(s, at) {
        Ok(read) => read,
        Err(e) => return Err(e),
    };
    let (to, b): (Range<u64>, usize) = match take_range(s, a) {
        Ok(read) => read,
        Err(e) => return Err(e),
    };
    let c: usize = match take_byte(s, COLON, b) {
        Ok(next) => next,
        Err(e) => return Err(e),
    };
    let head = bytes_start_bytes();
    let d: usize = match take_marker(s, &head, c) {
        Ok(next) => next,
        Err(e) => return Err(e),
    };
    let tail = bytes_end_bytes();
    match take_until(s, &tail, d) {
        Ok((contents, next)) => Ok((SnapshotOp::Modify(path, from, to, contents), next)),
        Err(e) => Err(e),
    }
}

fn take_op(s: &[u8], at: usize) -> (r: Result<(SnapshotOp, usize), DecodeError>)
    requires
        at + 6 <= s@.len(),
    ensures
        took_op(r, read_op(s@, at as int), s@.len()),
{
    let total: usize = s.len();
    let mut start: Vec<u8> = Vec::new();
    put_marker_delete(&mut start);
    assert(start@ =~= delete_start());
    if bytes_at(s, start.as_slice(), at) {
        return match take_path(s, at + 6) {
            Ok((path, next)) => Ok((SnapshotOp::Delete(path), next)),
            Err(e) => Err(e),
        };
    }
    start.clear();
    put_marker_create(&mut start);
    assert(start@ =~= create_start());
    if bytes_at(s, start.as_slice(), at) {
        return match take_path(s, at + 6) {
            Ok((path, next)) => take_created(s, path, next),
            Err(e) => Err(e),
        };
    }
    start.clear();
    put_marker_modify(&mut start);
    assert(start@ =~= modify_start());
    if bytes_at(s, start.as_slice(), at) {
        return match take_path(s, at + 6) {
            Ok((path, next)) => take_modified(s, path, next),
            Err(e) => Err(e),
        };
    }
    Err(DecodeError::InvalidData)
}

/// Reads the records of changes.
pub fn decode_ops(s: &[u8]) -> (r: Result<Vec<SnapshotOp>, DecodeError>)
    ensures
        match r {
            Ok(ops) => decoded(s@, 0) == Ok::<Seq<OpModel>, DecodeError>(op_models(ops@)),
            Err(e) => decoded(s@, 0) == Err::<Seq<OpModel>, DecodeError>(e),
        },
{
    let total: usize = s.len();
    let mut ops: Vec<SnapshotOp> = Vec::new();
    let mut at: usize = 0;
    assert(op_models(ops@) =~= Seq::empty());
    proof {
        if let Ok(rest) = decoded(s@, 0) {
            assert(op_models(ops@) + rest =~= rest);
        }
    }
    while at < total
        invariant
            at <= total,
            total == s@.len(),
            match decoded(s@, at as int) {
                Ok(rest) => decoded(s@, 0) == Ok::<Seq<OpModel>, DecodeError>(
                    op_models(ops@) + rest,
                ),
                Err(e) => decoded(s@, 0) == Err::<Seq<OpModel>, DecodeError>(e),
            },
        decreases total - at,
    {
        if 6 > total - at {
            return Err(DecodeError::UnexpectedEof);
        }
        proof {
            lemma_read_op_moves_on(s@, at as int);
        }
        let (op, next): (SnapshotOp, usize) = match take_op(s, at) {
            Ok(read) => read,
            Err(e) => return Err(e),
        };
        let line: usize = if next >= total {
            next
        } else {
            match take_byte(s, LINE_FEED, next) {
                Ok(line) => line,
                Err(e) => return Err(e),
            }
        };
        let ghost before = op_models(ops@);
        let ghost model = op@;
        ops.push(op);
        proof {
            assert(op_models(ops@) =~= before.push(model));
            if let Ok(rest) = decoded(s@, line as int) {
                assert(before + (seq![model] + rest) =~= op_models(ops@) + rest);
            }
        }
        at = line;
    }
    assert(op_models(ops@) + Seq::<OpModel>::empty() =~= op_models(ops@));
    Ok(ops)
}

/// Whether the record of a change can be read back: its path and its contents do
/// not hold the marker that ends them.
pub open spec fn readable(op: OpModel) -> bool {
    &&& !contains_seq(encode_utf8(op.name()), path_end())
    &&& match op {
        OpModel::Create(_, contents) => !contains_seq(contents, bytes_end()),
        OpModel::Modify(_, _, _, contents) => !contains_seq(contents, bytes_end()),
        _ => true,
    }
}

proof fn lemma_occurs_parts(s: Seq<u8>, a: Seq<u8>, b: Seq<u8>, at: int)
    requires
        occurs_at(s, a + b, at),
    ensures
        occurs_at(s, a, at),
        occurs_at(s, b, at + a.len()),
{
    let whole = s.subrange(at, at + (a + b).len());
    assert(s.subrange(at, at + a.len()) =~= whole.subrange(0, a.len() as int));
    assert((a + b).subrange(0, a.len() as int) =~= a);
    assert(s.subrange(at + a.len(), at + a.len() + b.len()) =~= whole.subrange(
        a.len() as int,
        (a + b).len() as int,
    ));
    assert((a + b).subrange(a.len() as int, (a + b).len() as int) =~= b);
}

/// The end marker behind `head` is the first one, since none stands in `head`
/// and none can begin in `head` and reach into the marker.
proof fn lemma_end_is_first(s: Seq<u8>, head: Seq<u8>, end: Seq<u8>, at: int)
    requires
        occurs_at(s, head + end, at),
        !contains_seq(head, end),
        end == path_end() || end == bytes_end(),
    ensures
        read_until(s, end, at) == Ok::<(Seq<u8>, int), DecodeError>(
            (head, at + (head + end).len()),
        ),
{
    lemma_occurs_parts(s, head, end, at);
    let stop = at + head.len();
    let marker = s.subrange(stop, stop + end.len());
    assert forall|j: int| at <= j < stop implies !occurs_at(s, end, j) by {
        if occurs_at(s, end, j) {
            let found = s.subrange(j, j + end.len());
            if j + end.len() <= stop {
                assert(s.subrange(at, stop) =~= head);
                assert(head.subrange(j - at, j - at + end.len()) =~= found);
                assert(occurs_at(head, end, j - at));
            } else {
                let d = stop - j;
                assert(found[d] == s[stop]);
                assert(marker[0] == s[stop]);
                assert(end[d] == end[0]);
                if d == 1 {
                    assert(found[2] == s[stop + 1]);
                    assert(marker[1] == s[stop + 1]);
                    assert(end[2] == end[1]);
                }
            }
        }
    }
    crate::text::lemma_find_is_first(s, end, at, stop);
    assert(s.subrange(at, stop) =~= head);
}

proof fn lemma_path_reads_back(s: Seq<u8>, path: Seq<char>, at: int)
    requires
        occurs_at(s, encoded_path(path), at),
        !contains_seq(encode_utf8(path), path_end()),
    ensures
        read_path(s, at) == Ok::<(Seq<char>, int), DecodeError>(
            (path, at + encoded_path(path).len()),
        ),
{
    let bytes = encode_utf8(path);
    lemma_occurs_parts(s, path_start(), bytes + path_end(), at);
    lemma_end_is_first(s, bytes, path_end(), at + path_start().len());
    vstd::utf8::encode_utf8_valid_utf8(path);
    vstd::utf8::encode_utf8_decode_utf8(path);
}

proof fn lemma_range_reads_back(s: Seq<u8>, range: (u64, u64), at: int)
    requires
        occurs_at(s, encoded_range(range), at),
    ensures
        read_range(s, at) == Ok::<((u64, u64), int), DecodeError>(
            (range, at + encoded_range(range).len()),
        ),
        encoded_range(range).len() == 42,
{
    let low = padded_bytes(range.0 as nat, 20);
    let high = padded_bytes(range.1 as nat, 20);
    crate::numbers::padded_u64_reads_back(range.0);
    crate::numbers::padded_u64_reads_back(range.1);
    lemma_occurs_parts(s, seq![COLON], low + (seq![COMMA] + high), at);
    assert(s.subrange(at, at + 1)[0] == s[at]);
    lemma_occurs_parts(s, low, seq![COMMA] + high, at + 1);
    lemma_occurs_parts(s, seq![COMMA], high, at + 21);
    assert(s.subrange(at + 21, at + 22)[0] == s[at + 21]);
}

proof fn lemma_created_reads_back(s: Seq<u8>, op: OpModel, at: int)
    requires
        occurs_at(s, encoded_body(op), at),
        readable(op),
        op is CreateDir || op is Create,
    ensures
        read_op(s, at) == Ok::<(OpModel, int), DecodeError>((op, at + encoded_body(op).len())),
{
    let path = op.name();
    let rest = match op {
        OpModel::Create(_, contents) => encoded_contents(contents),
        _ => mark_dir(),
    };
    lemma_occurs_parts(s, create_start(), encoded_path(path) + rest, at);
    lemma_occurs_parts(s, encoded_path(path), rest, at + 6);
    lemma_path_reads_back(s, path, at + 6);
    assert(s.subrange(at, at + 6)[4] == 67);
    let next = at + 6 + encoded_path(path).len();
    if let OpModel::Create(_, contents) = op {
        lemma_occurs_parts(s, bytes_start(), contents + bytes_end(), next);
        assert(s.subrange(next, next + 8)[4] == 66);
        lemma_end_is_first(s, contents, bytes_end(), next + 8);
    }
}

proof fn lemma_modified_reads_back(
    s: Seq<u8>,
    path: Seq<char>,
    from: (u64, u64),
    to: (u64, u64),
    contents: Seq<u8>,
    at: int,
)
    requires
        occurs_at(
            s,
            encoded_range(from) + (encoded_range(to) + (seq![COLON] + encoded_contents(contents))),
            at,
        ),
        !contains_seq(contents, bytes_end()),
    ensures
        read_modified(s, path, at) == Ok::<(OpModel, int), DecodeError>(
            (
                OpModel::Modify(path, from, to, contents),
                at + 85 + encoded_contents(contents).len(),
            ),
        ),
{
    let last = seq![COLON] + encoded_contents(contents);
    let second = encoded_range(to) + last;
    lemma_occurs_parts(s, encoded_range(from), second, at);
    lemma_range_reads_back(s, from, at);
    lemma_occurs_parts(s, encoded_range(to), last, at + 42);
    lemma_range_reads_back(s, to, at + 42);
    let c = at + 84;
    lemma_occurs_parts(s, seq![COLON], encoded_contents(contents), c);
    assert(s.subrange(c, c + 1)[0] == s[c]);
    lemma_occurs_parts(s, bytes_start(), contents + bytes_end(), c + 1);
    lemma_end_is_first(s, contents, bytes_end(), c + 9);
}

#[verifier::spinoff_prover]
#[verifier::rlimit(40)]
proof fn lemma_record_reads_back(s: Seq<u8>, op: OpModel, at: int)
    requires
        occurs_at(s, encoded_body(op), at),
        readable(op),
    ensures
        read_op(s, at) == Ok::<(OpModel, int), DecodeError>((op, at + encoded_body(op).len())),
        encoded_body(op).len() >= 6,
{
    match op {
        OpModel::Delete(path) => {
            lemma_occurs_parts(s, delete_start(), encoded_path(path), at);
            lemma_path_reads_back(s, path, at + 6);
        },
        OpModel::Modify(path, from, to, contents) => {
            let first = encoded_range(from) + (encoded_range(to) + (seq![COLON] + encoded_contents(
                contents,
            )));
            lemma_occurs_parts(s, modify_start(), encoded_path(path) + first, at);
            assert(s.subrange(at, at + 6)[4] == 77);
            lemma_occurs_parts(s, encoded_path(path), first, at + 6);
            lemma_path_reads_back(s, path, at + 6);
            let a = at + 6 + encoded_path(path).len();
            lemma_modified_reads_back(s, path, from, to, contents, a);
            crate::numbers::padded_u64_reads_back(from.0);
            crate::numbers::padded_u64_reads_back(from.1);
            crate::numbers::padded_u64_reads_back(to.0);
            crate::numbers::padded_u64_reads_back(to.1);
            assert(encoded_range(from).len() == 42);
            assert(encoded_range(to).len() == 42);
            assert(first.len() == 85 + encoded_contents(contents).len());
        },
        _ => {
            lemma_created_reads_back(s, op, at);
        },
    }
}

#[verifier::spinoff_prover]
#[verifier::rlimit(80)]
proof fn lemma_records_read_back(before: Seq<u8>, ops: Seq<OpModel>)
    requires
        forall|i: int| 0 <= i < ops.len() ==> readable(#[trigger] ops[i]),
    ensures
        decoded(before + encoded_all(ops), before.len() as int) == Ok::<
            Seq<OpModel>,
            DecodeError,
        >(ops),
    decreases ops.len(),
{
    let s = before + encoded_all(ops);
    let at = before.len() as int;
    if ops.len() == 0 {
        assert(ops =~= Seq::empty());
    } else {
        let op = ops[0];
        let rest = ops.skip(1);
        let body = encoded_body(op);
        assert(s =~= before + body + seq![LINE_FEED] + encoded_all(rest));
        assert(s.subrange(at, at + body.len()) =~= body);
        lemma_record_reads_back(s, op, at);
        assert(s[at + body.len()] == LINE_FEED);
        let more = before + encoded(op);
        assert(s =~= more + encoded_all(rest));
        assert forall|i: int| 0 <= i < rest.len() implies readable(#[trigger] rest[i]) by {
            assert(rest[i] == ops[i + 1]);
        }
        lemma_records_read_back(more, rest);
        assert(seq![op] + rest =~= ops);
    }
}

/// What was written reads back: decoding the records of any changes gives the
/// same changes, in the same order, as long as no path holds the marker that
/// ends a path and no contents hold the marker that ends contents.
pub proof fn encoded_ops_read_back(ops: Seq<OpModel>)
    requires
        forall|i: int| 0 <= i < ops.len() ==> readable(#[trigger] ops[i]),
    ensures
        decoded(encoded_all(ops), 0) == Ok::<Seq<OpModel>, DecodeError>(ops),
{
    lemma_records_read_back(Seq::empty(), ops);
    assert(Seq::<u8>::empty() + encoded_all(ops) =~= encoded_all(ops));
}

} // verus!
