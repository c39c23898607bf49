//! The changes of which an incremental snapshot consists.
use std::ops::Range;
use vstd::prelude::*;

verus! {

/// One change to a file or directory below the root of a snapshot.
#[derive(Debug, PartialEq)]
pub enum SnapshotOp {
    /// The file or directory goes away.
    Delete(String),
    /// A directory appears.
    CreateDir(String),
    /// A file appears with these contents.
    Create(String, Vec<u8>),
    /// The bytes of the first range, counted in the file before any change to
    /// it, become the bytes of the second range, counted in the changed file.
    Modify(String, Range<u64>, Range<u64>, Vec<u8>),
}

/// What a [`SnapshotOp`] says.
#[verifier::ext_equal]
pub enum OpModel {
    Delete(Seq<char>),
    CreateDir(Seq<char>),
    Create(Seq<char>, Seq<u8>),
    Modify(Seq<char>, (u64, u64), (u64, u64), Seq<u8>),
}

impl OpModel {
    /// The file or directory that the change is about.
    pub open spec fn name(self) -> Seq<char> {
        match self {
            OpModel::Delete(name) => name,
            OpModel::CreateDir(name) => name,
            OpModel::Create(name, _) => name,
            OpModel::Modify(name, _, _, _) => name,
        }
    }
}

impl View for SnapshotOp {
    type V = OpModel;

    open spec fn view(&self) -> OpModel {
        match self {
            SnapshotOp::Delete(name) => OpModel::Delete(name@),
            SnapshotOp::CreateDir(name) => OpModel::CreateDir(name@),
            SnapshotOp::Create(name, contents) => OpModel::Create(name@, contents@),
            SnapshotOp::Modify(name, from, to, contents) => OpModel::Modify(
                name@,
                (from.start, from.end),
                (to.start, to.end),
                contents@,
            ),
        }
    }
}

/// What each of the changes says.
pub open spec fn op_models(ops: Seq<SnapshotOp>) -> Seq<OpModel> {
    Seq::new(ops.len(), |i: int| ops[i]@)
}

impl SnapshotOp {
    /// The file or directory that the change is about.
    pub fn get_name(&self) -> (r: &str)
        ensures
            r@ == self@.name(),
    {
        match self {
            SnapshotOp::Delete(name) => name.as_str(),
            SnapshotOp::CreateDir(name) => name.as_str(),
            SnapshotOp::Create(name, _) => name.as_str(),
            SnapshotOp::Modify(name, _, _, _) => name.as_str(),
        }
    }
}

} // verus!
