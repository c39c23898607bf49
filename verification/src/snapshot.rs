//! Snapshots of profile directories: what changes between two states of a
//! directory, how the changes are written down, and how they are applied again.
pub mod archive;
pub mod basic;
pub mod codec;
pub mod diff;
pub mod incremental;
pub mod laws;
pub mod ops;
pub mod tree;
