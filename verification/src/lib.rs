//! Dependency tracking for uncommitted hunks in a multi-stack workspace.
//!
//! The engine takes the committed history of several parallel branch stacks,
//! indexes the line ranges each commit touched per file path, and intersects
//! the current uncommitted diff against that index. Every uncommitted hunk is
//! given a stable 64-bit identity and a list of locks: the (stack, commit)
//! pairs whose recorded ranges overlap the hunk. Per stack, the engine also
//! derives forward and inverse commit dependency graphs, tolerating failures
//! to diff individual commits by collecting them instead of aborting.

pub mod assemble;
pub mod bytes;
pub mod hash;
pub mod input;
pub mod model;
pub mod ranges;
