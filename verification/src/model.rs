//! The identifiers and small records the engine is stated over.

use vstd::prelude::*;

verus! {

/// Identifies one branch stack of the workspace. Opaque to the engine; the
/// branch-management collaborator guarantees uniqueness within a workspace.
#[derive(Clone, Copy, PartialEq, Eq, Structural, Hash, Debug)]
pub struct StackId {
    pub value: u128,
}

/// Identifies one commit by its content hash. The engine only ever compares
/// identifiers; the 160-bit hash is carried as two plain words.
#[derive(Clone, Copy, PartialEq, Eq, Structural, Hash, Debug)]
pub struct CommitId {
    pub hi: u128,
    pub lo: u32,
}

/// The 64-bit identity of an uncommitted hunk, derived from its patch text.
pub type HunkHash = u64;

/// Records that an uncommitted hunk overlaps a range that `commit_id`
/// introduced within `stack_id`. A hunk may carry zero, one, or many locks.
#[derive(Clone, Copy, PartialEq, Eq, Structural, Hash, Debug)]
pub struct HunkLock {
    /// The stack that contains [`commit_id`](Self::commit_id).
    pub stack_id: StackId,
    /// The commit the hunk overlaps with.
    pub commit_id: CommitId,
}

/// One directed entry of a per-stack commit graph: within `stack_id`,
/// `commit_id` is related to `other_id`. In the forward dependency list,
/// `commit_id` depends on `other_id` (the earlier commit); in the inverse
/// list the roles are swapped.
#[derive(Clone, Copy, PartialEq, Eq, Structural, Hash, Debug)]
pub struct CommitGraphEdge {
    pub stack_id: StackId,
    pub commit_id: CommitId,
    pub other_id: CommitId,
}

/// The edge with the two commit roles exchanged.
pub open spec fn flip_edge(e: CommitGraphEdge) -> CommitGraphEdge {
    CommitGraphEdge { stack_id: e.stack_id, commit_id: e.other_id, other_id: e.commit_id }
}

/// What kind of recoverable failure a [`CalculationError`] records.
#[derive(Clone, Copy, PartialEq, Eq, Structural, Hash, Debug)]
pub enum CalculationErrorKind {
    /// One historical commit could not be diffed against its predecessor.
    CommitDiff,
    /// One stack's metadata could not be read.
    StackMetadata,
    /// The changed ranges for one path could not be computed.
    PathRanges,
}

/// A recoverable failure scoped to one commit of one stack, collected during
/// index construction instead of aborting the whole computation.
#[derive(Clone, Copy, PartialEq, Eq, Structural, Hash, Debug)]
pub struct CalculationError {
    pub error_kind: CalculationErrorKind,
    pub stack_id: StackId,
    pub commit_id: CommitId,
}

/// Half-open interval overlap: `[s1, s1+l1)` meets `[s2, s2+l2)`. A
/// zero-length range never overlaps anything.
pub open spec fn ranges_overlap(s1: int, l1: int, s2: int, l2: int) -> bool {
    l1 > 0 && l2 > 0 && s1 < s2 + l2 && s2 < s1 + l1
}

/// The relation that creates a commit dependency: the two ranges overlap or
/// are line-adjacent (one begins exactly where the other ends).
pub open spec fn ranges_depend(s1: int, l1: int, s2: int, l2: int) -> bool {
    ranges_overlap(s1, l1, s2, l2) || s1 + l1 == s2 || s2 + l2 == s1
}

/// Executable overlap test; sums are taken in u64 so they cannot wrap.
pub fn ranges_overlap_exec(s1: u32, l1: u32, s2: u32, l2: u32) -> (r: bool)
    ensures
        r == ranges_overlap(s1 as int, l1 as int, s2 as int, l2 as int),
{
    l1 > 0 && l2 > 0 && (s1 as u64) < (s2 as u64) + (l2 as u64) && (s2 as u64) < (s1 as u64) + (
    l1 as u64)
}

/// Executable overlap-or-adjacency test.
pub fn ranges_depend_exec(s1: u32, l1: u32, s2: u32, l2: u32) -> (r: bool)
    ensures
        r == ranges_depend(s1 as int, l1 as int, s2 as int, l2 as int),
{
    ranges_overlap_exec(s1, l1, s2, l2) || (s1 as u64) + (l1 as u64) == (s2 as u64) || (s2 as u64)
        + (l2 as u64) == (s1 as u64)
}

} // verus!
