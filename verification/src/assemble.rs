//! The dependency graph assembler.
//!
//! It consumes the change extractor's output (the uncommitted changes, each
//! with its zero-context unified-diff hunks) and the workspace range index,
//! and produces the final aggregate: one entry per analyzed hunk pairing its
//! 64-bit identity with its locks (an empty lock list means the hunk is
//! free), the per-stack commit graphs copied from the index, the
//! commit-to-dependent-hunk map, and the collected errors.

use vstd::prelude::*;

use crate::hash::hash_lines;
use crate::hash::hunk_hash_of;
use crate::hash::is_diff_fragment;
use crate::input::InputStack;
use crate::model::CalculationError;
use crate::model::CommitGraphEdge;
use crate::model::CommitId;
use crate::model::HunkHash;
use crate::model::HunkLock;
use crate::model::StackId;
use crate::ranges::WorkspaceRanges;
use crate::ranges::RangeRecord;
use crate::ranges::is_index_for;
use crate::ranges::lock_matches;

verus! {

/// One contiguous run of changed lines in one uncommitted change: its
/// half-open old-file range and the literal zero-context patch text,
/// beginning with the `@@ ... @@` header line.
#[derive(Debug)]
pub struct WorktreeHunk {
    pub old_start: u32,
    pub old_lines: u32,
    pub diff: Vec<u8>,
}

/// How one uncommitted change diffs against the index or head.
#[derive(Debug)]
pub enum UnifiedDiff {
    /// A textual patch, split into hunks.
    Patch(Vec<WorktreeHunk>),
    /// The change is binary; no textual patch exists.
    Binary,
    /// Only file metadata changed; no textual patch exists.
    NoTextualDiff,
}

/// One uncommitted change of the working tree, scoped to one path.
#[derive(Debug)]
pub struct WorktreeChange {
    pub path: Vec<u8>,
    pub diff: UnifiedDiff,
}

/// One entry of the commit-to-dependent-hunk map: the hunk with identity
/// `hash` depends on commit `commit_id` of stack `stack_id`.
#[derive(Clone, Copy, PartialEq, Eq, Structural, Hash, Debug)]
pub struct DependentDiff {
    pub stack_id: StackId,
    pub commit_id: CommitId,
    pub hash: HunkHash,
}

/// The hunks one change contributes to the analysis, each tagged with the
/// change's path; binary and metadata-only changes contribute none.
pub open spec fn change_hunks(c: WorktreeChange) -> Seq<(Seq<u8>, WorktreeHunk)> {
    match c.diff {
        UnifiedDiff::Patch(hs) => hs@.map_values(|h: WorktreeHunk| (c.path@, h)),
        _ => Seq::empty(),
    }
}

/// All analyzed hunks of the changes, in order.
pub open spec fn flat_hunks(cs: Seq<WorktreeChange>) -> Seq<(Seq<u8>, WorktreeHunk)>
    decreases cs.len(),
{
    if cs.len() == 0 {
        Seq::empty()
    } else {
        change_hunks(cs[0]) + flat_hunks(cs.drop_first())
    }
}

proof fn lemma_flat_hunks_push(cs: Seq<WorktreeChange>, c: WorktreeChange)
    ensures
        flat_hunks(cs.push(c)) == flat_hunks(cs) + change_hunks(c),
    decreases cs.len(),
{
    if cs.len() == 0 {
        assert(cs.push(c)[0] == c);
        assert(cs.push(c).drop_first() =~= Seq::<WorktreeChange>::empty());
        assert(flat_hunks(cs.push(c)) == change_hunks(c) + flat_hunks(
            Seq::<WorktreeChange>::empty(),
        ));
        assert(flat_hunks(Seq::<WorktreeChange>::empty()) == Seq::<(Seq<u8>, WorktreeHunk)>::empty());
        assert(change_hunks(c) + Seq::<(Seq<u8>, WorktreeHunk)>::empty() =~= change_hunks(c));
        assert(Seq::<(Seq<u8>, WorktreeHunk)>::empty() + change_hunks(c) =~= change_hunks(c));
    } else {
        lemma_flat_hunks_push(cs.drop_first(), c);
        assert(cs.push(c)[0] == cs[0]);
        assert(cs.push(c).drop_first() =~= cs.drop_first().push(c));
        assert(change_hunks(cs[0]) + (flat_hunks(cs.drop_first()) + change_hunks(c)) =~= (
        change_hunks(cs[0]) + flat_hunks(cs.drop_first())) + change_hunks(c));
    }
}

/// Every patch hunk of `c` carries a well-formed unified-diff fragment.
pub open spec fn change_well_formed(c: WorktreeChange) -> bool {
    c.diff matches UnifiedDiff::Patch(hs) ==> forall|hi: int|
        0 <= hi < hs@.len() ==> is_diff_fragment((#[trigger] hs@[hi]).diff@)
}

/// Every patch hunk of every change carries a well-formed fragment.
pub open spec fn changes_well_formed(cs: Seq<WorktreeChange>) -> bool {
    forall|ci: int| 0 <= ci < cs.len() ==> #[trigger] change_well_formed(cs[ci])
}

/// `entry` is the analysis of the hunk `fh`: its hash is the hunk's
/// identity, and its lock list holds exactly the locks the index justifies,
/// duplicate-free.
pub open spec fn diff_entry_matches(
    entry: (u64, Vec<HunkLock>),
    fh: (Seq<u8>, WorktreeHunk),
    rs: Seq<RangeRecord>,
) -> bool {
    &&& entry.0 == hunk_hash_of(fh.1.diff@)
    &&& forall|l: HunkLock| #[trigger]
        entry.1@.contains(l) == lock_matches(rs, fh.0, fh.1.old_start, fh.1.old_lines, l)
    &&& forall|x: int, y: int| 0 <= x < y < entry.1@.len() ==> entry.1@[x] != entry.1@[y]
}

/// The diffs list analyzes exactly the hunks `fhs`, in order.
pub open spec fn diffs_match(
    ds: Seq<(u64, Vec<HunkLock>)>,
    fhs: Seq<(Seq<u8>, WorktreeHunk)>,
    rs: Seq<RangeRecord>,
) -> bool {
    ds.len() == fhs.len() && forall|n: int|
        0 <= n < ds.len() ==> #[trigger] diff_entry_matches(ds[n], fhs[n], rs)
}

/// Position (`n`, `li`) of the diffs list witnesses the dependent-diff `d`:
/// the entry's hash is `d.hash` and its lock at `li` is `d`'s stack/commit.
pub open spec fn diff_lock_pair_is(
    ds: Seq<(u64, Vec<HunkLock>)>,
    n: int,
    li: int,
    d: DependentDiff,
) -> bool {
    &&& 0 <= n < ds.len()
    &&& 0 <= li < ds[n].1@.len()
    &&& ds[n].0 == d.hash
    &&& ds[n].1@[li] == HunkLock { stack_id: d.stack_id, commit_id: d.commit_id }
}

/// Some witness strictly before the walk position (`nd`, `nl`).
pub open spec fn diffs_have_dependent_upto(
    ds: Seq<(u64, Vec<HunkLock>)>,
    nd: int,
    nl: int,
    d: DependentDiff,
) -> bool {
    exists|n: int, li: int|
        (n < nd || (n == nd && li < nl)) && #[trigger] diff_lock_pair_is(ds, n, li, d)
}

/// Some analyzed hunk with identity `d.hash` carries the lock of `d`.
pub open spec fn diffs_have_dependent(ds: Seq<(u64, Vec<HunkLock>)>, d: DependentDiff) -> bool {
    diffs_have_dependent_upto(ds, ds.len() as int, 0, d)
}

proof fn lemma_dependent_inner_step(ds: Seq<(u64, Vec<HunkLock>)>, nd: int, nl: int, d: DependentDiff)
    requires
        nl >= 0,
    ensures
        diffs_have_dependent_upto(ds, nd, nl + 1, d) == (diffs_have_dependent_upto(ds, nd, nl, d)
            || diff_lock_pair_is(ds, nd, nl, d)),
{
    if diffs_have_dependent_upto(ds, nd, nl + 1, d) {
        let (n, li) = choose|n: int, li: int|
            (n < nd || (n == nd && li < nl + 1)) && #[trigger] diff_lock_pair_is(ds, n, li, d);
        if n < nd || (n == nd && li < nl) {
            assert(diffs_have_dependent_upto(ds, nd, nl, d));
        } else {
            assert(diff_lock_pair_is(ds, nd, nl, d));
        }
    }
    if diffs_have_dependent_upto(ds, nd, nl, d) {
        let (n, li) = choose|n: int, li: int|
            (n < nd || (n == nd && li < nl)) && #[trigger] diff_lock_pair_is(ds, n, li, d);
        assert((n < nd || (n == nd && li < nl + 1)) && diff_lock_pair_is(ds, n, li, d));
    }
    if diff_lock_pair_is(ds, nd, nl, d) {
        assert((nd < nd || (nd == nd && nl < nl + 1)) && diff_lock_pair_is(ds, nd, nl, d));
    }
}

proof fn lemma_dependent_outer_step(ds: Seq<(u64, Vec<HunkLock>)>, nd: int, d: DependentDiff)
    requires
        0 <= nd < ds.len(),
    ensures
        diffs_have_dependent_upto(ds, nd + 1, 0, d) == diffs_have_dependent_upto(
            ds,
            nd,
            ds[nd].1@.len() as int,
            d,
        ),
{
    let full = ds[nd].1@.len() as int;
    if diffs_have_dependent_upto(ds, nd + 1, 0, d) {
        let (n, li) = choose|n: int, li: int|
            (n < nd + 1 || (n == nd + 1 && li < 0)) && #[trigger] diff_lock_pair_is(ds, n, li, d);
        assert((n < nd || (n == nd && li < full)) && diff_lock_pair_is(ds, n, li, d));
    }
    if diffs_have_dependent_upto(ds, nd, full, d) {
        let (n, li) = choose|n: int, li: int|
            (n < nd || (n == nd && li < full)) && #[trigger] diff_lock_pair_is(ds, n, li, d);
        assert((n < nd + 1 || (n == nd + 1 && li < 0)) && diff_lock_pair_is(ds, n, li, d));
    }
}

/// Linear search for a dependent-diff entry, compared field by field.
fn contains_dependent(v: &Vec<DependentDiff>, d: DependentDiff) -> (r: bool)
    ensures
        r == v@.contains(d),
{
    let mut i: usize = 0;
    while i < v.len()
        invariant
            i <= v@.len(),
            forall|k: int| 0 <= k < i ==> v@[k] != d,
        decreases v@.len() - i,
    {
        if v[i] == d {
            assert(v@.contains(d));
            return true;
        }
        i += 1;
    }
    proof {
        if v@.contains(d) {
            let k = choose|k: int| 0 <= k < v@.len() && v@[k] == d;
            assert(false);
        }
    }
    false
}

/// The aggregate the whole computation returns. The `errors` list may name
/// specific failures while every other path succeeded: render the payload
/// and surface the errors separately.
#[derive(Debug)]
pub struct HunkDependencies {
    /// One entry per analyzed hunk: its identity and its locks in discovery
    /// order. An empty lock list means the hunk was analyzed and is free.
    pub diffs: Vec<(HunkHash, Vec<HunkLock>)>,
    /// Forward edges of the per-stack commit graphs.
    pub commit_dependencies: Vec<CommitGraphEdge>,
    /// The same edges inverted, flipped pointwise.
    pub inverse_commit_dependencies: Vec<CommitGraphEdge>,
    /// Which hunk identities depend on which commit, per stack.
    pub commit_dependent_diffs: Vec<DependentDiff>,
    /// The recoverable failures collected while indexing.
    pub errors: Vec<CalculationError>,
}

/// `hd` is the aggregate the index `w` and the changes `cs` determine.
pub open spec fn is_dependencies_for(
    hd: HunkDependencies,
    w: WorkspaceRanges,
    cs: Seq<WorktreeChange>,
) -> bool {
    &&& diffs_match(hd.diffs@, flat_hunks(cs), w.ranges@)
    &&& hd.commit_dependencies@ == w.commit_dependencies@
    &&& hd.inverse_commit_dependencies@ == w.inverse_commit_dependencies@
    &&& hd.errors@ == w.errors@
    &&& forall|d: DependentDiff| #[trigger]
        hd.commit_dependent_diffs@.contains(d) == diffs_have_dependent(hd.diffs@, d)
    &&& forall|x: int, y: int|
        0 <= x < y < hd.commit_dependent_diffs@.len() ==> hd.commit_dependent_diffs@[x]
            != hd.commit_dependent_diffs@[y]
}

impl HunkDependencies {
    /// Assemble the aggregate from a prepared index: hash every analyzed
    /// hunk, query its locks, then derive the commit-to-dependent-hunk map
    /// and copy the graphs and errors from the index verbatim.
    pub fn from_workspace_ranges(
        ranges: WorkspaceRanges,
        worktree_changes: &Vec<WorktreeChange>,
    ) -> (r: HunkDependencies)
        requires
            changes_well_formed(worktree_changes@),
        ensures
            is_dependencies_for(r, ranges, worktree_changes@),
    {
        let ghost cs = worktree_changes@;
        let mut diffs: Vec<(HunkHash, Vec<HunkLock>)> = Vec::new();
        let mut ci: usize = 0;
        while ci < worktree_changes.len()
            invariant
                ci <= cs.len(),
                cs == worktree_changes@,
                changes_well_formed(cs),
                diffs_match(diffs@, flat_hunks(cs.take(ci as int)), ranges.ranges@),
            decreases cs.len() - ci,
        {
            let change = &worktree_changes[ci];
            match &change.diff {
                UnifiedDiff::Patch(hs) => {
                    let mut hi: usize = 0;
                    while hi < hs.len()
                        invariant
                            hi <= hs@.len(),
                            ci < cs.len(),
                            cs == worktree_changes@,
                            cs[ci as int] == *change,
                            change.diff == UnifiedDiff::Patch(*hs),
                            changes_well_formed(cs),
                            diffs_match(
                                diffs@,
                                flat_hunks(cs.take(ci as int)) + change_hunks(cs[ci as int]).take(
                                    hi as int,
                                ),
                                ranges.ranges@,
                            ),
                        decreases hs@.len() - hi,
                    {
                        let h = &hs[hi];
                        proof {
                            assert(change_well_formed(cs[ci as int]));
                            assert(is_diff_fragment(hs@[hi as int].diff@));
                        }
                        let hash = hash_lines(&h.diff);
                        let locks = ranges.intersection(&change.path, h.old_start, h.old_lines);
                        let entry = (hash, locks);
                        let ghost gentry = entry;
                        let ghost d0 = diffs@;
                        let ghost target0 = flat_hunks(cs.take(ci as int)) + change_hunks(
                            cs[ci as int],
                        ).take(hi as int);
                        diffs.push(entry);
                        proof {
                            assert(diffs@ == d0.push(gentry));
                            let fh = (cs[ci as int].path@, hs@[hi as int]);
                            assert(change_hunks(cs[ci as int])[hi as int] == fh);
                            assert(diff_entry_matches(gentry, fh, ranges.ranges@));
                            let target1 = flat_hunks(cs.take(ci as int)) + change_hunks(
                                cs[ci as int],
                            ).take(hi as int + 1);
                            assert(change_hunks(cs[ci as int]).take(hi as int + 1) =~= change_hunks(
                                cs[ci as int],
                            ).take(hi as int).push(fh));
                            assert(target1 =~= target0.push(fh));
                            assert forall|n: int|
                                0 <= n < diffs@.len() implies diff_entry_matches(
                                diffs@[n],
                                target1[n],
                                ranges.ranges@,
                            ) by {
                                if n < d0.len() {
                                    assert(diffs@[n] == d0[n]);
                                    assert(target1[n] == target0[n]);
                                    assert(diff_entry_matches(d0[n], target0[n], ranges.ranges@));
                                } else {
                                    assert(diffs@[n] == gentry);
                                    assert(target1[n] == fh);
                                }
                            }
                            assert(diffs_match(diffs@, target1, ranges.ranges@));
                        }
                        hi += 1;
                    }
                    proof {
                        assert(change_hunks(cs[ci as int]).take(hi as int) =~= change_hunks(
                            cs[ci as int],
                        ));
                        lemma_flat_hunks_push(cs.take(ci as int), cs[ci as int]);
                        assert(cs.take(ci as int).push(cs[ci as int]) =~= cs.take(ci as int + 1));
                        assert(diffs_match(
                            diffs@,
                            flat_hunks(cs.take(ci as int + 1)),
                            ranges.ranges@,
                        ));
                    }
                }
                _ => {
                    proof {
                        assert(change_hunks(cs[ci as int]) =~= Seq::<(Seq<u8>, WorktreeHunk)>::empty());
                        lemma_flat_hunks_push(cs.take(ci as int), cs[ci as int]);
                        assert(cs.take(ci as int).push(cs[ci as int]) =~= cs.take(ci as int + 1));
                        assert(flat_hunks(cs.take(ci as int)) + change_hunks(cs[ci as int]) =~= flat_hunks(
                            cs.take(ci as int),
                        ));
                        assert(diffs_match(
                            diffs@,
                            flat_hunks(cs.take(ci as int + 1)),
                            ranges.ranges@,
                        ));
                    }
                }
            }
            ci += 1;
        }
        proof {
            assert(cs.take(cs.len() as int) =~= cs);
        }
        let mut dd: Vec<DependentDiff> = Vec::new();
        let mut n: usize = 0;
        while n < diffs.len()
            invariant
                n <= diffs@.len(),
                forall|d: DependentDiff| #[trigger]
                    dd@.contains(d) == diffs_have_dependent_upto(diffs@, n as int, 0, d),
                forall|x: int, y: int| 0 <= x < y < dd@.len() ==> dd@[x] != dd@[y],
            decreases diffs@.len() - n,
        {
            let mut li: usize = 0;
            while li < diffs[n].1.len()
                invariant
                    n < diffs@.len(),
                    li <= diffs@[n as int].1@.len(),
                    forall|d: DependentDiff| #[trigger]
                        dd@.contains(d) == diffs_have_dependent_upto(diffs@, n as int, li as int, d),
                    forall|x: int, y: int| 0 <= x < y < dd@.len() ==> dd@[x] != dd@[y],
                decreases diffs@[n as int].1@.len() - li,
            {
                let lock = diffs[n].1[li];
                let d0 = DependentDiff {
                    stack_id: lock.stack_id,
                    commit_id: lock.commit_id,
                    hash: diffs[n].0,
                };
                let ghost dd0 = dd@;
                let already = contains_dependent(&dd, d0);
                if !already {
                    dd.push(d0);
                    proof {
                        assert(dd@ == dd0.push(d0));
                        assert forall|x: int| 0 <= x < dd0.len() implies dd0[x] != d0 by {
                            if dd0[x] == d0 {
                                assert(dd0.contains(d0));
                            }
                        }
                    }
                }
                proof {
                    assert forall|d: DependentDiff|
                        dd@.contains(d) == diffs_have_dependent_upto(
                            diffs@,
                            n as int,
                            li as int + 1,
                            d,
                        ) by {
                        lemma_dependent_inner_step(diffs@, n as int, li as int, d);
                        if !already {
                            vstd::seq_lib::lemma_seq_contains_after_push(dd0, d0, d);
                        }
                        if diff_lock_pair_is(diffs@, n as int, li as int, d) {
                            assert(d == d0);
                        }
                        if d == d0 {
                            assert(diff_lock_pair_is(diffs@, n as int, li as int, d0));
                        }
                    }
                }
                li += 1;
            }
            proof {
                assert forall|d: DependentDiff|
                    dd@.contains(d) == diffs_have_dependent_upto(diffs@, n as int + 1, 0, d) by {
                    lemma_dependent_outer_step(diffs@, n as int, d);
                }
            }
            n += 1;
        }
        HunkDependencies {
            diffs,
            commit_dependencies: ranges.commit_dependencies,
            inverse_commit_dependencies: ranges.inverse_commit_dependencies,
            commit_dependent_diffs: dd,
            errors: ranges.errors,
        }
    }
}

proof fn lemma_dependent_transfer(
    h1: HunkDependencies,
    h2: HunkDependencies,
    w: WorkspaceRanges,
    cs: Seq<WorktreeChange>,
    d: DependentDiff,
)
    requires
        is_dependencies_for(h1, w, cs),
        is_dependencies_for(h2, w, cs),
        diffs_have_dependent(h1.diffs@, d),
    ensures
        diffs_have_dependent(h2.diffs@, d),
{
    let len1 = h1.diffs@.len() as int;
    let (n, li) = choose|n: int, li: int|
        (n < len1 || (n == len1 && li < 0)) && #[trigger] diff_lock_pair_is(h1.diffs@, n, li, d);
    let lock = HunkLock { stack_id: d.stack_id, commit_id: d.commit_id };
    assert(h1.diffs@[n].1@[li] == lock);
    assert(h1.diffs@[n].1@.contains(lock));
    let fhs = flat_hunks(cs);
    assert(diff_entry_matches(h1.diffs@[n], fhs[n], w.ranges@));
    assert(diff_entry_matches(h2.diffs@[n], fhs[n], w.ranges@));
    assert(lock_matches(w.ranges@, fhs[n].0, fhs[n].1.old_start, fhs[n].1.old_lines, lock));
    assert(h2.diffs@[n].1@.contains(lock));
    let li2 = choose|li2: int| 0 <= li2 < h2.diffs@[n].1@.len() && h2.diffs@[n].1@[li2] == lock;
    assert(h2.diffs@[n].0 == d.hash);
    assert(diff_lock_pair_is(h2.diffs@, n, li2, d));
    assert(diffs_have_dependent_upto(h2.diffs@, h2.diffs@.len() as int, 0, d));
}

/// Determinism law, aggregate half: two aggregates that the same index and
/// changes determine agree everywhere semantics reaches: hunk identities
/// pointwise, lock lists as sets, graphs and errors verbatim, and
/// dependent-diff entries as sets.
pub proof fn lemma_dependencies_deterministic(
    h1: HunkDependencies,
    h2: HunkDependencies,
    w: WorkspaceRanges,
    cs: Seq<WorktreeChange>,
)
    requires
        is_dependencies_for(h1, w, cs),
        is_dependencies_for(h2, w, cs),
    ensures
        h1.diffs@.len() == h2.diffs@.len(),
        forall|n: int| 0 <= n < h1.diffs@.len() ==> (#[trigger] h1.diffs@[n]).0 == h2.diffs@[n].0,
        forall|n: int, l: HunkLock|
            0 <= n < h1.diffs@.len() ==> ((#[trigger] h1.diffs@[n].1@.contains(l))
                == h2.diffs@[n].1@.contains(l)),
        h1.commit_dependencies@ == h2.commit_dependencies@,
        h1.inverse_commit_dependencies@ == h2.inverse_commit_dependencies@,
        h1.errors@ == h2.errors@,
        forall|d: DependentDiff|
            #![trigger h1.commit_dependent_diffs@.contains(d)]
            #![trigger h2.commit_dependent_diffs@.contains(d)]
            h1.commit_dependent_diffs@.contains(d) == h2.commit_dependent_diffs@.contains(d),
{
    let fhs = flat_hunks(cs);
    assert forall|n: int| 0 <= n < h1.diffs@.len() implies (#[trigger] h1.diffs@[n]).0
        == h2.diffs@[n].0 by {
        assert(diff_entry_matches(h1.diffs@[n], fhs[n], w.ranges@));
        assert(diff_entry_matches(h2.diffs@[n], fhs[n], w.ranges@));
    }
    assert forall|n: int, l: HunkLock|
        0 <= n < h1.diffs@.len() implies ((#[trigger] h1.diffs@[n].1@.contains(l))
        == h2.diffs@[n].1@.contains(l)) by {
        assert(diff_entry_matches(h1.diffs@[n], fhs[n], w.ranges@));
        assert(diff_entry_matches(h2.diffs@[n], fhs[n], w.ranges@));
        assert(h1.diffs@[n].1@.contains(l) == lock_matches(
            w.ranges@,
            fhs[n].0,
            fhs[n].1.old_start,
            fhs[n].1.old_lines,
            l,
        ));
        assert(h2.diffs@[n].1@.contains(l) == lock_matches(
            w.ranges@,
            fhs[n].0,
            fhs[n].1.old_start,
            fhs[n].1.old_lines,
            l,
        ));
    }
    assert forall|d: DependentDiff|
        h1.commit_dependent_diffs@.contains(d) == h2.commit_dependent_diffs@.contains(d) by {
        if diffs_have_dependent(h1.diffs@, d) {
            lemma_dependent_transfer(h1, h2, w, cs, d);
        }
        if diffs_have_dependent(h2.diffs@, d) {
            lemma_dependent_transfer(h2, h1, w, cs, d);
        }
    }
}

/// `r` is a result the plain inputs determine: some index the stacks
/// determine assembles with the changes into `r`.
pub open spec fn is_result_for(
    r: HunkDependencies,
    ss: Seq<InputStack>,
    cs: Seq<WorktreeChange>,
) -> bool {
    exists|w: WorkspaceRanges| #[trigger] is_index_for(w, ss) && is_dependencies_for(r, w, cs)
}

/// The whole pipeline over plain values: index the stacks, then assemble
/// the aggregate for the uncommitted changes.
pub fn hunk_dependencies(
    stacks: &Vec<InputStack>,
    worktree_changes: &Vec<WorktreeChange>,
) -> (r: HunkDependencies)
    requires
        changes_well_formed(worktree_changes@),
    ensures
        is_result_for(r, stacks@, worktree_changes@),
{
    let w = WorkspaceRanges::from_input_stacks(stacks);
    let ghost gw = w;
    let r = HunkDependencies::from_workspace_ranges(w, worktree_changes);
    proof {
        assert(is_index_for(gw, stacks@) && is_dependencies_for(r, gw, worktree_changes@));
    }
    r
}

} // verus!
