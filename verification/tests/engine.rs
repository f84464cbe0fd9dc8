use std::hash::Hasher;

use hunk_deps::assemble::HunkDependencies;
use hunk_deps::assemble::UnifiedDiff;
use hunk_deps::assemble::WorktreeChange;
use hunk_deps::assemble::WorktreeHunk;
use hunk_deps::assemble::hunk_dependencies;
use hunk_deps::hash::hash_lines;
use hunk_deps::input::Edit;
use hunk_deps::input::InputCommit;
use hunk_deps::input::InputStack;
use hunk_deps::model::CalculationError;
use hunk_deps::model::CalculationErrorKind;
use hunk_deps::model::CommitGraphEdge;
use hunk_deps::model::CommitId;
use hunk_deps::model::HunkLock;
use hunk_deps::model::StackId;
use hunk_deps::ranges::WorkspaceRanges;

fn sid(n: u128) -> StackId {
    StackId { value: n }
}

fn cid(n: u128) -> CommitId {
    CommitId { hi: n, lo: 0 }
}

fn edit(path: &[u8], start: u32, lines: u32) -> Edit {
    Edit { path: path.to_vec(), start, lines }
}

fn ok_commit(id: CommitId, edits: Vec<Edit>) -> InputCommit {
    InputCommit { id, diff: Ok(edits) }
}

fn failed_commit(id: CommitId, kind: CalculationErrorKind) -> InputCommit {
    InputCommit { id, diff: Err(kind) }
}

fn patch_change(path: &[u8], hunks: Vec<WorktreeHunk>) -> WorktreeChange {
    WorktreeChange { path: path.to_vec(), diff: UnifiedDiff::Patch(hunks) }
}

fn hunk(old_start: u32, old_lines: u32, diff: &[u8]) -> WorktreeHunk {
    WorktreeHunk { old_start, old_lines, diff: diff.to_vec() }
}

const DIFF_A: &[u8] = b"@@ -12,2 +12,2 @@\n-old1\n-old2\n+new1\n+new2\n";
const DIFF_B: &[u8] = b"@@ -50,2 +50,2 @@\n-x\n-y\n+u\n+v\n";
const DIFF_C: &[u8] = b"@@ -4,3 +4,3 @@\n-p\n-q\n-r\n+s\n+t\n+w\n";

#[test]
fn single_overlap_lock_and_dependent_diff() {
    // Two stacks on one base; only stack X committed a change to f.txt,
    // lines [10, 16). An uncommitted hunk over [12, 14) overlaps it.
    let stacks = vec![
        InputStack {
            stack_id: sid(1),
            commits: vec![ok_commit(cid(10), vec![edit(b"f.txt", 10, 6)])],
        },
        InputStack { stack_id: sid(2), commits: vec![] },
    ];
    let changes = vec![patch_change(b"f.txt", vec![hunk(12, 2, DIFF_A)])];
    let deps = hunk_dependencies(&stacks, &changes);

    let expected_hash = hash_lines(&DIFF_A.to_vec());
    assert_eq!(deps.diffs.len(), 1);
    assert_eq!(deps.diffs[0].0, expected_hash);
    assert_eq!(deps.diffs[0].1, vec![HunkLock { stack_id: sid(1), commit_id: cid(10) }]);
    assert_eq!(deps.commit_dependent_diffs.len(), 1);
    assert_eq!(deps.commit_dependent_diffs[0].stack_id, sid(1));
    assert_eq!(deps.commit_dependent_diffs[0].commit_id, cid(10));
    assert_eq!(deps.commit_dependent_diffs[0].hash, expected_hash);
    assert!(deps.errors.is_empty());
}

#[test]
fn no_overlap_empty_lock_list() {
    // Same committed history, but the uncommitted hunk sits at [50, 52):
    // it is still analyzed, with an empty lock list.
    let stacks = vec![InputStack {
        stack_id: sid(1),
        commits: vec![ok_commit(cid(10), vec![edit(b"f.txt", 10, 6)])],
    }];
    let changes = vec![patch_change(b"f.txt", vec![hunk(50, 2, DIFF_B)])];
    let deps = hunk_dependencies(&stacks, &changes);

    assert_eq!(deps.diffs.len(), 1);
    assert_eq!(deps.diffs[0].0, hash_lines(&DIFF_B.to_vec()));
    assert!(deps.diffs[0].1.is_empty());
    assert!(deps.commit_dependent_diffs.is_empty());
}

#[test]
fn cross_stack_locks_no_edge() {
    // Stack X commit touches [1, 6), stack Y commit touches [3, 9) of the
    // same path. A hunk over [4, 7) locks to both; no dependency edge joins
    // commits of different stacks.
    let stacks = vec![
        InputStack {
            stack_id: sid(1),
            commits: vec![ok_commit(cid(10), vec![edit(b"f.txt", 1, 5)])],
        },
        InputStack {
            stack_id: sid(2),
            commits: vec![ok_commit(cid(20), vec![edit(b"f.txt", 3, 6)])],
        },
    ];
    let changes = vec![patch_change(b"f.txt", vec![hunk(4, 3, DIFF_C)])];
    let deps = hunk_dependencies(&stacks, &changes);

    assert_eq!(deps.diffs.len(), 1);
    let locks = &deps.diffs[0].1;
    assert_eq!(locks.len(), 2);
    assert!(locks.contains(&HunkLock { stack_id: sid(1), commit_id: cid(10) }));
    assert!(locks.contains(&HunkLock { stack_id: sid(2), commit_id: cid(20) }));
    assert!(deps.commit_dependencies.is_empty());
    assert!(deps.inverse_commit_dependencies.is_empty());
}

#[test]
fn determinism_same_input_same_output() {
    let build = || {
        let stacks = vec![
            InputStack {
                stack_id: sid(1),
                commits: vec![
                    ok_commit(cid(10), vec![edit(b"a.txt", 1, 5), edit(b"b.txt", 7, 2)]),
                    ok_commit(cid(11), vec![edit(b"a.txt", 3, 4)]),
                    failed_commit(cid(12), CalculationErrorKind::CommitDiff),
                ],
            },
            InputStack {
                stack_id: sid(2),
                commits: vec![ok_commit(cid(20), vec![edit(b"a.txt", 2, 2)])],
            },
        ];
        let changes = vec![
            patch_change(b"a.txt", vec![hunk(2, 3, DIFF_C), hunk(50, 2, DIFF_B)]),
            patch_change(b"c.txt", vec![hunk(12, 2, DIFF_A)]),
        ];
        hunk_dependencies(&stacks, &changes)
    };
    let d1: HunkDependencies = build();
    let d2: HunkDependencies = build();
    assert_eq!(d1.diffs, d2.diffs);
    assert_eq!(d1.commit_dependencies, d2.commit_dependencies);
    assert_eq!(d1.inverse_commit_dependencies, d2.inverse_commit_dependencies);
    assert_eq!(d1.commit_dependent_diffs, d2.commit_dependent_diffs);
    assert_eq!(d1.errors, d2.errors);
}

#[test]
fn hash_stable_on_same_bytes() {
    let d1 = DIFF_A.to_vec();
    let d2 = DIFF_A.to_vec();
    assert_eq!(hash_lines(&d1), hash_lines(&d2));
}

#[test]
fn hash_matches_fx_digest_of_body_lines() {
    // The identity must equal an independently computed FxHasher digest of
    // the post-header lines, each written with its terminator.
    let mut ctx = rustc_hash::FxHasher::default();
    ctx.write(b"-old1\n");
    ctx.write(b"-old2\n");
    ctx.write(b"+new1\n");
    ctx.write(b"+new2\n");
    assert_eq!(hash_lines(&DIFF_A.to_vec()), ctx.finish());

    // A header-only fragment has an empty body: the digest of no writes.
    let empty_body = rustc_hash::FxHasher::default().finish();
    assert_eq!(hash_lines(&b"@@ -1 +1 @@".to_vec()), empty_body);

    // A carriage return is part of its line; a final line without a
    // terminator is still fed to the hasher.
    let mut ctx2 = rustc_hash::FxHasher::default();
    ctx2.write(b"-a\r\n");
    ctx2.write(b"+b");
    assert_eq!(hash_lines(&b"@@ -1 +1 @@\n-a\r\n+b".to_vec()), ctx2.finish());
}

#[test]
fn hash_ignores_header_line() {
    let with_one_header = b"@@ -12,2 +12,2 @@\n-a\n+b\n".to_vec();
    let with_other_header = b"@@ -90,2 +95,2 @@\n-a\n+b\n".to_vec();
    assert_eq!(hash_lines(&with_one_header), hash_lines(&with_other_header));
}

#[test]
fn hash_differs_on_different_bodies() {
    assert_ne!(hash_lines(&DIFF_A.to_vec()), hash_lines(&DIFF_B.to_vec()));
    assert_ne!(hash_lines(&DIFF_A.to_vec()), hash_lines(&DIFF_C.to_vec()));
}

#[test]
fn free_hunk_on_unknown_path() {
    // No stack ever committed to g.txt: the hunk is analyzed and free.
    let stacks = vec![InputStack {
        stack_id: sid(1),
        commits: vec![ok_commit(cid(10), vec![edit(b"f.txt", 1, 100)])],
    }];
    let changes = vec![patch_change(b"g.txt", vec![hunk(1, 2, DIFF_A)])];
    let deps = hunk_dependencies(&stacks, &changes);
    assert_eq!(deps.diffs.len(), 1);
    assert!(deps.diffs[0].1.is_empty());
}

#[test]
fn lock_range_overlaps_recorded_range() {
    // Every lock returned by an intersection names a commit whose recorded
    // range overlaps the query under half-open semantics: [10, 16) meets
    // [15, 17) but not [16, 18).
    let stacks = vec![InputStack {
        stack_id: sid(1),
        commits: vec![ok_commit(cid(10), vec![edit(b"f.txt", 10, 6)])],
    }];
    let w = WorkspaceRanges::from_input_stacks(&stacks);
    let touching = w.intersection(&b"f.txt".to_vec(), 15, 2);
    assert_eq!(touching, vec![HunkLock { stack_id: sid(1), commit_id: cid(10) }]);
    let past_end = w.intersection(&b"f.txt".to_vec(), 16, 2);
    assert!(past_end.is_empty());
}

#[test]
fn graph_symmetry_forward_inverse() {
    // Commit 11 overlaps commit 10 on a.txt: one forward edge, and the
    // inverse list holds exactly the flipped edge.
    let stacks = vec![InputStack {
        stack_id: sid(1),
        commits: vec![
            ok_commit(cid(10), vec![edit(b"a.txt", 1, 5)]),
            ok_commit(cid(11), vec![edit(b"a.txt", 3, 4)]),
        ],
    }];
    let w = WorkspaceRanges::from_input_stacks(&stacks);
    assert_eq!(
        w.commit_dependencies,
        vec![CommitGraphEdge { stack_id: sid(1), commit_id: cid(11), other_id: cid(10) }]
    );
    assert_eq!(
        w.inverse_commit_dependencies,
        vec![CommitGraphEdge { stack_id: sid(1), commit_id: cid(10), other_id: cid(11) }]
    );
}

#[test]
fn diff_failure_collected_and_contained() {
    // Three commits; the third one's diff fails in one run. The failure is
    // collected, and the entries of the unaffected commits are unchanged.
    let with_third = |third: InputCommit| {
        vec![InputStack {
            stack_id: sid(1),
            commits: vec![
                ok_commit(cid(10), vec![edit(b"a.txt", 1, 5)]),
                ok_commit(cid(11), vec![edit(b"a.txt", 3, 4)]),
                third,
            ],
        }]
    };
    let healthy = with_third(ok_commit(cid(12), vec![edit(b"z.txt", 100, 5)]));
    let failing = with_third(failed_commit(cid(12), CalculationErrorKind::CommitDiff));
    let changes = vec![patch_change(b"a.txt", vec![hunk(2, 3, DIFF_C)])];

    let good = hunk_dependencies(&healthy, &changes);
    let bad = hunk_dependencies(&failing, &changes);

    assert!(good.errors.is_empty());
    assert_eq!(
        bad.errors,
        vec![CalculationError {
            error_kind: CalculationErrorKind::CommitDiff,
            stack_id: sid(1),
            commit_id: cid(12),
        }]
    );
    // The hunk's locks and the edge between the two healthy commits remain.
    assert_eq!(good.diffs, bad.diffs);
    assert_eq!(good.commit_dependencies, bad.commit_dependencies);
    assert_eq!(
        bad.commit_dependencies,
        vec![CommitGraphEdge { stack_id: sid(1), commit_id: cid(11), other_id: cid(10) }]
    );
}

#[test]
fn adjacent_edits_create_edge() {
    // [5, 10) and an edit starting exactly at line 10 are line-adjacent:
    // adjacency creates a dependency even without overlap.
    let stacks = vec![InputStack {
        stack_id: sid(1),
        commits: vec![
            ok_commit(cid(10), vec![edit(b"a.txt", 5, 5)]),
            ok_commit(cid(11), vec![edit(b"a.txt", 10, 2)]),
        ],
    }];
    let w = WorkspaceRanges::from_input_stacks(&stacks);
    assert_eq!(
        w.commit_dependencies,
        vec![CommitGraphEdge { stack_id: sid(1), commit_id: cid(11), other_id: cid(10) }]
    );
}

#[test]
fn disjoint_edits_create_no_edge() {
    let stacks = vec![InputStack {
        stack_id: sid(1),
        commits: vec![
            ok_commit(cid(10), vec![edit(b"a.txt", 5, 5)]),
            ok_commit(cid(11), vec![edit(b"a.txt", 11, 2)]),
            ok_commit(cid(12), vec![edit(b"other.txt", 5, 5)]),
        ],
    }];
    let w = WorkspaceRanges::from_input_stacks(&stacks);
    assert!(w.commit_dependencies.is_empty());
}

#[test]
fn zero_length_hunk_never_locks() {
    let stacks = vec![InputStack {
        stack_id: sid(1),
        commits: vec![ok_commit(cid(10), vec![edit(b"f.txt", 10, 6)])],
    }];
    let w = WorkspaceRanges::from_input_stacks(&stacks);
    assert!(w.intersection(&b"f.txt".to_vec(), 12, 0).is_empty());
}

#[test]
fn duplicate_locks_deduplicated() {
    // Two ranges of the same commit overlap the hunk: one lock, not two.
    let stacks = vec![InputStack {
        stack_id: sid(1),
        commits: vec![ok_commit(cid(10), vec![edit(b"f.txt", 10, 2), edit(b"f.txt", 13, 2)])],
    }];
    let w = WorkspaceRanges::from_input_stacks(&stacks);
    let locks = w.intersection(&b"f.txt".to_vec(), 10, 5);
    assert_eq!(locks, vec![HunkLock { stack_id: sid(1), commit_id: cid(10) }]);
}

#[test]
fn error_kinds_recorded() {
    let stacks = vec![InputStack {
        stack_id: sid(7),
        commits: vec![
            failed_commit(cid(1), CalculationErrorKind::StackMetadata),
            failed_commit(cid(2), CalculationErrorKind::PathRanges),
        ],
    }];
    let w = WorkspaceRanges::from_input_stacks(&stacks);
    assert_eq!(
        w.errors,
        vec![
            CalculationError {
                error_kind: CalculationErrorKind::StackMetadata,
                stack_id: sid(7),
                commit_id: cid(1),
            },
            CalculationError {
                error_kind: CalculationErrorKind::PathRanges,
                stack_id: sid(7),
                commit_id: cid(2),
            },
        ]
    );
}

#[test]
fn binary_and_mode_changes_skipped() {
    let stacks = vec![InputStack {
        stack_id: sid(1),
        commits: vec![ok_commit(cid(10), vec![edit(b"f.txt", 10, 6)])],
    }];
    let changes = vec![
        WorktreeChange { path: b"f.txt".to_vec(), diff: UnifiedDiff::Binary },
        WorktreeChange { path: b"f.txt".to_vec(), diff: UnifiedDiff::NoTextualDiff },
        patch_change(b"f.txt", vec![hunk(12, 2, DIFF_A)]),
    ];
    let deps = hunk_dependencies(&stacks, &changes);
    assert_eq!(deps.diffs.len(), 1);
    assert_eq!(deps.diffs[0].0, hash_lines(&DIFF_A.to_vec()));
}

#[test]
fn ranges_near_the_largest_line_number() {
    // Comparisons must not wrap near u32::MAX.
    let top = u32::MAX;
    let stacks = vec![InputStack {
        stack_id: sid(1),
        commits: vec![ok_commit(cid(10), vec![edit(b"f.txt", top - 5, 5)])],
    }];
    let w = WorkspaceRanges::from_input_stacks(&stacks);
    let locks = w.intersection(&b"f.txt".to_vec(), top - 3, 2);
    assert_eq!(locks, vec![HunkLock { stack_id: sid(1), commit_id: cid(10) }]);
    assert!(w.intersection(&b"f.txt".to_vec(), top, 1).is_empty());
}

#[test]
fn zero_length_edit_is_adjacent_but_never_locks() {
    // A pure insertion recorded at line 10 adjoins a range ending there, so
    // it creates a dependency edge; but a zero-length range overlaps no
    // uncommitted hunk.
    let stacks = vec![InputStack {
        stack_id: sid(1),
        commits: vec![
            ok_commit(cid(10), vec![edit(b"f.txt", 5, 5)]),
            ok_commit(cid(11), vec![edit(b"f.txt", 10, 0)]),
        ],
    }];
    let w = WorkspaceRanges::from_input_stacks(&stacks);
    assert_eq!(
        w.commit_dependencies,
        vec![CommitGraphEdge { stack_id: sid(1), commit_id: cid(11), other_id: cid(10) }]
    );
    let locks = w.intersection(&b"f.txt".to_vec(), 9, 5);
    assert_eq!(locks, vec![HunkLock { stack_id: sid(1), commit_id: cid(10) }]);
}

#[test]
fn intersection_empty_on_empty_index() {
    let w = WorkspaceRanges::from_input_stacks(&vec![]);
    assert!(w.ranges.is_empty());
    assert!(w.intersection(&b"f.txt".to_vec(), 1, 10).is_empty());
}
