//! The workspace range index.
//!
//! Walking every stack from the integration base toward the tip yields, per
//! successfully diffed commit, the line ranges it touched per path. The index
//! records each as a [`RangeRecord`], collects a [`CalculationError`] for
//! every commit whose diff failed, and derives the per-stack commit
//! dependency graph: a later commit depends on an earlier commit of the same
//! stack when their edits overlap or adjoin on one path. Ranges of different
//! stacks never create an edge, but both answer intersection queries.

use vstd::prelude::*;

use crate::bytes::bytes_eq;
use crate::bytes::copy_bytes;
use crate::input::Edit;
use crate::input::InputStack;
use crate::input::commit_is_edit;
use crate::input::commit_is_error;
use crate::input::dep_pair_is;
use crate::input::edit_is;
use crate::input::edits_depend;
use crate::input::edits_have_upto;
use crate::input::edits_pair_depends;
use crate::input::input_has_dep;
use crate::input::input_has_dep_upto;
use crate::input::input_has_edit;
use crate::input::input_has_edit_upto;
use crate::input::input_has_error;
use crate::input::input_has_error_upto;
use crate::input::input_errors;
use crate::input::input_errors_upto;
use crate::input::stack_errors;
use crate::input::stack_errors_upto;
use crate::input::commit_errors;
use crate::input::lemma_edits_have_step;
use crate::input::lemma_input_dep_step;
use crate::input::lemma_input_edit_step;
use crate::input::lemma_input_error_step;
use crate::input::lemma_stack_dep_err;
use crate::input::lemma_stack_dep_inner_step;
use crate::input::lemma_stack_dep_outer_step;
use crate::input::lemma_stack_edit_step;
use crate::input::lemma_stack_error_step;
use crate::input::stack_has_dep_upto;
use crate::input::stack_has_edit_upto;
use crate::input::stack_has_error_upto;
use crate::input::stack_is_dep;
use crate::input::stack_is_edit;
use crate::input::stack_is_error;
use crate::model::CalculationError;
use crate::model::CalculationErrorKind;
use crate::model::CommitGraphEdge;
use crate::model::CommitId;
use crate::model::HunkLock;
use crate::model::StackId;
use crate::model::flip_edge;
use crate::model::ranges_depend_exec;
use crate::model::ranges_overlap;
use crate::model::ranges_overlap_exec;

verus! {

/// One recorded committed range: within `stack_id`, commit `commit_id`
/// touched `[start, start+lines)` of `path`.
#[derive(Debug)]
pub struct RangeRecord {
    pub path: Vec<u8>,
    pub stack_id: StackId,
    pub commit_id: CommitId,
    pub start: u32,
    pub lines: u32,
}

/// `r` records exactly this stack, commit, path and range.
pub open spec fn range_record_is(
    r: RangeRecord,
    sid: StackId,
    cid: CommitId,
    p: Seq<u8>,
    start: u32,
    lines: u32,
) -> bool {
    r.stack_id == sid && r.commit_id == cid && r.path@ == p && r.start == start && r.lines == lines
}

/// The index holds a record with these fields.
pub open spec fn has_range(
    rs: Seq<RangeRecord>,
    sid: StackId,
    cid: CommitId,
    p: Seq<u8>,
    start: u32,
    lines: u32,
) -> bool {
    exists|k: int| 0 <= k < rs.len() && #[trigger] range_record_is(rs[k], sid, cid, p, start, lines)
}

proof fn lemma_has_range_push(
    rs: Seq<RangeRecord>,
    r: RangeRecord,
    sid: StackId,
    cid: CommitId,
    p: Seq<u8>,
    start: u32,
    lines: u32,
)
    ensures
        has_range(rs.push(r), sid, cid, p, start, lines) == (has_range(rs, sid, cid, p, start, lines)
            || range_record_is(r, sid, cid, p, start, lines)),
{
    if has_range(rs.push(r), sid, cid, p, start, lines) {
        let k = choose|k: int|
            0 <= k < rs.push(r).len() && #[trigger] range_record_is(
                rs.push(r)[k],
                sid,
                cid,
                p,
                start,
                lines,
            );
        if k < rs.len() {
            assert(rs.push(r)[k] == rs[k]);
            assert(range_record_is(rs[k], sid, cid, p, start, lines));
            assert(has_range(rs, sid, cid, p, start, lines));
        } else {
            assert(rs.push(r)[k] == r);
        }
    }
    if has_range(rs, sid, cid, p, start, lines) {
        let k = choose|k: int|
            0 <= k < rs.len() && #[trigger] range_record_is(rs[k], sid, cid, p, start, lines);
        assert(rs.push(r)[k] == rs[k]);
        assert(0 <= k < rs.push(r).len() && range_record_is(rs.push(r)[k], sid, cid, p, start, lines));
    }
    if range_record_is(r, sid, cid, p, start, lines) {
        let k = rs.len() as int;
        assert(rs.push(r)[k] == r);
        assert(0 <= k < rs.push(r).len() && range_record_is(rs.push(r)[k], sid, cid, p, start, lines));
    }
}

/// `rec` justifies lock `l` for a hunk at `p` over `[start, start+lines)`:
/// it is a range of `l`'s commit and stack on that path that overlaps the
/// hunk under half-open semantics.
pub open spec fn record_locks(
    rec: RangeRecord,
    p: Seq<u8>,
    start: u32,
    lines: u32,
    l: HunkLock,
) -> bool {
    rec.path@ == p && rec.stack_id == l.stack_id && rec.commit_id == l.commit_id && ranges_overlap(
        rec.start as int,
        rec.lines as int,
        start as int,
        lines as int,
    )
}

pub open spec fn lock_matches_upto(
    rs: Seq<RangeRecord>,
    n: int,
    p: Seq<u8>,
    start: u32,
    lines: u32,
    l: HunkLock,
) -> bool {
    exists|k: int| 0 <= k < n && #[trigger] record_locks(rs[k], p, start, lines, l)
}

/// Some recorded range justifies lock `l` for the queried hunk.
pub open spec fn lock_matches(
    rs: Seq<RangeRecord>,
    p: Seq<u8>,
    start: u32,
    lines: u32,
    l: HunkLock,
) -> bool {
    lock_matches_upto(rs, rs.len() as int, p, start, lines, l)
}

proof fn lemma_lock_matches_step(
    rs: Seq<RangeRecord>,
    n: int,
    p: Seq<u8>,
    start: u32,
    lines: u32,
    l: HunkLock,
)
    requires
        n >= 0,
    ensures
        lock_matches_upto(rs, n + 1, p, start, lines, l) == (lock_matches_upto(
            rs,
            n,
            p,
            start,
            lines,
            l,
        ) || record_locks(rs[n], p, start, lines, l)),
{
    if lock_matches_upto(rs, n + 1, p, start, lines, l) {
        let k = choose|k: int| 0 <= k < n + 1 && #[trigger] record_locks(rs[k], p, start, lines, l);
        if k < n {
            assert(lock_matches_upto(rs, n, p, start, lines, l));
        }
    }
    if lock_matches_upto(rs, n, p, start, lines, l) {
        let k = choose|k: int| 0 <= k < n && #[trigger] record_locks(rs[k], p, start, lines, l);
        assert(0 <= k < n + 1 && record_locks(rs[k], p, start, lines, l));
    }
    if record_locks(rs[n], p, start, lines, l) {
        assert(0 <= n < n + 1 && record_locks(rs[n], p, start, lines, l));
    }
}

/// The composite index over all stacks, with the derived per-stack commit
/// graphs and the collected recoverable errors.
#[derive(Debug)]
pub struct WorkspaceRanges {
    /// Every committed range recorded during the walk.
    pub ranges: Vec<RangeRecord>,
    /// Forward edges: `commit_id` depends on the earlier `other_id`.
    pub commit_dependencies: Vec<CommitGraphEdge>,
    /// Inverse edges, flipped pointwise from the forward list.
    pub inverse_commit_dependencies: Vec<CommitGraphEdge>,
    /// One entry per commit whose diff failed.
    pub errors: Vec<CalculationError>,
}

/// `r` is the index the input `ss` determines: records, edges and errors are
/// each characterized by membership, edges are duplicate-free, and the
/// inverse list is the forward list flipped pointwise.
pub open spec fn is_index_for(r: WorkspaceRanges, ss: Seq<InputStack>) -> bool {
    &&& forall|sid: StackId, cid: CommitId, p: Seq<u8>, start: u32, lines: u32|
        #![trigger has_range(r.ranges@, sid, cid, p, start, lines)]
        #![trigger input_has_edit(ss, sid, cid, p, start, lines)]
        has_range(r.ranges@, sid, cid, p, start, lines) == input_has_edit(
            ss,
            sid,
            cid,
            p,
            start,
            lines,
        )
    &&& forall|e: CommitGraphEdge|
        #![trigger r.commit_dependencies@.contains(e)]
        #![trigger input_has_dep(ss, e)]
        r.commit_dependencies@.contains(e) == input_has_dep(ss, e)
    &&& r.inverse_commit_dependencies@.len() == r.commit_dependencies@.len()
    &&& forall|x: int|
        0 <= x < r.commit_dependencies@.len() ==> r.inverse_commit_dependencies@[x] == flip_edge(
            r.commit_dependencies@[x],
        )
    &&& forall|x: int, y: int|
        0 <= x < y < r.commit_dependencies@.len() ==> r.commit_dependencies@[x]
            != r.commit_dependencies@[y]
    &&& forall|err: CalculationError|
        #![trigger r.errors@.contains(err)]
        #![trigger input_has_error(ss, err)]
        r.errors@.contains(err) == input_has_error(ss, err)
    &&& r.errors@ == input_errors(ss)
}

/// Linear search for an edge, compared field by field.
fn contains_edge(v: &Vec<CommitGraphEdge>, e: CommitGraphEdge) -> (r: bool)
    ensures
        r == v@.contains(e),
{
    let mut i: usize = 0;
    while i < v.len()
        invariant
            i <= v@.len(),
            forall|k: int| 0 <= k < i ==> v@[k] != e,
        decreases v@.len() - i,
    {
        if v[i] == e {
            assert(v@.contains(e));
            return true;
        }
        i += 1;
    }
    proof {
        if v@.contains(e) {
            let k = choose|k: int| 0 <= k < v@.len() && v@[k] == e;
            assert(false);
        }
    }
    false
}

/// Linear search for a lock, compared field by field.
fn contains_lock(v: &Vec<HunkLock>, l: HunkLock) -> (r: bool)
    ensures
        r == v@.contains(l),
{
    let mut i: usize = 0;
    while i < v.len()
        invariant
            i <= v@.len(),
            forall|k: int| 0 <= k < i ==> v@[k] != l,
        decreases v@.len() - i,
    {
        if v[i] == l {
            assert(v@.contains(l));
            return true;
        }
        i += 1;
    }
    proof {
        if v@.contains(l) {
            let k = choose|k: int| 0 <= k < v@.len() && v@[k] == l;
            assert(false);
        }
    }
    false
}

/// Whether some edit of `xs` and some edit of `ys` touch the same path with
/// overlapping or adjoining ranges.
fn edits_depend_exec(xs: &Vec<Edit>, ys: &Vec<Edit>) -> (r: bool)
    ensures
        r == edits_depend(xs@, ys@),
{
    let mut k1: usize = 0;
    while k1 < xs.len()
        invariant
            k1 <= xs@.len(),
            forall|a: int, b: int|
                0 <= a < k1 && 0 <= b < ys@.len() ==> !#[trigger] edits_pair_depends(
                    xs@[a],
                    ys@[b],
                ),
        decreases xs@.len() - k1,
    {
        let mut k2: usize = 0;
        while k2 < ys.len()
            invariant
                k1 < xs@.len(),
                k2 <= ys@.len(),
                forall|b: int| 0 <= b < k2 ==> !#[trigger] edits_pair_depends(xs@[k1 as int], ys@[b]),
            decreases ys@.len() - k2,
        {
            if bytes_eq(&xs[k1].path, &ys[k2].path) && ranges_depend_exec(
                xs[k1].start,
                xs[k1].lines,
                ys[k2].start,
                ys[k2].lines,
            ) {
                assert(edits_pair_depends(xs@[k1 as int], ys@[k2 as int]));
                return true;
            }
            k2 += 1;
        }
        k1 += 1;
    }
    proof {
        if edits_depend(xs@, ys@) {
            let (a, b) = choose|a: int, b: int|
                0 <= a < xs@.len() && 0 <= b < ys@.len() && #[trigger] edits_pair_depends(
                    xs@[a],
                    ys@[b],
                );
            assert(false);
        }
    }
    false
}

/// Record every edit of one successfully diffed commit of stack `sid`.
fn push_commit_records(
    ranges: &mut Vec<RangeRecord>,
    sid: StackId,
    cid: CommitId,
    edits: &Vec<Edit>,
)
    ensures
        forall|sid2: StackId, cid2: CommitId, p: Seq<u8>, st: u32, ln: u32|
            #![trigger has_range(final(ranges)@, sid2, cid2, p, st, ln)]
            has_range(final(ranges)@, sid2, cid2, p, st, ln) == (has_range(
                old(ranges)@,
                sid2,
                cid2,
                p,
                st,
                ln,
            ) || (sid2 == sid && cid2 == cid && edits_have_upto(
                edits@,
                edits@.len() as int,
                p,
                st,
                ln,
            ))),
{
    let mut k: usize = 0;
    while k < edits.len()
        invariant
            k <= edits@.len(),
            forall|sid2: StackId, cid2: CommitId, p: Seq<u8>, st: u32, ln: u32|
                #![trigger has_range(ranges@, sid2, cid2, p, st, ln)]
                has_range(ranges@, sid2, cid2, p, st, ln) == (has_range(
                    old(ranges)@,
                    sid2,
                    cid2,
                    p,
                    st,
                    ln,
                ) || (sid2 == sid && cid2 == cid && edits_have_upto(edits@, k as int, p, st, ln))),
        decreases edits@.len() - k,
    {
        let rec = RangeRecord {
            path: copy_bytes(&edits[k].path),
            stack_id: sid,
            commit_id: cid,
            start: edits[k].start,
            lines: edits[k].lines,
        };
        let ghost grec = rec;
        let ghost r0 = ranges@;
        ranges.push(rec);
        proof {
            assert(ranges@ == r0.push(grec));
            assert forall|sid2: StackId, cid2: CommitId, p: Seq<u8>, st: u32, ln: u32|
                #![trigger has_range(ranges@, sid2, cid2, p, st, ln)]
                has_range(ranges@, sid2, cid2, p, st, ln) == (has_range(
                    old(ranges)@,
                    sid2,
                    cid2,
                    p,
                    st,
                    ln,
                ) || (sid2 == sid && cid2 == cid && edits_have_upto(
                    edits@,
                    k as int + 1,
                    p,
                    st,
                    ln,
                ))) by {
                lemma_has_range_push(r0, grec, sid2, cid2, p, st, ln);
                lemma_edits_have_step(edits@, k as int, p, st, ln);
                assert(range_record_is(grec, sid2, cid2, p, st, ln) == (sid2 == sid && cid2 == cid
                    && edit_is(edits@[k as int], p, st, ln)));
            }
        }
        k += 1;
    }
}

/// Add the dependency edges one stack contributes: for every pair of
/// successfully diffed commits whose edits meet on a path, the later commit
/// depends on the earlier one. Each forward edge is pushed at most once,
/// with its flip pushed to the inverse list at the same moment.
fn push_stack_edges(fwd: &mut Vec<CommitGraphEdge>, inv: &mut Vec<CommitGraphEdge>, s: &InputStack)
    requires
        old(inv)@.len() == old(fwd)@.len(),
        forall|x: int|
            0 <= x < old(fwd)@.len() ==> old(inv)@[x] == flip_edge(old(fwd)@[x]),
        forall|x: int, y: int| 0 <= x < y < old(fwd)@.len() ==> old(fwd)@[x] != old(fwd)@[y],
    ensures
        final(inv)@.len() == final(fwd)@.len(),
        forall|x: int|
            0 <= x < final(fwd)@.len() ==> final(inv)@[x] == flip_edge(final(fwd)@[x]),
        forall|x: int, y: int| 0 <= x < y < final(fwd)@.len() ==> final(fwd)@[x] != final(fwd)@[y],
        forall|e: CommitGraphEdge| #![trigger final(fwd)@.contains(e)]
            final(fwd)@.contains(e) == (old(fwd)@.contains(e) || stack_is_dep(*s, e)),
{
    let mut j2: usize = 0;
    while j2 < s.commits.len()
        invariant
            j2 <= s.commits@.len(),
            inv@.len() == fwd@.len(),
            forall|x: int| 0 <= x < fwd@.len() ==> inv@[x] == flip_edge(fwd@[x]),
            forall|x: int, y: int| 0 <= x < y < fwd@.len() ==> fwd@[x] != fwd@[y],
            forall|e: CommitGraphEdge| #![trigger fwd@.contains(e)]
                fwd@.contains(e) == (old(fwd)@.contains(e) || (e.stack_id == s.stack_id
                    && stack_has_dep_upto(*s, j2 as int, 0, e.commit_id, e.other_id))),
        decreases s.commits@.len() - j2,
    {
        match &s.commits[j2].diff {
            Ok(later_edits) => {
                let mut j1: usize = 0;
                while j1 < j2
                    invariant
                        0 <= j1 <= j2 < s.commits@.len(),
                        s.commits@[j2 as int].diff == Ok::<Vec<Edit>, CalculationErrorKind>(
                            *later_edits,
                        ),
                        inv@.len() == fwd@.len(),
                        forall|x: int| 0 <= x < fwd@.len() ==> inv@[x] == flip_edge(fwd@[x]),
                        forall|x: int, y: int|
                            0 <= x < y < fwd@.len() ==> fwd@[x] != fwd@[y],
                        forall|e: CommitGraphEdge| #![trigger fwd@.contains(e)]
                            fwd@.contains(e) == (old(fwd)@.contains(e) || (e.stack_id
                                == s.stack_id && stack_has_dep_upto(
                                *s,
                                j2 as int,
                                j1 as int,
                                e.commit_id,
                                e.other_id,
                            ))),
                    decreases j2 - j1,
                {
                    match &s.commits[j1].diff {
                        Ok(earlier_edits) => {
                            let dep = edits_depend_exec(later_edits, earlier_edits);
                            if dep {
                                let edge = CommitGraphEdge {
                                    stack_id: s.stack_id,
                                    commit_id: s.commits[j2].id,
                                    other_id: s.commits[j1].id,
                                };
                                let ghost f0 = fwd@;
                                let ghost i0 = inv@;
                                let already = contains_edge(fwd, edge);
                                if !already {
                                    fwd.push(edge);
                                    inv.push(
                                        CommitGraphEdge {
                                            stack_id: edge.stack_id,
                                            commit_id: edge.other_id,
                                            other_id: edge.commit_id,
                                        },
                                    );
                                    proof {
                                        assert(fwd@ == f0.push(edge));
                                        assert forall|x: int| 0 <= x < f0.len() implies f0[x]
                                            != edge by {
                                            if f0[x] == edge {
                                                assert(f0.contains(edge));
                                            }
                                        }
                                    }
                                }
                                proof {
                                    assert forall|e: CommitGraphEdge|
                                        #![trigger fwd@.contains(e)]
                                        fwd@.contains(e) == (old(fwd)@.contains(e) || (e.stack_id
                                            == s.stack_id && stack_has_dep_upto(
                                            *s,
                                            j2 as int,
                                            j1 as int + 1,
                                            e.commit_id,
                                            e.other_id,
                                        ))) by {
                                        lemma_stack_dep_inner_step(
                                            *s,
                                            j2 as int,
                                            j1 as int,
                                            e.commit_id,
                                            e.other_id,
                                        );
                                        if !already {
                                            vstd::seq_lib::lemma_seq_contains_after_push(
                                                f0,
                                                edge,
                                                e,
                                            );
                                        }
                                        if e.stack_id == s.stack_id && dep_pair_is(
                                            *s,
                                            j1 as int,
                                            j2 as int,
                                            e.commit_id,
                                            e.other_id,
                                        ) {
                                            assert(e == edge);
                                        }
                                        if e == edge {
                                            assert(dep_pair_is(
                                                *s,
                                                j1 as int,
                                                j2 as int,
                                                edge.commit_id,
                                                edge.other_id,
                                            ));
                                        }
                                    }
                                }
                            } else {
                                proof {
                                    assert forall|e: CommitGraphEdge|
                                        #![trigger fwd@.contains(e)]
                                        fwd@.contains(e) == (old(fwd)@.contains(e) || (e.stack_id
                                            == s.stack_id && stack_has_dep_upto(
                                            *s,
                                            j2 as int,
                                            j1 as int + 1,
                                            e.commit_id,
                                            e.other_id,
                                        ))) by {
                                        lemma_stack_dep_inner_step(
                                            *s,
                                            j2 as int,
                                            j1 as int,
                                            e.commit_id,
                                            e.other_id,
                                        );
                                        assert(!dep_pair_is(
                                            *s,
                                            j1 as int,
                                            j2 as int,
                                            e.commit_id,
                                            e.other_id,
                                        ));
                                    }
                                }
                            }
                        }
                        Err(_) => {
                            proof {
                                assert forall|e: CommitGraphEdge|
                                    #![trigger fwd@.contains(e)]
                                    fwd@.contains(e) == (old(fwd)@.contains(e) || (e.stack_id
                                        == s.stack_id && stack_has_dep_upto(
                                        *s,
                                        j2 as int,
                                        j1 as int + 1,
                                        e.commit_id,
                                        e.other_id,
                                    ))) by {
                                    lemma_stack_dep_inner_step(
                                        *s,
                                        j2 as int,
                                        j1 as int,
                                        e.commit_id,
                                        e.other_id,
                                    );
                                    assert(!dep_pair_is(
                                        *s,
                                        j1 as int,
                                        j2 as int,
                                        e.commit_id,
                                        e.other_id,
                                    ));
                                }
                            }
                        }
                    }
                    j1 += 1;
                }
                proof {
                    assert forall|e: CommitGraphEdge|
                        #![trigger fwd@.contains(e)]
                        fwd@.contains(e) == (old(fwd)@.contains(e) || (e.stack_id == s.stack_id
                            && stack_has_dep_upto(
                            *s,
                            j2 as int + 1,
                            0,
                            e.commit_id,
                            e.other_id,
                        ))) by {
                        lemma_stack_dep_outer_step(*s, j2 as int, e.commit_id, e.other_id);
                    }
                }
            }
            Err(_) => {
                proof {
                    assert forall|e: CommitGraphEdge|
                        #![trigger fwd@.contains(e)]
                        fwd@.contains(e) == (old(fwd)@.contains(e) || (e.stack_id == s.stack_id
                            && stack_has_dep_upto(
                            *s,
                            j2 as int + 1,
                            0,
                            e.commit_id,
                            e.other_id,
                        ))) by {
                        lemma_stack_dep_err(*s, j2 as int, e.commit_id, e.other_id);
                        lemma_stack_dep_outer_step(*s, j2 as int, e.commit_id, e.other_id);
                    }
                }
            }
        }
        j2 += 1;
    }
}

impl WorkspaceRanges {
    /// Build the index: walk every stack from base toward tip, record each
    /// successfully diffed commit's edits, collect one [`CalculationError`]
    /// per failed commit, and derive the intra-stack dependency edges with
    /// their inverse.
    pub fn from_input_stacks(stacks: &Vec<InputStack>) -> (r: WorkspaceRanges)
        ensures
            is_index_for(r, stacks@),
    {
        let mut ranges: Vec<RangeRecord> = Vec::new();
        let mut fwd: Vec<CommitGraphEdge> = Vec::new();
        let mut inv: Vec<CommitGraphEdge> = Vec::new();
        let mut errors: Vec<CalculationError> = Vec::new();
        proof {
            assert(input_errors_upto(stacks@, 0) == Seq::<CalculationError>::empty());
        }
        let mut i: usize = 0;
        while i < stacks.len()
            invariant
                i <= stacks@.len(),
                forall|sid2: StackId, cid2: CommitId, p: Seq<u8>, st: u32, ln: u32|
                    #![trigger has_range(ranges@, sid2, cid2, p, st, ln)]
                    has_range(ranges@, sid2, cid2, p, st, ln) == input_has_edit_upto(
                        stacks@,
                        i as int,
                        sid2,
                        cid2,
                        p,
                        st,
                        ln,
                    ),
                inv@.len() == fwd@.len(),
                forall|x: int| 0 <= x < fwd@.len() ==> inv@[x] == flip_edge(fwd@[x]),
                forall|x: int, y: int| 0 <= x < y < fwd@.len() ==> fwd@[x] != fwd@[y],
                forall|e: CommitGraphEdge| #![trigger fwd@.contains(e)]
                    fwd@.contains(e) == input_has_dep_upto(stacks@, i as int, e),
                forall|err: CalculationError| #![trigger errors@.contains(err)]
                    errors@.contains(err) == input_has_error_upto(stacks@, i as int, err),
                errors@ == input_errors_upto(stacks@, i as int),
            decreases stacks@.len() - i,
        {
            let s = &stacks[i];
            let sid = s.stack_id;
            proof {
                assert(stack_errors_upto(*s, 0) == Seq::<CalculationError>::empty());
                assert(input_errors_upto(stacks@, i as int) + stack_errors_upto(*s, 0)
                    =~= input_errors_upto(stacks@, i as int));
            }
            let mut j: usize = 0;
            while j < s.commits.len()
                invariant
                    j <= s.commits@.len(),
                    i < stacks@.len(),
                    stacks@[i as int] == *s,
                    sid == s.stack_id,
                    forall|sid2: StackId, cid2: CommitId, p: Seq<u8>, st: u32, ln: u32|
                        #![trigger has_range(ranges@, sid2, cid2, p, st, ln)]
                        has_range(ranges@, sid2, cid2, p, st, ln) == (input_has_edit_upto(
                            stacks@,
                            i as int,
                            sid2,
                            cid2,
                            p,
                            st,
                            ln,
                        ) || (sid2 == sid && stack_has_edit_upto(
                            *s,
                            j as int,
                            cid2,
                            p,
                            st,
                            ln,
                        ))),
                    forall|err: CalculationError| #![trigger errors@.contains(err)]
                        errors@.contains(err) == (input_has_error_upto(stacks@, i as int, err) || (
                        err.stack_id == sid && stack_has_error_upto(*s, j as int, err))),
                    errors@ == input_errors_upto(stacks@, i as int) + stack_errors_upto(
                        *s,
                        j as int,
                    ),
                decreases s.commits@.len() - j,
            {
                let c = &s.commits[j];
                match &c.diff {
                    Ok(edits) => {
                        push_commit_records(&mut ranges, sid, c.id, edits);
                        proof {
                            assert forall|sid2: StackId, cid2: CommitId, p: Seq<u8>, st: u32, ln: u32|
                                #![trigger has_range(ranges@, sid2, cid2, p, st, ln)]
                                has_range(ranges@, sid2, cid2, p, st, ln) == (input_has_edit_upto(
                                    stacks@,
                                    i as int,
                                    sid2,
                                    cid2,
                                    p,
                                    st,
                                    ln,
                                ) || (sid2 == sid && stack_has_edit_upto(
                                    *s,
                                    j as int + 1,
                                    cid2,
                                    p,
                                    st,
                                    ln,
                                ))) by {
                                lemma_stack_edit_step(*s, j as int, cid2, p, st, ln);
                                assert(s.commits@[j as int].diff == Ok::<
                                    Vec<Edit>,
                                    CalculationErrorKind,
                                >(*edits));
                            }
                            assert forall|err: CalculationError|
                                #![trigger errors@.contains(err)]
                                errors@.contains(err) == (input_has_error_upto(
                                    stacks@,
                                    i as int,
                                    err,
                                ) || (err.stack_id == sid && stack_has_error_upto(
                                    *s,
                                    j as int + 1,
                                    err,
                                ))) by {
                                lemma_stack_error_step(*s, j as int, err);
                                assert(!commit_is_error(s.commits@[j as int], err));
                            }
                            assert(stack_errors_upto(*s, j as int + 1) == stack_errors_upto(
                                *s,
                                j as int,
                            ) + commit_errors(s.stack_id, s.commits@[j as int]));
                            assert(commit_errors(s.stack_id, s.commits@[j as int])
                                =~= Seq::<CalculationError>::empty());
                            assert(stack_errors_upto(*s, j as int + 1) =~= stack_errors_upto(
                                *s,
                                j as int,
                            ));
                            assert(errors@ == input_errors_upto(stacks@, i as int)
                                + stack_errors_upto(*s, j as int + 1));
                        }
                    }
                    Err(kind) => {
                        let err0 = CalculationError {
                            error_kind: *kind,
                            stack_id: sid,
                            commit_id: c.id,
                        };
                        let ghost e0 = errors@;
                        errors.push(err0);
                        proof {
                            assert(errors@ == e0.push(err0));
                            assert forall|err: CalculationError|
                                #![trigger errors@.contains(err)]
                                errors@.contains(err) == (input_has_error_upto(
                                    stacks@,
                                    i as int,
                                    err,
                                ) || (err.stack_id == sid && stack_has_error_upto(
                                    *s,
                                    j as int + 1,
                                    err,
                                ))) by {
                                vstd::seq_lib::lemma_seq_contains_after_push(e0, err0, err);
                                lemma_stack_error_step(*s, j as int, err);
                                if commit_is_error(s.commits@[j as int], err) && err.stack_id
                                    == sid {
                                    assert(err == err0);
                                }
                                if err == err0 {
                                    assert(commit_is_error(s.commits@[j as int], err0));
                                }
                            }
                            assert(stack_errors_upto(*s, j as int + 1) == stack_errors_upto(
                                *s,
                                j as int,
                            ) + commit_errors(s.stack_id, s.commits@[j as int]));
                            assert(commit_errors(s.stack_id, s.commits@[j as int]) =~= seq![err0]);
                            assert(input_errors_upto(stacks@, i as int) + stack_errors_upto(
                                *s,
                                j as int + 1,
                            ) =~= (input_errors_upto(stacks@, i as int) + stack_errors_upto(
                                *s,
                                j as int,
                            )).push(err0));
                            assert(errors@ == input_errors_upto(stacks@, i as int)
                                + stack_errors_upto(*s, j as int + 1));
                            assert forall|sid2: StackId, cid2: CommitId, p: Seq<u8>, st: u32, ln: u32|
                                #![trigger has_range(ranges@, sid2, cid2, p, st, ln)]
                                has_range(ranges@, sid2, cid2, p, st, ln) == (input_has_edit_upto(
                                    stacks@,
                                    i as int,
                                    sid2,
                                    cid2,
                                    p,
                                    st,
                                    ln,
                                ) || (sid2 == sid && stack_has_edit_upto(
                                    *s,
                                    j as int + 1,
                                    cid2,
                                    p,
                                    st,
                                    ln,
                                ))) by {
                                lemma_stack_edit_step(*s, j as int, cid2, p, st, ln);
                                assert(!commit_is_edit(s.commits@[j as int], cid2, p, st, ln));
                            }
                        }
                    }
                }
                j += 1;
            }
            push_stack_edges(&mut fwd, &mut inv, s);
            proof {
                assert forall|sid2: StackId, cid2: CommitId, p: Seq<u8>, st: u32, ln: u32|
                    #![trigger has_range(ranges@, sid2, cid2, p, st, ln)]
                    has_range(ranges@, sid2, cid2, p, st, ln) == input_has_edit_upto(
                        stacks@,
                        i as int + 1,
                        sid2,
                        cid2,
                        p,
                        st,
                        ln,
                    ) by {
                    lemma_input_edit_step(stacks@, i as int, sid2, cid2, p, st, ln);
                }
                assert forall|err: CalculationError|
                    #![trigger errors@.contains(err)]
                    errors@.contains(err) == input_has_error_upto(
                        stacks@,
                        i as int + 1,
                        err,
                    ) by {
                    lemma_input_error_step(stacks@, i as int, err);
                }
                assert forall|e: CommitGraphEdge|
                    #![trigger fwd@.contains(e)]
                    fwd@.contains(e) == input_has_dep_upto(stacks@, i as int + 1, e) by {
                    lemma_input_dep_step(stacks@, i as int, e);
                }
                assert(input_errors_upto(stacks@, i as int + 1) == input_errors_upto(
                    stacks@,
                    i as int,
                ) + stack_errors(stacks@[i as int]));
                assert(stack_errors(*s) == stack_errors_upto(*s, s.commits@.len() as int));
                assert(errors@ == input_errors_upto(stacks@, i as int + 1));
            }
            i += 1;
        }
        WorkspaceRanges {
            ranges,
            commit_dependencies: fwd,
            inverse_commit_dependencies: inv,
            errors,
        }
    }

    /// The distinct locks whose recorded range on `path` overlaps the
    /// half-open query range `[start, start+lines)`, in discovery order.
    /// Empty, not an error, when the path has no recorded history or no
    /// range overlaps: such a hunk is free.
    pub fn intersection(&self, path: &Vec<u8>, start: u32, lines: u32) -> (r: Vec<HunkLock>)
        ensures
            forall|l: HunkLock| #![trigger r@.contains(l)]
                r@.contains(l) == lock_matches(self.ranges@, path@, start, lines, l),
            forall|x: int, y: int| 0 <= x < y < r@.len() ==> r@[x] != r@[y],
            (forall|k: int| 0 <= k < self.ranges@.len() ==> (#[trigger] self.ranges@[k].path@)
                != path@) ==> r@.len() == 0,
    {
        broadcast use vstd::seq_lib::lemma_seq_contains_after_push;

        let mut r: Vec<HunkLock> = Vec::new();
        let mut k: usize = 0;
        while k < self.ranges.len()
            invariant
                k <= self.ranges@.len(),
                forall|l: HunkLock| #![trigger r@.contains(l)]
                    r@.contains(l) == lock_matches_upto(
                        self.ranges@,
                        k as int,
                        path@,
                        start,
                        lines,
                        l,
                    ),
                forall|x: int, y: int| 0 <= x < y < r@.len() ==> r@[x] != r@[y],
            decreases self.ranges@.len() - k,
        {
            let rec = &self.ranges[k];
            let hit = bytes_eq(&rec.path, path) && ranges_overlap_exec(
                rec.start,
                rec.lines,
                start,
                lines,
            );
            if hit {
                let l = HunkLock { stack_id: rec.stack_id, commit_id: rec.commit_id };
                let ghost r0 = r@;
                let already = contains_lock(&r, l);
                if !already {
                    r.push(l);
                    proof {
                        assert forall|x: int| 0 <= x < r0.len() implies r0[x] != l by {
                            if r0[x] == l {
                                assert(r0.contains(l));
                            }
                        }
                        assert(r@ == r0.push(l));
                    }
                }
                proof {
                    assert forall|l2: HunkLock|
                        r@.contains(l2) == lock_matches_upto(
                            self.ranges@,
                            k as int + 1,
                            path@,
                            start,
                            lines,
                            l2,
                        ) by {
                        lemma_lock_matches_step(self.ranges@, k as int, path@, start, lines, l2);
                        if !already {
                            vstd::seq_lib::lemma_seq_contains_after_push(r0, l, l2);
                            assert(r0.push(l).contains(l2) == (r0.contains(l2) || l2 == l));
                        }
                        if record_locks(self.ranges@[k as int], path@, start, lines, l2) {
                            assert(l2 == HunkLock {
                                stack_id: self.ranges@[k as int].stack_id,
                                commit_id: self.ranges@[k as int].commit_id,
                            });
                        }
                        if l2 == l {
                            assert(record_locks(self.ranges@[k as int], path@, start, lines, l));
                        }
                    }
                }
            } else {
                proof {
                    assert forall|l2: HunkLock|
                        r@.contains(l2) == lock_matches_upto(
                            self.ranges@,
                            k as int + 1,
                            path@,
                            start,
                            lines,
                            l2,
                        ) by {
                        lemma_lock_matches_step(self.ranges@, k as int, path@, start, lines, l2);
                        assert(!record_locks(self.ranges@[k as int], path@, start, lines, l2));
                    }
                }
            }
            k += 1;
        }
        proof {
            if (forall|k2: int| 0 <= k2 < self.ranges@.len() ==> (#[trigger] self.ranges@[k2].path@)
                != path@) && r@.len() > 0 {
                assert(r@.contains(r@[0]));
                let k2 = choose|k2: int|
                    0 <= k2 < self.ranges@.len() && #[trigger] record_locks(
                        self.ranges@[k2],
                        path@,
                        start,
                        lines,
                        r@[0],
                    );
                assert(false);
            }
        }
        r
    }
}

/// Free-hunk law: a hunk on a path with no recorded committed history
/// matches no lock, so any lock list the index justifies for it is empty.
pub proof fn lemma_free_hunk(
    rs: Seq<RangeRecord>,
    p: Seq<u8>,
    start: u32,
    lines: u32,
    locks: Seq<HunkLock>,
)
    requires
        forall|k: int| 0 <= k < rs.len() ==> (#[trigger] rs[k].path@) != p,
        forall|l: HunkLock| #[trigger] locks.contains(l) == lock_matches(rs, p, start, lines, l),
    ensures
        locks.len() == 0,
{
    if locks.len() > 0 {
        assert(locks.contains(locks[0]));
        let k = choose|k: int|
            0 <= k < rs.len() && #[trigger] record_locks(rs[k], p, start, lines, locks[0]);
        assert(false);
    }
}

/// Lock correctness law: every lock the index justifies for a hunk at `p`
/// over `[start, start+lines)` traces back to an edit the input recorded
/// under that lock's stack and commit, whose range overlaps the hunk under
/// half-open semantics.
pub proof fn lemma_lock_correct(
    r: WorkspaceRanges,
    ss: Seq<InputStack>,
    p: Seq<u8>,
    start: u32,
    lines: u32,
    l: HunkLock,
)
    requires
        is_index_for(r, ss),
        lock_matches(r.ranges@, p, start, lines, l),
    ensures
        exists|st2: u32, ln2: u32|
            #[trigger] input_has_edit(ss, l.stack_id, l.commit_id, p, st2, ln2) && ranges_overlap(
                st2 as int,
                ln2 as int,
                start as int,
                lines as int,
            ),
{
    let k = choose|k: int|
        0 <= k < r.ranges@.len() && #[trigger] record_locks(r.ranges@[k], p, start, lines, l);
    let rec = r.ranges@[k];
    assert(range_record_is(r.ranges@[k], l.stack_id, l.commit_id, p, rec.start, rec.lines));
    assert(has_range(r.ranges@, l.stack_id, l.commit_id, p, rec.start, rec.lines));
    assert(input_has_edit(ss, l.stack_id, l.commit_id, p, rec.start, rec.lines));
}

/// Graph symmetry law: the forward dependency list holds an edge iff the
/// inverse list holds the flipped edge.
pub proof fn lemma_graph_symmetry(r: WorkspaceRanges, ss: Seq<InputStack>, e: CommitGraphEdge)
    requires
        is_index_for(r, ss),
    ensures
        r.commit_dependencies@.contains(e) == r.inverse_commit_dependencies@.contains(flip_edge(e)),
{
    let fwd = r.commit_dependencies@;
    let inv = r.inverse_commit_dependencies@;
    if fwd.contains(e) {
        let x = choose|x: int| 0 <= x < fwd.len() && fwd[x] == e;
        assert(inv[x] == flip_edge(e));
        assert(inv.contains(flip_edge(e)));
    }
    if inv.contains(flip_edge(e)) {
        let x = choose|x: int| 0 <= x < inv.len() && inv[x] == flip_edge(e);
        assert(inv[x] == flip_edge(fwd[x]));
        assert(flip_edge(flip_edge(fwd[x])) == flip_edge(flip_edge(e)));
        assert(fwd[x] == e);
        assert(fwd.contains(e));
    }
}

/// Determinism law, index half: two indexes built from the same input agree
/// membership-wise on ranges, edges, and errors.
pub proof fn lemma_index_deterministic(r1: WorkspaceRanges, r2: WorkspaceRanges, ss: Seq<InputStack>)
    requires
        is_index_for(r1, ss),
        is_index_for(r2, ss),
    ensures
        forall|sid: StackId, cid: CommitId, p: Seq<u8>, st: u32, ln: u32|
            #![trigger has_range(r1.ranges@, sid, cid, p, st, ln)]
            #![trigger has_range(r2.ranges@, sid, cid, p, st, ln)]
            has_range(r1.ranges@, sid, cid, p, st, ln) == has_range(r2.ranges@, sid, cid, p, st, ln),
        forall|e: CommitGraphEdge|
            #![trigger r1.commit_dependencies@.contains(e)]
            #![trigger r2.commit_dependencies@.contains(e)]
            r1.commit_dependencies@.contains(e) == r2.commit_dependencies@.contains(e),
        forall|err: CalculationError|
            #![trigger r1.errors@.contains(err)]
            #![trigger r2.errors@.contains(err)]
            r1.errors@.contains(err) == r2.errors@.contains(err),
        r1.errors@ == r2.errors@,
{
    assert forall|sid: StackId, cid: CommitId, p: Seq<u8>, st: u32, ln: u32|
        has_range(r1.ranges@, sid, cid, p, st, ln) == has_range(
            r2.ranges@,
            sid,
            cid,
            p,
            st,
            ln,
        ) by {
        assert(has_range(r1.ranges@, sid, cid, p, st, ln) == input_has_edit(
            ss,
            sid,
            cid,
            p,
            st,
            ln,
        ));
        assert(has_range(r2.ranges@, sid, cid, p, st, ln) == input_has_edit(
            ss,
            sid,
            cid,
            p,
            st,
            ln,
        ));
    }
    assert forall|e: CommitGraphEdge|
        r1.commit_dependencies@.contains(e) == r2.commit_dependencies@.contains(e) by {
        assert(r1.commit_dependencies@.contains(e) == input_has_dep(ss, e));
        assert(r2.commit_dependencies@.contains(e) == input_has_dep(ss, e));
    }
    assert forall|err: CalculationError| r1.errors@.contains(err) == r2.errors@.contains(err) by {
        assert(r1.errors@.contains(err) == input_has_error(ss, err));
        assert(r2.errors@.contains(err) == input_has_error(ss, err));
    }
}

/// The stacks `ss1` and `ss2` agree everywhere except that the commit at
/// position `j0` of stack `i0` may carry a different `diff`; even there the
/// commit identifier is the same.
pub open spec fn inputs_agree_except(
    ss1: Seq<InputStack>,
    ss2: Seq<InputStack>,
    i0: int,
    j0: int,
) -> bool {
    &&& ss1.len() == ss2.len()
    &&& 0 <= i0 < ss1.len()
    &&& forall|i: int| 0 <= i < ss1.len() && i != i0 ==> ss2[i] == ss1[i]
    &&& ss2[i0].stack_id == ss1[i0].stack_id
    &&& ss2[i0].commits@.len() == ss1[i0].commits@.len()
    &&& 0 <= j0 < ss1[i0].commits@.len()
    &&& forall|j: int|
        0 <= j < ss1[i0].commits@.len() && j != j0 ==> ss2[i0].commits@[j] == ss1[i0].commits@[j]
    &&& ss2[i0].commits@[j0].id == ss1[i0].commits@[j0].id
}

proof fn lemma_input_edit_transfer_one(
    ss1: Seq<InputStack>,
    ss2: Seq<InputStack>,
    i0: int,
    j0: int,
    sid: StackId,
    cid: CommitId,
    p: Seq<u8>,
    st: u32,
    ln: u32,
)
    requires
        inputs_agree_except(ss1, ss2, i0, j0),
        cid != ss1[i0].commits@[j0].id,
        input_has_edit(ss1, sid, cid, p, st, ln),
    ensures
        input_has_edit(ss2, sid, cid, p, st, ln),
{
    let i = choose|i: int|
        0 <= i < ss1.len() && #[trigger] stack_is_edit(ss1[i], sid, cid, p, st, ln);
    if i != i0 {
        assert(ss2[i] == ss1[i]);
        assert(stack_is_edit(ss2[i], sid, cid, p, st, ln));
    } else {
        let j = choose|j: int|
            0 <= j < ss1[i0].commits@.len() && #[trigger] commit_is_edit(
                ss1[i0].commits@[j],
                cid,
                p,
                st,
                ln,
            );
        assert(ss1[i0].commits@[j].id == cid);
        assert(j != j0);
        assert(ss2[i0].commits@[j] == ss1[i0].commits@[j]);
        assert(commit_is_edit(ss2[i0].commits@[j], cid, p, st, ln));
        assert(stack_has_edit_upto(ss2[i0], ss2[i0].commits@.len() as int, cid, p, st, ln));
        assert(stack_is_edit(ss2[i0], sid, cid, p, st, ln));
    }
}

proof fn lemma_input_dep_transfer_one(
    ss1: Seq<InputStack>,
    ss2: Seq<InputStack>,
    i0: int,
    j0: int,
    e: CommitGraphEdge,
)
    requires
        inputs_agree_except(ss1, ss2, i0, j0),
        e.commit_id != ss1[i0].commits@[j0].id,
        e.other_id != ss1[i0].commits@[j0].id,
        input_has_dep(ss1, e),
    ensures
        input_has_dep(ss2, e),
{
    let i = choose|i: int| 0 <= i < ss1.len() && #[trigger] stack_is_dep(ss1[i], e);
    if i != i0 {
        assert(ss2[i] == ss1[i]);
        assert(stack_is_dep(ss2[i], e));
    } else {
        let n = ss1[i0].commits@.len() as int;
        let (j1, j2) = choose|j1: int, j2: int|
            (j2 < n || (j2 == n && j1 < 0)) && #[trigger] dep_pair_is(
                ss1[i0],
                j1,
                j2,
                e.commit_id,
                e.other_id,
            );
        assert(ss1[i0].commits@[j2].id == e.commit_id);
        assert(ss1[i0].commits@[j1].id == e.other_id);
        assert(j1 != j0 && j2 != j0);
        assert(ss2[i0].commits@[j1] == ss1[i0].commits@[j1]);
        assert(ss2[i0].commits@[j2] == ss1[i0].commits@[j2]);
        assert(dep_pair_is(ss2[i0], j1, j2, e.commit_id, e.other_id));
        assert(stack_has_dep_upto(
            ss2[i0],
            ss2[i0].commits@.len() as int,
            0,
            e.commit_id,
            e.other_id,
        ));
        assert(stack_is_dep(ss2[i0], e));
    }
}

/// Partial-failure containment law: replace one commit's successful diff by
/// a failure and rebuild. The new index reports exactly that error, and
/// every recorded range and every dependency edge not involving the failed
/// commit is unchanged.
pub proof fn lemma_partial_failure(
    ss1: Seq<InputStack>,
    ss2: Seq<InputStack>,
    i0: int,
    j0: int,
    r1: WorkspaceRanges,
    r2: WorkspaceRanges,
)
    requires
        is_index_for(r1, ss1),
        is_index_for(r2, ss2),
        inputs_agree_except(ss1, ss2, i0, j0),
        ss1[i0].commits@[j0].diff is Ok,
        ss2[i0].commits@[j0].diff is Err,
    ensures
        r2.errors@.contains(
            CalculationError {
                error_kind: ss2[i0].commits@[j0].diff->Err_0,
                stack_id: ss2[i0].stack_id,
                commit_id: ss2[i0].commits@[j0].id,
            },
        ),
        forall|sid: StackId, cid: CommitId, p: Seq<u8>, st: u32, ln: u32|
            #![trigger has_range(r1.ranges@, sid, cid, p, st, ln)]
            #![trigger has_range(r2.ranges@, sid, cid, p, st, ln)]
            cid != ss1[i0].commits@[j0].id ==> has_range(r1.ranges@, sid, cid, p, st, ln)
                == has_range(r2.ranges@, sid, cid, p, st, ln),
        forall|e: CommitGraphEdge|
            #![trigger r1.commit_dependencies@.contains(e)]
            #![trigger r2.commit_dependencies@.contains(e)]
            e.commit_id != ss1[i0].commits@[j0].id && e.other_id != ss1[i0].commits@[j0].id
                ==> r1.commit_dependencies@.contains(e) == r2.commit_dependencies@.contains(e),
{
    let c = ss1[i0].commits@[j0].id;
    let err0 = CalculationError {
        error_kind: ss2[i0].commits@[j0].diff->Err_0,
        stack_id: ss2[i0].stack_id,
        commit_id: ss2[i0].commits@[j0].id,
    };
    assert(commit_is_error(ss2[i0].commits@[j0], err0));
    assert(stack_has_error_upto(ss2[i0], ss2[i0].commits@.len() as int, err0));
    assert(stack_is_error(ss2[i0], err0));
    assert(input_has_error(ss2, err0));
    assert(r2.errors@.contains(err0));
    assert forall|sid: StackId, cid: CommitId, p: Seq<u8>, st: u32, ln: u32|
        cid != c implies has_range(r1.ranges@, sid, cid, p, st, ln) == has_range(
        r2.ranges@,
        sid,
        cid,
        p,
        st,
        ln,
    ) by {
        assert(has_range(r1.ranges@, sid, cid, p, st, ln) == input_has_edit(
            ss1,
            sid,
            cid,
            p,
            st,
            ln,
        ));
        assert(has_range(r2.ranges@, sid, cid, p, st, ln) == input_has_edit(
            ss2,
            sid,
            cid,
            p,
            st,
            ln,
        ));
        lemma_inputs_agree_symmetric(ss1, ss2, i0, j0);
        if input_has_edit(ss1, sid, cid, p, st, ln) {
            lemma_input_edit_transfer_one(ss1, ss2, i0, j0, sid, cid, p, st, ln);
        }
        if input_has_edit(ss2, sid, cid, p, st, ln) {
            lemma_input_edit_transfer_one(ss2, ss1, i0, j0, sid, cid, p, st, ln);
        }
    }
    assert forall|e: CommitGraphEdge|
        e.commit_id != c && e.other_id != c implies r1.commit_dependencies@.contains(e)
        == r2.commit_dependencies@.contains(e) by {
        assert(r1.commit_dependencies@.contains(e) == input_has_dep(ss1, e));
        assert(r2.commit_dependencies@.contains(e) == input_has_dep(ss2, e));
        lemma_inputs_agree_symmetric(ss1, ss2, i0, j0);
        if input_has_dep(ss1, e) {
            lemma_input_dep_transfer_one(ss1, ss2, i0, j0, e);
        }
        if input_has_dep(ss2, e) {
            lemma_input_dep_transfer_one(ss2, ss1, i0, j0, e);
        }
    }
}

proof fn lemma_inputs_agree_symmetric(ss1: Seq<InputStack>, ss2: Seq<InputStack>, i0: int, j0: int)
    requires
        inputs_agree_except(ss1, ss2, i0, j0),
    ensures
        inputs_agree_except(ss2, ss1, i0, j0),
{
}

} // verus!
