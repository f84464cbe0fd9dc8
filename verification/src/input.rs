//! What the engine consumes: the committed history of every stack, as plain
//! values, plus the spec predicates that say what an input contains.
//!
//! The object-store collaborator diffs each commit against its predecessor in
//! the stack (the integration base for the first commit) before the engine
//! runs; a failure to diff one commit arrives as the error kind in that
//! commit's `diff` field and is collected, never raised.

use vstd::prelude::*;

use crate::model::CalculationError;
use crate::model::CalculationErrorKind;
use crate::model::CommitGraphEdge;
use crate::model::CommitId;
use crate::model::StackId;
use crate::model::ranges_depend;

verus! {

/// One path-scoped line-range edit a commit introduced, relative to its
/// immediate predecessor.
#[derive(Debug)]
pub struct Edit {
    pub path: Vec<u8>,
    /// First line of the edited range, in the predecessor's numbering.
    pub start: u32,
    /// Number of lines of the range; zero for a pure insertion.
    pub lines: u32,
}

/// One commit of a stack: its identifier, and the edits its diff produced or
/// the kind of recoverable failure that diff ended in.
#[derive(Debug)]
pub struct InputCommit {
    pub id: CommitId,
    pub diff: Result<Vec<Edit>, CalculationErrorKind>,
}

/// One branch stack: its identifier and its commits, ordered from the
/// integration base toward the tip.
#[derive(Debug)]
pub struct InputStack {
    pub stack_id: StackId,
    pub commits: Vec<InputCommit>,
}

/// `e` is the edit (`p`, `start`, `lines`).
pub open spec fn edit_is(e: Edit, p: Seq<u8>, start: u32, lines: u32) -> bool {
    e.path@ == p && e.start == start && e.lines == lines
}

/// Some edit among the first `n` of `es` is (`p`, `start`, `lines`).
pub open spec fn edits_have_upto(es: Seq<Edit>, n: int, p: Seq<u8>, start: u32, lines: u32) -> bool {
    exists|k: int| 0 <= k < n && #[trigger] edit_is(es[k], p, start, lines)
}

/// Commit `c` was diffed successfully and one of its edits is
/// (`p`, `start`, `lines`).
pub open spec fn commit_is_edit(
    c: InputCommit,
    cid: CommitId,
    p: Seq<u8>,
    start: u32,
    lines: u32,
) -> bool {
    &&& c.id == cid
    &&& c.diff matches Ok(es) && edits_have_upto(es@, es@.len() as int, p, start, lines)
}

/// Some commit among the first `n` of `s` is `cid` with that edit.
pub open spec fn stack_has_edit_upto(
    s: InputStack,
    n: int,
    cid: CommitId,
    p: Seq<u8>,
    start: u32,
    lines: u32,
) -> bool {
    exists|j: int| 0 <= j < n && #[trigger] commit_is_edit(s.commits@[j], cid, p, start, lines)
}

/// Stack `s` is `sid` and holds that edit under commit `cid`.
pub open spec fn stack_is_edit(
    s: InputStack,
    sid: StackId,
    cid: CommitId,
    p: Seq<u8>,
    start: u32,
    lines: u32,
) -> bool {
    s.stack_id == sid && stack_has_edit_upto(s, s.commits@.len() as int, cid, p, start, lines)
}

/// Some stack among the first `n` of `ss` is `sid` and holds that edit.
pub open spec fn input_has_edit_upto(
    ss: Seq<InputStack>,
    n: int,
    sid: StackId,
    cid: CommitId,
    p: Seq<u8>,
    start: u32,
    lines: u32,
) -> bool {
    exists|i: int| 0 <= i < n && #[trigger] stack_is_edit(ss[i], sid, cid, p, start, lines)
}

/// The input records the edit (`p`, `start`, `lines`) under commit `cid` of
/// stack `sid`, in a commit whose diff succeeded.
pub open spec fn input_has_edit(
    ss: Seq<InputStack>,
    sid: StackId,
    cid: CommitId,
    p: Seq<u8>,
    start: u32,
    lines: u32,
) -> bool {
    input_has_edit_upto(ss, ss.len() as int, sid, cid, p, start, lines)
}

/// Commit `c` is the commit `err` speaks of and failed with `err.error_kind`.
pub open spec fn commit_is_error(c: InputCommit, err: CalculationError) -> bool {
    &&& c.id == err.commit_id
    &&& c.diff matches Err(k) && k == err.error_kind
}

pub open spec fn stack_has_error_upto(s: InputStack, n: int, err: CalculationError) -> bool {
    exists|j: int| 0 <= j < n && #[trigger] commit_is_error(s.commits@[j], err)
}

pub open spec fn stack_is_error(s: InputStack, err: CalculationError) -> bool {
    s.stack_id == err.stack_id && stack_has_error_upto(s, s.commits@.len() as int, err)
}

pub open spec fn input_has_error_upto(ss: Seq<InputStack>, n: int, err: CalculationError) -> bool {
    exists|i: int| 0 <= i < n && #[trigger] stack_is_error(ss[i], err)
}

/// The input holds a commit whose diff failed exactly as `err` records.
pub open spec fn input_has_error(ss: Seq<InputStack>, err: CalculationError) -> bool {
    input_has_error_upto(ss, ss.len() as int, err)
}

/// The error entries one commit contributes: exactly one when its diff
/// failed, none otherwise.
pub open spec fn commit_errors(sid: StackId, c: InputCommit) -> Seq<CalculationError> {
    match c.diff {
        Err(k) => seq![CalculationError { error_kind: k, stack_id: sid, commit_id: c.id }],
        Ok(_) => Seq::empty(),
    }
}

/// The errors the first `n` commits of `s` contribute, in walk order.
pub open spec fn stack_errors_upto(s: InputStack, n: int) -> Seq<CalculationError>
    decreases n,
{
    if n <= 0 {
        Seq::empty()
    } else {
        stack_errors_upto(s, n - 1) + commit_errors(s.stack_id, s.commits@[n - 1])
    }
}

/// All errors one stack contributes, base to tip.
pub open spec fn stack_errors(s: InputStack) -> Seq<CalculationError> {
    stack_errors_upto(s, s.commits@.len() as int)
}

/// The errors the first `n` stacks contribute, in walk order.
pub open spec fn input_errors_upto(ss: Seq<InputStack>, n: int) -> Seq<CalculationError>
    decreases n,
{
    if n <= 0 {
        Seq::empty()
    } else {
        input_errors_upto(ss, n - 1) + stack_errors(ss[n - 1])
    }
}

/// Every error the input determines, in the order the walk discovers them.
pub open spec fn input_errors(ss: Seq<InputStack>) -> Seq<CalculationError> {
    input_errors_upto(ss, ss.len() as int)
}

/// The two edits touch the same path and their ranges overlap or adjoin.
pub open spec fn edits_pair_depends(a: Edit, b: Edit) -> bool {
    a.path@ == b.path@ && ranges_depend(
        a.start as int,
        a.lines as int,
        b.start as int,
        b.lines as int,
    )
}

/// Some edit of `xs` overlaps or adjoins some edit of `ys` on one path.
pub open spec fn edits_depend(xs: Seq<Edit>, ys: Seq<Edit>) -> bool {
    exists|k1: int, k2: int|
        0 <= k1 < xs.len() && 0 <= k2 < ys.len() && #[trigger] edits_pair_depends(xs[k1], ys[k2])
}

/// Both commits were diffed successfully and their edits meet on one path.
pub open spec fn commits_depend(later: InputCommit, earlier: InputCommit) -> bool {
    later.diff matches Ok(xs) && earlier.diff matches Ok(ys) && edits_depend(xs@, ys@)
}

/// Positions `j1 < j2` of `s` witness that the commit at `j2` (with id
/// `later`) depends on the commit at `j1` (with id `earlier`).
pub open spec fn dep_pair_is(
    s: InputStack,
    j1: int,
    j2: int,
    later: CommitId,
    earlier: CommitId,
) -> bool {
    0 <= j1 < j2 < s.commits@.len() && s.commits@[j2].id == later && s.commits@[j1].id == earlier
        && commits_depend(s.commits@[j2], s.commits@[j1])
}

/// Some pair strictly before the walk position (`m2`, `m1`) witnesses the
/// dependency: its `j2` is below `m2`, or equals `m2` with `j1` below `m1`.
pub open spec fn stack_has_dep_upto(
    s: InputStack,
    m2: int,
    m1: int,
    later: CommitId,
    earlier: CommitId,
) -> bool {
    exists|j1: int, j2: int|
        (j2 < m2 || (j2 == m2 && j1 < m1)) && #[trigger] dep_pair_is(s, j1, j2, later, earlier)
}

/// Stack `s` is the stack of `e` and holds the dependency `e` records:
/// within it, commit `e.commit_id` depends on the earlier `e.other_id`.
pub open spec fn stack_is_dep(s: InputStack, e: CommitGraphEdge) -> bool {
    s.stack_id == e.stack_id && stack_has_dep_upto(
        s,
        s.commits@.len() as int,
        0,
        e.commit_id,
        e.other_id,
    )
}

pub open spec fn input_has_dep_upto(ss: Seq<InputStack>, n: int, e: CommitGraphEdge) -> bool {
    exists|i: int| 0 <= i < n && #[trigger] stack_is_dep(ss[i], e)
}

/// The input holds, within the stack `e.stack_id`, an earlier commit
/// `e.other_id` and a later commit `e.commit_id` whose edits meet on a path.
pub open spec fn input_has_dep(ss: Seq<InputStack>, e: CommitGraphEdge) -> bool {
    input_has_dep_upto(ss, ss.len() as int, e)
}

pub proof fn lemma_edits_have_step(es: Seq<Edit>, n: int, p: Seq<u8>, start: u32, lines: u32)
    requires
        n >= 0,
    ensures
        edits_have_upto(es, n + 1, p, start, lines) == (edits_have_upto(es, n, p, start, lines)
            || edit_is(es[n], p, start, lines)),
{
    if edits_have_upto(es, n + 1, p, start, lines) {
        let k = choose|k: int| 0 <= k < n + 1 && #[trigger] edit_is(es[k], p, start, lines);
        if k < n {
            assert(edits_have_upto(es, n, p, start, lines));
        }
    }
    if edits_have_upto(es, n, p, start, lines) {
        let k = choose|k: int| 0 <= k < n && #[trigger] edit_is(es[k], p, start, lines);
        assert(0 <= k < n + 1 && edit_is(es[k], p, start, lines));
    }
    if edit_is(es[n], p, start, lines) {
        assert(0 <= n < n + 1 && edit_is(es[n], p, start, lines));
    }
}

pub proof fn lemma_stack_edit_step(
    s: InputStack,
    n: int,
    cid: CommitId,
    p: Seq<u8>,
    start: u32,
    lines: u32,
)
    requires
        n >= 0,
    ensures
        stack_has_edit_upto(s, n + 1, cid, p, start, lines) == (stack_has_edit_upto(
            s,
            n,
            cid,
            p,
            start,
            lines,
        ) || commit_is_edit(s.commits@[n], cid, p, start, lines)),
{
    if stack_has_edit_upto(s, n + 1, cid, p, start, lines) {
        let j = choose|j: int|
            0 <= j < n + 1 && #[trigger] commit_is_edit(s.commits@[j], cid, p, start, lines);
        if j < n {
            assert(stack_has_edit_upto(s, n, cid, p, start, lines));
        }
    }
    if stack_has_edit_upto(s, n, cid, p, start, lines) {
        let j = choose|j: int|
            0 <= j < n && #[trigger] commit_is_edit(s.commits@[j], cid, p, start, lines);
        assert(0 <= j < n + 1 && commit_is_edit(s.commits@[j], cid, p, start, lines));
    }
    if commit_is_edit(s.commits@[n], cid, p, start, lines) {
        assert(0 <= n < n + 1 && commit_is_edit(s.commits@[n], cid, p, start, lines));
    }
}

pub proof fn lemma_input_edit_step(
    ss: Seq<InputStack>,
    n: int,
    sid: StackId,
    cid: CommitId,
    p: Seq<u8>,
    start: u32,
    lines: u32,
)
    requires
        n >= 0,
    ensures
        input_has_edit_upto(ss, n + 1, sid, cid, p, start, lines) == (input_has_edit_upto(
            ss,
            n,
            sid,
            cid,
            p,
            start,
            lines,
        ) || stack_is_edit(ss[n], sid, cid, p, start, lines)),
{
    if input_has_edit_upto(ss, n + 1, sid, cid, p, start, lines) {
        let i = choose|i: int|
            0 <= i < n + 1 && #[trigger] stack_is_edit(ss[i], sid, cid, p, start, lines);
        if i < n {
            assert(input_has_edit_upto(ss, n, sid, cid, p, start, lines));
        }
    }
    if input_has_edit_upto(ss, n, sid, cid, p, start, lines) {
        let i = choose|i: int|
            0 <= i < n && #[trigger] stack_is_edit(ss[i], sid, cid, p, start, lines);
        assert(0 <= i < n + 1 && stack_is_edit(ss[i], sid, cid, p, start, lines));
    }
    if stack_is_edit(ss[n], sid, cid, p, start, lines) {
        assert(0 <= n < n + 1 && stack_is_edit(ss[n], sid, cid, p, start, lines));
    }
}

pub proof fn lemma_stack_error_step(s: InputStack, n: int, err: CalculationError)
    requires
        n >= 0,
    ensures
        stack_has_error_upto(s, n + 1, err) == (stack_has_error_upto(s, n, err) || commit_is_error(
            s.commits@[n],
            err,
        )),
{
    if stack_has_error_upto(s, n + 1, err) {
        let j = choose|j: int| 0 <= j < n + 1 && #[trigger] commit_is_error(s.commits@[j], err);
        if j < n {
            assert(stack_has_error_upto(s, n, err));
        }
    }
    if stack_has_error_upto(s, n, err) {
        let j = choose|j: int| 0 <= j < n && #[trigger] commit_is_error(s.commits@[j], err);
        assert(0 <= j < n + 1 && commit_is_error(s.commits@[j], err));
    }
    if commit_is_error(s.commits@[n], err) {
        assert(0 <= n < n + 1 && commit_is_error(s.commits@[n], err));
    }
}

pub proof fn lemma_input_error_step(ss: Seq<InputStack>, n: int, err: CalculationError)
    requires
        n >= 0,
    ensures
        input_has_error_upto(ss, n + 1, err) == (input_has_error_upto(ss, n, err) || stack_is_error(
            ss[n],
            err,
        )),
{
    if input_has_error_upto(ss, n + 1, err) {
        let i = choose|i: int| 0 <= i < n + 1 && #[trigger] stack_is_error(ss[i], err);
        if i < n {
            assert(input_has_error_upto(ss, n, err));
        }
    }
    if input_has_error_upto(ss, n, err) {
        let i = choose|i: int| 0 <= i < n && #[trigger] stack_is_error(ss[i], err);
        assert(0 <= i < n + 1 && stack_is_error(ss[i], err));
    }
    if stack_is_error(ss[n], err) {
        assert(0 <= n < n + 1 && stack_is_error(ss[n], err));
    }
}

pub proof fn lemma_input_dep_step(ss: Seq<InputStack>, n: int, e: CommitGraphEdge)
    requires
        n >= 0,
    ensures
        input_has_dep_upto(ss, n + 1, e) == (input_has_dep_upto(ss, n, e) || stack_is_dep(
            ss[n],
            e,
        )),
{
    if input_has_dep_upto(ss, n + 1, e) {
        let i = choose|i: int| 0 <= i < n + 1 && #[trigger] stack_is_dep(ss[i], e);
        if i < n {
            assert(input_has_dep_upto(ss, n, e));
        }
    }
    if input_has_dep_upto(ss, n, e) {
        let i = choose|i: int| 0 <= i < n && #[trigger] stack_is_dep(ss[i], e);
        assert(0 <= i < n + 1 && stack_is_dep(ss[i], e));
    }
    if stack_is_dep(ss[n], e) {
        assert(0 <= n < n + 1 && stack_is_dep(ss[n], e));
    }
}

pub proof fn lemma_stack_dep_inner_step(
    s: InputStack,
    m2: int,
    m1: int,
    later: CommitId,
    earlier: CommitId,
)
    requires
        m1 >= 0,
    ensures
        stack_has_dep_upto(s, m2, m1 + 1, later, earlier) == (stack_has_dep_upto(
            s,
            m2,
            m1,
            later,
            earlier,
        ) || dep_pair_is(s, m1, m2, later, earlier)),
{
    if stack_has_dep_upto(s, m2, m1 + 1, later, earlier) {
        let (j1, j2) = choose|j1: int, j2: int|
            (j2 < m2 || (j2 == m2 && j1 < m1 + 1)) && #[trigger] dep_pair_is(
                s,
                j1,
                j2,
                later,
                earlier,
            );
        if j2 < m2 || (j2 == m2 && j1 < m1) {
            assert(stack_has_dep_upto(s, m2, m1, later, earlier));
        } else {
            assert(dep_pair_is(s, m1, m2, later, earlier));
        }
    }
    if stack_has_dep_upto(s, m2, m1, later, earlier) {
        let (j1, j2) = choose|j1: int, j2: int|
            (j2 < m2 || (j2 == m2 && j1 < m1)) && #[trigger] dep_pair_is(s, j1, j2, later, earlier);
        assert((j2 < m2 || (j2 == m2 && j1 < m1 + 1)) && dep_pair_is(s, j1, j2, later, earlier));
    }
    if dep_pair_is(s, m1, m2, later, earlier) {
        assert((m2 < m2 || (m2 == m2 && m1 < m1 + 1)) && dep_pair_is(s, m1, m2, later, earlier));
    }
}

pub proof fn lemma_stack_dep_outer_step(s: InputStack, m2: int, later: CommitId, earlier: CommitId)
    requires
        m2 >= 0,
    ensures
        stack_has_dep_upto(s, m2 + 1, 0, later, earlier) == stack_has_dep_upto(
            s,
            m2,
            m2,
            later,
            earlier,
        ),
{
    if stack_has_dep_upto(s, m2 + 1, 0, later, earlier) {
        let (j1, j2) = choose|j1: int, j2: int|
            (j2 < m2 + 1 || (j2 == m2 + 1 && j1 < 0)) && #[trigger] dep_pair_is(
                s,
                j1,
                j2,
                later,
                earlier,
            );
        assert((j2 < m2 || (j2 == m2 && j1 < m2)) && dep_pair_is(s, j1, j2, later, earlier));
    }
    if stack_has_dep_upto(s, m2, m2, later, earlier) {
        let (j1, j2) = choose|j1: int, j2: int|
            (j2 < m2 || (j2 == m2 && j1 < m2)) && #[trigger] dep_pair_is(s, j1, j2, later, earlier);
        assert((j2 < m2 + 1 || (j2 == m2 + 1 && j1 < 0)) && dep_pair_is(s, j1, j2, later, earlier));
    }
}

/// When the commit at `m2` was not diffed successfully, no pair ending at
/// `m2` witnesses a dependency.
pub proof fn lemma_stack_dep_err(s: InputStack, m2: int, later: CommitId, earlier: CommitId)
    requires
        0 <= m2 < s.commits@.len(),
        !(s.commits@[m2].diff is Ok),
    ensures
        stack_has_dep_upto(s, m2, m2, later, earlier) == stack_has_dep_upto(
            s,
            m2,
            0,
            later,
            earlier,
        ),
{
    if stack_has_dep_upto(s, m2, m2, later, earlier) {
        let (j1, j2) = choose|j1: int, j2: int|
            (j2 < m2 || (j2 == m2 && j1 < m2)) && #[trigger] dep_pair_is(s, j1, j2, later, earlier);
        if j2 == m2 {
            assert(commits_depend(s.commits@[m2], s.commits@[j1]));
            assert(false);
        }
        assert((j2 < m2 || (j2 == m2 && j1 < 0)) && dep_pair_is(s, j1, j2, later, earlier));
    }
    if stack_has_dep_upto(s, m2, 0, later, earlier) {
        let (j1, j2) = choose|j1: int, j2: int|
            (j2 < m2 || (j2 == m2 && j1 < 0)) && #[trigger] dep_pair_is(s, j1, j2, later, earlier);
        assert((j2 < m2 || (j2 == m2 && j1 < m2)) && dep_pair_is(s, j1, j2, later, earlier));
    }
}

} // verus!
