//! The stable 64-bit identity of an uncommitted hunk.
//!
//! A hunk arrives as a zero-context unified-diff fragment whose first line is
//! the `@@ ... @@` header. The identity is a non-cryptographic digest over the
//! remaining lines, each fed to the hasher with its terminator. Two hunks with
//! byte-identical bodies after the header collide by design: the identity is
//! an accepted approximation, not a cryptographic name.

use vstd::prelude::*;

use crate::bytes::subrange_vec;
use crate::model::HunkHash;

verus! {

/// A unified-diff fragment begins with a hunk header line, `@@ ... @@`.
/// 64 is the byte value of `@`.
pub open spec fn is_diff_fragment(d: Seq<u8>) -> bool {
    d.len() >= 2 && d[0] == 64u8 && d[1] == 64u8
}

/// Length of the first line of `s`, terminator (byte 10) included; the whole
/// of `s` when no terminator occurs.
pub open spec fn line_len(s: Seq<u8>) -> nat
    decreases s.len(),
{
    if s.len() == 0 {
        0
    } else if s[0] == 10u8 {
        1
    } else {
        1 + line_len(s.skip(1))
    }
}

proof fn lemma_line_len_bounds(s: Seq<u8>)
    ensures
        s.len() > 0 ==> 1 <= line_len(s) <= s.len(),
    decreases s.len(),
{
    if s.len() > 0 && s[0] != 10u8 {
        lemma_line_len_bounds(s.skip(1));
        assert(s.skip(1).len() == s.len() - 1);
        assert(line_len(s) == 1 + line_len(s.skip(1)));
    }
}

/// `s` split into its lines, each keeping its terminator; a final line
/// without terminator is kept too.
pub open spec fn lines_with_terminators(s: Seq<u8>) -> Seq<Seq<u8>>
    decreases s.len(),
    via lines_with_terminators_decreases
{
    if s.len() == 0 {
        Seq::empty()
    } else {
        seq![s.take(line_len(s) as int)] + lines_with_terminators(s.skip(line_len(s) as int))
    }
}

#[via_fn]
proof fn lines_with_terminators_decreases(s: Seq<u8>) {
    lemma_line_len_bounds(s);
}

/// What remains of a diff fragment once its header line is removed.
pub open spec fn body_after_header(d: Seq<u8>) -> Seq<u8> {
    d.skip(line_len(d) as int)
}

/// The digest rustc-hash's `FxHasher` produces for this sequence of byte
/// chunks, one `write` per chunk.
pub uninterp spec fn fx_digest_of(chunks: Seq<Seq<u8>>) -> u64;

/// Relies on rustc_hash::FxHasher through std::hash::Hasher: the hasher is
/// seeded with a fixed constant, so for a fixed target the digest of a
/// sequence of `write` calls depends on the written chunks alone.
#[verifier::external_body]
fn fx_hash_chunks(chunks: &Vec<Vec<u8>>) -> (r: u64)
    ensures
        r == fx_digest_of(chunks@.map_values(|c: Vec<u8>| c@)),
{
    let mut ctx = rustc_hash::FxHasher::default();
    for chunk in chunks.iter() {
        std::hash::Hasher::write(&mut ctx, chunk);
    }
    std::hash::Hasher::finish(&ctx)
}

/// The identity of a hunk: the digest of the lines after its header.
pub open spec fn hunk_hash_of(d: Seq<u8>) -> u64 {
    fx_digest_of(lines_with_terminators(body_after_header(d)))
}

/// Index just past the first line of `d` that starts at `from`.
fn find_line_end(d: &Vec<u8>, from: usize) -> (end: usize)
    requires
        from <= d.len(),
    ensures
        from <= end <= d.len(),
        end - from == line_len(d@.skip(from as int)),
{
    let mut i: usize = from;
    while i < d.len() && d[i] != 10u8
        invariant
            from <= i <= d.len(),
            forall|k: int| from <= k < i ==> d@[k] != 10u8,
        decreases d.len() - i,
    {
        i += 1;
    }
    proof {
        let rest = d@.skip(from as int);
        if i < d.len() {
            lemma_line_len_at(rest, i - from);
        } else {
            lemma_line_len_none(rest);
        }
    }
    if i < d.len() {
        i + 1
    } else {
        i
    }
}

proof fn lemma_line_len_at(s: Seq<u8>, p: int)
    requires
        0 <= p < s.len(),
        s[p] == 10u8,
        forall|k: int| 0 <= k < p ==> s[k] != 10u8,
    ensures
        line_len(s) == p + 1,
    decreases s.len(),
{
    if p > 0 {
        lemma_line_len_at(s.skip(1), p - 1);
    }
}

proof fn lemma_line_len_none(s: Seq<u8>)
    requires
        forall|k: int| 0 <= k < s.len() ==> s[k] != 10u8,
    ensures
        line_len(s) == s.len(),
    decreases s.len(),
{
    if s.len() > 0 {
        lemma_line_len_none(s.skip(1));
    }
}

/// Compute the identity of the unified-diff fragment `universal_diff`: skip
/// its header line, then digest every remaining line including terminators.
pub fn hash_lines(universal_diff: &Vec<u8>) -> (r: HunkHash)
    requires
        is_diff_fragment(universal_diff@),
    ensures
        r == hunk_hash_of(universal_diff@),
{
    let d = universal_diff;
    let header_end = find_line_end(d, 0);
    proof {
        assert(d@.skip(0) =~= d@);
    }
    let mut lines: Vec<Vec<u8>> = Vec::new();
    let mut j: usize = header_end;
    while j < d.len()
        invariant
            header_end <= j <= d.len(),
            header_end as int == line_len(d@),
            lines@.map_values(|c: Vec<u8>| c@) + lines_with_terminators(d@.skip(j as int))
                == lines_with_terminators(body_after_header(d@)),
        decreases d.len() - j,
    {
        let end = find_line_end(d, j);
        proof {
            lemma_line_len_bounds(d@.skip(j as int));
        }
        let line = subrange_vec(d, j, end);
        proof {
            let rest = d@.skip(j as int);
            let l = line_len(rest) as int;
            assert(rest.take(l) =~= d@.subrange(j as int, end as int));
            assert(rest.skip(l) =~= d@.skip(end as int));
            assert(lines_with_terminators(rest) == seq![rest.take(l)] + lines_with_terminators(
                rest.skip(l),
            ));
            assert(lines@.push(line).map_values(|c: Vec<u8>| c@) =~= lines@.map_values(
                |c: Vec<u8>| c@,
            ).push(line@));
            assert(lines@.map_values(|c: Vec<u8>| c@).push(line@) + lines_with_terminators(
                d@.skip(end as int),
            ) =~= lines@.map_values(|c: Vec<u8>| c@) + (seq![rest.take(l)]
                + lines_with_terminators(rest.skip(l))));
        }
        lines.push(line);
        j = end;
    }
    proof {
        assert(d@.skip(d@.len() as int) =~= Seq::<u8>::empty());
        assert(lines@.map_values(|c: Vec<u8>| c@) + lines_with_terminators(d@.skip(j as int))
            =~= lines@.map_values(|c: Vec<u8>| c@));
    }
    fx_hash_chunks(&lines)
}

/// The hunk identity depends only on the patch bytes after the header line:
/// two fragments whose bodies agree hash alike, whatever their headers say.
pub proof fn lemma_hash_ignores_header(a: Seq<u8>, b: Seq<u8>)
    requires
        body_after_header(a) == body_after_header(b),
    ensures
        hunk_hash_of(a) == hunk_hash_of(b),
{
}

} // verus!
