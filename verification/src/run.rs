//! Runs of equal bytes between two blobs.
//!
//! The encoder measures three kinds of run: the common prefix of the two
//! blobs, their common suffix, and how far a match found through the
//! fingerprint index goes on. A run is defined byte by byte; it is measured
//! sixteen and eight bytes at a time where that many bytes are left.

use vstd::bytes::{lemma_auto_spec_u64_to_from_le_bytes, spec_u64_from_le_bytes, u64_from_le_bytes};
use vstd::prelude::*;
use vstd::slice::slice_subrange;
use wide::u8x16;

verus! {

/// The smaller of two integers.
pub open spec fn min(a: int, b: int) -> int {
    if a <= b {
        a
    } else {
        b
    }
}

/// The number of bytes, at most `limit`, that `a` from `i` on and `b` from
/// `j` on have in common before they first differ.
pub open spec fn match_run(a: Seq<u8>, i: int, b: Seq<u8>, j: int, limit: int) -> nat
    decreases limit,
{
    if limit <= 0 || a[i] != b[j] {
        0
    } else {
        1 + match_run(a, i + 1, b, j + 1, limit - 1)
    }
}

/// The number of bytes, at most `limit`, that `a` before `i` and `b` before
/// `j` have in common, going backwards, before they first differ.
pub open spec fn match_run_back(a: Seq<u8>, i: int, b: Seq<u8>, j: int, limit: int) -> nat
    decreases limit,
{
    if limit <= 0 || a[i - 1] != b[j - 1] {
        0
    } else {
        1 + match_run_back(a, i - 1, b, j - 1, limit - 1)
    }
}

/// A forward run is no longer than its limit.
pub proof fn match_run_bounded(a: Seq<u8>, i: int, b: Seq<u8>, j: int, limit: int)
    ensures
        limit >= 0 ==> match_run(a, i, b, j, limit) <= limit,
        limit <= 0 ==> match_run(a, i, b, j, limit) == 0,
    decreases limit,
{
    if limit > 0 && a[i] == b[j] {
        match_run_bounded(a, i + 1, b, j + 1, limit - 1);
    }
}

/// A forward run is the longest stretch of equal bytes within the limit: the
/// bytes of the run are equal, and the run stops at the limit or at a pair of
/// bytes that differ.
pub proof fn match_run_is_longest(a: Seq<u8>, i: int, b: Seq<u8>, j: int, limit: int)
    requires
        0 <= i,
        0 <= j,
        0 <= limit,
        i + limit <= a.len(),
        j + limit <= b.len(),
    ensures
        0 <= match_run(a, i, b, j, limit) <= limit,
        a.subrange(i, i + match_run(a, i, b, j, limit)) == b.subrange(
            j,
            j + match_run(a, i, b, j, limit),
        ),
        match_run(a, i, b, j, limit) < limit ==> a[i + match_run(a, i, b, j, limit)] != b[j
            + match_run(a, i, b, j, limit)],
    decreases limit,
{
    let run = match_run(a, i, b, j, limit);
    if limit > 0 && a[i] == b[j] {
        match_run_is_longest(a, i + 1, b, j + 1, limit - 1);
        let rest = run - 1;
        assert(a.subrange(i, i + run) =~= seq![a[i]] + a.subrange(i + 1, i + 1 + rest));
        assert(b.subrange(j, j + run) =~= seq![b[j]] + b.subrange(j + 1, j + 1 + rest));
    } else {
        assert(a.subrange(i, i + run) =~= b.subrange(j, j + run));
    }
}

/// A stretch of equal bytes that stops at the limit or at a pair of bytes
/// that differ is the forward run.
pub proof fn match_run_unique(a: Seq<u8>, i: int, b: Seq<u8>, j: int, limit: int, run: int)
    requires
        0 <= i,
        0 <= j,
        0 <= run <= limit,
        i + limit <= a.len(),
        j + limit <= b.len(),
        a.subrange(i, i + run) == b.subrange(j, j + run),
        run == limit || a[i + run] != b[j + run],
    ensures
        match_run(a, i, b, j, limit) == run,
    decreases run,
{
    if run > 0 {
        assert(a[i] == a.subrange(i, i + run)[0]);
        assert(b[j] == b.subrange(j, j + run)[0]);
        assert(a.subrange(i + 1, i + run) =~= a.subrange(i, i + run).subrange(1, run));
        assert(b.subrange(j + 1, j + run) =~= b.subrange(j, j + run).subrange(1, run));
        match_run_unique(a, i + 1, b, j + 1, limit - 1, run - 1);
    }
}

/// A backward run is the longest stretch of equal bytes within the limit.
pub proof fn match_run_back_is_longest(a: Seq<u8>, i: int, b: Seq<u8>, j: int, limit: int)
    requires
        0 <= limit <= i <= a.len(),
        limit <= j <= b.len(),
    ensures
        0 <= match_run_back(a, i, b, j, limit) <= limit,
        a.subrange(i - match_run_back(a, i, b, j, limit), i) == b.subrange(
            j - match_run_back(a, i, b, j, limit),
            j,
        ),
        match_run_back(a, i, b, j, limit) < limit ==> a[i - match_run_back(a, i, b, j, limit) - 1]
            != b[j - match_run_back(a, i, b, j, limit) - 1],
    decreases limit,
{
    let run = match_run_back(a, i, b, j, limit);
    if limit > 0 && a[i - 1] == b[j - 1] {
        match_run_back_is_longest(a, i - 1, b, j - 1, limit - 1);
        let rest = run - 1;
        assert(a.subrange(i - run, i) =~= a.subrange(i - 1 - rest, i - 1).push(a[i - 1]));
        assert(b.subrange(j - run, j) =~= b.subrange(j - 1 - rest, j - 1).push(b[j - 1]));
    } else {
        assert(a.subrange(i - run, i) =~= b.subrange(j - run, j));
    }
}

/// A stretch of equal bytes, going backwards, that stops at the limit or at
/// a pair of bytes that differ is the backward run.
pub proof fn match_run_back_unique(a: Seq<u8>, i: int, b: Seq<u8>, j: int, limit: int, run: int)
    requires
        0 <= run <= limit <= i <= a.len(),
        limit <= j <= b.len(),
        a.subrange(i - run, i) == b.subrange(j - run, j),
        run == limit || a[i - run - 1] != b[j - run - 1],
    ensures
        match_run_back(a, i, b, j, limit) == run,
    decreases run,
{
    if run > 0 {
        assert(a[i - 1] == a.subrange(i - run, i)[run - 1]);
        assert(b[j - 1] == b.subrange(j - run, j)[run - 1]);
        assert(a.subrange(i - run, i - 1) =~= a.subrange(i - run, i).subrange(0, run - 1));
        assert(b.subrange(j - run, j - 1) =~= b.subrange(j - run, j).subrange(0, run - 1));
        match_run_back_unique(a, i - 1, b, j - 1, limit - 1, run - 1);
    }
}

/// Whether the sixteen bytes of `a` at `i` equal the sixteen bytes of `b` at
/// `j`.
///
/// Trusted: loads both chunks with `wide::u8x16::new` and compares them with
/// the vector's `==`, which holds exactly when all sixteen lanes are equal.
#[verifier::external_body]
fn chunk16_equal(a: &[u8], i: usize, b: &[u8], j: usize) -> (equal: bool)
    requires
        i + 16 <= a@.len(),
        j + 16 <= b@.len(),
    ensures
        equal == (a@.subrange(i as int, i + 16) == b@.subrange(j as int, j + 16)),
{
    let x = u8x16::new(a[i..i + 16].try_into().unwrap());
    let y = u8x16::new(b[j..j + 16].try_into().unwrap());
    x == y
}

/// Whether the eight bytes of `a` at `i` equal the eight bytes of `b` at
/// `j`, compared as one little-endian word each.
pub fn chunk8_equal(a: &[u8], i: usize, b: &[u8], j: usize) -> (equal: bool)
    requires
        i + 8 <= a@.len(),
        j + 8 <= b@.len(),
    ensures
        equal == (a@.subrange(i as int, i + 8) == b@.subrange(j as int, j + 8)),
{
    assert(a@.len() == a.len() && b@.len() == b.len());
    let x = u64_from_le_bytes(slice_subrange(a, i, i + 8));
    let y = u64_from_le_bytes(slice_subrange(b, j, j + 8));
    proof {
        lemma_auto_spec_u64_to_from_le_bytes();
        let sa = a@.subrange(i as int, i + 8);
        let sb = b@.subrange(j as int, j + 8);
        assert(x == spec_u64_from_le_bytes(sa));
        assert(y == spec_u64_from_le_bytes(sb));
        if x == y {
            assert(vstd::bytes::spec_u64_to_le_bytes(spec_u64_from_le_bytes(sa)) == sa);
            assert(vstd::bytes::spec_u64_to_le_bytes(spec_u64_from_le_bytes(sb)) == sb);
        }
    }
    x == y
}

/// Measures the forward run of `a` from `i` and `b` from `j` within `limit`.
pub fn forward_run(a: &[u8], i: usize, b: &[u8], j: usize, limit: usize) -> (run: usize)
    requires
        i + limit <= a@.len(),
        j + limit <= b@.len(),
    ensures
        run == match_run(a@, i as int, b@, j as int, limit as int),
{
    assert(a@.len() == a.len() && b@.len() == b.len());
    let mut len: usize = 0;
    assert(a@.subrange(i as int, i + len) =~= b@.subrange(j as int, j + len));
    while limit - len >= 16
        invariant
            len <= limit,
            i + limit <= a@.len() <= usize::MAX,
            j + limit <= b@.len() <= usize::MAX,
            a@.subrange(i as int, i + len) == b@.subrange(j as int, j + len),
        decreases limit - len,
    {
        if !chunk16_equal(a, i + len, b, j + len) {
            break ;
        }
        assert(a@.subrange(i as int, i + len + 16) =~= a@.subrange(i as int, i + len)
            + a@.subrange(i + len, i + len + 16));
        assert(b@.subrange(j as int, j + len + 16) =~= b@.subrange(j as int, j + len)
            + b@.subrange(j + len, j + len + 16));
        len += 16;
    }
    while limit - len >= 8
        invariant
            len <= limit,
            i + limit <= a@.len() <= usize::MAX,
            j + limit <= b@.len() <= usize::MAX,
            a@.subrange(i as int, i + len) == b@.subrange(j as int, j + len),
        decreases limit - len,
    {
        if !chunk8_equal(a, i + len, b, j + len) {
            break ;
        }
        assert(a@.subrange(i as int, i + len + 8) =~= a@.subrange(i as int, i + len)
            + a@.subrange(i + len, i + len + 8));
        assert(b@.subrange(j as int, j + len + 8) =~= b@.subrange(j as int, j + len)
            + b@.subrange(j + len, j + len + 8));
        len += 8;
    }
    while len < limit && a[i + len] == b[j + len]
        invariant
            len <= limit,
            i + limit <= a@.len() <= usize::MAX,
            j + limit <= b@.len() <= usize::MAX,
            a@.subrange(i as int, i + len) == b@.subrange(j as int, j + len),
        decreases limit - len,
    {
        assert(a@.subrange(i as int, i + len + 1) =~= a@.subrange(i as int, i + len).push(
            a@[i + len],
        ));
        assert(b@.subrange(j as int, j + len + 1) =~= b@.subrange(j as int, j + len).push(
            b@[j + len],
        ));
        len += 1;
    }
    proof {
        match_run_unique(a@, i as int, b@, j as int, limit as int, len as int);
    }
    len
}

/// Measures the backward run of `a` before `i` and `b` before `j` within
/// `limit`.
pub fn backward_run(a: &[u8], i: usize, b: &[u8], j: usize, limit: usize) -> (run: usize)
    requires
        limit <= i <= a@.len(),
        limit <= j <= b@.len(),
    ensures
        run == match_run_back(a@, i as int, b@, j as int, limit as int),
{
    let mut len: usize = 0;
    assert(a@.subrange(i - len, i as int) =~= b@.subrange(j - len, j as int));
    while limit - len >= 16
        invariant
            len <= limit,
            limit <= i <= a@.len(),
            limit <= j <= b@.len(),
            a@.subrange(i - len, i as int) == b@.subrange(j - len, j as int),
        decreases limit - len,
    {
        if !chunk16_equal(a, i - len - 16, b, j - len - 16) {
            break ;
        }
        assert(a@.subrange(i - len - 16, i as int) =~= a@.subrange(i - len - 16, i - len)
            + a@.subrange(i - len, i as int));
        assert(b@.subrange(j - len - 16, j as int) =~= b@.subrange(j - len - 16, j - len)
            + b@.subrange(j - len, j as int));
        len += 16;
    }
    while limit - len >= 8
        invariant
            len <= limit,
            limit <= i <= a@.len(),
            limit <= j <= b@.len(),
            a@.subrange(i - len, i as int) == b@.subrange(j - len, j as int),
        decreases limit - len,
    {
        if !chunk8_equal(a, i - len - 8, b, j - len - 8) {
            break ;
        }
        assert(a@.subrange(i - len - 8, i as int) =~= a@.subrange(i - len - 8, i - len)
            + a@.subrange(i - len, i as int));
        assert(b@.subrange(j - len - 8, j as int) =~= b@.subrange(j - len - 8, j - len)
            + b@.subrange(j - len, j as int));
        len += 8;
    }
    while len < limit && a[i - len - 1] == b[j - len - 1]
        invariant
            len <= limit,
            limit <= i <= a@.len(),
            limit <= j <= b@.len(),
            a@.subrange(i - len, i as int) == b@.subrange(j - len, j as int),
        decreases limit - len,
    {
        assert(a@.subrange(i - len - 1, i as int) =~= seq![a@[i - len - 1]] + a@.subrange(
            i - len,
            i as int,
        ));
        assert(b@.subrange(j - len - 1, j as int) =~= seq![b@[j - len - 1]] + b@.subrange(
            j - len,
            j as int,
        ));
        len += 1;
    }
    proof {
        match_run_back_unique(a@, i as int, b@, j as int, limit as int, len as int);
    }
    len
}

} // verus!
