//! The comparison adapter: lexicographic comparison of two handle sequences,
//! with per-element equality and ordering delegated to the host.
//!
//! All five comparisons share one shape.  Walk both sequences in parallel
//! and find the first pair the host does not consider equal; that pair
//! decides the result, through the host hook of the operation being asked.
//! If no mismatch exists within the common prefix, the lengths decide: a
//! strict prefix is less than the longer sequence.

use vstd::prelude::*;

use crate::errors::HostError;
use crate::host::Host;

verus! {

/// The length of the common prefix the host considers pairwise equal: the
/// first position where the sequences mismatch, or the shorter length when
/// they never do.
pub open spec fn first_mismatch<H: Host>(h: &H, a: Seq<u64>, b: Seq<u64>) -> int
    decreases a.len(),
{
    if a.len() == 0 || b.len() == 0 {
        0
    } else if !h.eq_spec(a[0], b[0]) {
        0
    } else {
        1 + first_mismatch(h, a.skip(1), b.skip(1))
    }
}

/// The shorter of the two lengths.
pub open spec fn common_len(a: Seq<u64>, b: Seq<u64>) -> int {
    if a.len() <= b.len() {
        a.len() as int
    } else {
        b.len() as int
    }
}

/// Whether every equality hook the mismatch walk makes returns without
/// failing: all pairs up to and including the first mismatching one.
pub open spec fn mismatch_scan_ok<H: Host>(h: &H, a: Seq<u64>, b: Seq<u64>) -> bool
    decreases a.len(),
{
    if a.len() == 0 || b.len() == 0 {
        true
    } else if !h.eq_ok(a[0], b[0]) {
        false
    } else if !h.eq_spec(a[0], b[0]) {
        true
    } else {
        mismatch_scan_ok(h, a.skip(1), b.skip(1))
    }
}

/// What the recursive mismatch walk means position by position.
pub proof fn lemma_mismatch_characterizes<H: Host>(h: &H, a: Seq<u64>, b: Seq<u64>)
    ensures
        0 <= first_mismatch(h, a, b) <= common_len(a, b),
        forall|j: int| 0 <= j < first_mismatch(h, a, b) ==> h.eq_spec(a[j], b[j]),
        first_mismatch(h, a, b) < common_len(a, b) ==> !h.eq_spec(
            a[first_mismatch(h, a, b)],
            b[first_mismatch(h, a, b)],
        ),
        mismatch_scan_ok(h, a, b) <==> (forall|j: int|
            0 <= j < common_len(a, b) && j <= first_mismatch(h, a, b) ==> h.eq_ok(a[j], b[j])),
    decreases a.len(),
{
    if a.len() == 0 || b.len() == 0 {
    } else {
        lemma_mismatch_characterizes(h, a.skip(1), b.skip(1));
        assert forall|j: int| 0 <= j < first_mismatch(h, a, b) implies h.eq_spec(a[j], b[j]) by {
            if j > 0 {
                assert(a.skip(1)[j - 1] == a[j]);
                assert(b.skip(1)[j - 1] == b[j]);
            }
        }
        if h.eq_ok(a[0], b[0]) && h.eq_spec(a[0], b[0]) {
            assert forall|j: int|
                0 <= j < common_len(a, b) && j <= first_mismatch(h, a, b) && mismatch_scan_ok(
                    h,
                    a,
                    b,
                ) implies h.eq_ok(a[j], b[j]) by {
                if j > 0 {
                    assert(a.skip(1)[j - 1] == a[j]);
                    assert(b.skip(1)[j - 1] == b[j]);
                }
            }
            if (forall|j: int|
                0 <= j < common_len(a, b) && j <= first_mismatch(h, a, b) ==> h.eq_ok(a[j], b[j])) {
                assert forall|j: int|
                    0 <= j < common_len(a.skip(1), b.skip(1)) && j <= first_mismatch(
                        h,
                        a.skip(1),
                        b.skip(1),
                    ) implies h.eq_ok(a.skip(1)[j], b.skip(1)[j]) by {
                    assert(a.skip(1)[j] == a[j + 1]);
                    assert(b.skip(1)[j] == b[j + 1]);
                }
            }
        }
    }
}

/// The position of the first pair whose equality hook fails, or the shorter
/// length when every pair's hook returns.  Only meaningful when the mismatch
/// walk fails at all: the walk never reaches a failing pair that lies past
/// the first mismatching one.
pub open spec fn first_failing_pair<H: Host>(h: &H, a: Seq<u64>, b: Seq<u64>) -> int
    decreases a.len(),
{
    if a.len() == 0 || b.len() == 0 {
        0
    } else if !h.eq_ok(a[0], b[0]) {
        0
    } else {
        1 + first_failing_pair(h, a.skip(1), b.skip(1))
    }
}

/// What the first failing pair means position by position.
pub proof fn lemma_failing_pair_characterizes<H: Host>(h: &H, a: Seq<u64>, b: Seq<u64>)
    ensures
        0 <= first_failing_pair(h, a, b) <= common_len(a, b),
        forall|j: int| 0 <= j < first_failing_pair(h, a, b) ==> h.eq_ok(a[j], b[j]),
        first_failing_pair(h, a, b) < common_len(a, b) ==> !h.eq_ok(
            a[first_failing_pair(h, a, b)],
            b[first_failing_pair(h, a, b)],
        ),
    decreases a.len(),
{
    if a.len() == 0 || b.len() == 0 {
    } else if !h.eq_ok(a[0], b[0]) {
    } else {
        lemma_failing_pair_characterizes(h, a.skip(1), b.skip(1));
        assert forall|j: int| 0 <= j < first_failing_pair(h, a, b) implies h.eq_ok(a[j], b[j]) by {
            if j > 0 {
                assert(a.skip(1)[j - 1] == a[j]);
                assert(b.skip(1)[j - 1] == b[j]);
            }
        }
    }
}

/// Host lexicographic equality: equal lengths and no mismatching pair.
pub open spec fn spec_lex_eq<H: Host>(h: &H, a: Seq<u64>, b: Seq<u64>) -> bool {
    a.len() == b.len() && first_mismatch(h, a, b) == a.len()
}

/// Host lexicographic strict "less than": the first mismatching pair
/// decides by host ordering; with none, the strict prefix is lesser.
pub open spec fn spec_lex_lt<H: Host>(h: &H, a: Seq<u64>, b: Seq<u64>) -> bool {
    let k = first_mismatch(h, a, b);
    if k < common_len(a, b) {
        h.lt_spec(a[k], b[k])
    } else {
        a.len() < b.len()
    }
}

/// Host lexicographic "less than or equal".
pub open spec fn spec_lex_le<H: Host>(h: &H, a: Seq<u64>, b: Seq<u64>) -> bool {
    let k = first_mismatch(h, a, b);
    if k < common_len(a, b) {
        h.le_spec(a[k], b[k])
    } else {
        a.len() <= b.len()
    }
}

/// Host lexicographic strict "greater than".
pub open spec fn spec_lex_gt<H: Host>(h: &H, a: Seq<u64>, b: Seq<u64>) -> bool {
    let k = first_mismatch(h, a, b);
    if k < common_len(a, b) {
        h.gt_spec(a[k], b[k])
    } else {
        a.len() > b.len()
    }
}

/// Host lexicographic "greater than or equal".
pub open spec fn spec_lex_ge<H: Host>(h: &H, a: Seq<u64>, b: Seq<u64>) -> bool {
    let k = first_mismatch(h, a, b);
    if k < common_len(a, b) {
        h.ge_spec(a[k], b[k])
    } else {
        a.len() >= b.len()
    }
}

/// Whether a comparison that decides through `op_ok` at the mismatch makes
/// only hook calls that return: the equality walk, then — if a mismatching
/// pair exists — that one ordering call.
pub open spec fn lex_calls_ok<H: Host>(
    h: &H,
    a: Seq<u64>,
    b: Seq<u64>,
    op_ok: spec_fn(u64, u64) -> bool,
) -> bool {
    let k = first_mismatch(h, a, b);
    mismatch_scan_ok(h, a, b) && (k < common_len(a, b) ==> op_ok(a[k], b[k]))
}

/// Finds the first pair of corresponding elements the host does not consider
/// equal, walking the common prefix in order; `common_len` when none
/// mismatches.  The first failing equality hook aborts the walk.
fn find_mismatch<H: Host>(h: &H, a: &Vec<u64>, b: &Vec<u64>) -> (r: Result<usize, HostError>)
    ensures
        r is Ok <==> mismatch_scan_ok(h, a@, b@),
        r is Ok ==> r->Ok_0 == first_mismatch(h, a@, b@),
        r is Err ==> r->Err_0 == h.eq_err(
            a@[first_failing_pair(h, a@, b@)],
            b@[first_failing_pair(h, a@, b@)],
        ),
{
    proof {
        lemma_mismatch_characterizes(h, a@, b@);
    }
    let m = if a.len() <= b.len() {
        a.len()
    } else {
        b.len()
    };
    let mut i: usize = 0;
    while i < m
        invariant
            m == common_len(a@, b@),
            i <= m,
            forall|j: int| 0 <= j < i ==> h.eq_spec(a@[j], b@[j]),
            forall|j: int| 0 <= j < i ==> h.eq_ok(a@[j], b@[j]),
        decreases m - i,
    {
        match h.host_eq(a[i], b[i]) {
            Ok(true) => {},
            Ok(false) => {
                proof {
                    lemma_mismatch_characterizes(h, a@, b@);
                }
                assert(first_mismatch(h, a@, b@) == i);
                return Ok(i);
            },
            Err(e) => {
                proof {
                    lemma_mismatch_characterizes(h, a@, b@);
                    lemma_failing_pair_characterizes(h, a@, b@);
                }
                assert(first_mismatch(h, a@, b@) >= i);
                assert(!mismatch_scan_ok(h, a@, b@));
                assert(first_failing_pair(h, a@, b@) == i);
                return Err(e);
            },
        }
        i += 1;
    }
    proof {
        lemma_mismatch_characterizes(h, a@, b@);
    }
    assert(first_mismatch(h, a@, b@) == m);
    Ok(m)
}

/// Lexicographic equality of two handle sequences by host equality.  Unequal
/// lengths answer at once, without consulting the host.
pub fn seq_eq<H: Host>(h: &H, a: &Vec<u64>, b: &Vec<u64>) -> (r: Result<bool, HostError>)
    ensures
        r is Ok <==> (a@.len() != b@.len() || mismatch_scan_ok(h, a@, b@)),
        r is Ok ==> r->Ok_0 == spec_lex_eq(h, a@, b@),
        r is Err ==> r->Err_0 == h.eq_err(
            a@[first_failing_pair(h, a@, b@)],
            b@[first_failing_pair(h, a@, b@)],
        ),
{
    if a.len() != b.len() {
        return Ok(false);
    }
    proof {
        lemma_mismatch_characterizes(h, a@, b@);
    }
    match find_mismatch(h, a, b) {
        Ok(k) => Ok(k == a.len()),
        Err(e) => Err(e),
    }
}

/// Lexicographic strict "less than" of two handle sequences.
pub fn seq_lt<H: Host>(h: &H, a: &Vec<u64>, b: &Vec<u64>) -> (r: Result<bool, HostError>)
    ensures
        r is Ok <==> lex_calls_ok(h, a@, b@, |x: u64, y: u64| h.lt_ok(x, y)),
        r is Ok ==> r->Ok_0 == spec_lex_lt(h, a@, b@),
        ({
            let k = first_mismatch(h, a@, b@);
            let f = first_failing_pair(h, a@, b@);
            &&& (!mismatch_scan_ok(h, a@, b@) ==> r == Err::<bool, HostError>(h.eq_err(
                a@[f],
                b@[f],
            )))
            &&& (mismatch_scan_ok(h, a@, b@) && k < common_len(a@, b@) && !h.lt_ok(a@[k], b@[k])
                ==> r == Err::<bool, HostError>(h.lt_err(a@[k], b@[k])))
        }),
{
    proof {
        lemma_mismatch_characterizes(h, a@, b@);
    }
    let m = if a.len() <= b.len() {
        a.len()
    } else {
        b.len()
    };
    match find_mismatch(h, a, b) {
        Ok(k) => {
            if k < m {
                match h.host_lt(a[k], b[k]) {
                    Ok(v) => Ok(v),
                    Err(e) => Err(e),
                }
            } else {
                Ok(a.len() < b.len())
            }
        },
        Err(e) => Err(e),
    }
}

/// Lexicographic "less than or equal" of two handle sequences.
pub fn seq_le<H: Host>(h: &H, a: &Vec<u64>, b: &Vec<u64>) -> (r: Result<bool, HostError>)
    ensures
        r is Ok <==> lex_calls_ok(h, a@, b@, |x: u64, y: u64| h.le_ok(x, y)),
        r is Ok ==> r->Ok_0 == spec_lex_le(h, a@, b@),
        ({
            let k = first_mismatch(h, a@, b@);
            let f = first_failing_pair(h, a@, b@);
            &&& (!mismatch_scan_ok(h, a@, b@) ==> r == Err::<bool, HostError>(h.eq_err(
                a@[f],
                b@[f],
            )))
            &&& (mismatch_scan_ok(h, a@, b@) && k < common_len(a@, b@) && !h.le_ok(a@[k], b@[k])
                ==> r == Err::<bool, HostError>(h.le_err(a@[k], b@[k])))
        }),
{
    proof {
        lemma_mismatch_characterizes(h, a@, b@);
    }
    let m = if a.len() <= b.len() {
        a.len()
    } else {
        b.len()
    };
    match find_mismatch(h, a, b) {
        Ok(k) => {
            if k < m {
                match h.host_le(a[k], b[k]) {
                    Ok(v) => Ok(v),
                    Err(e) => Err(e),
                }
            } else {
                Ok(a.len() <= b.len())
            }
        },
        Err(e) => Err(e),
    }
}

/// Lexicographic strict "greater than" of two handle sequences.
pub fn seq_gt<H: Host>(h: &H, a: &Vec<u64>, b: &Vec<u64>) -> (r: Result<bool, HostError>)
    ensures
        r is Ok <==> lex_calls_ok(h, a@, b@, |x: u64, y: u64| h.gt_ok(x, y)),
        r is Ok ==> r->Ok_0 == spec_lex_gt(h, a@, b@),
        ({
            let k = first_mismatch(h, a@, b@);
            let f = first_failing_pair(h, a@, b@);
            &&& (!mismatch_scan_ok(h, a@, b@) ==> r == Err::<bool, HostError>(h.eq_err(
                a@[f],
                b@[f],
            )))
            &&& (mismatch_scan_ok(h, a@, b@) && k < common_len(a@, b@) && !h.gt_ok(a@[k], b@[k])
                ==> r == Err::<bool, HostError>(h.gt_err(a@[k], b@[k])))
        }),
{
    proof {
        lemma_mismatch_characterizes(h, a@, b@);
    }
    let m = if a.len() <= b.len() {
        a.len()
    } else {
        b.len()
    };
    match find_mismatch(h, a, b) {
        Ok(k) => {
            if k < m {
                match h.host_gt(a[k], b[k]) {
                    Ok(v) => Ok(v),
                    Err(e) => Err(e),
                }
            } else {
                Ok(a.len() > b.len())
            }
        },
        Err(e) => Err(e),
    }
}

/// Lexicographic "greater than or equal" of two handle sequences.
pub fn seq_ge<H: Host>(h: &H, a: &Vec<u64>, b: &Vec<u64>) -> (r: Result<bool, HostError>)
    ensures
        r is Ok <==> lex_calls_ok(h, a@, b@, |x: u64, y: u64| h.ge_ok(x, y)),
        r is Ok ==> r->Ok_0 == spec_lex_ge(h, a@, b@),
        ({
            let k = first_mismatch(h, a@, b@);
            let f = first_failing_pair(h, a@, b@);
            &&& (!mismatch_scan_ok(h, a@, b@) ==> r == Err::<bool, HostError>(h.eq_err(
                a@[f],
                b@[f],
            )))
            &&& (mismatch_scan_ok(h, a@, b@) && k < common_len(a@, b@) && !h.ge_ok(a@[k], b@[k])
                ==> r == Err::<bool, HostError>(h.ge_err(a@[k], b@[k])))
        }),
{
    proof {
        lemma_mismatch_characterizes(h, a@, b@);
    }
    let m = if a.len() <= b.len() {
        a.len()
    } else {
        b.len()
    };
    match find_mismatch(h, a, b) {
        Ok(k) => {
            if k < m {
                match h.host_ge(a[k], b[k]) {
                    Ok(v) => Ok(v),
                    Err(e) => Err(e),
                }
            } else {
                Ok(a.len() >= b.len())
            }
        },
        Err(e) => Err(e),
    }
}

} // verus!
