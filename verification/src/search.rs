//! Search by host equality: the first matching position, whether the scan's
//! hook calls all return, and how many elements match.

use vstd::prelude::*;

use crate::host::Host;

verus! {

/// The first position in `s` whose element the host considers equal to `x`,
/// or `s.len()` when none is.
pub open spec fn spec_find<H: Host>(h: &H, s: Seq<u64>, x: u64) -> int
    decreases s.len(),
{
    if s.len() == 0 {
        0
    } else if h.eq_spec(s[0], x) {
        0
    } else {
        1 + spec_find(h, s.skip(1), x)
    }
}

/// Whether every equality hook a head-first scan for `x` makes returns: all
/// positions up to and including the first match.
pub open spec fn scan_ok<H: Host>(h: &H, s: Seq<u64>, x: u64) -> bool
    decreases s.len(),
{
    if s.len() == 0 {
        true
    } else if !h.eq_ok(s[0], x) {
        false
    } else if h.eq_spec(s[0], x) {
        true
    } else {
        scan_ok(h, s.skip(1), x)
    }
}

/// The position of the first element whose equality hook against `x` fails,
/// or `s.len()` when every hook returns.
pub open spec fn first_failing_eq<H: Host>(h: &H, s: Seq<u64>, x: u64) -> int
    decreases s.len(),
{
    if s.len() == 0 {
        0
    } else if !h.eq_ok(s[0], x) {
        0
    } else {
        1 + first_failing_eq(h, s.skip(1), x)
    }
}

/// What the first failing position means position by position.
pub proof fn lemma_failing_eq_characterizes<H: Host>(h: &H, s: Seq<u64>, x: u64)
    ensures
        0 <= first_failing_eq(h, s, x) <= s.len(),
        forall|j: int| 0 <= j < first_failing_eq(h, s, x) ==> h.eq_ok(s[j], x),
        first_failing_eq(h, s, x) < s.len() ==> !h.eq_ok(s[first_failing_eq(h, s, x)], x),
    decreases s.len(),
{
    if s.len() == 0 {
    } else if !h.eq_ok(s[0], x) {
    } else {
        lemma_failing_eq_characterizes(h, s.skip(1), x);
        assert forall|j: int| 0 <= j < first_failing_eq(h, s, x) implies h.eq_ok(s[j], x) by {
            if j > 0 {
                assert(s.skip(1)[j - 1] == s[j]);
            }
        }
    }
}

/// How many elements of `s` the host considers equal to `x`.
pub open spec fn spec_count<H: Host>(h: &H, s: Seq<u64>, x: u64) -> nat
    decreases s.len(),
{
    if s.len() == 0 {
        0
    } else {
        spec_count(h, s.drop_last(), x) + (if h.eq_spec(s.last(), x) {
            1nat
        } else {
            0nat
        })
    }
}

/// What the recursive scan means position by position.
pub proof fn lemma_find_characterizes<H: Host>(h: &H, s: Seq<u64>, x: u64)
    ensures
        0 <= spec_find(h, s, x) <= s.len(),
        forall|j: int| 0 <= j < spec_find(h, s, x) ==> !h.eq_spec(s[j], x),
        spec_find(h, s, x) < s.len() ==> h.eq_spec(s[spec_find(h, s, x)], x),
        scan_ok(h, s, x) <==> (forall|j: int|
            0 <= j < s.len() && j <= spec_find(h, s, x) ==> h.eq_ok(s[j], x)),
    decreases s.len(),
{
    if s.len() == 0 {
    } else {
        lemma_find_characterizes(h, s.skip(1), x);
        assert forall|j: int| 0 <= j < spec_find(h, s, x) implies !h.eq_spec(s[j], x) by {
            if j > 0 {
                assert(s.skip(1)[j - 1] == s[j]);
            }
        }
        if h.eq_ok(s[0], x) && !h.eq_spec(s[0], x) {
            assert forall|j: int|
                0 <= j < s.len() && j <= spec_find(h, s, x) && scan_ok(h, s, x) implies h.eq_ok(
                s[j],
                x,
            ) by {
                if j > 0 {
                    assert(s.skip(1)[j - 1] == s[j]);
                }
            }
            if (forall|j: int| 0 <= j < s.len() && j <= spec_find(h, s, x) ==> h.eq_ok(s[j], x)) {
                assert forall|j: int|
                    0 <= j < s.skip(1).len() && j <= spec_find(h, s.skip(1), x) implies h.eq_ok(
                    s.skip(1)[j],
                    x,
                ) by {
                    assert(s.skip(1)[j] == s[j + 1]);
                }
            }
        }
    }
}

/// Counting over one more element at the tail.
pub proof fn lemma_count_step<H: Host>(h: &H, s: Seq<u64>, x: u64, i: int)
    requires
        0 <= i < s.len(),
    ensures
        spec_count(h, s.take(i + 1), x) == spec_count(h, s.take(i), x) + (if h.eq_spec(s[i], x) {
            1nat
        } else {
            0nat
        }),
{
    assert(s.take(i + 1).drop_last() =~= s.take(i));
    assert(s.take(i + 1).last() == s[i]);
}

/// The count never exceeds the length.
pub proof fn lemma_count_le_len<H: Host>(h: &H, s: Seq<u64>, x: u64)
    ensures
        spec_count(h, s, x) <= s.len(),
    decreases s.len(),
{
    if s.len() > 0 {
        lemma_count_le_len(h, s.drop_last(), x);
    }
}

} // verus!
