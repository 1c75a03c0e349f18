//! The container's laws, proved once over the model that the operations'
//! contracts speak of.

use vstd::prelude::*;

use crate::cmp::common_len;
use crate::cmp::first_mismatch;
use crate::cmp::lemma_mismatch_characterizes;
use crate::cmp::spec_lex_eq;
use crate::cmp::spec_lex_lt;
use crate::deque::spec_extend_back;
use crate::deque::spec_extend_front;
use crate::deque::spec_push_back;
use crate::deque::spec_push_front;
use crate::host::Host;
use crate::rotation::lemma_left_rot_cancel;
use crate::rotation::lemma_left_rot_index;
use crate::rotation::rot_amount;
use crate::rotation::spec_rotate;

verus! {

/// A bounded container with a positive bound never grows past it: one push
/// at either end keeps `length <= b`.
pub proof fn lemma_push_preserves_bound(s: Seq<u64>, b: usize, x: u64)
    requires
        s.len() <= b,
        b >= 1,
    ensures
        spec_push_back(s, Some(b), x).len() <= b,
        spec_push_front(s, Some(b), x).len() <= b,
{
}

/// One push at either end.
pub enum Push {
    /// A tail push of this handle.
    Back(u64),
    /// A head push of this handle.
    Front(u64),
}

/// `s` after the pushes of `ps`, oldest first, each one evicting under the
/// bound independently.
pub open spec fn apply_pushes(s: Seq<u64>, bound: Option<usize>, ps: Seq<Push>) -> Seq<u64>
    decreases ps.len(),
{
    if ps.len() == 0 {
        s
    } else {
        match ps[0] {
            Push::Back(x) => apply_pushes(spec_push_back(s, bound, x), bound, ps.skip(1)),
            Push::Front(x) => apply_pushes(spec_push_front(s, bound, x), bound, ps.skip(1)),
        }
    }
}

/// A bounded container with a positive bound never grows past it, under any
/// sequence of pushes, at either end in any order.
pub proof fn lemma_pushes_preserve_bound(s: Seq<u64>, b: usize, ps: Seq<Push>)
    requires
        s.len() <= b,
        b >= 1,
    ensures
        apply_pushes(s, Some(b), ps).len() <= b,
    decreases ps.len(),
{
    if ps.len() > 0 {
        lemma_push_preserves_bound(s, b, match ps[0] {
            Push::Back(x) => x,
            Push::Front(x) => x,
        });
        match ps[0] {
            Push::Back(x) => {
                lemma_pushes_preserve_bound(spec_push_back(s, Some(b), x), b, ps.skip(1));
            },
            Push::Front(x) => {
                lemma_pushes_preserve_bound(spec_push_front(s, Some(b), x), b, ps.skip(1));
            },
        }
    }
}

/// A bounded container with a positive bound never grows past it, under any
/// sequence of tail pushes.
pub proof fn lemma_extend_back_preserves_bound(s: Seq<u64>, b: usize, xs: Seq<u64>)
    requires
        s.len() <= b,
        b >= 1,
    ensures
        spec_extend_back(s, Some(b), xs).len() <= b,
    decreases xs.len(),
{
    if xs.len() > 0 {
        lemma_push_preserves_bound(s, b, xs[0]);
        lemma_extend_back_preserves_bound(spec_push_back(s, Some(b), xs[0]), b, xs.skip(1));
    }
}

/// A bounded container with a positive bound never grows past it, under any
/// sequence of head pushes.
pub proof fn lemma_extend_front_preserves_bound(s: Seq<u64>, b: usize, xs: Seq<u64>)
    requires
        s.len() <= b,
        b >= 1,
    ensures
        spec_extend_front(s, Some(b), xs).len() <= b,
    decreases xs.len(),
{
    if xs.len() > 0 {
        lemma_extend_front_preserves_bound(spec_push_front(s, Some(b), xs[0]), b, xs.skip(1));
    }
}

/// A tail push onto a full container evicts exactly the head element — the
/// very element that stands foremost in a bound-less container before the
/// push — and the length stays at the bound.
pub proof fn lemma_push_back_evicts_head(s: Seq<u64>, b: usize, x: u64)
    requires
        s.len() == b,
        b >= 1,
    ensures
        spec_push_back(s, Some(b), x) == spec_push_back(s, None, x).drop_first(),
        spec_push_back(s, None, x).first() == s.first(),
        spec_push_back(s, Some(b), x).len() == b,
{
    assert(s.drop_first().push(x) =~= s.push(x).drop_first());
}

/// A head push onto a full container evicts exactly the tail element — the
/// element that stands last in a bound-less container before the push — and
/// the length stays at the bound.
pub proof fn lemma_push_front_evicts_tail(s: Seq<u64>, b: usize, x: u64)
    requires
        s.len() == b,
        b >= 1,
    ensures
        spec_push_front(s, Some(b), x) == spec_push_front(s, None, x).drop_last(),
        spec_push_front(s, None, x).last() == s.last(),
        spec_push_front(s, Some(b), x).len() == b,
{
    assert(seq![x] + s.drop_last() =~= (seq![x] + s).drop_last());
}

/// Rotating by `n` and then by `-n` restores the original order, for any
/// integer `n` and any length, the empty and the single-element container
/// included.
pub proof fn lemma_rotate_inverse(s: Seq<u64>, n: int)
    ensures
        spec_rotate(spec_rotate(s, n), -n) == s,
{
    if s.len() > 0 {
        let len = s.len() as int;
        let k1 = rot_amount(n, len);
        let k2 = rot_amount(-n, len);
        vstd::arithmetic::div_mod::lemma_mod_bound(-n, len);
        vstd::arithmetic::div_mod::lemma_mod_bound(n, len);
        lemma_left_rot_index(s, k1);
        assert((k1 + k2) % len == 0) by {
            vstd::arithmetic::div_mod::lemma_add_mod_noop(-n, n, len);
            vstd::arithmetic::div_mod::lemma_small_mod(0, len as nat);
        }
        lemma_left_rot_cancel(s, k1, k2);
    }
}

/// Reversing twice restores the original order.
pub proof fn lemma_reverse_involution(s: Seq<u64>)
    ensures
        s.reverse().reverse() == s,
{
    assert(s.reverse().reverse() =~= s);
}

/// A copy equals its original under host lexicographic equality, as long as
/// the host's equality holds of each element against itself; the copy's
/// sequence is the same, so only reflexivity on the elements is needed.
pub proof fn lemma_copy_eq<H: Host>(h: &H, s: Seq<u64>)
    requires
        forall|i: int| 0 <= i < s.len() ==> h.eq_spec(s[i], s[i]),
    ensures
        spec_lex_eq(h, s, s),
{
    lemma_mismatch_characterizes(h, s, s);
    let k = first_mismatch(h, s, s);
    if k < s.len() {
        assert(h.eq_spec(s[k], s[k]));
    }
}

/// The lexicographic prefix law: a strict prefix — shorter, with every
/// element host-equal to its counterpart — orders strictly below the longer
/// sequence.
pub proof fn lemma_prefix_lt<H: Host>(h: &H, a: Seq<u64>, b: Seq<u64>)
    requires
        a.len() < b.len(),
        forall|i: int| 0 <= i < a.len() ==> h.eq_spec(a[i], b[i]),
    ensures
        spec_lex_lt(h, a, b),
{
    lemma_mismatch_characterizes(h, a, b);
    let k = first_mismatch(h, a, b);
    if k < common_len(a, b) {
        assert(h.eq_spec(a[k], b[k]));
    }
}

} // verus!
