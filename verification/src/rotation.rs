//! Rotation, modelled as a left rotation by a reduced amount.
//!
//! `rotate(n)` with positive `n` moves the last `n` elements to the front,
//! one tail-pop/head-push pair at a time; negative `n` moves the first `|n|`
//! elements to the back symmetrically.  Repeating single-element moves makes
//! rotation by more than the length well defined — it wraps — and rotation
//! of an empty container a no-op.  Both directions reduce to one left
//! rotation whose amount is `(-n)` modulo the length.

use vstd::arithmetic::div_mod::lemma_add_mod_noop;
use vstd::arithmetic::div_mod::lemma_mod_add_multiples_vanish;
use vstd::arithmetic::div_mod::lemma_mod_bound;
use vstd::arithmetic::div_mod::lemma_small_mod;
use vstd::prelude::*;

verus! {

/// `s` rotated left by `k` places: the first `k` elements move to the back.
pub open spec fn left_rot(s: Seq<u64>, k: int) -> Seq<u64>
    recommends
        0 <= k <= s.len(),
{
    s.skip(k) + s.take(k)
}

/// The left-rotation amount that `rotate(n)` performs on a sequence of
/// length `len`.  A positive `n` is a right rotation, which is a left
/// rotation by the complement; the remainder here is Euclidean, so the
/// amount always lands in `[0, len)`.
pub open spec fn rot_amount(n: int, len: int) -> int
    recommends
        len > 0,
{
    (-n) % len
}

/// What `rotate(n)` leaves behind.
pub open spec fn spec_rotate(s: Seq<u64>, n: int) -> Seq<u64> {
    if s.len() == 0 {
        s
    } else {
        left_rot(s, rot_amount(n, s.len() as int))
    }
}

/// One move of the tail element to the front, as a tail-pop/head-push pair
/// performs it.
pub open spec fn rot1_right(s: Seq<u64>) -> Seq<u64>
    recommends
        s.len() > 0,
{
    seq![s.last()] + s.drop_last()
}

/// One move of the head element to the back, as a head-pop/tail-push pair
/// performs it.
pub open spec fn rot1_left(s: Seq<u64>) -> Seq<u64>
    recommends
        s.len() > 0,
{
    s.drop_first().push(s.first())
}

/// A left rotation reads each position `i` from position `i + k`, wrapped.
pub proof fn lemma_left_rot_index(s: Seq<u64>, k: int)
    requires
        0 <= k <= s.len(),
    ensures
        left_rot(s, k).len() == s.len(),
        forall|i: int|
            0 <= i < s.len() ==> left_rot(s, k)[i] == (if i + k < s.len() {
                s[i + k]
            } else {
                s[i + k - s.len()]
            }),
{
    assert forall|i: int| 0 <= i < s.len() implies left_rot(s, k)[i] == (if i + k < s.len() {
        s[i + k]
    } else {
        s[i + k - s.len()]
    }) by {
        if i < s.len() - k {
            assert(left_rot(s, k)[i] == s.skip(k)[i]);
        } else {
            assert(left_rot(s, k)[i] == s.take(k)[i - (s.len() - k)]);
        }
    }
}

/// Moving the tail element to the front advances the rotation by one.
pub proof fn lemma_step_right(s: Seq<u64>, t: int)
    requires
        s.len() > 0,
        t >= 0,
    ensures
        rot1_right(spec_rotate(s, t)) == spec_rotate(s, t + 1),
{
    let len = s.len() as int;
    let k = rot_amount(t, len);
    let k2 = rot_amount(t + 1, len);
    lemma_mod_bound(-t, len);
    lemma_mod_bound(-(t + 1), len);
    assert(k2 == (if k == 0 {
        len - 1
    } else {
        k - 1
    })) by {
        lemma_add_mod_noop(-t, -1, len);
        lemma_mod_add_multiples_vanish(-1, len);
        lemma_small_mod((len - 1) as nat, len as nat);
        assert((-1) % len == len - 1);
        assert(k2 == (k + len - 1) % len);
        if k == 0 {
            lemma_small_mod((len - 1) as nat, len as nat);
        } else {
            lemma_mod_add_multiples_vanish(k - 1, len);
            lemma_small_mod((k - 1) as nat, len as nat);
        }
    }
    lemma_left_rot_index(s, k);
    lemma_left_rot_index(s, k2);
    let u = left_rot(s, k);
    assert(rot1_right(u) =~= left_rot(s, k2)) by {
        assert(rot1_right(u).len() == len);
        assert forall|i: int| 0 <= i < len implies rot1_right(u)[i] == left_rot(s, k2)[i] by {
            if i == 0 {
                assert(rot1_right(u)[0] == u[len - 1]);
            } else {
                assert(rot1_right(u)[i] == u.drop_last()[i - 1]);
                assert(u.drop_last()[i - 1] == u[i - 1]);
            }
        }
    }
}

/// Moving the head element to the back backs the rotation up by one.
pub proof fn lemma_step_left(s: Seq<u64>, t: int)
    requires
        s.len() > 0,
        t <= 0,
    ensures
        rot1_left(spec_rotate(s, t)) == spec_rotate(s, t - 1),
{
    let len = s.len() as int;
    let k = rot_amount(t, len);
    let k2 = rot_amount(t - 1, len);
    lemma_mod_bound(-t, len);
    lemma_mod_bound(-(t - 1), len);
    assert(k2 == (if k + 1 == len {
        0
    } else {
        k + 1
    })) by {
        lemma_add_mod_noop(-t, 1, len);
        assert(k2 == (k + 1int % len) % len);
        if len == 1 {
            lemma_small_mod(0, 1);
        } else {
            lemma_small_mod(1, len as nat);
            if k + 1 == len {
                lemma_mod_add_multiples_vanish(0, len);
                lemma_small_mod(0, len as nat);
            } else {
                lemma_small_mod((k + 1) as nat, len as nat);
            }
        }
    }
    lemma_left_rot_index(s, k);
    lemma_left_rot_index(s, k2);
    let u = left_rot(s, k);
    assert(rot1_left(u) =~= left_rot(s, k2)) by {
        assert(rot1_left(u).len() == len);
        assert forall|i: int| 0 <= i < len implies rot1_left(u)[i] == left_rot(s, k2)[i] by {
            if i < len - 1 {
                assert(rot1_left(u)[i] == u.drop_first()[i]);
                assert(u.drop_first()[i] == u[i + 1]);
            } else {
                assert(rot1_left(u)[i] == u[0]);
            }
        }
    }
}

/// Two left rotations whose amounts cancel modulo the length restore the
/// sequence.
pub proof fn lemma_left_rot_cancel(s: Seq<u64>, k1: int, k2: int)
    requires
        0 <= k1 < s.len(),
        0 <= k2 < s.len(),
        (k1 + k2) % (s.len() as int) == 0,
    ensures
        left_rot(left_rot(s, k1), k2) == s,
{
    let len = s.len() as int;
    assert(k1 + k2 == 0 || k1 + k2 == len) by {
        if k1 + k2 < len {
            lemma_small_mod((k1 + k2) as nat, len as nat);
        } else {
            lemma_mod_add_multiples_vanish(k1 + k2 - len, len);
            lemma_small_mod((k1 + k2 - len) as nat, len as nat);
        }
    }
    lemma_left_rot_index(s, k1);
    let u = left_rot(s, k1);
    lemma_left_rot_index(u, k2);
    assert(left_rot(u, k2) =~= s) by {
        assert forall|i: int| 0 <= i < len implies left_rot(u, k2)[i] == s[i] by {
            lemma_left_rot_index(s, k1);
            lemma_left_rot_index(u, k2);
        }
    }
}

} // verus!
