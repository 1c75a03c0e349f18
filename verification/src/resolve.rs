//! The index resolver: turns a signed, possibly out-of-range requested
//! position into a valid clamped position for insertion.
//!
//! Negative indices count from the tail.  An index whose magnitude exceeds
//! the container length clamps to position 0 on the negative side, and to
//! `length - 1` — just before the current last element, not past it — on the
//! positive side.  That clamp short of the true end is deliberate; callers
//! depend on it.

use vstd::prelude::*;

verus! {

/// The clamped insertion position for requested index `idx` in a sequence of
/// length `len`.  Meaningful for `len > 0`, and for `len == 0` with a
/// negative `idx`, where it clamps to 0; a non-negative `idx` with `len == 0`
/// has no valid position (`len - 1` would fall before the sequence).
pub open spec fn spec_clamp_index(idx: int, len: int) -> int {
    if idx < 0 {
        if -idx > len {
            0
        } else {
            len + idx
        }
    } else if idx >= len {
        len - 1
    } else {
        idx
    }
}

/// Resolves `idx` to the clamped insertion position.  The magnitude of a
/// negative index is taken exactly, even for the smallest `i32`.
pub fn clamp_insert_index(idx: i32, len: usize) -> (k: usize)
    requires
        idx < 0 || len > 0,
    ensures
        k as int == spec_clamp_index(idx as int, len as int),
        k <= len,
{
    if idx < 0 {
        let mag: usize = if idx == i32::MIN {
            2147483648
        } else {
            (-idx) as usize
        };
        if mag > len {
            0
        } else {
            len - mag
        }
    } else {
        let i = idx as usize;
        if i >= len {
            len - 1
        } else {
            i
        }
    }
}

} // verus!
