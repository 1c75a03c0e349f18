//! The eviction policy: given the bound, the current length and the end a
//! push is aimed at, decide whether an element must first leave, and from
//! which end — always the one opposite the push, so a saturated container
//! slides rather than grows.

use vstd::prelude::*;

verus! {

/// The two ends of the container.
#[derive(Clone, Copy, Debug, PartialEq, Eq, Structural)]
pub enum End {
    /// The front of the container, where `popleft` removes.
    Head,
    /// The back of the container, where `pop` removes.
    Tail,
}

/// The end opposite `e`.
pub open spec fn opposite(e: End) -> End {
    match e {
        End::Head => End::Tail,
        End::Tail => End::Head,
    }
}

/// Whether a container of length `len` sits exactly at its bound.  An
/// unbounded container is never at capacity; neither is one that was
/// constructed longer than its bound, since the bound is applied lazily,
/// only at push time.
pub open spec fn at_capacity(len: nat, bound: Option<usize>) -> bool {
    match bound {
        Some(b) => len == b,
        None => false,
    }
}

/// Decides eviction for a push at end `push`: an element leaves the opposite
/// end exactly when the container is at capacity.
pub fn eviction_end(bound: Option<usize>, len: usize, push: End) -> (r: Option<End>)
    ensures
        r is Some <==> at_capacity(len as nat, bound),
        at_capacity(len as nat, bound) ==> r == Some(opposite(push)),
{
    match bound {
        Some(b) => {
            if len == b {
                match push {
                    End::Head => Some(End::Tail),
                    End::Tail => Some(End::Head),
                }
            } else {
                None
            }
        },
        None => None,
    }
}

} // verus!
