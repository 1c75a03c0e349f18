//! The host object system's side of the bargain.
//!
//! Elements are opaque handles: the container never asks what a handle
//! means.  Equality, ordering and textual form are supplied by the host
//! through the hooks below.  Each hook may fail — a failure is the host's
//! own error and propagates unchanged out of whichever container operation
//! invoked the hook.
//!
//! Each executable hook is paired with specification-level views: what the
//! hook answers, whether it answers at all, and which error it raises when
//! it does not.  A conforming host must meet them; everything the container
//! proves about comparisons, searches and rendering is relative to these
//! views.

use vstd::prelude::*;

use crate::errors::HostError;
use crate::guard::ReprGuard;

verus! {

/// The capabilities the container consumes from the host object system.
///
/// The specification-level hooks default to unconstrained values, so a host
/// written outside the proof world implements the executable hooks alone; a
/// verified host overrides whichever specification hooks its proofs rely on.
pub trait Host {
    /// Host equality between the values behind two handles.
    open spec fn eq_spec(&self, a: u64, b: u64) -> bool {
        arbitrary()
    }

    /// Whether the equality hook returns without failing on this pair.
    open spec fn eq_ok(&self, a: u64, b: u64) -> bool {
        arbitrary()
    }

    /// The error the equality hook raises on this pair when it fails.
    open spec fn eq_err(&self, a: u64, b: u64) -> HostError {
        arbitrary()
    }

    /// Host strict "less than" between the values behind two handles.
    open spec fn lt_spec(&self, a: u64, b: u64) -> bool {
        arbitrary()
    }

    /// Whether the "less than" hook returns without failing on this pair.
    open spec fn lt_ok(&self, a: u64, b: u64) -> bool {
        arbitrary()
    }

    /// The error the "less than" hook raises when it fails.
    open spec fn lt_err(&self, a: u64, b: u64) -> HostError {
        arbitrary()
    }

    /// Host "less than or equal".
    open spec fn le_spec(&self, a: u64, b: u64) -> bool {
        arbitrary()
    }

    /// Whether the "less than or equal" hook returns without failing.
    open spec fn le_ok(&self, a: u64, b: u64) -> bool {
        arbitrary()
    }

    /// The error the "less than or equal" hook raises when it fails.
    open spec fn le_err(&self, a: u64, b: u64) -> HostError {
        arbitrary()
    }

    /// Host strict "greater than".
    open spec fn gt_spec(&self, a: u64, b: u64) -> bool {
        arbitrary()
    }

    /// Whether the "greater than" hook returns without failing.
    open spec fn gt_ok(&self, a: u64, b: u64) -> bool {
        arbitrary()
    }

    /// The error the "greater than" hook raises when it fails.
    open spec fn gt_err(&self, a: u64, b: u64) -> HostError {
        arbitrary()
    }

    /// Host "greater than or equal".
    open spec fn ge_spec(&self, a: u64, b: u64) -> bool {
        arbitrary()
    }

    /// Whether the "greater than or equal" hook returns without failing.
    open spec fn ge_ok(&self, a: u64, b: u64) -> bool {
        arbitrary()
    }

    /// The error the "greater than or equal" hook raises when it fails.
    open spec fn ge_err(&self, a: u64, b: u64) -> HostError {
        arbitrary()
    }

    /// The textual form of the value behind `x`, rendered while the
    /// identities in `guard` are already being rendered further up the call
    /// stack.  The guard matters: a value that leads back to a container
    /// being rendered is shown as a placeholder, not re-entered.
    open spec fn repr_spec(&self, guard: Seq<u64>, x: u64) -> Seq<char> {
        arbitrary()
    }

    /// Whether the rendering hook returns without failing, under `guard`.
    open spec fn repr_ok(&self, guard: Seq<u64>, x: u64) -> bool {
        arbitrary()
    }

    /// The error the rendering hook raises, under `guard`, when it fails.
    open spec fn repr_err(&self, guard: Seq<u64>, x: u64) -> HostError {
        arbitrary()
    }

    /// Asks the host whether the values behind `a` and `b` are equal.
    fn host_eq(&self, a: u64, b: u64) -> (r: Result<bool, HostError>)
        ensures
            r is Ok <==> self.eq_ok(a, b),
            r is Ok ==> r->Ok_0 == self.eq_spec(a, b),
            r is Err ==> r->Err_0 == self.eq_err(a, b),
    ;

    /// Asks the host whether the value behind `a` orders strictly below `b`.
    fn host_lt(&self, a: u64, b: u64) -> (r: Result<bool, HostError>)
        ensures
            r is Ok <==> self.lt_ok(a, b),
            r is Ok ==> r->Ok_0 == self.lt_spec(a, b),
            r is Err ==> r->Err_0 == self.lt_err(a, b),
    ;

    /// Asks the host whether the value behind `a` orders at or below `b`.
    fn host_le(&self, a: u64, b: u64) -> (r: Result<bool, HostError>)
        ensures
            r is Ok <==> self.le_ok(a, b),
            r is Ok ==> r->Ok_0 == self.le_spec(a, b),
            r is Err ==> r->Err_0 == self.le_err(a, b),
    ;

    /// Asks the host whether the value behind `a` orders strictly above `b`.
    fn host_gt(&self, a: u64, b: u64) -> (r: Result<bool, HostError>)
        ensures
            r is Ok <==> self.gt_ok(a, b),
            r is Ok ==> r->Ok_0 == self.gt_spec(a, b),
            r is Err ==> r->Err_0 == self.gt_err(a, b),
    ;

    /// Asks the host whether the value behind `a` orders at or above `b`.
    fn host_ge(&self, a: u64, b: u64) -> (r: Result<bool, HostError>)
        ensures
            r is Ok <==> self.ge_ok(a, b),
            r is Ok ==> r->Ok_0 == self.ge_spec(a, b),
            r is Err ==> r->Err_0 == self.ge_err(a, b),
    ;

    /// Asks the host for the textual form of the value behind `x`.  The hook
    /// may render other containers — and re-enter this one — through the
    /// guard, but must leave the guard exactly as it found it.
    fn host_repr(&self, guard: &mut ReprGuard, x: u64) -> (r: Result<String, HostError>)
        ensures
            final(guard)@ == old(guard)@,
            r is Ok <==> self.repr_ok(old(guard)@, x),
            r is Ok ==> r->Ok_0@ == self.repr_spec(old(guard)@, x),
            r is Err ==> r->Err_0 == self.repr_err(old(guard)@, x),
    ;
}

} // verus!
