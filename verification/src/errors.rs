//! The failures that container operations report.

use vstd::prelude::*;

verus! {

/// An opaque failure raised inside a host-supplied hook (equality, ordering
/// or textual rendering).  The code identifies the host's own error object;
/// the container carries it through unchanged and never interprets it.
#[derive(Clone, Copy, Debug, PartialEq, Eq, Structural)]
pub struct HostError {
    pub code: u64,
}

/// The error values a container operation can return.
#[derive(Clone, Copy, Debug, PartialEq, Eq, Structural)]
pub enum DequeError {
    /// A pop was attempted on a container with no elements.
    EmptyContainer,
    /// A scan for a host-equal element found none.
    ValueNotFound,
    /// A positional insert was attempted while the container sat exactly at
    /// its bound.
    ContainerFull,
    /// A host hook failed; the host's error propagates unchanged.
    Host(HostError),
}

} // verus!
