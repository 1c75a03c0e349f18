//! A bounded double-ended queue of opaque element handles.
//!
//! The container owns an ordered sequence of element handles plus an optional
//! capacity bound.  Pushing onto a full bounded container evicts one element
//! from the opposite end, so a saturated container behaves as a sliding
//! window.  What a handle means — equality, ordering, textual form — is the
//! host object system's business: the container reaches it only through the
//! hooks of the [`host::Host`] trait and never interprets a handle itself.

pub mod cmp;
pub mod deque;
pub mod errors;
pub mod guard;
pub mod host;
pub mod laws;
pub mod module_def;
pub mod policy;
pub mod render;
pub mod resolve;
pub mod rotation;
pub mod search;
