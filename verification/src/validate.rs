//! A wrapper that marks a service as one whose messages are looked at
//! before they pass.

use vstd::prelude::*;

verus! {

/// A service behind validation.
pub struct Validate<T> {
    pub inner: T,
}

impl<T> Validate<T> {
    /// Wraps a service.
    pub fn new(inner: T) -> (wrapped: Validate<T>)
        ensures
            wrapped.inner == inner,
    {
        Validate { inner: inner }
    }
}

} // verus!
