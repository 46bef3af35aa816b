//! A reader of RAW recordings over a byte source (any `std::io::Read` in
//! practice; nothing here reads through it).

use vstd::prelude::*;

verus! {

/// Reads a RAW recording from `inner`.
pub struct RawReader<T> {
    inner: T,
}

impl<T> RawReader<T> {
    /// The byte source this reader reads from.
    pub closed spec fn source(&self) -> T {
        self.inner
    }

    /// A reader over `inner`.
    pub fn new(inner: T) -> (r: Self)
        ensures
            r.source() == inner,
    {
        Self { inner }
    }
}

} // verus!
