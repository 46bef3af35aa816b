//! Decoded event records shared by every decoder.

use vstd::prelude::*;

verus! {

/// A contrast-detection event, laid out like the HDF5 compound type
/// `{x: u16, y: u16, p: i16, t: i64}`.
#[derive(Debug, Clone, Copy, PartialEq, Eq, Structural)]
pub struct EventCD {
    pub x: u16,
    pub y: u16,
    /// 0 = brightness decrease (OFF), 1 = brightness increase (ON).
    pub p: i16,
    /// Microseconds.
    pub t: i64,
}

/// An edge seen on an external trigger input.
#[derive(Debug, Clone, Copy, PartialEq, Eq, Structural)]
pub struct ExtTrigger {
    /// 0 = falling, 1 = rising.
    pub p: i16,
    /// Channel ID (e.g., 0 = EXTTRIG, 1 = TDRSTN/PXRSTN).
    pub c: i16,
    /// Microseconds.
    pub t: i64,
}

} // verus!
