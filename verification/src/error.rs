//! The ways a trace can fail.

use vstd::prelude::*;

verus! {

/// Why no path string was produced.
#[derive(Clone, Copy, Debug, PartialEq, Eq, Structural)]
pub enum TraceError {
    /// The input is no usable raster: it has no rows, no columns, rows of
    /// differing lengths, or dimensions the machine cannot address.
    InvalidInput,
    /// The walk or the scan contradicted itself: a cell side was about to be
    /// followed a second time, or a nesting level was about to drop below zero.
    Inconsistent,
}

} // verus!
