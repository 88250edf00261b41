//! The single failure kind a formatting call can surface.

use vstd::prelude::*;

verus! {

/// A raw metric could not be obtained, or the values read are unusable
/// for building the requested display string.
#[derive(Clone, Copy, Debug, PartialEq, Eq, Structural)]
pub enum ReadoutError {
    MetricNotAvailable,
}

} // verus!
