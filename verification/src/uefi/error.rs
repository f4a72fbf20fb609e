//! Errors that the firmware reports to the loader.

use vstd::prelude::*;

verus! {

/// Why a call into the firmware failed, as far as the loader tells failures
/// apart.
#[derive(Clone, Copy, Debug, PartialEq, Eq, Structural)]
pub enum UEFIError {
    /// The firmware could not hand out memory.
    MemoryAllocationFailed,
    /// Any other failure.
    Other,
}

} // verus!
