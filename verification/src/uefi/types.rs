//! Status codes that an EFI application hands back to the firmware.

use vstd::prelude::*;

verus! {

/// The bit that marks a status code as an error: the highest of 64.
pub const EFI_ERROR: u64 = 0x8000_0000_0000_0000;

/// A status code. 0 is success; a code with the highest bit set is an error.
#[derive(Clone, Copy, Debug, PartialEq, Eq, Structural)]
pub struct EfiStatus(pub u64);

impl EfiStatus {
    /// The status of a call that did what was asked.
    pub fn success() -> (status: EfiStatus)
        ensures
            status.0 == 0,
            !status.spec_is_error(),
    {
        EfiStatus(0)
    }

    /// The status of an image that could not be loaded: error number 1.
    pub fn load_error() -> (status: EfiStatus)
        ensures
            status.0 == EFI_ERROR + 1,
            status.spec_is_error(),
    {
        assert(0x8000_0000_0000_0000u64 | 1 == 0x8000_0000_0000_0001u64) by (bit_vector);
        EfiStatus(EFI_ERROR | 1)
    }

    /// The status of a call that found a resource used up: error number 9.
    pub fn out_of_resources() -> (status: EfiStatus)
        ensures
            status.0 == EFI_ERROR + 9,
            status.spec_is_error(),
    {
        assert(0x8000_0000_0000_0000u64 | 9 == 0x8000_0000_0000_0009u64) by (bit_vector);
        EfiStatus(EFI_ERROR | 9)
    }

    /// Whether the status is an error: its highest bit is set.
    pub open spec fn spec_is_error(&self) -> bool {
        self.0 >= EFI_ERROR
    }

    /// Whether the status is an error.
    pub fn is_error(&self) -> (error: bool)
        ensures
            error == self.spec_is_error(),
    {
        let code: u64 = self.0;
        assert((0x8000_0000_0000_0000u64 & code > 0) == (code >= 0x8000_0000_0000_0000u64))
            by (bit_vector);
        0x8000_0000_0000_0000 & code > 0
    }
}

} // verus!
