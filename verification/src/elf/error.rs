//! Errors of the ELF decoders.

use vstd::prelude::*;

verus! {

/// Why an image, or a part of it, could not be decoded.
#[derive(Clone, Copy, Debug, PartialEq, Eq, Structural)]
pub enum ElfError {
    /// The bytes do not have the layout of an ELF image.
    InvalidFormat,
    /// The image is an ELF image, but not a 64-bit RISC-V one.
    IncompatibleMachine,
    /// A range that the image names does not lie inside the image.
    BufferOverflow,
}

} // verus!
