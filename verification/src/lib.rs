//! Loader for an ELF64 RISC-V kernel image: decoding of the image's fixed-layout
//! records, placement of its loadable segments in memory, and application of its
//! `R_RISCV_RELATIVE` relocations.

pub mod boot;
pub mod elf;
pub mod relocate;
pub mod uefi;
