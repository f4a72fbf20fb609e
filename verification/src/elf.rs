//! ELF64 decoding: header, program headers, dynamic section and relocation table.

pub mod dynamic;
pub mod elf_file;
pub mod error;
pub mod header;
pub mod program_header;
pub mod util;
