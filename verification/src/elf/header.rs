//! The ELF64 file header: the first 64 bytes of an image.

use vstd::prelude::*;
use super::util::{read_u16, read_u32, read_u64, spec_read_u16, spec_read_u32, spec_read_u64};

verus! {

/// Size in bytes of the file header.
pub const HEADER_SIZE: usize = 64;

/// Value of the class byte of a 32-bit image.
pub const ELF_CLASS_32: u8 = 1;

/// Value of the class byte of a 64-bit image.
pub const ELF_CLASS_64: u8 = 2;

/// Value of the machine field of a RISC-V image.
pub const ELF_MACHINE_RISCV: u16 = 0xF3;

/// The identification bytes that open the file header.
pub struct IdentityHeader {
    pub magic: [u8; 4],
    pub class: u8,
    pub endian: u8,
    pub version: u8,
    pub abi: u8,
    pub padding: u64,
}

/// The file header, field by field in the order of the 64-byte layout.
pub struct Header {
    pub identity: IdentityHeader,
    pub file_type: u16,
    pub machine: u16,
    pub version: u32,
    pub entry: u64,
    pub phoff: u64,
    pub shoff: u64,
    pub flags: u32,
    pub ehsize: u16,
    pub phentsize: u16,
    pub phnum: u16,
    pub shentsize: u16,
    pub shnum: u16,
    pub shstrndx: u16,
}

/// Word size of an image.
#[derive(Clone, Copy, Debug, PartialEq, Eq, Structural)]
pub enum ElfClass {
    Elf32,
    Elf64,
}

/// Instruction set of an image.
#[derive(Clone, Copy, Debug, PartialEq, Eq, Structural)]
pub enum ElfMachine {
    RiscV,
}

/// Where a table of fixed-size entries lies in the image.
#[derive(Clone, Copy, Debug, PartialEq, Eq, Structural)]
pub struct TableInfo {
    /// Position of the first entry, in bytes from the start of the image.
    pub offset: u64,
    /// Distance in bytes from one entry to the next.
    pub entry_size: u64,
    /// Number of entries.
    pub entry_count: u64,
}

impl ElfClass {
    /// The class that a class byte stands for, if any.
    pub open spec fn spec_try_from(raw: u8) -> Result<ElfClass, u8> {
        if raw == ELF_CLASS_32 {
            Ok(ElfClass::Elf32)
        } else if raw == ELF_CLASS_64 {
            Ok(ElfClass::Elf64)
        } else {
            Err(raw)
        }
    }

    /// Decodes a class byte; an unknown byte is handed back as the error.
    pub fn try_from(raw: u8) -> (class: Result<ElfClass, u8>)
        ensures
            class == Self::spec_try_from(raw),
    {
        match raw {
            1 => Ok(ElfClass::Elf32),
            2 => Ok(ElfClass::Elf64),
            other => Err(other),
        }
    }
}

impl ElfMachine {
    /// The machine that a machine field stands for, if any.
    pub open spec fn spec_try_from(raw: u16) -> Result<ElfMachine, u16> {
        if raw == ELF_MACHINE_RISCV {
            Ok(ElfMachine::RiscV)
        } else {
            Err(raw)
        }
    }

    /// Decodes a machine field; an unknown value is handed back as the error.
    pub fn try_from(raw: u16) -> (machine: Result<ElfMachine, u16>)
        ensures
            machine == Self::spec_try_from(raw),
    {
        match raw {
            0xF3 => Ok(ElfMachine::RiscV),
            other => Err(other),
        }
    }
}

impl Header {
    /// The header that the first 64 bytes of `bytes` encode.
    pub open spec fn decode(bytes: Seq<u8>) -> Header {
        Header {
            identity: IdentityHeader {
                magic: [bytes[0], bytes[1], bytes[2], bytes[3]],
                class: bytes[4],
                endian: bytes[5],
                version: bytes[6],
                abi: bytes[7],
                padding: spec_read_u64(bytes, 8),
            },
            file_type: spec_read_u16(bytes, 16),
            machine: spec_read_u16(bytes, 18),
            version: spec_read_u32(bytes, 20),
            entry: spec_read_u64(bytes, 24),
            phoff: spec_read_u64(bytes, 32),
            shoff: spec_read_u64(bytes, 40),
            flags: spec_read_u32(bytes, 48),
            ehsize: spec_read_u16(bytes, 52),
            phentsize: spec_read_u16(bytes, 54),
            phnum: spec_read_u16(bytes, 56),
            shentsize: spec_read_u16(bytes, 58),
            shnum: spec_read_u16(bytes, 60),
            shstrndx: spec_read_u16(bytes, 62),
        }
    }

    /// Decodes the header at the start of `bytes`; `None` when fewer than 64 bytes
    /// are there.
    pub fn from_bytes(bytes: &[u8]) -> (header: Option<Header>)
        ensures
            header == (if bytes@.len() >= HEADER_SIZE {
                Some(Header::decode(bytes@))
            } else {
                None
            }),
    {
        if bytes.len() < HEADER_SIZE {
            return None;
        }
        Some(
            Header {
                identity: IdentityHeader {
                    magic: [bytes[0], bytes[1], bytes[2], bytes[3]],
                    class: bytes[4],
                    endian: bytes[5],
                    version: bytes[6],
                    abi: bytes[7],
                    padding: read_u64(bytes, 8),
                },
                file_type: read_u16(bytes, 16),
                machine: read_u16(bytes, 18),
                version: read_u32(bytes, 20),
                entry: read_u64(bytes, 24),
                phoff: read_u64(bytes, 32),
                shoff: read_u64(bytes, 40),
                flags: read_u32(bytes, 48),
                ehsize: read_u16(bytes, 52),
                phentsize: read_u16(bytes, 54),
                phnum: read_u16(bytes, 56),
                shentsize: read_u16(bytes, 58),
                shnum: read_u16(bytes, 60),
                shstrndx: read_u16(bytes, 62),
            },
        )
    }

    /// Whether the header opens with the bytes `0x7F 'E' 'L' 'F'`.
    pub open spec fn spec_valid_magic(&self) -> bool {
        &&& self.identity.magic[0] == 0x7F
        &&& self.identity.magic[1] == 0x45
        &&& self.identity.magic[2] == 0x4C
        &&& self.identity.magic[3] == 0x46
    }

    /// The table of program headers that the header names.
    pub open spec fn spec_program_header_info(&self) -> TableInfo {
        TableInfo {
            offset: self.phoff,
            entry_size: self.phentsize as u64,
            entry_count: self.phnum as u64,
        }
    }

    /// Whether the header opens with the bytes `0x7F 'E' 'L' 'F'`.
    pub fn valid_magic(&self) -> (valid: bool)
        ensures
            valid == self.spec_valid_magic(),
    {
        self.identity.magic[0] == 0x7F && self.identity.magic[1] == 0x45 && self.identity.magic[2]
            == 0x4C && self.identity.magic[3] == 0x46
    }

    /// The word size that the class byte names, if it is a known one.
    pub fn get_class(&self) -> (class: Option<ElfClass>)
        ensures
            class == (match ElfClass::spec_try_from(self.identity.class) {
                Ok(known) => Some(known),
                Err(_) => None,
            }),
    {
        match ElfClass::try_from(self.identity.class) {
            Ok(known) => Some(known),
            Err(_) => None,
        }
    }

    /// The instruction set that the machine field names, if it is a known one.
    pub fn get_machine(&self) -> (machine: Option<ElfMachine>)
        ensures
            machine == (match ElfMachine::spec_try_from(self.machine) {
                Ok(known) => Some(known),
                Err(_) => None,
            }),
    {
        match ElfMachine::try_from(self.machine) {
            Ok(known) => Some(known),
            Err(_) => None,
        }
    }

    /// The virtual address at which execution of the image starts.
    pub fn get_entry_point(&self) -> (entry: u64)
        ensures
            entry == self.entry,
    {
        self.entry
    }

    /// Where the program headers lie in the image.
    pub fn get_program_header_info(&self) -> (info: TableInfo)
        ensures
            info == self.spec_program_header_info(),
    {
        TableInfo {
            offset: self.phoff,
            entry_size: self.phentsize as u64,
            entry_count: self.phnum as u64,
        }
    }
}

} // verus!
