//! Program headers: the 56-byte records that describe the segments of an image.

use vstd::prelude::*;
use super::util::{read_u32, read_u64, spec_read_u32, spec_read_u64};

verus! {

/// Size in bytes of what a program header holds.
pub const PROGRAM_HEADER_SIZE: usize = 56;

/// Value of the type field of a loadable segment.
pub const PT_LOAD: u32 = 1;

/// Value of the type field of the segment that holds the dynamic section.
pub const PT_DYNAMIC: u32 = 2;

/// A program header, field by field in the order of the 56-byte layout.
#[derive(Clone, Copy, Debug, PartialEq, Eq, Structural)]
pub struct ProgramHeader {
    pub segment_type: u32,
    pub flags: u32,
    pub offset: u64,
    pub vaddr: u64,
    pub paddr: u64,
    pub filesz: u64,
    pub memsz: u64,
    pub align: u64,
}

/// The segment types that the loader tells apart.
#[derive(Clone, Copy, Debug, PartialEq, Eq, Structural)]
pub enum SegmentType {
    Load,
    Dynamic,
}

impl SegmentType {
    /// The segment type that a type field stands for, if any.
    pub open spec fn spec_try_from(raw: u32) -> Result<SegmentType, u32> {
        if raw == PT_LOAD {
            Ok(SegmentType::Load)
        } else if raw == PT_DYNAMIC {
            Ok(SegmentType::Dynamic)
        } else {
            Err(raw)
        }
    }

    /// Decodes a type field; an unknown value is handed back as the error.
    pub fn try_from(raw: u32) -> (segment_type: Result<SegmentType, u32>)
        ensures
            segment_type == Self::spec_try_from(raw),
    {
        match raw {
            1 => Ok(SegmentType::Load),
            2 => Ok(SegmentType::Dynamic),
            other => Err(other),
        }
    }
}

/// The low bits that an alignment leaves free: `align - 1` in 64-bit arithmetic,
/// so all bits for an alignment of 0.
pub open spec fn alignment_mask(align: u64) -> u64 {
    if align == 0 {
        u64::MAX
    } else {
        (align - 1) as u64
    }
}

/// Whether `align` is a power of two.
pub open spec fn is_power_of_two(align: u64) -> bool {
    align != 0 && align & alignment_mask(align) == 0
}

impl ProgramHeader {
    /// The program header that the 56 bytes from `at` on encode.
    pub open spec fn decode(bytes: Seq<u8>, at: int) -> ProgramHeader {
        ProgramHeader {
            segment_type: spec_read_u32(bytes, at),
            flags: spec_read_u32(bytes, at + 4),
            offset: spec_read_u64(bytes, at + 8),
            vaddr: spec_read_u64(bytes, at + 16),
            paddr: spec_read_u64(bytes, at + 24),
            filesz: spec_read_u64(bytes, at + 32),
            memsz: spec_read_u64(bytes, at + 40),
            align: spec_read_u64(bytes, at + 48),
        }
    }

    /// Decodes the program header that starts at `at`.
    pub fn from_bytes(bytes: &[u8], at: usize) -> (header: ProgramHeader)
        requires
            at + PROGRAM_HEADER_SIZE <= bytes.len(),
        ensures
            header == ProgramHeader::decode(bytes@, at as int),
    {
        ProgramHeader {
            segment_type: read_u32(bytes, at),
            flags: read_u32(bytes, at + 4),
            offset: read_u64(bytes, at + 8),
            vaddr: read_u64(bytes, at + 16),
            paddr: read_u64(bytes, at + 24),
            filesz: read_u64(bytes, at + 32),
            memsz: read_u64(bytes, at + 40),
            align: read_u64(bytes, at + 48),
        }
    }

    /// Whether the segment is loadable.
    pub open spec fn is_load(&self) -> bool {
        self.segment_type == PT_LOAD
    }

    /// Whether the segment holds the dynamic section.
    pub open spec fn is_dynamic(&self) -> bool {
        self.segment_type == PT_DYNAMIC
    }

    /// The aligned address at which the page that holds the segment's start
    /// begins: the virtual address with the alignment's low bits cleared.
    pub open spec fn spec_page_base(&self) -> u64 {
        self.vaddr & !alignment_mask(self.align)
    }

    /// The address just past the segment's last byte in memory.
    pub open spec fn spec_end(&self) -> int {
        self.vaddr + self.memsz
    }

    /// Whether `virtual_address` lies in the memory that the segment occupies.
    pub open spec fn spec_address_in_segment(&self, virtual_address: u64) -> bool {
        self.vaddr <= virtual_address < self.vaddr + self.memsz
    }

    /// The page base is never above the segment's start.
    pub proof fn lemma_page_base_below_start(&self)
        ensures
            self.spec_page_base() <= self.vaddr,
    {
        let v = self.vaddr;
        let m = alignment_mask(self.align);
        assert(v & !m <= v) by (bit_vector);
    }

    /// With an alignment that is a power of two, the page base is aligned, and
    /// the segment starts less than one alignment above it.
    pub proof fn lemma_page_base_is_aligned(&self)
        requires
            is_power_of_two(self.align),
        ensures
            self.spec_page_base() & alignment_mask(self.align) == 0,
            self.vaddr - self.spec_page_base() < self.align,
    {
        let v = self.vaddr;
        let a = self.align;
        let m = alignment_mask(a);
        assert((v & !m) & m == 0) by (bit_vector);
        assert(v - (v & !m) <= m) by (bit_vector);
    }

    /// The segment type, if it is one that the loader knows.
    pub fn get_type(&self) -> (segment_type: Option<SegmentType>)
        ensures
            segment_type == (match SegmentType::spec_try_from(self.segment_type) {
                Ok(known) => Some(known),
                Err(_) => None,
            }),
            (segment_type == Some(SegmentType::Load)) == self.is_load(),
            (segment_type == Some(SegmentType::Dynamic)) == self.is_dynamic(),
    {
        match SegmentType::try_from(self.segment_type) {
            Ok(known) => Some(known),
            Err(_) => None,
        }
    }

    /// Position of the segment's bytes in the image.
    pub fn get_offset(&self) -> (offset: u64)
        ensures
            offset == self.offset,
    {
        self.offset
    }

    /// Address of the segment's first byte in memory.
    pub fn get_virtual_address(&self) -> (address: u64)
        ensures
            address == self.vaddr,
    {
        self.vaddr
    }

    /// Number of bytes that the segment has in the image.
    pub fn get_file_size(&self) -> (size: u64)
        ensures
            size == self.filesz,
    {
        self.filesz
    }

    /// Number of bytes that the segment occupies in memory.
    pub fn get_memory_size(&self) -> (size: u64)
        ensures
            size == self.memsz,
    {
        self.memsz
    }

    /// The segment's alignment.
    pub fn get_alignment(&self) -> (align: u64)
        ensures
            align == self.align,
    {
        self.align
    }

    /// The aligned address at which the page that holds the segment's start
    /// begins.
    pub fn get_page_base(&self) -> (base: u64)
        ensures
            base == self.spec_page_base(),
            base <= self.vaddr,
    {
        proof {
            self.lemma_page_base_below_start();
        }
        self.vaddr & !self.align.wrapping_sub(1)
    }

    /// Whether `virtual_address` lies in the memory that the segment occupies.
    pub fn address_in_segment(&self, virtual_address: u64) -> (inside: bool)
        ensures
            inside == self.spec_address_in_segment(virtual_address),
    {
        virtual_address >= self.vaddr && virtual_address - self.vaddr < self.memsz
    }
}

} // verus!
