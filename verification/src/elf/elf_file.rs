//! A view of a byte buffer as an ELF64 RISC-V image.

use vstd::prelude::*;
use vstd::slice::slice_subrange;
use super::dynamic::{Dynamic, RelocationTable};
use super::error::ElfError;
use super::header::{Header, TableInfo, ELF_CLASS_64, ELF_MACHINE_RISCV, HEADER_SIZE};
use super::program_header::{ProgramHeader, SegmentType, PROGRAM_HEADER_SIZE};

verus! {

/// What opening `image` gives: nothing to object to, or the reason why it is no
/// 64-bit RISC-V image.
pub open spec fn open_result(image: Seq<u8>) -> Result<(), ElfError> {
    let header = Header::decode(image);
    if image.len() < HEADER_SIZE {
        Err(ElfError::InvalidFormat)
    } else if !header.spec_valid_magic() {
        Err(ElfError::InvalidFormat)
    } else if header.identity.class != ELF_CLASS_64 {
        Err(ElfError::IncompatibleMachine)
    } else if header.machine != ELF_MACHINE_RISCV {
        Err(ElfError::IncompatibleMachine)
    } else {
        Ok(())
    }
}

/// Whether `image` opens as a 64-bit RISC-V image.
pub open spec fn valid_image(image: Seq<u8>) -> bool {
    open_result(image) is Ok
}

/// Whether a table can be walked in an image of `image_len` bytes: its entry
/// size is a multiple of 8 and all its entries lie inside the image.
pub open spec fn table_check(info: TableInfo, image_len: nat) -> Result<(), ElfError> {
    if info.entry_size % 8 != 0 {
        Err(ElfError::InvalidFormat)
    } else if info.offset + info.entry_count * info.entry_size > image_len {
        Err(ElfError::InvalidFormat)
    } else {
        Ok(())
    }
}

/// The program headers of a table that passed `table_check`. Entries too small
/// to hold a program header give none.
pub open spec fn table_entries(image: Seq<u8>, info: TableInfo) -> Seq<ProgramHeader> {
    if info.entry_size < PROGRAM_HEADER_SIZE {
        Seq::empty()
    } else {
        Seq::new(
            info.entry_count as nat,
            |i: int| ProgramHeader::decode(image, info.offset + i * info.entry_size),
        )
    }
}

/// The program headers of a valid image, in table order, or the reason why its
/// table cannot be walked.
pub open spec fn program_headers_of(image: Seq<u8>) -> Result<Seq<ProgramHeader>, ElfError> {
    let info = Header::decode(image).spec_program_header_info();
    match table_check(info, image.len()) {
        Ok(_) => Ok(table_entries(image, info)),
        Err(e) => Err(e),
    }
}

/// What `segment_data` gives for a segment: its bytes in the image, or
/// `BufferOverflow` when they do not all lie inside the image.
pub open spec fn segment_data_of(image: Seq<u8>, segment: ProgramHeader) -> Result<
    Seq<u8>,
    ElfError,
> {
    if segment.offset + segment.filesz <= image.len() {
        Ok(image.subrange(segment.offset as int, segment.offset + segment.filesz))
    } else {
        Err(ElfError::BufferOverflow)
    }
}

/// Whether segment `index` is the first one that holds a dynamic section.
pub open spec fn is_first_dynamic(headers: Seq<ProgramHeader>, index: int) -> bool {
    &&& 0 <= index < headers.len()
    &&& headers[index].is_dynamic()
    &&& forall|i: int| 0 <= i < index ==> !(#[trigger] headers[i]).is_dynamic()
}

/// Index of the first segment that holds a dynamic section.
pub open spec fn first_dynamic(headers: Seq<ProgramHeader>) -> int {
    choose|index: int| is_first_dynamic(headers, index)
}

/// The relocation table of a valid image: the one that the dynamic section in
/// the first segment of that type names; none where no segment has that type.
pub open spec fn relocation_table_of(image: Seq<u8>) -> Result<Option<RelocationTable>, ElfError> {
    match program_headers_of(image) {
        Ok(headers) => {
            if exists|index: int| is_first_dynamic(headers, index) {
                match segment_data_of(image, headers[first_dynamic(headers)]) {
                    Ok(section) => Dynamic::relocations_of(section),
                    Err(e) => Err(e),
                }
            } else {
                Ok(None)
            }
        },
        Err(e) => Err(e),
    }
}

/// There is at most one first segment with a dynamic section.
pub proof fn lemma_first_dynamic_is_unique(headers: Seq<ProgramHeader>, index: int)
    requires
        is_first_dynamic(headers, index),
    ensures
        first_dynamic(headers) == index,
{
    let chosen = first_dynamic(headers);
    assert(is_first_dynamic(headers, chosen));
    if chosen < index {
        assert(!headers[chosen].is_dynamic());
    } else if index < chosen {
        assert(!headers[index].is_dynamic());
    }
}

/// A byte buffer that was found to hold an ELF64 RISC-V image, with its decoded
/// header.
pub struct ElfFile<'a> {
    raw_buffer: &'a [u8],
    header: Header,
}

/// A walk over the program headers of an image, in table order.
pub struct ProgramHeaderIterator<'a> {
    table_info: TableInfo,
    raw_buffer: &'a [u8],
    next_index: u64,
}

impl<'a> View for ElfFile<'a> {
    type V = Seq<u8>;

    /// The bytes of the image.
    closed spec fn view(&self) -> Seq<u8> {
        self.raw_buffer@
    }
}

impl<'a> ElfFile<'a> {
    #[verifier::type_invariant]
    spec fn well_formed(&self) -> bool {
        &&& valid_image(self.raw_buffer@)
        &&& self.header == Header::decode(self.raw_buffer@)
    }

    /// Opens `buffer` as an image. Fails with `InvalidFormat` when the buffer is
    /// shorter than a file header or does not start with the ELF magic, and with
    /// `IncompatibleMachine` when the image is not a 64-bit RISC-V one.
    pub fn from_buffer(buffer: &'a [u8]) -> (file: Result<ElfFile<'a>, ElfError>)
        ensures
            match file {
                Ok(file) => open_result(buffer@) is Ok && file@ == buffer@,
                Err(e) => open_result(buffer@) == Err::<(), ElfError>(e),
            },
    {
        match Header::from_bytes(buffer) {
            Some(header) => {
                if !header.valid_magic() {
                    return Err(ElfError::InvalidFormat);
                }
                if header.identity.class != ELF_CLASS_64 {
                    return Err(ElfError::IncompatibleMachine);
                }
                if header.machine != ELF_MACHINE_RISCV {
                    return Err(ElfError::IncompatibleMachine);
                }
                Ok(ElfFile { raw_buffer: buffer, header })
            },
            None => Err(ElfError::InvalidFormat),
        }
    }

    /// The file header of the image.
    pub fn header(&self) -> (header: &Header)
        ensures
            valid_image(self@),
            *header == Header::decode(self@),
    {
        proof {
            use_type_invariant(self);
        }
        &self.header
    }

    /// The bytes of the image.
    pub fn image(&self) -> (bytes: &'a [u8])
        ensures
            valid_image(self@),
            bytes@ == self@,
    {
        proof {
            use_type_invariant(self);
        }
        self.raw_buffer
    }

    /// Starts a walk over the program headers. Fails with `InvalidFormat` when
    /// the entry size is not a multiple of 8 or the table does not lie inside
    /// the image.
    pub fn program_headers(&self) -> (headers: Result<ProgramHeaderIterator<'a>, ElfError>)
        ensures
            match headers {
                Ok(walk) => program_headers_of(self@) == Ok::<Seq<ProgramHeader>, ElfError>(
                    walk.entries(),
                ) && walk.position() == 0,
                Err(e) => program_headers_of(self@) == Err::<Seq<ProgramHeader>, ElfError>(e),
            },
    {
        proof {
            use_type_invariant(self);
        }
        ProgramHeaderIterator::new(self.raw_buffer, self.header.get_program_header_info())
    }

    /// The bytes that a segment has in the image: those from its offset on, as
    /// many as its file size. Fails with `BufferOverflow` when they do not all
    /// lie inside the image.
    pub fn segment_data(&self, program_header: &ProgramHeader) -> (data: Result<&'a [u8], ElfError>)
        ensures
            match data {
                Ok(bytes) => segment_data_of(self@, *program_header) == Ok::<Seq<u8>, ElfError>(
                    bytes@,
                ),
                Err(e) => segment_data_of(self@, *program_header) == Err::<Seq<u8>, ElfError>(e),
            },
    {
        let length: u64 = self.raw_buffer.len() as u64;
        let start: u64 = program_header.get_offset();
        let size: u64 = program_header.get_file_size();
        if start <= length && size <= length - start {
            Ok(slice_subrange(self.raw_buffer, start as usize, (start + size) as usize))
        } else {
            Err(ElfError::BufferOverflow)
        }
    }

    /// Finds the relocation table: the one that the dynamic section of the first
    /// segment of that type names. An image without such a segment, and one
    /// whose dynamic section names neither position nor size of a table, has
    /// none.
    ///
    /// Fails with `InvalidFormat` when the program headers cannot be walked or
    /// the dynamic section is malformed, and with `BufferOverflow` when the
    /// dynamic section does not lie inside the image.
    pub fn relocation_table(&self) -> (table: Result<Option<RelocationTable>, ElfError>)
        ensures
            table == relocation_table_of(self@),
    {
        let mut walk = match self.program_headers() {
            Ok(walk) => walk,
            Err(e) => {
                return Err(e);
            },
        };
        let ghost headers = walk.entries();
        loop
            invariant
                program_headers_of(self@) == Ok::<Seq<ProgramHeader>, ElfError>(headers),
                walk.entries() == headers,
                0 <= walk.position() <= headers.len(),
                forall|i: int| 0 <= i < walk.position() ==> !(#[trigger] headers[i]).is_dynamic(),
            decreases headers.len() - walk.position(),
        {
            let ghost index = walk.position();
            match walk.next() {
                Some(program_header) => {
                    match program_header.get_type() {
                        Some(SegmentType::Dynamic) => {
                            proof {
                                assert(is_first_dynamic(headers, index));
                                lemma_first_dynamic_is_unique(headers, index);
                            }
                            return match self.segment_data(&program_header) {
                                Ok(section) => Dynamic::find_relocations_inner(section),
                                Err(e) => Err(e),
                            };
                        },
                        _ => {},
                    }
                },
                None => {
                    proof {
                        if exists|index: int| is_first_dynamic(headers, index) {
                            let found = first_dynamic(headers);
                            assert(is_first_dynamic(headers, found));
                            assert(!headers[found].is_dynamic());
                        }
                    }
                    return Ok(None);
                },
            }
        }
    }
}

impl<'a> ProgramHeaderIterator<'a> {
    #[verifier::type_invariant]
    spec fn well_formed(&self) -> bool {
        &&& table_check(self.table_info, self.raw_buffer@.len()) is Ok
        &&& self.next_index <= table_entries(self.raw_buffer@, self.table_info).len()
    }

    /// All program headers of the table that is walked, in table order.
    pub closed spec fn entries(&self) -> Seq<ProgramHeader> {
        table_entries(self.raw_buffer@, self.table_info)
    }

    /// The number of entries that the walk has handed out.
    pub closed spec fn position(&self) -> int {
        self.next_index as int
    }

    /// Starts a walk over the table that `table_info` describes. Fails with
    /// `InvalidFormat` when the entry size is not a multiple of 8 or the table
    /// does not lie inside `buffer`.
    pub fn new(buffer: &'a [u8], table_info: TableInfo) -> (walk: Result<Self, ElfError>)
        ensures
            match walk {
                Ok(walk) => table_check(table_info, buffer@.len()) is Ok && walk.entries()
                    == table_entries(buffer@, table_info) && walk.position() == 0,
                Err(e) => table_check(table_info, buffer@.len()) == Err::<(), ElfError>(e),
            },
    {
        if table_info.entry_size % 8 != 0 {
            return Err(ElfError::InvalidFormat);
        }
        let length: u64 = buffer.len() as u64;
        let fits = match table_info.entry_count.checked_mul(table_info.entry_size) {
            Some(extent) => match table_info.offset.checked_add(extent) {
                Some(table_end) => table_end <= length,
                None => false,
            },
            None => false,
        };
        if !fits {
            return Err(ElfError::InvalidFormat);
        }
        Ok(ProgramHeaderIterator { table_info, raw_buffer: buffer, next_index: 0 })
    }

    /// Hands out the next program header, or `None` when all were handed out.
    pub fn next(&mut self) -> (header: Option<ProgramHeader>)
        ensures
            final(self).entries() == old(self).entries(),
            0 <= old(self).position() <= old(self).entries().len(),
            match header {
                Some(header) => old(self).position() < old(self).entries().len() && header
                    == old(self).entries()[old(self).position()] && final(self).position()
                    == old(self).position() + 1,
                None => old(self).position() == old(self).entries().len() && final(self).position()
                    == old(self).position(),
            },
    {
        proof {
            use_type_invariant(&*self);
        }
        let entry_size: u64 = self.table_info.entry_size;
        if self.next_index >= self.table_info.entry_count || entry_size < PROGRAM_HEADER_SIZE as u64 {
            return None;
        }
        let index: u64 = self.next_index;
        assert(index * entry_size + entry_size <= self.table_info.entry_count * entry_size)
            by (nonlinear_arith)
            requires
                index < self.table_info.entry_count,
        ;
        let length: usize = self.raw_buffer.len();
        let offset: u64 = self.table_info.offset + index * entry_size;
        self.next_index = index + 1;
        Some(ProgramHeader::from_bytes(self.raw_buffer, offset as usize))
    }
}

} // verus!
