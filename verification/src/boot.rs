//! The kernel loader: how much memory an image needs and where, how its
//! segments are placed there, how its relocations are applied, and where
//! execution starts.

use vstd::prelude::*;
use crate::elf::dynamic::RelocationTable;
use crate::elf::elf_file::{
    program_headers_of,
    relocation_table_of,
    valid_image,
    ElfFile,
};
use crate::elf::error::ElfError;
use crate::elf::header::Header;
use crate::elf::program_header::{ProgramHeader, SegmentType};
use crate::elf::util::{signed, spec_signed, wrap64};
use crate::relocate::{apply_relocations, relocate_entries};
use crate::uefi::error::UEFIError;
use crate::uefi::types::EfiStatus;

verus! {

/// Size in bytes of a page of memory.
pub const PAGE_SIZE: u64 = 4096;

/// Why booting failed.
#[derive(Clone, Copy, Debug, PartialEq, Eq, Structural)]
pub enum Error {
    /// The firmware did not hand out the memory that the kernel needs.
    MemoryAllocationFailed,
    /// The firmware did not hand out its memory map.
    MemoryMapUnavailable,
    /// The firmware's configuration tables name no device tree.
    DeviceTreeUnavailable,
    /// The kernel image is malformed, or asks for what the loader does not do.
    InvalidKernelImage,
}

impl Error {
    /// The line that tells a user of the failure.
    pub open spec fn spec_message(&self) -> Seq<char> {
        match self {
            Error::MemoryAllocationFailed => "Memory allocation failed!"@,
            Error::MemoryMapUnavailable => "Memory map unavailable!"@,
            Error::DeviceTreeUnavailable => "DeviceTree not found!"@,
            Error::InvalidKernelImage => "Invalid kernel image!"@,
        }
    }

    /// The line that tells a user of the failure.
    pub fn message(&self) -> (text: &'static str)
        ensures
            text@ == self.spec_message(),
    {
        match self {
            Error::MemoryAllocationFailed => "Memory allocation failed!",
            Error::MemoryMapUnavailable => "Memory map unavailable!",
            Error::DeviceTreeUnavailable => "DeviceTree not found!",
            Error::InvalidKernelImage => "Invalid kernel image!",
        }
    }
}

impl From<ElfError> for Error {
    /// Whatever a decoder objected to, the kernel image is invalid.
    fn from(error: ElfError) -> (converted: Error) {
        Error::InvalidKernelImage
    }
}

impl vstd::std_specs::convert::FromSpecImpl<ElfError> for Error {
    open spec fn obeys_from_spec() -> bool {
        true
    }

    open spec fn from_spec(error: ElfError) -> Error {
        Error::InvalidKernelImage
    }
}

impl From<UEFIError> for Error {
    /// A failed allocation stays one; any other failure of the firmware left
    /// the loader without the memory map.
    fn from(error: UEFIError) -> (converted: Error) {
        match error {
            UEFIError::MemoryAllocationFailed => Error::MemoryAllocationFailed,
            _ => Error::MemoryMapUnavailable,
        }
    }
}

impl vstd::std_specs::convert::FromSpecImpl<UEFIError> for Error {
    open spec fn obeys_from_spec() -> bool {
        true
    }

    open spec fn from_spec(error: UEFIError) -> Error {
        match error {
            UEFIError::MemoryAllocationFailed => Error::MemoryAllocationFailed,
            UEFIError::Other => Error::MemoryMapUnavailable,
        }
    }
}

impl From<Error> for EfiStatus {
    /// The status that the firmware gets for a failed boot: out of resources
    /// where memory was refused, a load error otherwise.
    fn from(error: Error) -> (status: EfiStatus) {
        match error {
            Error::MemoryAllocationFailed => EfiStatus::out_of_resources(),
            _ => EfiStatus::load_error(),
        }
    }
}

impl vstd::std_specs::convert::FromSpecImpl<Error> for EfiStatus {
    open spec fn obeys_from_spec() -> bool {
        true
    }

    open spec fn from_spec(error: Error) -> EfiStatus {
        match error {
            Error::MemoryAllocationFailed => EfiStatus(0x8000_0000_0000_0009),
            _ => EfiStatus(0x8000_0000_0000_0001),
        }
    }
}

/// Whether some segment is loadable.
pub open spec fn has_load(headers: Seq<ProgramHeader>) -> bool {
    exists|i: int| 0 <= i < headers.len() && (#[trigger] headers[i]).is_load()
}

/// Whether `base` is the lowest page base of the loadable segments.
pub open spec fn is_lowest_page_base(headers: Seq<ProgramHeader>, base: u64) -> bool {
    &&& exists|i: int|
        0 <= i < headers.len() && (#[trigger] headers[i]).is_load() && headers[i].spec_page_base()
            == base
    &&& forall|i: int|
        0 <= i < headers.len() && (#[trigger] headers[i]).is_load() ==> base
            <= headers[i].spec_page_base()
}

/// The lowest page base of the loadable segments.
pub open spec fn lowest_page_base(headers: Seq<ProgramHeader>) -> u64 {
    choose|base: u64| is_lowest_page_base(headers, base)
}

/// Whether `end` is the highest end of the loadable segments: the address just
/// past the last byte of one of them, and of none a lower one.
pub open spec fn is_highest_end(headers: Seq<ProgramHeader>, end: int) -> bool {
    &&& exists|i: int|
        0 <= i < headers.len() && (#[trigger] headers[i]).is_load() && headers[i].spec_end() == end
    &&& forall|i: int|
        0 <= i < headers.len() && (#[trigger] headers[i]).is_load() ==> headers[i].spec_end()
            <= end
}

/// The address just past the last byte of the loadable segments in memory.
pub open spec fn highest_end(headers: Seq<ProgramHeader>) -> int {
    choose|end: int| is_highest_end(headers, end)
}

/// The number of pages that the loader asks for: as many as it takes to hold
/// the memory from the lowest page base to the highest end.
pub open spec fn page_count(headers: Seq<ProgramHeader>) -> int {
    (highest_end(headers) - lowest_page_base(headers) + (PAGE_SIZE - 1)) / (PAGE_SIZE as int)
}

/// What the program headers say about the memory that the image needs: the
/// lowest page base and the number of pages. An image without a loadable
/// segment, or with one that ends above the 64-bit address space, is malformed.
pub open spec fn memory_info_from(headers: Seq<ProgramHeader>) -> Result<(u64, u64), Error> {
    if !has_load(headers) {
        Err(Error::InvalidKernelImage)
    } else if highest_end(headers) > u64::MAX {
        Err(Error::InvalidKernelImage)
    } else {
        Ok((lowest_page_base(headers), page_count(headers) as u64))
    }
}

/// The memory that a valid image needs; an image whose program headers cannot
/// be walked is malformed.
pub open spec fn memory_info_of(image: Seq<u8>) -> Result<(u64, u64), Error> {
    match program_headers_of(image) {
        Ok(headers) => memory_info_from(headers),
        Err(_) => Err(Error::InvalidKernelImage),
    }
}

/// There is at most one lowest page base.
pub proof fn lemma_lowest_page_base_is_unique(headers: Seq<ProgramHeader>, base: u64)
    requires
        is_lowest_page_base(headers, base),
    ensures
        lowest_page_base(headers) == base,
{
    let chosen = lowest_page_base(headers);
    assert(is_lowest_page_base(headers, chosen));
}

/// There is at most one highest end.
pub proof fn lemma_highest_end_is_unique(headers: Seq<ProgramHeader>, end: int)
    requires
        is_highest_end(headers, end),
    ensures
        highest_end(headers) == end,
{
    let chosen = highest_end(headers);
    assert(is_highest_end(headers, chosen));
}

/// Among the first `count` program headers, if one is loadable, there are a
/// lowest page base and a highest end.
proof fn lemma_extent_of_prefix(headers: Seq<ProgramHeader>, count: int) -> (found: (u64, int))
    requires
        0 <= count <= headers.len(),
        has_load(headers.take(count)),
    ensures
        is_lowest_page_base(headers.take(count), found.0),
        is_highest_end(headers.take(count), found.1),
    decreases count,
{
    let prefix = headers.take(count);
    let witness = choose|i: int| 0 <= i < prefix.len() && (#[trigger] prefix[i]).is_load();
    let shorter = headers.take(count - 1);
    let last = headers[count - 1];
    assert(forall|i: int| 0 <= i < count - 1 ==> shorter[i] == prefix[i]);
    assert(prefix[count - 1] == last);
    if exists|i: int| 0 <= i < shorter.len() && (#[trigger] shorter[i]).is_load() {
        let (base, end) = lemma_extent_of_prefix(headers, count - 1);
        let holder = choose|i: int|
            0 <= i < shorter.len() && (#[trigger] shorter[i]).is_load()
                && shorter[i].spec_page_base() == base;
        assert(prefix[holder].is_load() && prefix[holder].spec_page_base() == base);
        let top = choose|i: int|
            0 <= i < shorter.len() && (#[trigger] shorter[i]).is_load() && shorter[i].spec_end()
                == end;
        assert(prefix[top].is_load() && prefix[top].spec_end() == end);
        if last.is_load() {
            let lowest = if last.spec_page_base() < base {
                last.spec_page_base()
            } else {
                base
            };
            let highest = if last.spec_end() > end {
                last.spec_end()
            } else {
                end
            };
            assert(is_lowest_page_base(prefix, lowest));
            assert(is_highest_end(prefix, highest));
            (lowest, highest)
        } else {
            assert(is_lowest_page_base(prefix, base));
            assert(is_highest_end(prefix, end));
            (base, end)
        }
    } else {
        assert(witness == count - 1);
        assert(is_lowest_page_base(prefix, last.spec_page_base()));
        assert(is_highest_end(prefix, last.spec_end()));
        (last.spec_page_base(), last.spec_end())
    }
}

/// An image with a loadable segment has a lowest page base and a highest end,
/// and the lowest page base lies at or below the highest end.
pub proof fn lemma_memory_extent_exists(headers: Seq<ProgramHeader>)
    requires
        has_load(headers),
    ensures
        is_lowest_page_base(headers, lowest_page_base(headers)),
        is_highest_end(headers, highest_end(headers)),
        lowest_page_base(headers) <= highest_end(headers),
{
    assert(headers.take(headers.len() as int) == headers);
    let (base, end) = lemma_extent_of_prefix(headers, headers.len() as int);
    lemma_lowest_page_base_is_unique(headers, base);
    lemma_highest_end_is_unique(headers, end);
    let top = choose|i: int|
        0 <= i < headers.len() && (#[trigger] headers[i]).is_load() && headers[i].spec_end()
            == end;
    headers[top].lemma_page_base_below_start();
}

/// The pages that the loader asks for hold the memory from the lowest page
/// base to the highest end, and no page less would.
pub proof fn lemma_pages_cover_extent(headers: Seq<ProgramHeader>)
    requires
        has_load(headers),
    ensures
        page_count(headers) * PAGE_SIZE >= highest_end(headers) - lowest_page_base(headers),
        (page_count(headers) - 1) * PAGE_SIZE < highest_end(headers) - lowest_page_base(headers)
            || page_count(headers) == 0,
{
    lemma_memory_extent_exists(headers);
}

/// The memory that an image needs depends on which loadable segments it has,
/// not on the order of its program headers, nor on those that are not
/// loadable.
pub proof fn lemma_memory_info_ignores_order(first: Seq<ProgramHeader>, second: Seq<ProgramHeader>)
    requires
        forall|i: int|
            0 <= i < first.len() && (#[trigger] first[i]).is_load() ==> second.contains(first[i]),
        forall|i: int|
            0 <= i < second.len() && (#[trigger] second[i]).is_load() ==> first.contains(second[i]),
    ensures
        memory_info_from(first) == memory_info_from(second),
{
    if has_load(first) {
        let i = choose|i: int| 0 <= i < first.len() && (#[trigger] first[i]).is_load();
        let j = choose|j: int| 0 <= j < second.len() && second[j] == first[i];
        assert(second[j].is_load());
    }
    if has_load(second) {
        let j = choose|j: int| 0 <= j < second.len() && (#[trigger] second[j]).is_load();
        let i = choose|i: int| 0 <= i < first.len() && first[i] == second[j];
        assert(first[i].is_load());
    }
    if has_load(first) {
        lemma_memory_extent_exists(first);
        let base = lowest_page_base(first);
        let end = highest_end(first);
        let holder = choose|i: int|
            0 <= i < first.len() && (#[trigger] first[i]).is_load() && first[i].spec_page_base()
                == base;
        let held = choose|j: int| 0 <= j < second.len() && second[j] == first[holder];
        assert(second[held].is_load() && second[held].spec_page_base() == base);
        let top = choose|i: int|
            0 <= i < first.len() && (#[trigger] first[i]).is_load() && first[i].spec_end() == end;
        let topped = choose|j: int| 0 <= j < second.len() && second[j] == first[top];
        assert(second[topped].is_load() && second[topped].spec_end() == end);
        assert forall|j: int| 0 <= j < second.len() && (#[trigger] second[j]).is_load() implies base
            <= second[j].spec_page_base() && second[j].spec_end() <= end by {
            let i = choose|i: int| 0 <= i < first.len() && first[i] == second[j];
            assert(first[i].is_load());
        }
        assert(is_lowest_page_base(second, base));
        assert(is_highest_end(second, end));
        lemma_lowest_page_base_is_unique(second, base);
        lemma_highest_end_is_unique(second, end);
    }
}

/// Finds the memory that the image needs: the lowest page base of its loadable
/// segments and the number of pages that hold the memory from there to the
/// end of the highest one.
///
/// Fails with `InvalidKernelImage` when the program headers cannot be walked,
/// when no segment is loadable, and when a loadable segment ends above the
/// 64-bit address space.
pub fn get_elf_memory_info(kernel_elf: &ElfFile) -> (info: Result<(u64, u64), Error>)
    ensures
        info == memory_info_of(kernel_elf@),
{
    let mut walk = match kernel_elf.program_headers() {
        Ok(walk) => walk,
        Err(_) => {
            return Err(Error::InvalidKernelImage);
        },
    };
    let ghost headers = walk.entries();
    let mut found: bool = false;
    let mut lowest_base: u64 = 0;
    let mut top_end: u128 = 0;
    loop
        invariant_except_break
            walk.entries() == headers,
            0 <= walk.position() <= headers.len(),
            !found ==> forall|i: int|
                0 <= i < walk.position() ==> !(#[trigger] headers[i]).is_load(),
            found ==> {
                &&& exists|i: int|
                    0 <= i < walk.position() && (#[trigger] headers[i]).is_load()
                        && headers[i].spec_page_base() == lowest_base
                &&& forall|i: int|
                    0 <= i < walk.position() && (#[trigger] headers[i]).is_load() ==> lowest_base
                        <= headers[i].spec_page_base()
                &&& exists|i: int|
                    0 <= i < walk.position() && (#[trigger] headers[i]).is_load()
                        && headers[i].spec_end() == top_end
                &&& forall|i: int|
                    0 <= i < walk.position() && (#[trigger] headers[i]).is_load()
                        ==> headers[i].spec_end() <= top_end
            },
        ensures
            walk.position() == headers.len(),
            !found ==> !has_load(headers),
            found ==> is_lowest_page_base(headers, lowest_base) && is_highest_end(
                headers,
                top_end as int,
            ),
        decreases headers.len() - walk.position(),
    {
        let ghost index = walk.position();
        match walk.next() {
            Some(program_header) => {
                match program_header.get_type() {
                    Some(SegmentType::Load) => {
                        let base: u64 = program_header.get_page_base();
                        let end: u128 = program_header.get_virtual_address() as u128
                            + program_header.get_memory_size() as u128;
                        assert(headers[index].is_load() && headers[index].spec_page_base() == base
                            && headers[index].spec_end() == end);
                        if !found {
                            found = true;
                            lowest_base = base;
                            top_end = end;
                        } else {
                            if base < lowest_base {
                                lowest_base = base;
                            }
                            if end > top_end {
                                top_end = end;
                            }
                        }
                    },
                    _ => {},
                }
            },
            None => {
                break ;
            },
        }
    }
    if !found {
        return Err(Error::InvalidKernelImage);
    }
    proof {
        lemma_lowest_page_base_is_unique(headers, lowest_base);
        lemma_highest_end_is_unique(headers, top_end as int);
        lemma_memory_extent_exists(headers);
        assert(has_load(headers));
    }
    if top_end > u64::MAX as u128 {
        return Err(Error::InvalidKernelImage);
    }
    let extent: u64 = (top_end - lowest_base as u128) as u64;
    let mut pages: u64 = extent / PAGE_SIZE;
    if extent % PAGE_SIZE != 0 {
        pages = pages + 1;
    }
    Ok((lowest_base, pages))
}

/// Memory in which `data` lies from `start` on, followed by zeros up to
/// `memory_size` bytes from `start`; the rest is as in `memory`.
pub open spec fn place_bytes(memory: Seq<u8>, start: int, data: Seq<u8>, memory_size: int) -> Seq<
    u8,
> {
    Seq::new(
        memory.len(),
        |p: int|
            if start <= p < start + data.len() {
                data[p - start]
            } else if start + data.len() <= p < start + memory_size {
                0u8
            } else {
                memory[p]
            },
    )
}

/// Whether a segment can be placed: its bytes lie inside the image, it starts
/// at or above `base`, and what it occupies lies inside the memory.
pub open spec fn segment_fits(
    image_len: nat,
    segment: ProgramHeader,
    base: u64,
    memory_len: nat,
) -> bool {
    &&& segment.offset + segment.filesz <= image_len
    &&& base <= segment.vaddr
    &&& segment.vaddr - base + segment.filesz <= memory_len
    &&& segment.vaddr - base + segment.memsz <= memory_len
}

/// Memory that starts at address `base`, after a segment was placed in it: the
/// segment's bytes from the image at its virtual address, then zeros up to its
/// memory size.
pub open spec fn place_segment(
    image: Seq<u8>,
    segment: ProgramHeader,
    base: u64,
    memory: Seq<u8>,
) -> Seq<u8> {
    place_bytes(
        memory,
        segment.vaddr - base,
        image.subrange(segment.offset as int, segment.offset + segment.filesz),
        segment.memsz as int,
    )
}

/// Memory after the loadable segments among the first `count` program headers
/// were placed in table order, and whether all of them fitted. Placing stops at
/// the first segment that does not fit.
pub open spec fn copy_segments(
    image: Seq<u8>,
    headers: Seq<ProgramHeader>,
    base: u64,
    memory: Seq<u8>,
    count: int,
) -> (Seq<u8>, bool)
    decreases count,
{
    if count <= 0 {
        (memory, true)
    } else {
        let (before, complete) = copy_segments(image, headers, base, memory, count - 1);
        let segment = headers[count - 1];
        if !complete {
            (before, false)
        } else if !segment.is_load() {
            (before, true)
        } else if segment_fits(image.len(), segment, base, memory.len()) {
            (place_segment(image, segment, base, before), true)
        } else {
            (before, false)
        }
    }
}

/// Placing segments keeps the size of the memory.
pub proof fn lemma_copy_segments_len(
    image: Seq<u8>,
    headers: Seq<ProgramHeader>,
    base: u64,
    memory: Seq<u8>,
    count: int,
)
    ensures
        copy_segments(image, headers, base, memory, count).0.len() == memory.len(),
    decreases count,
{
    if count > 0 {
        lemma_copy_segments_len(image, headers, base, memory, count - 1);
    }
}

/// Writes `data` to `target` from `start` on, and zeros after it up to
/// `memory_size` bytes from `start`.
fn place(data: &[u8], start: usize, memory_size: usize, target: &mut [u8])
    requires
        start + data.len() <= old(target).len(),
        start + memory_size <= old(target).len(),
    ensures
        final(target)@ == place_bytes(old(target)@, start as int, data@, memory_size as int),
{
    let mut i: usize = 0;
    while i < data.len()
        invariant
            i <= data.len(),
            start + data.len() <= target.len(),
            target@.len() == old(target)@.len(),
            forall|p: int|
                0 <= p < target@.len() ==> target@[p] == (if start <= p < start + i {
                    data@[p - start]
                } else {
                    old(target)@[p]
                }),
        decreases data.len() - i,
    {
        target[start + i] = data[i];
        i = i + 1;
    }
    let mut j: usize = data.len();
    while j < memory_size
        invariant
            data.len() <= j,
            j <= memory_size || j == data.len(),
            start + data.len() <= target.len(),
            start + memory_size <= target.len(),
            target@.len() == old(target)@.len(),
            forall|p: int|
                0 <= p < target@.len() ==> target@[p] == (if start <= p < start + data.len() {
                    data@[p - start]
                } else if start + data.len() <= p < start + j {
                    0u8
                } else {
                    old(target)@[p]
                }),
        decreases memory_size - j,
    {
        target[start + j] = 0;
        j = j + 1;
    }
    assert(target@ =~= place_bytes(old(target)@, start as int, data@, memory_size as int));
}

/// Places the loadable segments of the image, in table order, in
/// `target_buffer`, which stands for the memory from address `virtual_base` on:
/// each segment's bytes from the image at its virtual address, then zeros up
/// to its memory size.
///
/// Fails with `InvalidKernelImage` when the program headers cannot be walked,
/// and at the first loadable segment that does not fit: one whose bytes do not
/// lie inside the image, that starts below `virtual_base`, or that does not lie
/// inside the buffer. The segments before that one have been placed.
pub fn copy_elf_memory(kernel_elf: &ElfFile, virtual_base: u64, target_buffer: &mut [u8]) -> (copied:
    Result<(), Error>)
    ensures
        match program_headers_of(kernel_elf@) {
            Ok(headers) => {
                let (memory, complete) = copy_segments(
                    kernel_elf@,
                    headers,
                    virtual_base,
                    old(target_buffer)@,
                    headers.len() as int,
                );
                &&& final(target_buffer)@ == memory
                &&& copied == (if complete {
                    Ok::<(), Error>(())
                } else {
                    Err::<(), Error>(Error::InvalidKernelImage)
                })
            },
            Err(_) => final(target_buffer)@ == old(target_buffer)@ && copied == Err::<(), Error>(
                Error::InvalidKernelImage,
            ),
        },
{
    let mut walk = match kernel_elf.program_headers() {
        Ok(walk) => walk,
        Err(_) => {
            return Err(Error::InvalidKernelImage);
        },
    };
    let ghost headers = walk.entries();
    let length: u64 = target_buffer.len() as u64;
    loop
        invariant
            walk.entries() == headers,
            0 <= walk.position() <= headers.len(),
            program_headers_of(kernel_elf@) == Ok::<Seq<ProgramHeader>, ElfError>(headers),
            length == old(target_buffer)@.len(),
            length <= usize::MAX,
            target_buffer@.len() == old(target_buffer)@.len(),
            copy_segments(
                kernel_elf@,
                headers,
                virtual_base,
                old(target_buffer)@,
                walk.position(),
            ) == (target_buffer@, true),
        decreases headers.len() - walk.position(),
    {
        let ghost index = walk.position();
        match walk.next() {
            Some(program_header) => {
                match program_header.get_type() {
                    Some(SegmentType::Load) => {
                        let ghost fits = segment_fits(
                            kernel_elf@.len(),
                            program_header,
                            virtual_base,
                            old(target_buffer)@.len(),
                        );
                        let data = match kernel_elf.segment_data(&program_header) {
                            Ok(data) => data,
                            Err(_) => {
                                proof {
                                    assert(!fits);
                                    lemma_copy_stops(
                                        kernel_elf@,
                                        headers,
                                        virtual_base,
                                        old(target_buffer)@,
                                        index + 1,
                                        headers.len() as int,
                                    );
                                }
                                return Err(Error::InvalidKernelImage);
                            },
                        };
                        let address: u64 = program_header.get_virtual_address();
                        let size: u64 = program_header.get_memory_size();
                        if address < virtual_base || address - virtual_base > length
                            || program_header.get_file_size() > length - (address - virtual_base)
                            || size > length - (address - virtual_base) {
                            proof {
                                assert(!fits);
                                lemma_copy_stops(
                                    kernel_elf@,
                                    headers,
                                    virtual_base,
                                    old(target_buffer)@,
                                    index + 1,
                                    headers.len() as int,
                                );
                            }
                            return Err(Error::InvalidKernelImage);
                        }
                        let ghost before = target_buffer@;
                        place(data, (address - virtual_base) as usize, size as usize, target_buffer);
                        assert(fits);
                        assert(target_buffer@ == place_segment(
                            kernel_elf@,
                            program_header,
                            virtual_base,
                            before,
                        ));
                    },
                    _ => {
                        assert(!program_header.is_load());
                    },
                }
                assert(headers[index] == program_header);
                assert(copy_segments(
                    kernel_elf@,
                    headers,
                    virtual_base,
                    old(target_buffer)@,
                    index + 1,
                ) == (target_buffer@, true));
            },
            None => {
                return Ok(());
            },
        }
    }
}

/// Once a segment did not fit, nothing more is placed.
pub proof fn lemma_copy_stops(
    image: Seq<u8>,
    headers: Seq<ProgramHeader>,
    base: u64,
    memory: Seq<u8>,
    failed: int,
    count: int,
)
    requires
        !copy_segments(image, headers, base, memory, failed).1,
        failed <= count,
    ensures
        copy_segments(image, headers, base, memory, count) == copy_segments(
            image,
            headers,
            base,
            memory,
            failed,
        ),
    decreases count - failed,
{
    if failed < count {
        lemma_copy_stops(image, headers, base, memory, failed, count - 1);
    }
}

/// Whether placing a segment writes the byte at `address`.
pub open spec fn writes_to(segment: ProgramHeader, address: int) -> bool {
    segment.vaddr <= address < segment.vaddr + segment.filesz || segment.vaddr + segment.filesz
        <= address < segment.vaddr + segment.memsz
}

/// The byte that placing a segment writes at `address`: the segment's byte
/// from the image up to its file size, and 0 from there on.
pub open spec fn byte_written(image: Seq<u8>, segment: ProgramHeader, address: int) -> u8 {
    if address < segment.vaddr + segment.filesz {
        image[segment.offset + (address - segment.vaddr)]
    } else {
        0u8
    }
}

/// Where all of the first `count` segments were placed, all of fewer were.
pub proof fn lemma_copy_complete_before(
    image: Seq<u8>,
    headers: Seq<ProgramHeader>,
    base: u64,
    memory: Seq<u8>,
    fewer: int,
    count: int,
)
    requires
        copy_segments(image, headers, base, memory, count).1,
        fewer <= count,
    ensures
        copy_segments(image, headers, base, memory, fewer).1,
    decreases count - fewer,
{
    if fewer < count {
        if !copy_segments(image, headers, base, memory, count - 1).1 {
            lemma_copy_stops(image, headers, base, memory, count - 1, count);
        }
        lemma_copy_complete_before(image, headers, base, memory, fewer, count - 1);
    }
}

/// After the first `count` segments were placed, memory holds at `address`
/// what segment `index` wrote there, if every later segment among them that
/// wrote there wrote the same byte.
pub proof fn lemma_written_byte_stays(
    image: Seq<u8>,
    headers: Seq<ProgramHeader>,
    base: u64,
    memory: Seq<u8>,
    index: int,
    address: int,
    count: int,
)
    requires
        0 <= index < count <= headers.len(),
        copy_segments(image, headers, base, memory, count).1,
        headers[index].is_load(),
        writes_to(headers[index], address),
        forall|later: int|
            index < later < count && (#[trigger] headers[later]).is_load() && writes_to(
                headers[later],
                address,
            ) ==> byte_written(image, headers[later], address) == byte_written(
                image,
                headers[index],
                address,
            ),
    ensures
        base <= address,
        address - base < memory.len(),
        copy_segments(image, headers, base, memory, count).0[address - base] == byte_written(
            image,
            headers[index],
            address,
        ),
    decreases count,
{
    lemma_copy_complete_before(image, headers, base, memory, count - 1, count);
    lemma_copy_complete_before(image, headers, base, memory, index, count);
    lemma_copy_complete_before(image, headers, base, memory, index + 1, count);
    lemma_copy_segments_len(image, headers, base, memory, count - 1);
    lemma_copy_segments_len(image, headers, base, memory, index);
    assert(segment_fits(image.len(), headers[index], base, memory.len()));
    if index < count - 1 {
        lemma_written_byte_stays(image, headers, base, memory, index, address, count - 1);
        assert(headers[count - 1].is_load() && writes_to(headers[count - 1], address)
            ==> byte_written(image, headers[count - 1], address) == byte_written(
            image,
            headers[index],
            address,
        ));
    }
}

/// After all loadable segments were placed, memory holds every byte of a
/// segment's file data at its address, unless a later segment wrote another
/// byte there.
pub proof fn lemma_segment_data_in_memory(
    image: Seq<u8>,
    headers: Seq<ProgramHeader>,
    base: u64,
    memory: Seq<u8>,
    index: int,
    address: int,
)
    requires
        copy_segments(image, headers, base, memory, headers.len() as int).1,
        0 <= index < headers.len(),
        headers[index].is_load(),
        headers[index].vaddr <= address < headers[index].vaddr + headers[index].filesz,
        forall|later: int|
            index < later < headers.len() && (#[trigger] headers[later]).is_load() && writes_to(
                headers[later],
                address,
            ) ==> byte_written(image, headers[later], address) == image[headers[index].offset + (
            address - headers[index].vaddr)],
    ensures
        base <= address,
        address - base < memory.len(),
        copy_segments(image, headers, base, memory, headers.len() as int).0[address - base]
            == image[headers[index].offset + (address - headers[index].vaddr)],
{
    lemma_written_byte_stays(image, headers, base, memory, index, address, headers.len() as int);
}

/// After all loadable segments were placed, memory holds 0 at every address
/// between the end of a segment's file data and the end of the segment, unless
/// a later segment wrote another byte there.
pub proof fn lemma_segment_tail_is_zero(
    image: Seq<u8>,
    headers: Seq<ProgramHeader>,
    base: u64,
    memory: Seq<u8>,
    index: int,
    address: int,
)
    requires
        copy_segments(image, headers, base, memory, headers.len() as int).1,
        0 <= index < headers.len(),
        headers[index].is_load(),
        headers[index].vaddr + headers[index].filesz <= address < headers[index].vaddr
            + headers[index].memsz,
        forall|later: int|
            index < later < headers.len() && (#[trigger] headers[later]).is_load() && writes_to(
                headers[later],
                address,
            ) ==> byte_written(image, headers[later], address) == 0,
    ensures
        base <= address,
        address - base < memory.len(),
        copy_segments(image, headers, base, memory, headers.len() as int).0[address - base] == 0,
{
    lemma_written_byte_stays(image, headers, base, memory, index, address, headers.len() as int);
}

/// In memory that reaches from the lowest page base to the highest end, the
/// first `count` segments can all be placed, if the data of every loadable one
/// lies inside the image and is no longer than the segment.
pub proof fn lemma_extent_holds_segments(
    image: Seq<u8>,
    headers: Seq<ProgramHeader>,
    memory: Seq<u8>,
    count: int,
)
    requires
        has_load(headers),
        0 <= count <= headers.len(),
        memory.len() >= highest_end(headers) - lowest_page_base(headers),
        forall|i: int|
            0 <= i < headers.len() && (#[trigger] headers[i]).is_load() ==> headers[i].offset
                + headers[i].filesz <= image.len() && headers[i].filesz <= headers[i].memsz,
    ensures
        copy_segments(image, headers, lowest_page_base(headers), memory, count).1,
    decreases count,
{
    if count > 0 {
        lemma_extent_holds_segments(image, headers, memory, count - 1);
        lemma_memory_extent_exists(headers);
        let segment = headers[count - 1];
        if segment.is_load() {
            segment.lemma_page_base_below_start();
            assert(segment.spec_end() <= highest_end(headers));
            assert(segment_fits(image.len(), segment, lowest_page_base(headers), memory.len()));
        }
    }
}

/// The pages that the loader asks for hold every loadable segment, if the data
/// of each lies inside the image and is no longer than the segment.
pub proof fn lemma_pages_hold_segments(
    image: Seq<u8>,
    headers: Seq<ProgramHeader>,
    memory: Seq<u8>,
)
    requires
        has_load(headers),
        memory.len() == page_count(headers) * PAGE_SIZE,
        forall|i: int|
            0 <= i < headers.len() && (#[trigger] headers[i]).is_load() ==> headers[i].offset
                + headers[i].filesz <= image.len() && headers[i].filesz <= headers[i].memsz,
    ensures
        copy_segments(
            image,
            headers,
            lowest_page_base(headers),
            memory,
            headers.len() as int,
        ).1,
{
    lemma_pages_cover_extent(headers);
    lemma_extent_holds_segments(image, headers, memory, headers.len() as int);
}

/// What the loader asks the firmware for.
#[derive(Clone, Copy, Debug, PartialEq, Eq, Structural)]
pub enum MemoryRequest {
    /// `page_count` pages, wherever the firmware finds them.
    Anywhere { page_count: u64 },
    /// `page_count` pages that start at `address`.
    At { address: u64, page_count: u64 },
}

/// What is known of an image before memory is asked for.
#[derive(Clone, Copy, Debug, PartialEq, Eq, Structural)]
pub struct LoadPlan {
    /// The virtual address at which execution of the image starts.
    pub virtual_entry: u64,
    /// The lowest page base of the loadable segments.
    pub virtual_base: u64,
    /// The number of pages that the image needs.
    pub page_count: u64,
    /// The relocation table of a dynamic image; a static image has none.
    pub relocation_table: Option<RelocationTable>,
}

/// The memory to ask for: a dynamic image can lie anywhere, a static one only
/// at the address that it was linked for.
pub open spec fn memory_request(virtual_base: u64, page_count: u64, dynamic: bool) -> MemoryRequest {
    if dynamic {
        MemoryRequest::Anywhere { page_count }
    } else {
        MemoryRequest::At { address: virtual_base, page_count }
    }
}

/// The distance from the address that an image was linked for to the one at
/// which it lies, as a signed 64-bit number.
pub open spec fn spec_base_address(virtual_base: u64, physical_base: u64) -> i64 {
    spec_signed(wrap64(physical_base - virtual_base))
}

/// The address at which execution starts in memory: the image's entry point,
/// moved as far as the image was, in 64-bit arithmetic.
pub open spec fn entry_point_of(virtual_entry: u64, virtual_base: u64, physical_base: u64) -> u64 {
    wrap64(virtual_entry + (physical_base - virtual_base))
}

/// What is known of `image` before memory is asked for. An image is malformed
/// when it does not open, when its memory cannot be found, when its relocation
/// table cannot be found, and when it has relocations but was not linked for
/// address 0.
pub open spec fn load_plan_of(image: Seq<u8>) -> Result<LoadPlan, Error> {
    if !valid_image(image) {
        Err(Error::InvalidKernelImage)
    } else {
        match memory_info_of(image) {
            Ok((virtual_base, page_count)) => match relocation_table_of(image) {
                Ok(relocation_table) => {
                    if relocation_table is Some && virtual_base != 0 {
                        Err(Error::InvalidKernelImage)
                    } else {
                        Ok(
                            LoadPlan {
                                virtual_entry: Header::decode(image).entry,
                                virtual_base,
                                page_count,
                                relocation_table,
                            },
                        )
                    }
                },
                Err(_) => Err(Error::InvalidKernelImage),
            },
            Err(e) => Err(e),
        }
    }
}

/// Memory that starts at `physical_base`, after the image was loaded into it
/// as planned, and the address at which execution starts. Loading stops at the
/// first step that fails.
pub open spec fn place_kernel(
    image: Seq<u8>,
    plan: LoadPlan,
    physical_base: u64,
    memory: Seq<u8>,
) -> (Seq<u8>, Result<u64, Error>) {
    let headers = program_headers_of(image)->Ok_0;
    let (copied, complete) = copy_segments(
        image,
        headers,
        plan.virtual_base,
        memory,
        headers.len() as int,
    );
    let entry = entry_point_of(plan.virtual_entry, plan.virtual_base, physical_base);
    if plan.relocation_table is None && physical_base != plan.virtual_base {
        (memory, Err(Error::MemoryAllocationFailed))
    } else if !complete {
        (copied, Err(Error::InvalidKernelImage))
    } else {
        match plan.relocation_table {
            Some(table) => {
                if table.walk_check(image.len()) is Ok {
                    let (relocated, applied) = relocate_entries(
                        table.entries(image),
                        physical_base,
                        copied,
                        table.entry_count(),
                    );
                    if applied is Ok {
                        (relocated, Ok(entry))
                    } else {
                        (relocated, Err(Error::InvalidKernelImage))
                    }
                } else {
                    (copied, Err(Error::InvalidKernelImage))
                }
            },
            None => (copied, Ok(entry)),
        }
    }
}

/// What loading `image` into memory that starts at `physical_base` gives: the
/// memory afterwards, and the address at which execution starts.
pub open spec fn load_result(image: Seq<u8>, physical_base: u64, memory: Seq<u8>) -> (
    Seq<u8>,
    Result<u64, Error>,
) {
    match load_plan_of(image) {
        Ok(plan) => place_kernel(image, plan, physical_base, memory),
        Err(e) => (memory, Err(e)),
    }
}

/// Tells what memory to ask the firmware for: for a dynamic image
/// `page_count` pages anywhere, for a static one `page_count` pages at
/// `virtual_base`.
pub fn allocate_elf_memory(virtual_base: u64, page_count: u64, dynamic: bool) -> (request:
    MemoryRequest)
    ensures
        request == memory_request(virtual_base, page_count, dynamic),
{
    if dynamic {
        MemoryRequest::Anywhere { page_count }
    } else {
        MemoryRequest::At { address: virtual_base, page_count }
    }
}

/// Takes the firmware's answer to a request for memory: the address of what it
/// handed out, or `MemoryAllocationFailed` when it handed out nothing.
pub fn memory_allocated(granted: Option<u64>) -> (physical_base: Result<u64, Error>)
    ensures
        physical_base == (match granted {
            Some(address) => Ok::<u64, Error>(address),
            None => Err::<u64, Error>(Error::MemoryAllocationFailed),
        }),
{
    match granted {
        Some(address) => Ok(address),
        None => Err(Error::MemoryAllocationFailed),
    }
}

/// Computes how far an image moved: the address at which it lies minus the one
/// that it was linked for, as a signed 64-bit number.
pub fn calculate_base_address(virtual_base: u64, physical_base: u64) -> (base_address: i64)
    ensures
        base_address == spec_base_address(virtual_base, physical_base),
        physical_base == virtual_base ==> base_address == 0,
{
    signed(physical_base.wrapping_sub(virtual_base))
}

/// Computes the address at which execution starts in memory: the image's
/// entry point, moved as far as the image was.
pub fn entry_point(virtual_entry: u64, virtual_base: u64, physical_base: u64) -> (address: u64)
    ensures
        address == entry_point_of(virtual_entry, virtual_base, physical_base),
        0 <= virtual_entry + (physical_base - virtual_base) <= u64::MAX ==> address == virtual_entry
            + (physical_base - virtual_base),
{
    let base_address: i64 = calculate_base_address(virtual_base, physical_base);
    virtual_entry.wrapping_add_signed(base_address)
}

/// Reads from an image what the loader has to know before it asks for memory.
///
/// Fails with `InvalidKernelImage` when the program headers cannot be walked,
/// when no segment is loadable or one ends above the 64-bit address space, when
/// the dynamic section is malformed or lies outside the image, and when the
/// image has relocations but its lowest page base is not 0.
pub fn plan_kernel_load(kernel_elf: &ElfFile) -> (plan: Result<LoadPlan, Error>)
    ensures
        plan == load_plan_of(kernel_elf@),
{
    let virtual_entry: u64 = kernel_elf.header().get_entry_point();
    let (virtual_base, page_count) = match get_elf_memory_info(kernel_elf) {
        Ok(info) => info,
        Err(e) => {
            return Err(e);
        },
    };
    let relocation_table = match kernel_elf.relocation_table() {
        Ok(table) => table,
        Err(_) => {
            return Err(Error::InvalidKernelImage);
        },
    };
    if relocation_table.is_some() && virtual_base != 0 {
        return Err(Error::InvalidKernelImage);
    }
    Ok(LoadPlan { virtual_entry, virtual_base, page_count, relocation_table })
}

/// Tells what memory the kernel in `elf_data` needs.
///
/// Fails with `InvalidKernelImage` when `elf_data` does not open as a 64-bit
/// RISC-V image, and when `plan_kernel_load` fails on it.
pub fn kernel_memory_request(elf_data: &[u8]) -> (request: Result<MemoryRequest, Error>)
    ensures
        request == (match load_plan_of(elf_data@) {
            Ok(plan) => Ok::<MemoryRequest, Error>(
                memory_request(
                    plan.virtual_base,
                    plan.page_count,
                    plan.relocation_table is Some,
                ),
            ),
            Err(e) => Err::<MemoryRequest, Error>(e),
        }),
{
    let kernel_elf = match ElfFile::from_buffer(elf_data) {
        Ok(kernel_elf) => kernel_elf,
        Err(_) => {
            return Err(Error::InvalidKernelImage);
        },
    };
    match plan_kernel_load(&kernel_elf) {
        Ok(plan) => Ok(
            allocate_elf_memory(
                plan.virtual_base,
                plan.page_count,
                plan.relocation_table.is_some(),
            ),
        ),
        Err(e) => Err(e),
    }
}

/// Loads the kernel in `elf_data` into `kernel_buffer`, the memory that the
/// firmware handed out at address `physical_base`: places the loadable
/// segments, applies the relocations of a dynamic image, and gives the address
/// at which execution starts.
///
/// Fails with `InvalidKernelImage` when `elf_data` does not open as a 64-bit
/// RISC-V image, when `plan_kernel_load` fails on it, when a loadable segment
/// does not fit, when the relocation table cannot be walked, and when a
/// relocation cannot be applied. Fails with `MemoryAllocationFailed` when the
/// image is static and `physical_base` is not the address that it was linked
/// for. What was written before a failure stays written.
pub fn load_kernel(elf_data: &[u8], physical_base: u64, kernel_buffer: &mut [u8]) -> (entry_point:
    Result<u64, Error>)
    ensures
        (final(kernel_buffer)@, entry_point) == load_result(
            elf_data@,
            physical_base,
            old(kernel_buffer)@,
        ),
        entry_point matches Ok(address) ==> {
            &&& program_headers_of(elf_data@) is Ok
            &&& address == wrap64(
                Header::decode(elf_data@).entry + (physical_base - lowest_page_base(
                    program_headers_of(elf_data@)->Ok_0,
                )),
            )
        },
{
    let kernel_elf = match ElfFile::from_buffer(elf_data) {
        Ok(kernel_elf) => kernel_elf,
        Err(_) => {
            return Err(Error::InvalidKernelImage);
        },
    };
    let plan = match plan_kernel_load(&kernel_elf) {
        Ok(plan) => plan,
        Err(e) => {
            return Err(e);
        },
    };
    if plan.relocation_table.is_none() && physical_base != plan.virtual_base {
        return Err(Error::MemoryAllocationFailed);
    }
    let ghost headers = program_headers_of(elf_data@)->Ok_0;
    let ghost placed = copy_segments(
        elf_data@,
        headers,
        plan.virtual_base,
        old(kernel_buffer)@,
        headers.len() as int,
    );
    proof {
        lemma_copy_segments_len(
            elf_data@,
            headers,
            plan.virtual_base,
            old(kernel_buffer)@,
            headers.len() as int,
        );
    }
    match copy_elf_memory(&kernel_elf, plan.virtual_base, kernel_buffer) {
        Ok(_) => {},
        Err(e) => {
            assert(!placed.1);
            return Err(e);
        },
    }
    assert(placed == (kernel_buffer@, true));
    match plan.relocation_table {
        Some(relocations) => {
            match apply_relocations(elf_data, &relocations, physical_base, kernel_buffer) {
                Ok(_) => {},
                Err(_) => {
                    return Err(Error::InvalidKernelImage);
                },
            }
        },
        None => {},
    }
    Ok(entry_point(plan.virtual_entry, plan.virtual_base, physical_base))
}

/// What the boot sequence is waiting for.
#[derive(Clone, Copy, Debug, PartialEq, Eq, Structural)]
pub enum BootState {
    /// The firmware has not started the loader yet.
    Start,
    /// The kernel is being loaded.
    LoadingKernel,
    /// The kernel is in memory; the device tree is being looked up.
    FindingDeviceTree { entry_point: u64 },
    /// The device tree is known; the memory map is being read.
    ReadingMemoryMap { entry_point: u64, device_tree: u64 },
    /// The memory map is read; the firmware's boot services are being left.
    ExitingBootServices { entry_point: u64, device_tree: u64 },
    /// Control went to the kernel.
    Running,
    /// Booting failed and the error went back to the firmware.
    Failed { error: Error },
    /// Nothing can be done any more.
    Halted,
}

/// What happened since the last step of the boot sequence.
#[derive(Clone, Copy, Debug)]
pub enum BootEvent {
    /// The firmware started the loader.
    Started,
    /// Loading the kernel ended, with the address at which execution starts.
    KernelLoaded { entry_point: Result<u64, Error> },
    /// The configuration tables were searched for the device tree.
    DeviceTreeSearched { device_tree: Option<u64> },
    /// The firmware was asked for its memory map.
    MemoryMapRead { outcome: Result<(), UEFIError> },
    /// The firmware was asked to end its boot services.
    BootServicesExited { exited: bool },
    /// The kernel gave control back.
    KernelReturned,
}

/// What the loader writes to the console before it acts.
#[derive(Clone, Copy, Debug, PartialEq, Eq, Structural)]
pub enum Notice {
    /// Nothing.
    Silent,
    /// The loader's name, on a cleared screen.
    Banner,
    /// That no entry point could be found.
    NoEntryPoint,
    /// That the kernel is about to get control.
    Booting,
    /// The line that tells of a failure.
    Failure { error: Error },
}

/// What the loader does next.
#[derive(Clone, Copy, Debug, PartialEq, Eq, Structural)]
pub enum BootAction {
    /// Load the kernel into memory.
    LoadKernel,
    /// Search the firmware's configuration tables for the device tree.
    FindDeviceTree,
    /// Ask the firmware for its memory map.
    ReadMemoryMap,
    /// Ask the firmware to end its boot services.
    ExitBootServices,
    /// Jump to `entry_point`, with `device_tree` in register `a0` and the
    /// address of the memory map in `a1`.
    JumpToKernel { entry_point: u64, device_tree: u64 },
    /// Give `error` back to the firmware.
    Return { error: Error },
    /// Loop forever.
    Halt,
}

/// A step of the boot sequence: where it stands afterwards, what to write to
/// the console, and what to do.
#[derive(Clone, Copy, Debug, PartialEq, Eq, Structural)]
pub struct BootStep {
    pub state: BootState,
    pub notice: Notice,
    pub action: BootAction,
}

impl Notice {
    /// The text of the notice, without the end of the line.
    pub open spec fn spec_text(&self) -> Seq<char> {
        match self {
            Notice::Silent => ""@,
            Notice::Banner => "MercurOS Maia Bootloader"@,
            Notice::NoEntryPoint => "Unable to determine entry point!"@,
            Notice::Booting => "Booting to OS"@,
            Notice::Failure { error } => error.spec_message(),
        }
    }

    /// The text of the notice, without the end of the line.
    pub fn text(&self) -> (text: &'static str)
        ensures
            text@ == self.spec_text(),
    {
        match self {
            Notice::Silent => "",
            Notice::Banner => "MercurOS Maia Bootloader",
            Notice::NoEntryPoint => "Unable to determine entry point!",
            Notice::Booting => "Booting to OS",
            Notice::Failure { error } => error.message(),
        }
    }

    /// Whether the screen is cleared before the notice is written.
    pub fn clears_screen(&self) -> (clears: bool)
        ensures
            clears == (*self == Notice::Banner),
    {
        match self {
            Notice::Banner => true,
            _ => false,
        }
    }
}

/// The step that gives up with `error`.
pub open spec fn failure(error: Error) -> BootStep {
    BootStep {
        state: BootState::Failed { error },
        notice: Notice::Failure { error },
        action: BootAction::Return { error },
    }
}

/// The step that stops everything.
pub open spec fn halt() -> BootStep {
    BootStep { state: BootState::Halted, notice: Notice::Silent, action: BootAction::Halt }
}

/// The boot sequence: load the kernel, look up the device tree, read the
/// memory map, leave the boot services, jump. A failure before the boot
/// services are left goes back to the firmware; from then on the loader can
/// only halt. An event that the state does not wait for halts the loader.
pub open spec fn boot_transition(state: BootState, event: BootEvent) -> BootStep {
    match (state, event) {
        (BootState::Start, BootEvent::Started) => BootStep {
            state: BootState::LoadingKernel,
            notice: Notice::Banner,
            action: BootAction::LoadKernel,
        },
        (BootState::LoadingKernel, BootEvent::KernelLoaded { entry_point: Ok(entry_point) }) => {
            if entry_point == 0 {
                BootStep {
                    state: BootState::Failed { error: Error::InvalidKernelImage },
                    notice: Notice::NoEntryPoint,
                    action: BootAction::Return { error: Error::InvalidKernelImage },
                }
            } else {
                BootStep {
                    state: BootState::FindingDeviceTree { entry_point },
                    notice: Notice::Silent,
                    action: BootAction::FindDeviceTree,
                }
            }
        },
        (BootState::LoadingKernel, BootEvent::KernelLoaded { entry_point: Err(error) }) => failure(
            error,
        ),
        (
            BootState::FindingDeviceTree { entry_point },
            BootEvent::DeviceTreeSearched { device_tree: Some(device_tree) },
        ) => BootStep {
            state: BootState::ReadingMemoryMap { entry_point, device_tree },
            notice: Notice::Silent,
            action: BootAction::ReadMemoryMap,
        },
        (
            BootState::FindingDeviceTree { entry_point },
            BootEvent::DeviceTreeSearched { device_tree: None },
        ) => failure(Error::DeviceTreeUnavailable),
        (
            BootState::ReadingMemoryMap { entry_point, device_tree },
            BootEvent::MemoryMapRead { outcome: Ok(_) },
        ) => BootStep {
            state: BootState::ExitingBootServices { entry_point, device_tree },
            notice: Notice::Booting,
            action: BootAction::ExitBootServices,
        },
        (
            BootState::ReadingMemoryMap { entry_point, device_tree },
            BootEvent::MemoryMapRead { outcome: Err(error) },
        ) => failure(
            match error {
                UEFIError::MemoryAllocationFailed => Error::MemoryAllocationFailed,
                UEFIError::Other => Error::MemoryMapUnavailable,
            },
        ),
        (
            BootState::ExitingBootServices { entry_point, device_tree },
            BootEvent::BootServicesExited { exited },
        ) => {
            if exited {
                BootStep {
                    state: BootState::Running,
                    notice: Notice::Silent,
                    action: BootAction::JumpToKernel { entry_point, device_tree },
                }
            } else {
                halt()
            }
        },
        _ => halt(),
    }
}

/// Whether a state can be reached: the entry point that it holds is not 0.
pub open spec fn reachable(state: BootState) -> bool {
    match state {
        BootState::FindingDeviceTree { entry_point } => entry_point != 0,
        BootState::ReadingMemoryMap { entry_point, device_tree } => entry_point != 0,
        BootState::ExitingBootServices { entry_point, device_tree } => entry_point != 0,
        _ => true,
    }
}

/// Takes one step of the boot sequence: from the state that it stands in and
/// what happened, to the state that it stands in next, what to write to the
/// console, and what to do.
pub fn boot(state: BootState, event: BootEvent) -> (step: BootStep)
    ensures
        step == boot_transition(state, event),
{
    match (state, event) {
        (BootState::Start, BootEvent::Started) => BootStep {
            state: BootState::LoadingKernel,
            notice: Notice::Banner,
            action: BootAction::LoadKernel,
        },
        (BootState::LoadingKernel, BootEvent::KernelLoaded { entry_point: Ok(entry_point) }) => {
            if entry_point == 0 {
                BootStep {
                    state: BootState::Failed { error: Error::InvalidKernelImage },
                    notice: Notice::NoEntryPoint,
                    action: BootAction::Return { error: Error::InvalidKernelImage },
                }
            } else {
                BootStep {
                    state: BootState::FindingDeviceTree { entry_point },
                    notice: Notice::Silent,
                    action: BootAction::FindDeviceTree,
                }
            }
        },
        (BootState::LoadingKernel, BootEvent::KernelLoaded { entry_point: Err(error) }) => give_up(
            error,
        ),
        (
            BootState::FindingDeviceTree { entry_point },
            BootEvent::DeviceTreeSearched { device_tree: Some(device_tree) },
        ) => BootStep {
            state: BootState::ReadingMemoryMap { entry_point, device_tree },
            notice: Notice::Silent,
            action: BootAction::ReadMemoryMap,
        },
        (BootState::FindingDeviceTree { .. }, BootEvent::DeviceTreeSearched { device_tree: None }) => {
            give_up(Error::DeviceTreeUnavailable)
        },
        (
            BootState::ReadingMemoryMap { entry_point, device_tree },
            BootEvent::MemoryMapRead { outcome: Ok(_) },
        ) => BootStep {
            state: BootState::ExitingBootServices { entry_point, device_tree },
            notice: Notice::Booting,
            action: BootAction::ExitBootServices,
        },
        (BootState::ReadingMemoryMap { .. }, BootEvent::MemoryMapRead { outcome: Err(error) }) => {
            give_up(Error::from(error))
        },
        (
            BootState::ExitingBootServices { entry_point, device_tree },
            BootEvent::BootServicesExited { exited: true },
        ) => BootStep {
            state: BootState::Running,
            notice: Notice::Silent,
            action: BootAction::JumpToKernel { entry_point, device_tree },
        },
        _ => BootStep { state: BootState::Halted, notice: Notice::Silent, action: BootAction::Halt },
    }
}

/// The step that gives up with `error`.
fn give_up(error: Error) -> (step: BootStep)
    ensures
        step == failure(error),
{
    BootStep {
        state: BootState::Failed { error },
        notice: Notice::Failure { error },
        action: BootAction::Return { error },
    }
}

/// Every step leads from a state that can be reached to one that can be.
pub proof fn lemma_boot_keeps_reachable(state: BootState, event: BootEvent)
    requires
        reachable(state),
    ensures
        reachable(boot_transition(state, event).state),
{
}

/// The loader jumps only once the boot services were left, to the entry point
/// and with the device tree that the state held, and never to address 0.
pub proof fn lemma_jump_follows_exit(state: BootState, event: BootEvent)
    requires
        reachable(state),
        boot_transition(state, event).action is JumpToKernel,
    ensures
        event == (BootEvent::BootServicesExited { exited: true }),
        state == (BootState::ExitingBootServices {
            entry_point: boot_transition(state, event).action->entry_point,
            device_tree: boot_transition(state, event).action->device_tree,
        }),
        boot_transition(state, event).action->entry_point != 0,
        boot_transition(state, event).state == BootState::Running,
{
}

/// An error goes back to the firmware only while the boot services are still
/// there: never from the state in which they are being left, nor after it.
pub proof fn lemma_no_return_after_exit(state: BootState, event: BootEvent)
    requires
        state is ExitingBootServices || state is Running || state is Halted || state is Failed,
    ensures
        !(boot_transition(state, event).action is Return),
{
}

} // verus!
