use maia::boot::{
    allocate_elf_memory, calculate_base_address, copy_elf_memory, entry_point, get_elf_memory_info,
    kernel_memory_request, load_kernel, memory_allocated, plan_kernel_load, Error, LoadPlan,
    MemoryRequest, PAGE_SIZE,
};
use maia::elf::dynamic::RelocationTable;
use maia::elf::elf_file::ElfFile;

struct Segment {
    segment_type: u32,
    offset: u64,
    vaddr: u64,
    filesz: u64,
    memsz: u64,
    align: u64,
}

fn load(offset: u64, vaddr: u64, filesz: u64, memsz: u64) -> Segment {
    Segment { segment_type: 1, offset, vaddr, filesz, memsz, align: 0x1000 }
}

fn dynamic(offset: u64, filesz: u64) -> Segment {
    Segment { segment_type: 2, offset, vaddr: offset, filesz, memsz: filesz, align: 8 }
}

fn image(entry: u64, segments: &[Segment], length: usize) -> Vec<u8> {
    let mut bytes = vec![0x7F, 0x45, 0x4C, 0x46, 2, 1, 1, 0];
    bytes.extend_from_slice(&[0u8; 8]);
    bytes.extend_from_slice(&2u16.to_le_bytes());
    bytes.extend_from_slice(&0xF3u16.to_le_bytes());
    bytes.extend_from_slice(&1u32.to_le_bytes());
    bytes.extend_from_slice(&entry.to_le_bytes());
    bytes.extend_from_slice(&64u64.to_le_bytes());
    bytes.extend_from_slice(&0u64.to_le_bytes());
    bytes.extend_from_slice(&0u32.to_le_bytes());
    bytes.extend_from_slice(&64u16.to_le_bytes());
    bytes.extend_from_slice(&56u16.to_le_bytes());
    bytes.extend_from_slice(&(segments.len() as u16).to_le_bytes());
    bytes.extend_from_slice(&[0u8; 6]);
    for segment in segments {
        bytes.extend_from_slice(&segment.segment_type.to_le_bytes());
        bytes.extend_from_slice(&5u32.to_le_bytes());
        bytes.extend_from_slice(&segment.offset.to_le_bytes());
        bytes.extend_from_slice(&segment.vaddr.to_le_bytes());
        bytes.extend_from_slice(&segment.vaddr.to_le_bytes());
        bytes.extend_from_slice(&segment.filesz.to_le_bytes());
        bytes.extend_from_slice(&segment.memsz.to_le_bytes());
        bytes.extend_from_slice(&segment.align.to_le_bytes());
    }
    assert!(bytes.len() <= length);
    while bytes.len() < length {
        bytes.push((bytes.len() % 253 + 1) as u8);
    }
    bytes
}

fn put(bytes: &mut [u8], at: usize, value: u64) {
    bytes[at..at + 8].copy_from_slice(&value.to_le_bytes());
}

fn put_dynamic(bytes: &mut [u8], at: usize, entries: &[(i64, u64)]) {
    for (index, (tag, val)) in entries.iter().enumerate() {
        bytes[at + 16 * index..at + 16 * index + 8].copy_from_slice(&tag.to_le_bytes());
        put(bytes, at + 16 * index + 8, *val);
    }
}

fn put_rela(bytes: &mut [u8], at: usize, offset: u64, info: u64, addend: i64) {
    put(bytes, at, offset);
    put(bytes, at + 8, info);
    bytes[at + 16..at + 24].copy_from_slice(&addend.to_le_bytes());
}

fn read(bytes: &[u8], at: usize) -> u64 {
    let mut raw = [0u8; 8];
    raw.copy_from_slice(&bytes[at..at + 8]);
    u64::from_le_bytes(raw)
}

/// An image with one loadable segment that starts at address 0 and holds the
/// whole file, a dynamic section at 0x200 and relocations at 0x100.
fn dynamic_image(entry: u64, tags: &[(i64, u64)], relocations: &[(u64, u64, i64)]) -> Vec<u8> {
    let mut bytes = image(entry, &[load(0, 0, 0x300, 0x2000), dynamic(0x200, 0x100)], 0x300);
    put_dynamic(&mut bytes, 0x200, tags);
    for (index, (offset, info, addend)) in relocations.iter().enumerate() {
        put_rela(&mut bytes, 0x100 + 24 * index, *offset, *info, *addend);
    }
    bytes
}

fn info_of(bytes: &[u8]) -> Result<(u64, u64), Error> {
    get_elf_memory_info(&ElfFile::from_buffer(bytes).unwrap())
}

#[test]
fn static_image_with_one_segment_is_loaded_at_its_address() {
    let bytes = image(0x8020_0000, &[load(0x1000, 0x8020_0000, 0x200, 0x400)], 0x1200);
    assert_eq!(info_of(&bytes), Ok((0x8020_0000, 1)));
    assert_eq!(
        kernel_memory_request(&bytes),
        Ok(MemoryRequest::At { address: 0x8020_0000, page_count: 1 })
    );
    let mut memory = vec![0xAAu8; 4096];
    assert_eq!(load_kernel(&bytes, 0x8020_0000, &mut memory), Ok(0x8020_0000));
    assert_eq!(memory[..0x200], bytes[0x1000..0x1200]);
    assert!(memory[0x200..0x400].iter().all(|byte| *byte == 0));
    assert!(memory[0x400..].iter().all(|byte| *byte == 0xAA));
}

#[test]
fn static_image_with_two_segments_and_a_gap_takes_five_pages() {
    let bytes = image(
        0x8020_0010,
        &[load(0x1000, 0x8020_0000, 0x1000, 0x1000), load(0x2000, 0x8020_4000, 0x1000, 0x1000)],
        0x3000,
    );
    assert_eq!(info_of(&bytes), Ok((0x8020_0000, 5)));
    assert_eq!(
        kernel_memory_request(&bytes),
        Ok(MemoryRequest::At { address: 0x8020_0000, page_count: 5 })
    );
    let mut memory = vec![0xAAu8; 5 * 4096];
    assert_eq!(load_kernel(&bytes, 0x8020_0000, &mut memory), Ok(0x8020_0010));
    assert_eq!(memory[..0x1000], bytes[0x1000..0x2000]);
    assert!(memory[0x1000..0x4000].iter().all(|byte| *byte == 0xAA));
    assert_eq!(memory[0x4000..0x5000], bytes[0x2000..0x3000]);
}

#[test]
fn dynamic_image_is_relocated_to_where_it_lies() {
    let bytes = dynamic_image(0x1000, &[(7, 0x100), (8, 24), (9, 24), (0, 0)], &[(0x40, 3, 0x80)]);
    assert_eq!(info_of(&bytes), Ok((0, 2)));
    assert_eq!(kernel_memory_request(&bytes), Ok(MemoryRequest::Anywhere { page_count: 2 }));
    let mut memory = vec![0xAAu8; 0x2000];
    assert_eq!(load_kernel(&bytes, 0x9000_0000, &mut memory), Ok(0x1000 + 0x9000_0000));
    assert_eq!(memory[0x40..0x48], [0x80, 0x00, 0x00, 0x90, 0, 0, 0, 0]);
    assert_eq!(read(&memory, 0x40), 0x9000_0080);
    assert_eq!(memory[..0x40], bytes[..0x40]);
    assert_eq!(memory[0x48..0x300], bytes[0x48..0x300]);
    assert!(memory[0x300..].iter().all(|byte| *byte == 0));
}

#[test]
fn relocation_of_another_type_makes_the_image_invalid() {
    let bytes = dynamic_image(0x1000, &[(7, 0x100), (8, 24), (9, 24), (0, 0)], &[(0x40, 2, 0x80)]);
    let mut memory = vec![0u8; 0x2000];
    assert_eq!(load_kernel(&bytes, 0x9000_0000, &mut memory), Err(Error::InvalidKernelImage));
    for info in [0u64, 1, 4, 0x1_0000_0003, u64::MAX] {
        let bytes = dynamic_image(0x1000, &[(7, 0x100), (8, 24), (9, 24), (0, 0)], &[(0x40, info, 0x80)]);
        assert_eq!(load_kernel(&bytes, 0x9000_0000, &mut memory), Err(Error::InvalidKernelImage));
    }
}

#[test]
fn truncated_program_header_table_makes_the_image_invalid() {
    let bytes = image(0x8020_0000, &[load(0x1000, 0x8020_0000, 0x200, 0x400)], 0x1200);
    let truncated = &bytes[..64 + 55];
    let mut memory = vec![0xAAu8; 4096];
    assert_eq!(load_kernel(truncated, 0x8020_0000, &mut memory), Err(Error::InvalidKernelImage));
    assert_eq!(kernel_memory_request(truncated), Err(Error::InvalidKernelImage));
    assert_eq!(info_of(truncated), Err(Error::InvalidKernelImage));
    assert!(memory.iter().all(|byte| *byte == 0xAA));
}

#[test]
fn dynamic_section_without_table_loads_without_relocating() {
    let bytes = dynamic_image(0x1000, &[(0, 0)], &[(0x40, 3, 0x80)]);
    assert_eq!(kernel_memory_request(&bytes), Ok(MemoryRequest::At { address: 0, page_count: 2 }));
    let mut memory = vec![0xAAu8; 0x2000];
    assert_eq!(load_kernel(&bytes, 0, &mut memory), Ok(0x1000));
    assert_eq!(memory[..0x300], bytes[..]);
    assert!(memory[0x300..].iter().all(|byte| *byte == 0));
}

#[test]
fn table_position_without_size_makes_the_image_invalid() {
    let bytes = dynamic_image(0x1000, &[(7, 0x100), (8, 0), (9, 24), (0, 0)], &[(0x40, 3, 0x80)]);
    let mut memory = vec![0xAAu8; 0x2000];
    assert_eq!(load_kernel(&bytes, 0x9000_0000, &mut memory), Err(Error::InvalidKernelImage));
    assert_eq!(kernel_memory_request(&bytes), Err(Error::InvalidKernelImage));
    assert!(memory.iter().all(|byte| *byte == 0xAA));
}

#[test]
fn table_position_zero_without_size_makes_the_image_invalid() {
    let bytes = dynamic_image(0x1000, &[(7, 0), (0, 0)], &[]);
    let mut memory = vec![0xAAu8; 0x2000];
    assert_eq!(load_kernel(&bytes, 0, &mut memory), Err(Error::InvalidKernelImage));
    assert_eq!(kernel_memory_request(&bytes), Err(Error::InvalidKernelImage));
    assert!(memory.iter().all(|byte| *byte == 0xAA));
}

#[test]
fn table_size_without_position_makes_the_image_invalid() {
    let bytes = dynamic_image(0x1000, &[(8, 24), (9, 24), (0, 0)], &[(0x40, 3, 0x80)]);
    let mut memory = vec![0xAAu8; 0x2000];
    assert_eq!(load_kernel(&bytes, 0x9000_0000, &mut memory), Err(Error::InvalidKernelImage));
    assert!(memory.iter().all(|byte| *byte == 0xAA));
}

#[test]
fn buffer_that_is_no_image_is_invalid() {
    let mut memory = vec![0u8; 4096];
    assert_eq!(load_kernel(&[], 0, &mut memory), Err(Error::InvalidKernelImage));
    assert_eq!(load_kernel(&[0u8; 64], 0, &mut memory), Err(Error::InvalidKernelImage));
    let mut bytes = image(0, &[load(0, 0, 0x100, 0x100)], 0x100);
    bytes[4] = 1;
    assert_eq!(load_kernel(&bytes, 0, &mut memory), Err(Error::InvalidKernelImage));
    assert_eq!(kernel_memory_request(&bytes), Err(Error::InvalidKernelImage));
}

#[test]
fn image_without_loadable_segment_is_invalid() {
    let bytes = image(0, &[], 0x100);
    assert_eq!(info_of(&bytes), Err(Error::InvalidKernelImage));
    let bytes = image(0, &[Segment { segment_type: 6, offset: 0, vaddr: 0, filesz: 8, memsz: 8, align: 8 }], 0x100);
    assert_eq!(info_of(&bytes), Err(Error::InvalidKernelImage));
    let mut memory = vec![0u8; 4096];
    assert_eq!(load_kernel(&bytes, 0, &mut memory), Err(Error::InvalidKernelImage));
}

#[test]
fn segment_that_ends_above_the_address_space_is_invalid() {
    let bytes = image(0, &[load(0, u64::MAX - 0xFFF, 0x100, 0x1001)], 0x100);
    assert_eq!(info_of(&bytes), Err(Error::InvalidKernelImage));
    let bytes = image(0, &[load(0, u64::MAX - 0xFFF, 0x100, 0x1000)], 0x100);
    assert_eq!(info_of(&bytes), Err(Error::InvalidKernelImage));
    let bytes = image(0, &[load(0, u64::MAX - 0xFFF, 0x100, 0xFFF)], 0x100);
    assert_eq!(info_of(&bytes), Ok((u64::MAX - 0xFFF, 1)));
}

#[test]
fn memory_info_takes_lowest_base_and_highest_end() {
    let bytes = image(
        0,
        &[
            load(0, 0x8020_4800, 0x10, 0x900),
            dynamic(0, 0x10),
            load(0, 0x8020_1234, 0x10, 0x100),
            load(0, 0x8020_3000, 0x10, 0x1000),
        ],
        0x200,
    );
    assert_eq!(info_of(&bytes), Ok((0x8020_1000, 5)));
}

#[test]
fn memory_info_rounds_the_extent_up_to_whole_pages() {
    assert_eq!(PAGE_SIZE, 4096);
    assert_eq!(info_of(&image(0, &[load(0, 0, 0, 0x2000)], 0x100)), Ok((0, 2)));
    assert_eq!(info_of(&image(0, &[load(0, 0, 0, 0x2001)], 0x100)), Ok((0, 3)));
    assert_eq!(info_of(&image(0, &[load(0, 0, 0, 1)], 0x100)), Ok((0, 1)));
    assert_eq!(info_of(&image(0, &[load(0, 0, 0, 0)], 0x100)), Ok((0, 0)));
    assert_eq!(info_of(&image(0, &[load(0, 0x800, 0, 0x900)], 0x100)), Ok((0, 2)));
    assert_eq!(info_of(&image(0, &[load(0, 0x800, 0, 0x800)], 0x100)), Ok((0, 1)));
    assert_eq!(info_of(&image(0, &[load(0, 0x800, 0, 0x801)], 0x100)), Ok((0, 2)));
    assert_eq!(info_of(&image(0, &[load(0, 0xFFF, 0, 0x1000)], 0x100)), Ok((0, 2)));
    assert_eq!(info_of(&image(0, &[load(0, 0xFFF, 0, 0x1002)], 0x100)), Ok((0, 3)));
}

#[test]
fn pages_hold_the_extent_and_no_page_less_would() {
    for (vaddr, memsz) in [
        (0x3000u64, 0x1u64),
        (0x3000, 0xFFF),
        (0x3000, 0x1000),
        (0x3000, 0x1001),
        (0x3800, 0x1000),
        (0x3001, 0xFFF),
        (0x3FFF, 0x2001),
        (0, 0x5432),
    ] {
        let bytes = image(0, &[load(0, 0x1000, 0, 0x10), load(0, vaddr, 0, memsz)], 0x100);
        let (base, pages) = info_of(&bytes).unwrap();
        let highest_end = (vaddr + memsz).max(0x1010);
        assert!(pages * 4096 >= highest_end - base);
        assert!((pages - 1) * 4096 < highest_end - base);
    }
}

#[test]
fn segment_that_starts_inside_a_page_gets_the_pages_that_it_reaches_into() {
    let bytes = image(0x800, &[load(0x800, 0x800, 0x1000, 0x1000)], 0x1800);
    assert_eq!(info_of(&bytes), Ok((0, 2)));
    assert_eq!(kernel_memory_request(&bytes), Ok(MemoryRequest::At { address: 0, page_count: 2 }));
    let mut memory = vec![0xAAu8; 2 * 4096];
    assert_eq!(load_kernel(&bytes, 0, &mut memory), Ok(0x800));
    assert!(memory[..0x800].iter().all(|byte| *byte == 0xAA));
    assert_eq!(memory[0x800..0x1800], bytes[0x800..0x1800]);
    assert!(memory[0x1800..].iter().all(|byte| *byte == 0xAA));
}

#[test]
fn memory_info_does_not_depend_on_the_order_of_the_segments() {
    let bytes = image(0, &[load(0, 0, 0, 0x1800), load(0, 0x800, 0, 0x1000)], 0x100);
    assert_eq!(info_of(&bytes), Ok((0, 2)));
    let bytes = image(0, &[load(0, 0x800, 0, 0x1000), load(0, 0, 0, 0x1800)], 0x100);
    assert_eq!(info_of(&bytes), Ok((0, 2)));
    let bytes = image(0, &[load(0, 0x1800, 0, 0), load(0, 0x1000, 0, 0x800)], 0x100);
    assert_eq!(info_of(&bytes), Ok((0x1000, 1)));
    let bytes = image(0, &[load(0, 0x1000, 0, 0x800), load(0, 0x1800, 0, 0)], 0x100);
    assert_eq!(info_of(&bytes), Ok((0x1000, 1)));
    let bytes = image(0, &[dynamic(0, 0x10), load(0, 0x1000, 0, 0x800), dynamic(0, 0x10), load(0, 0x1800, 0, 0)], 0x200);
    assert_eq!(info_of(&bytes), Ok((0x1000, 1)));
}

#[test]
fn memory_that_is_smaller_than_asked_for_does_not_hold_the_image() {
    let bytes = image(0x800, &[load(0x800, 0x800, 0x1000, 0x1000)], 0x1800);
    let mut memory = vec![0xAAu8; 4096];
    assert_eq!(load_kernel(&bytes, 0, &mut memory), Err(Error::InvalidKernelImage));
    assert!(memory.iter().all(|byte| *byte == 0xAA));
}

#[test]
fn plan_holds_entry_base_pages_and_table() {
    let bytes = dynamic_image(0x1000, &[(7, 0x100), (8, 48), (9, 24), (0, 0)], &[(0x40, 3, 0x80)]);
    let plan = plan_kernel_load(&ElfFile::from_buffer(&bytes).unwrap());
    assert_eq!(
        plan,
        Ok(LoadPlan {
            virtual_entry: 0x1000,
            virtual_base: 0,
            page_count: 2,
            relocation_table: Some(RelocationTable { address: 0x100, size: 48, entry_size: 24 }),
        })
    );
    let bytes = image(0x8020_0000, &[load(0x1000, 0x8020_0000, 0x200, 0x400)], 0x1200);
    let plan = plan_kernel_load(&ElfFile::from_buffer(&bytes).unwrap());
    assert_eq!(
        plan,
        Ok(LoadPlan {
            virtual_entry: 0x8020_0000,
            virtual_base: 0x8020_0000,
            page_count: 1,
            relocation_table: None,
        })
    );
}

#[test]
fn dynamic_image_that_is_not_linked_for_address_zero_is_invalid() {
    let mut bytes = image(0x1_0000, &[load(0, 0x1_0000, 0x300, 0x2000), dynamic(0x200, 0x100)], 0x300);
    put_dynamic(&mut bytes, 0x200, &[(7, 0x100), (8, 24), (9, 24), (0, 0)]);
    put_rela(&mut bytes, 0x100, 0x40, 3, 0x80);
    assert_eq!(info_of(&bytes), Ok((0x1_0000, 2)));
    assert_eq!(kernel_memory_request(&bytes), Err(Error::InvalidKernelImage));
    let mut memory = vec![0xAAu8; 0x2000];
    assert_eq!(load_kernel(&bytes, 0x9000_0000, &mut memory), Err(Error::InvalidKernelImage));
    assert!(memory.iter().all(|byte| *byte == 0xAA));
}

#[test]
fn static_image_away_from_its_address_is_a_failed_allocation() {
    let bytes = image(0x8020_0000, &[load(0x1000, 0x8020_0000, 0x200, 0x400)], 0x1200);
    let mut memory = vec![0xAAu8; 4096];
    assert_eq!(load_kernel(&bytes, 0x8020_1000, &mut memory), Err(Error::MemoryAllocationFailed));
    assert_eq!(load_kernel(&bytes, 0, &mut memory), Err(Error::MemoryAllocationFailed));
    assert!(memory.iter().all(|byte| *byte == 0xAA));
}

#[test]
fn allocation_is_anywhere_for_dynamic_and_fixed_for_static() {
    assert_eq!(allocate_elf_memory(0x8020_0000, 5, false), MemoryRequest::At { address: 0x8020_0000, page_count: 5 });
    assert_eq!(allocate_elf_memory(0x8020_0000, 5, true), MemoryRequest::Anywhere { page_count: 5 });
    assert_eq!(allocate_elf_memory(0, 0, true), MemoryRequest::Anywhere { page_count: 0 });
}

#[test]
fn refused_memory_is_a_failed_allocation() {
    assert_eq!(memory_allocated(None), Err(Error::MemoryAllocationFailed));
    assert_eq!(memory_allocated(Some(0x9000_0000)), Ok(0x9000_0000));
}

#[test]
fn base_address_is_the_signed_distance() {
    assert_eq!(calculate_base_address(0x8020_0000, 0x8020_0000), 0);
    assert_eq!(calculate_base_address(0, 0x9000_0000), 0x9000_0000);
    assert_eq!(calculate_base_address(0x9000_0000, 0x8000_0000), -0x1000_0000);
    assert_eq!(calculate_base_address(0xFFFF_FFFF_8000_0000, 0x8000_0000), 0x1_0000_0000);
    assert_eq!(calculate_base_address(0, u64::MAX), -1);
    assert_eq!(calculate_base_address(0, 0x8000_0000_0000_0000), i64::MIN);
}

#[test]
fn entry_point_moves_with_the_image() {
    assert_eq!(entry_point(0x8020_0000, 0x8020_0000, 0x8020_0000), 0x8020_0000);
    assert_eq!(entry_point(0x1000, 0, 0x9000_0000), 0x9000_1000);
    assert_eq!(entry_point(0x9000_1000, 0x9000_0000, 0x8000_0000), 0x8000_1000);
    assert_eq!(entry_point(0xFFFF_FFFF_8000_0040, 0xFFFF_FFFF_8000_0000, 0x8020_0000), 0x8020_0040);
}

#[test]
fn entry_point_wraps_in_the_address_space() {
    assert_eq!(entry_point(0, 0x1000, 0), u64::MAX - 0xFFF);
    assert_eq!(entry_point(u64::MAX, 0, 2), 1);
}

#[test]
fn copy_places_data_and_zeroes_the_tail() {
    let bytes = image(0, &[load(0x100, 0x5010, 0x20, 0x40), load(0x180, 0x5100, 0x8, 0x8)], 0x200);
    let file = ElfFile::from_buffer(&bytes).unwrap();
    let mut memory = vec![0xAAu8; 0x200];
    assert_eq!(copy_elf_memory(&file, 0x5000, &mut memory), Ok(()));
    assert!(memory[..0x10].iter().all(|byte| *byte == 0xAA));
    assert_eq!(memory[0x10..0x30], bytes[0x100..0x120]);
    assert!(memory[0x30..0x50].iter().all(|byte| *byte == 0));
    assert!(memory[0x50..0x100].iter().all(|byte| *byte == 0xAA));
    assert_eq!(memory[0x100..0x108], bytes[0x180..0x188]);
    assert!(memory[0x108..].iter().all(|byte| *byte == 0xAA));
}

#[test]
fn copy_skips_segments_that_are_not_loadable() {
    let bytes = image(0, &[dynamic(0x100, 0x20), Segment { segment_type: 4, offset: 0, vaddr: 0, filesz: 0x40, memsz: 0x40, align: 4 }], 0x200);
    let file = ElfFile::from_buffer(&bytes).unwrap();
    let mut memory = vec![0xAAu8; 0x200];
    assert_eq!(copy_elf_memory(&file, 0, &mut memory), Ok(()));
    assert!(memory.iter().all(|byte| *byte == 0xAA));
}

#[test]
fn copy_copies_the_file_size_even_above_the_memory_size() {
    let bytes = image(0, &[load(0x100, 0x10, 0x20, 0x8)], 0x200);
    let file = ElfFile::from_buffer(&bytes).unwrap();
    let mut memory = vec![0xAAu8; 0x40];
    assert_eq!(copy_elf_memory(&file, 0, &mut memory), Ok(()));
    assert_eq!(memory[0x10..0x30], bytes[0x100..0x120]);
    assert!(memory[0x30..].iter().all(|byte| *byte == 0xAA));
}

#[test]
fn copy_stops_at_the_first_segment_that_does_not_fit() {
    let bytes = image(
        0,
        &[load(0x100, 0x10, 0x10, 0x10), load(0x120, 0x30, 0x10, 0x11), load(0x140, 0x20, 0x10, 0x10)],
        0x200,
    );
    let file = ElfFile::from_buffer(&bytes).unwrap();
    let mut memory = vec![0xAAu8; 0x40];
    assert_eq!(copy_elf_memory(&file, 0, &mut memory), Err(Error::InvalidKernelImage));
    assert_eq!(memory[0x10..0x20], bytes[0x100..0x110]);
    assert!(memory[0x20..].iter().all(|byte| *byte == 0xAA));
    let mut memory = vec![0xAAu8; 0x41];
    assert_eq!(copy_elf_memory(&file, 0, &mut memory), Ok(()));
}

#[test]
fn copy_fails_on_a_segment_below_the_base() {
    let bytes = image(0, &[load(0x100, 0x4FFF, 0x10, 0x10)], 0x200);
    let file = ElfFile::from_buffer(&bytes).unwrap();
    let mut memory = vec![0xAAu8; 0x100];
    assert_eq!(copy_elf_memory(&file, 0x5000, &mut memory), Err(Error::InvalidKernelImage));
    assert!(memory.iter().all(|byte| *byte == 0xAA));
}

#[test]
fn copy_fails_on_a_segment_whose_data_leaves_the_image() {
    let bytes = image(0, &[load(0x1F8, 0, 0x10, 0x10)], 0x200);
    let file = ElfFile::from_buffer(&bytes).unwrap();
    let mut memory = vec![0xAAu8; 0x100];
    assert_eq!(copy_elf_memory(&file, 0, &mut memory), Err(Error::InvalidKernelImage));
    assert!(memory.iter().all(|byte| *byte == 0xAA));
}

#[test]
fn copy_fails_when_the_program_headers_cannot_be_walked() {
    let bytes = image(0, &[load(0x100, 0, 0x10, 0x10)], 0x200);
    let file = ElfFile::from_buffer(&bytes[..100]).unwrap();
    let mut memory = vec![0xAAu8; 0x100];
    assert_eq!(copy_elf_memory(&file, 0, &mut memory), Err(Error::InvalidKernelImage));
    assert!(memory.iter().all(|byte| *byte == 0xAA));
}

#[test]
fn of_two_segments_at_one_address_the_later_one_stays() {
    let bytes = image(0, &[load(0x100, 0x10, 0x20, 0x20), load(0x180, 0x20, 0x8, 0x18)], 0x200);
    let file = ElfFile::from_buffer(&bytes).unwrap();
    let mut memory = vec![0xAAu8; 0x40];
    assert_eq!(copy_elf_memory(&file, 0, &mut memory), Ok(()));
    assert_eq!(memory[0x10..0x20], bytes[0x100..0x110]);
    assert_eq!(memory[0x20..0x28], bytes[0x180..0x188]);
    assert!(memory[0x28..0x38].iter().all(|byte| *byte == 0));
    assert!(memory[0x38..].iter().all(|byte| *byte == 0xAA));
}

#[test]
fn every_relocation_is_applied() {
    let bytes = dynamic_image(
        0x1000,
        &[(7, 0x100), (8, 72), (9, 24), (0, 0)],
        &[(0x40, 3, 0x80), (0x1000, 3, -0x10), (0x1FF8, 3, 0)],
    );
    let mut memory = vec![0xAAu8; 0x2000];
    assert_eq!(load_kernel(&bytes, 0x9000_0000, &mut memory), Ok(0x9000_1000));
    assert_eq!(read(&memory, 0x40), 0x9000_0000 + 0x80);
    assert_eq!(read(&memory, 0x1000), 0x9000_0000 - 0x10);
    assert_eq!(read(&memory, 0x1FF8), 0x9000_0000);
}

#[test]
fn relocation_value_wraps_in_the_address_space() {
    let bytes = dynamic_image(0, &[(7, 0x100), (8, 48), (9, 24), (0, 0)], &[(0x40, 3, -1), (0x48, 3, i64::MAX)]);
    let mut memory = vec![0u8; 0x2000];
    assert_eq!(load_kernel(&bytes, 0, &mut memory), Ok(0));
    assert_eq!(read(&memory, 0x40), u64::MAX);
    assert_eq!(read(&memory, 0x48), i64::MAX as u64);
    assert_eq!(load_kernel(&bytes, 0xFFFF_FFFF_FFFF_F000, &mut memory), Ok(0xFFFF_FFFF_FFFF_F000));
    assert_eq!(read(&memory, 0x40), 0xFFFF_FFFF_FFFF_EFFF);
    assert_eq!(read(&memory, 0x48), 0x7FFF_FFFF_FFFF_EFFF);
}

#[test]
fn of_two_relocations_at_one_offset_the_later_one_stays() {
    let bytes = dynamic_image(0, &[(7, 0x100), (8, 48), (9, 24), (0, 0)], &[(0x40, 3, 0x11), (0x44, 3, 0x22)]);
    let mut memory = vec![0u8; 0x2000];
    assert_eq!(load_kernel(&bytes, 0x9000_0000, &mut memory), Ok(0x9000_0000));
    assert_eq!(read(&memory, 0x44), 0x9000_0022);
    assert_eq!(memory[0x40..0x44], [0x11, 0x00, 0x00, 0x90]);
}

#[test]
fn relocation_outside_the_memory_makes_the_image_invalid() {
    let bytes = dynamic_image(0, &[(7, 0x100), (8, 48), (9, 24), (0, 0)], &[(0x40, 3, 0x80), (0x1FF9, 3, 0)]);
    let mut memory = vec![0u8; 0x2000];
    assert_eq!(load_kernel(&bytes, 0x9000_0000, &mut memory), Err(Error::InvalidKernelImage));
    assert_eq!(read(&memory, 0x40), 0x9000_0080);
    let bytes = dynamic_image(0, &[(7, 0x100), (8, 24), (9, 24), (0, 0)], &[(u64::MAX, 3, 0)]);
    assert_eq!(load_kernel(&bytes, 0x9000_0000, &mut memory), Err(Error::InvalidKernelImage));
}

#[test]
fn relocation_table_with_entry_size_zero_makes_the_image_invalid() {
    let bytes = dynamic_image(0, &[(7, 0x100), (8, 24), (0, 0)], &[(0x40, 3, 0x80)]);
    assert_eq!(kernel_memory_request(&bytes), Ok(MemoryRequest::Anywhere { page_count: 2 }));
    let mut memory = vec![0u8; 0x2000];
    assert_eq!(load_kernel(&bytes, 0x9000_0000, &mut memory), Err(Error::InvalidKernelImage));
    assert_eq!(memory[..0x300], bytes[..]);
}

#[test]
fn relocation_table_outside_the_image_makes_the_image_invalid() {
    let bytes = dynamic_image(0, &[(7, 0x2F0), (8, 24), (9, 24), (0, 0)], &[]);
    let mut memory = vec![0u8; 0x2000];
    assert_eq!(load_kernel(&bytes, 0x9000_0000, &mut memory), Err(Error::InvalidKernelImage));
}

#[test]
fn segment_outside_the_memory_makes_the_image_invalid() {
    let bytes = image(0x8020_0000, &[load(0x1000, 0x8020_0000, 0x200, 0x400)], 0x1200);
    let mut memory = vec![0xAAu8; 0x3FF];
    assert_eq!(load_kernel(&bytes, 0x8020_0000, &mut memory), Err(Error::InvalidKernelImage));
    let mut memory = vec![0xAAu8; 0x400];
    assert_eq!(load_kernel(&bytes, 0x8020_0000, &mut memory), Ok(0x8020_0000));
}
