use maia::elf::dynamic::{
    Dynamic, ElfRela, RelocationTable, DT_NULL, DT_RELA, DT_RELAENT, DT_RELASZ, DYNAMIC_SIZE,
    RELA_SIZE, R_RISCV_64, R_RISCV_RELATIVE,
};
use maia::elf::error::ElfError;

fn section(entries: &[(i64, u64)]) -> Vec<u8> {
    let mut bytes = Vec::new();
    for (tag, val) in entries {
        bytes.extend_from_slice(&tag.to_le_bytes());
        bytes.extend_from_slice(&val.to_le_bytes());
    }
    bytes
}

fn encode(rela: &ElfRela, entry_size: usize) -> Vec<u8> {
    let mut bytes = Vec::new();
    bytes.extend_from_slice(&rela.offset.to_le_bytes());
    bytes.extend_from_slice(&rela.info.to_le_bytes());
    bytes.extend_from_slice(&rela.addend.to_le_bytes());
    while bytes.len() < entry_size {
        bytes.push(0xEE);
    }
    bytes
}

fn image_with(relocations: &[ElfRela], at: usize, entry_size: usize, length: usize) -> Vec<u8> {
    let mut bytes = vec![0xCCu8; at];
    for rela in relocations {
        bytes.extend_from_slice(&encode(rela, entry_size));
    }
    assert!(bytes.len() <= length);
    bytes.resize(length, 0xDD);
    bytes
}

fn three() -> Vec<ElfRela> {
    vec![
        ElfRela { offset: 0x40, info: 3, addend: 0x80 },
        ElfRela { offset: 0x48, info: 3, addend: -8 },
        ElfRela { offset: 0x50, info: 2, addend: i64::MIN },
    ]
}

#[test]
fn tags_and_sizes_are_those_of_the_format() {
    assert_eq!(DT_NULL, 0);
    assert_eq!(DT_RELA, 7);
    assert_eq!(DT_RELASZ, 8);
    assert_eq!(DT_RELAENT, 9);
    assert_eq!(R_RISCV_64, 2);
    assert_eq!(R_RISCV_RELATIVE, 3);
    assert_eq!(DYNAMIC_SIZE, 16);
    assert_eq!(RELA_SIZE, 24);
}

#[test]
fn dynamic_entry_is_decoded() {
    let bytes = section(&[(1, 2), (-5, 0x1122_3344_5566_7788)]);
    assert_eq!(Dynamic::from_bytes(&bytes, 0), Dynamic { tag: 1, val: 2 });
    assert_eq!(Dynamic::from_bytes(&bytes, 16), Dynamic { tag: -5, val: 0x1122_3344_5566_7788 });
}

#[test]
fn relocation_is_decoded() {
    let rela = ElfRela { offset: 0x1122_3344, info: 3, addend: -0x80 };
    let mut bytes = vec![0u8; 5];
    bytes.extend_from_slice(&encode(&rela, 24));
    assert_eq!(ElfRela::from_bytes(&bytes, 5), rela);
}

#[test]
fn section_without_table_has_no_relocations() {
    assert_eq!(Dynamic::find_relocations_inner(&section(&[(0, 0)])), Ok(None));
    assert_eq!(Dynamic::find_relocations_inner(&section(&[(1, 5), (21, 0), (0, 0)])), Ok(None));
    assert_eq!(Dynamic::find_relocations_inner(&section(&[(9, 24), (0, 0)])), Ok(None));
}

#[test]
fn section_with_position_and_size_names_a_table() {
    let bytes = section(&[(7, 0x100), (8, 24), (9, 24), (0, 0)]);
    assert_eq!(
        Dynamic::find_relocations_inner(&bytes),
        Ok(Some(RelocationTable { address: 0x100, size: 24, entry_size: 24 }))
    );
    let bytes = section(&[(9, 32), (8, 96), (30, 1), (7, 0x2000), (0, 0), (8, 1)]);
    assert_eq!(
        Dynamic::find_relocations_inner(&bytes),
        Ok(Some(RelocationTable { address: 0x2000, size: 96, entry_size: 32 }))
    );
}

#[test]
fn section_without_entry_size_names_a_table_with_entry_size_zero() {
    let bytes = section(&[(7, 0x100), (8, 24), (0, 0)]);
    assert_eq!(
        Dynamic::find_relocations_inner(&bytes),
        Ok(Some(RelocationTable { address: 0x100, size: 24, entry_size: 0 }))
    );
}

#[test]
fn section_with_position_but_size_zero_is_malformed() {
    let bytes = section(&[(7, 0x100), (8, 0), (9, 24), (0, 0)]);
    assert_eq!(Dynamic::find_relocations_inner(&bytes), Err(ElfError::InvalidFormat));
    let bytes = section(&[(7, 0x100), (0, 0)]);
    assert_eq!(Dynamic::find_relocations_inner(&bytes), Err(ElfError::InvalidFormat));
}

#[test]
fn section_with_size_but_no_position_is_malformed() {
    let bytes = section(&[(8, 24), (9, 24), (0, 0)]);
    assert_eq!(Dynamic::find_relocations_inner(&bytes), Err(ElfError::InvalidFormat));
    let bytes = section(&[(9, 24), (8, 1), (0, 0)]);
    assert_eq!(Dynamic::find_relocations_inner(&bytes), Err(ElfError::InvalidFormat));
}

#[test]
fn position_zero_is_a_position() {
    let bytes = section(&[(7, 0), (8, 24), (9, 24), (0, 0)]);
    assert_eq!(
        Dynamic::find_relocations_inner(&bytes),
        Ok(Some(RelocationTable { address: 0, size: 24, entry_size: 24 }))
    );
    let bytes = section(&[(7, 0), (8, 24), (0, 0)]);
    assert_eq!(
        Dynamic::find_relocations_inner(&bytes),
        Ok(Some(RelocationTable { address: 0, size: 24, entry_size: 0 }))
    );
}

#[test]
fn position_zero_without_size_is_malformed() {
    let bytes = section(&[(7, 0), (0, 0)]);
    assert_eq!(Dynamic::find_relocations_inner(&bytes), Err(ElfError::InvalidFormat));
    let bytes = section(&[(7, 0), (8, 0), (9, 24), (0, 0)]);
    assert_eq!(Dynamic::find_relocations_inner(&bytes), Err(ElfError::InvalidFormat));
}

#[test]
fn of_two_entries_with_one_tag_the_last_counts() {
    let bytes = section(&[(7, 0x100), (8, 24), (7, 0x200), (8, 48), (9, 24), (9, 40), (0, 0)]);
    assert_eq!(
        Dynamic::find_relocations_inner(&bytes),
        Ok(Some(RelocationTable { address: 0x200, size: 48, entry_size: 40 }))
    );
    let bytes = section(&[(7, 0x100), (8, 24), (7, 0), (8, 0), (0, 0)]);
    assert_eq!(Dynamic::find_relocations_inner(&bytes), Err(ElfError::InvalidFormat));
    let bytes = section(&[(7, 0x100), (8, 24), (7, 0), (8, 48), (0, 0)]);
    assert_eq!(
        Dynamic::find_relocations_inner(&bytes),
        Ok(Some(RelocationTable { address: 0, size: 48, entry_size: 0 }))
    );
}

#[test]
fn section_that_ends_before_its_terminator_is_malformed() {
    assert_eq!(Dynamic::find_relocations_inner(&[]), Err(ElfError::InvalidFormat));
    assert_eq!(Dynamic::find_relocations_inner(&section(&[(7, 0x100), (8, 24)])), Err(ElfError::InvalidFormat));
    let bytes = section(&[(7, 0x100), (8, 24), (0, 0)]);
    assert_eq!(Dynamic::find_relocations_inner(&bytes[..47]), Err(ElfError::InvalidFormat));
    assert!(Dynamic::find_relocations_inner(&bytes[..48]).is_ok());
}

#[test]
fn walk_hands_out_the_relocations_in_order() {
    let bytes = image_with(&three(), 0x100, 24, 0x200);
    let table = RelocationTable { address: 0x100, size: 72, entry_size: 24 };
    let mut walk = table.into_iter(&bytes).unwrap();
    assert_eq!(walk.next(), Some(three()[0]));
    assert_eq!(walk.next(), Some(three()[1]));
    assert_eq!(walk.next(), Some(three()[2]));
    assert_eq!(walk.next(), None);
    assert_eq!(walk.next(), None);
    let mut again = table.into_iter(&bytes).unwrap();
    assert_eq!(again.next(), Some(three()[0]));
}

#[test]
fn walk_steps_by_the_entry_size() {
    let bytes = image_with(&three(), 0x100, 40, 0x200);
    let table = RelocationTable { address: 0x100, size: 120, entry_size: 40 };
    let mut walk = table.into_iter(&bytes).unwrap();
    assert_eq!(walk.next(), Some(three()[0]));
    assert_eq!(walk.next(), Some(three()[1]));
    assert_eq!(walk.next(), Some(three()[2]));
    assert_eq!(walk.next(), None);
}

#[test]
fn walk_ends_where_the_table_ends() {
    let bytes = image_with(&three(), 0x100, 24, 0x200);
    let table = RelocationTable { address: 0x100, size: 48, entry_size: 24 };
    let mut walk = table.into_iter(&bytes).unwrap();
    assert_eq!(walk.next(), Some(three()[0]));
    assert_eq!(walk.next(), Some(three()[1]));
    assert_eq!(walk.next(), None);
    let table = RelocationTable { address: 0x100, size: 49, entry_size: 24 };
    let mut walk = table.into_iter(&bytes).unwrap();
    assert_eq!(walk.next(), Some(three()[0]));
    assert_eq!(walk.next(), Some(three()[1]));
    assert_eq!(walk.next(), Some(three()[2]));
    assert_eq!(walk.next(), None);
}

#[test]
fn walk_of_an_empty_table_hands_out_nothing() {
    let bytes = image_with(&[], 0x100, 24, 0x100);
    let table = RelocationTable { address: 0x100, size: 0, entry_size: 24 };
    assert_eq!(table.check_walk(bytes.len()), Ok(()));
    assert_eq!(table.into_iter(&bytes).unwrap().next(), None);
    assert!(!table.has_entry(0));
}

#[test]
fn walk_refuses_an_entry_size_of_zero() {
    let bytes = image_with(&three(), 0x100, 24, 0x200);
    let table = RelocationTable { address: 0x100, size: 72, entry_size: 0 };
    assert_eq!(table.check_walk(bytes.len()), Err(ElfError::InvalidFormat));
    assert_eq!(table.into_iter(&bytes).err(), Some(ElfError::InvalidFormat));
    let empty = RelocationTable { address: 0x100, size: 0, entry_size: 0 };
    assert_eq!(empty.check_walk(bytes.len()), Err(ElfError::InvalidFormat));
}

#[test]
fn walk_refuses_a_table_that_leaves_the_image() {
    let bytes = image_with(&three(), 0x100, 24, 0x100 + 72);
    let table = RelocationTable { address: 0x100, size: 72, entry_size: 24 };
    assert_eq!(table.check_walk(bytes.len()), Ok(()));
    assert_eq!(table.check_walk(bytes.len() - 1), Err(ElfError::BufferOverflow));
    assert_eq!(table.into_iter(&bytes[..0x100 + 71]).err(), Some(ElfError::BufferOverflow));
    let far = RelocationTable { address: u64::MAX - 10, size: 24, entry_size: 24 };
    assert_eq!(far.check_walk(bytes.len()), Err(ElfError::BufferOverflow));
    let long = RelocationTable { address: 0x100, size: u64::MAX, entry_size: 24 };
    assert_eq!(long.check_walk(bytes.len()), Err(ElfError::BufferOverflow));
}

#[test]
fn walk_reads_a_last_relocation_that_starts_inside_the_table() {
    let bytes = image_with(&three(), 0x100, 24, 0x100 + 72);
    let table = RelocationTable { address: 0x100, size: 50, entry_size: 24 };
    assert_eq!(table.check_walk(0x100 + 72), Ok(()));
    assert_eq!(table.check_walk(0x100 + 71), Err(ElfError::BufferOverflow));
    assert!(table.has_entry(2));
    assert!(!table.has_entry(3));
    assert_eq!(table.read_entry(&bytes, 2), three()[2]);
}

#[test]
fn has_entry_counts_starts_before_the_end() {
    let table = RelocationTable { address: 0x100, size: 72, entry_size: 24 };
    assert!(table.has_entry(0));
    assert!(table.has_entry(2));
    assert!(!table.has_entry(3));
    assert!(!table.has_entry(u64::MAX));
    let wide = RelocationTable { address: 0, size: u64::MAX, entry_size: u64::MAX };
    assert!(wide.has_entry(0));
    assert!(!wide.has_entry(1));
    let stuck = RelocationTable { address: 0x100, size: 72, entry_size: 0 };
    assert!(!stuck.has_entry(0));
}

#[test]
fn fold_inner_folds_in_table_order() {
    let bytes = image_with(&three(), 0x100, 24, 0x200);
    let table = RelocationTable { address: 0x100, size: 72, entry_size: 24 };
    let offsets = table.fold_inner(&bytes, Vec::new(), |mut seen: Vec<u64>, rela: ElfRela| {
        seen.push(rela.offset);
        seen
    });
    assert_eq!(offsets, Ok(vec![0x40, 0x48, 0x50]));
    let count = table.fold_inner(&bytes, 10u32, |count: u32, _rela: ElfRela| count + 1);
    assert_eq!(count, Ok(13));
}

#[test]
fn fold_inner_of_an_empty_table_gives_the_start() {
    let bytes = image_with(&[], 0x100, 24, 0x100);
    let table = RelocationTable { address: 0x100, size: 0, entry_size: 24 };
    assert_eq!(table.fold_inner(&bytes, 7u8, |_: u8, _rela: ElfRela| 0), Ok(7));
}

#[test]
fn fold_inner_fails_like_the_walk() {
    let bytes = image_with(&three(), 0x100, 24, 0x200);
    let table = RelocationTable { address: 0x100, size: 72, entry_size: 0 };
    assert_eq!(
        table.fold_inner(&bytes, 0u32, |count: u32, _rela: ElfRela| count + 1),
        Err(ElfError::InvalidFormat)
    );
    let table = RelocationTable { address: 0x1F0, size: 72, entry_size: 24 };
    assert_eq!(
        table.fold_inner(&bytes, 0u32, |count: u32, _rela: ElfRela| count + 1),
        Err(ElfError::BufferOverflow)
    );
}

#[test]
fn fold_of_a_walk_takes_all_relocations() {
    let bytes = image_with(&three(), 0x100, 24, 0x200);
    let table = RelocationTable { address: 0x100, size: 72, entry_size: 24 };
    let mut walk = table.into_iter(&bytes).unwrap();
    assert_eq!(walk.next(), Some(three()[0]));
    let sum = walk.fold(0u64, |sum: u64, rela: ElfRela| sum + rela.offset);
    assert_eq!(sum, 0x40 + 0x48 + 0x50);
}
