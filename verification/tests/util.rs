use maia::elf::util::{read_i64, read_u16, read_u32, read_u64, signed, write_u64};

#[test]
fn read_u16_is_little_endian() {
    let bytes = [0xAAu8, 0x34, 0x12, 0xBB];
    assert_eq!(read_u16(&bytes, 1), 0x1234);
    assert_eq!(read_u16(&bytes, 0), 0x34AA);
}

#[test]
fn read_u32_is_little_endian() {
    let bytes = [0x78u8, 0x56, 0x34, 0x12, 0xFF];
    assert_eq!(read_u32(&bytes, 0), 0x1234_5678);
    assert_eq!(read_u32(&bytes, 1), 0xFF12_3456);
}

#[test]
fn read_u64_is_little_endian() {
    let bytes = [0x00u8, 0xEF, 0xCD, 0xAB, 0x89, 0x67, 0x45, 0x23, 0x01];
    assert_eq!(read_u64(&bytes, 1), 0x0123_4567_89AB_CDEF);
    assert_eq!(read_u64(&[0xFFu8; 8], 0), u64::MAX);
    assert_eq!(read_u64(&[0u8; 8], 0), 0);
}

#[test]
fn signed_reads_twos_complement() {
    assert_eq!(signed(0), 0);
    assert_eq!(signed(0x7FFF_FFFF_FFFF_FFFF), i64::MAX);
    assert_eq!(signed(0x8000_0000_0000_0000), i64::MIN);
    assert_eq!(signed(u64::MAX), -1);
    assert_eq!(signed(0xFFFF_FFFF_FFFF_FF80), -128);
}

#[test]
fn read_i64_reads_negative_numbers() {
    let bytes = [0x80u8, 0xFF, 0xFF, 0xFF, 0xFF, 0xFF, 0xFF, 0xFF];
    assert_eq!(read_i64(&bytes, 0), -128);
    let bytes = [0x80u8, 0, 0, 0, 0, 0, 0, 0];
    assert_eq!(read_i64(&bytes, 0), 128);
}

#[test]
fn write_u64_stores_little_endian_and_leaves_the_rest() {
    let mut memory = [0x11u8; 12];
    write_u64(&mut memory, 2, 0x0123_4567_89AB_CDEF);
    assert_eq!(
        memory,
        [0x11, 0x11, 0xEF, 0xCD, 0xAB, 0x89, 0x67, 0x45, 0x23, 0x01, 0x11, 0x11]
    );
}

#[test]
fn write_then_read_gives_the_value_back() {
    let mut memory = [0u8; 16];
    for value in [0u64, 1, 0x90000080, 0x8000_0000_0000_0000, u64::MAX] {
        write_u64(&mut memory, 8, value);
        assert_eq!(read_u64(&memory, 8), value);
        assert_eq!(memory[8..16], value.to_le_bytes());
    }
}
