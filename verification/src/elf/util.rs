//! Little-endian integers in byte sequences.
//!
//! Every multi-byte field of an ELF64 RISC-V image is little-endian. The spec
//! functions here give the value of the field that starts at a position of a byte
//! sequence; the executable functions compute it.

use vstd::prelude::*;

verus! {

/// The unsigned 16-bit value whose little-endian encoding starts at `at`.
pub open spec fn spec_read_u16(bytes: Seq<u8>, at: int) -> u16 {
    (bytes[at] as int + 0x100 * (bytes[at + 1] as int)) as u16
}

/// The unsigned 32-bit value whose little-endian encoding starts at `at`.
pub open spec fn spec_read_u32(bytes: Seq<u8>, at: int) -> u32 {
    (bytes[at] as int + 0x100 * (bytes[at + 1] as int) + 0x1_0000 * (bytes[at + 2] as int)
        + 0x100_0000 * (bytes[at + 3] as int)) as u32
}

/// The unsigned 64-bit value whose little-endian encoding starts at `at`.
pub open spec fn spec_read_u64(bytes: Seq<u8>, at: int) -> u64 {
    (bytes[at] as int + 0x100 * (bytes[at + 1] as int) + 0x1_0000 * (bytes[at + 2] as int)
        + 0x100_0000 * (bytes[at + 3] as int) + 0x1_0000_0000 * (bytes[at + 4] as int)
        + 0x100_0000_0000 * (bytes[at + 5] as int) + 0x1_0000_0000_0000 * (bytes[at + 6] as int)
        + 0x100_0000_0000_0000 * (bytes[at + 7] as int)) as u64
}

/// The two's complement reading of a 64-bit pattern.
pub open spec fn spec_signed(raw: u64) -> i64 {
    if raw < 0x8000_0000_0000_0000 {
        raw as i64
    } else {
        (raw - 0x1_0000_0000_0000_0000) as i64
    }
}

/// The signed 64-bit value whose little-endian two's complement encoding starts
/// at `at`.
pub open spec fn spec_read_i64(bytes: Seq<u8>, at: int) -> i64 {
    spec_signed(spec_read_u64(bytes, at))
}

/// The 64-bit value that `x` wraps to: `x` modulo 2^64.
pub open spec fn wrap64(x: int) -> u64 {
    (x % 0x1_0000_0000_0000_0000) as u64
}

/// The eight bytes of the little-endian encoding of `value`.
pub open spec fn spec_u64_bytes(value: u64) -> Seq<u8> {
    seq![
        (value % 0x100) as u8,
        (value / 0x100 % 0x100) as u8,
        (value / 0x1_0000 % 0x100) as u8,
        (value / 0x100_0000 % 0x100) as u8,
        (value / 0x1_0000_0000 % 0x100) as u8,
        (value / 0x100_0000_0000 % 0x100) as u8,
        (value / 0x1_0000_0000_0000 % 0x100) as u8,
        (value / 0x100_0000_0000_0000 % 0x100) as u8,
    ]
}

/// `bytes` with the eight bytes from `at` on replaced by the little-endian
/// encoding of `value`.
pub open spec fn spec_write_u64(bytes: Seq<u8>, at: int, value: u64) -> Seq<u8> {
    Seq::new(
        bytes.len(),
        |i: int|
            if at <= i < at + 8 {
                spec_u64_bytes(value)[i - at]
            } else {
                bytes[i]
            },
    )
}

/// A 64-bit value is the sum of its bytes, each weighted by its place.
proof fn lemma_u64_is_sum_of_bytes(value: u64)
    by (bit_vector)
    ensures
        value == (value % 0x100) + 0x100 * (value / 0x100 % 0x100) + 0x1_0000 * (value / 0x1_0000
            % 0x100) + 0x100_0000 * (value / 0x100_0000 % 0x100) + 0x1_0000_0000 * (value
            / 0x1_0000_0000 % 0x100) + 0x100_0000_0000 * (value / 0x100_0000_0000 % 0x100)
            + 0x1_0000_0000_0000 * (value / 0x1_0000_0000_0000 % 0x100) + 0x100_0000_0000_0000 * (
        value / 0x100_0000_0000_0000 % 0x100),
{
}

/// Reading back what `spec_write_u64` stored gives the stored value.
pub proof fn lemma_write_then_read_u64(bytes: Seq<u8>, at: int, value: u64)
    requires
        0 <= at,
        at + 8 <= bytes.len(),
    ensures
        spec_read_u64(spec_write_u64(bytes, at, value), at) == value,
{
    let written = spec_write_u64(bytes, at, value);
    let enc = spec_u64_bytes(value);
    assert(written[at] == enc[0]);
    assert(written[at + 1] == enc[1]);
    assert(written[at + 2] == enc[2]);
    assert(written[at + 3] == enc[3]);
    assert(written[at + 4] == enc[4]);
    assert(written[at + 5] == enc[5]);
    assert(written[at + 6] == enc[6]);
    assert(written[at + 7] == enc[7]);
    lemma_u64_is_sum_of_bytes(value);
}

/// Reads the unsigned 16-bit little-endian value at `at`.
pub fn read_u16(bytes: &[u8], at: usize) -> (value: u16)
    requires
        at + 2 <= bytes.len(),
    ensures
        value == spec_read_u16(bytes@, at as int),
{
    let b0: u16 = bytes[at] as u16;
    let b1: u16 = bytes[at + 1] as u16;
    b0 + 0x100 * b1
}

/// Reads the unsigned 32-bit little-endian value at `at`.
pub fn read_u32(bytes: &[u8], at: usize) -> (value: u32)
    requires
        at + 4 <= bytes.len(),
    ensures
        value == spec_read_u32(bytes@, at as int),
{
    let b0: u32 = bytes[at] as u32;
    let b1: u32 = bytes[at + 1] as u32;
    let b2: u32 = bytes[at + 2] as u32;
    let b3: u32 = bytes[at + 3] as u32;
    b0 + 0x100 * b1 + 0x1_0000 * b2 + 0x100_0000 * b3
}

/// Reads the unsigned 64-bit little-endian value at `at`.
pub fn read_u64(bytes: &[u8], at: usize) -> (value: u64)
    requires
        at + 8 <= bytes.len(),
    ensures
        value == spec_read_u64(bytes@, at as int),
{
    let b0: u64 = bytes[at] as u64;
    let b1: u64 = bytes[at + 1] as u64;
    let b2: u64 = bytes[at + 2] as u64;
    let b3: u64 = bytes[at + 3] as u64;
    let b4: u64 = bytes[at + 4] as u64;
    let b5: u64 = bytes[at + 5] as u64;
    let b6: u64 = bytes[at + 6] as u64;
    let b7: u64 = bytes[at + 7] as u64;
    b0 + 0x100 * b1 + 0x1_0000 * b2 + 0x100_0000 * b3 + 0x1_0000_0000 * b4 + 0x100_0000_0000 * b5
        + 0x1_0000_0000_0000 * b6 + 0x100_0000_0000_0000 * b7
}

/// Reads a 64-bit pattern as a two's complement number.
pub fn signed(raw: u64) -> (value: i64)
    ensures
        value == spec_signed(raw),
{
    if raw < 0x8000_0000_0000_0000 {
        raw as i64
    } else {
        let low: i64 = (raw - 0x8000_0000_0000_0000) as i64;
        low + i64::MIN
    }
}

/// Reads the signed 64-bit little-endian value at `at`.
pub fn read_i64(bytes: &[u8], at: usize) -> (value: i64)
    requires
        at + 8 <= bytes.len(),
    ensures
        value == spec_read_i64(bytes@, at as int),
{
    signed(read_u64(bytes, at))
}

/// Stores `value` in little-endian order in the eight bytes from `at` on.
pub fn write_u64(target: &mut [u8], at: usize, value: u64)
    requires
        at + 8 <= old(target).len(),
    ensures
        final(target)@ == spec_write_u64(old(target)@, at as int, value),
{
    target[at] = (value % 0x100) as u8;
    target[at + 1] = (value / 0x100 % 0x100) as u8;
    target[at + 2] = (value / 0x1_0000 % 0x100) as u8;
    target[at + 3] = (value / 0x100_0000 % 0x100) as u8;
    target[at + 4] = (value / 0x1_0000_0000 % 0x100) as u8;
    target[at + 5] = (value / 0x100_0000_0000 % 0x100) as u8;
    target[at + 6] = (value / 0x1_0000_0000_0000 % 0x100) as u8;
    target[at + 7] = (value / 0x100_0000_0000_0000 % 0x100) as u8;
    assert(target@ =~= spec_write_u64(old(target)@, at as int, value));
}

} // verus!
