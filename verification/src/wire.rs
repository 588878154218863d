//! Little-endian integer fields inside a byte buffer.
//!
//! Every record of the instrumentation is a run of such fields at fixed
//! offsets. The functions here read and write one field; the specification
//! functions give the value of a field as plain arithmetic on its bytes.

use vstd::prelude::*;

verus! {

/// The unsigned 32-bit value spelled by the four bytes of `bytes` from `at`.
pub open spec fn le_u32(bytes: Seq<u8>, at: int) -> u32 {
    (bytes[at] as int + 0x100 * (bytes[at + 1] as int) + 0x1_0000 * (bytes[at + 2] as int)
        + 0x100_0000 * (bytes[at + 3] as int)) as u32
}

/// The unsigned 64-bit value spelled by the eight bytes of `bytes` from `at`.
pub open spec fn le_u64(bytes: Seq<u8>, at: int) -> u64 {
    (le_u32(bytes, at) as int + 0x1_0000_0000 * (le_u32(bytes, at + 4) as int)) as u64
}

/// The signed 32-bit value spelled in two's complement by the four bytes of
/// `bytes` from `at`.
pub open spec fn le_i32(bytes: Seq<u8>, at: int) -> i32 {
    signed(le_u32(bytes, at))
}

/// The two's-complement reading of a 32-bit pattern.
pub open spec fn signed(raw: u32) -> i32 {
    if raw < 0x8000_0000 {
        raw as i32
    } else {
        (raw as int - 0x1_0000_0000) as i32
    }
}

/// The 32-bit pattern of a signed value in two's complement.
pub open spec fn unsigned(value: i32) -> u32 {
    if value >= 0 {
        value as u32
    } else {
        (value as int + 0x1_0000_0000) as u32
    }
}

/// The four little-endian bytes of `value`.
pub open spec fn u32_le(value: u32) -> Seq<u8> {
    seq![
        (value as int % 0x100) as u8,
        (value as int / 0x100 % 0x100) as u8,
        (value as int / 0x1_0000 % 0x100) as u8,
        (value as int / 0x100_0000) as u8,
    ]
}

/// The eight little-endian bytes of `value`.
pub open spec fn u64_le(value: u64) -> Seq<u8> {
    u32_le((value as int % 0x1_0000_0000) as u32) + u32_le((value as int / 0x1_0000_0000) as u32)
}

/// The four little-endian bytes of `value` in two's complement.
pub open spec fn i32_le(value: i32) -> Seq<u8> {
    u32_le(unsigned(value))
}

/// Writing a 32-bit value and reading it back gives the value.
pub proof fn lemma_u32_written_then_read(value: u32)
    ensures
        u32_le(value).len() == 4,
        le_u32(u32_le(value), 0) == value,
{
    let b0: u8 = (value as int % 0x100) as u8;
    let b1: u8 = (value as int / 0x100 % 0x100) as u8;
    let b2: u8 = (value as int / 0x1_0000 % 0x100) as u8;
    let b3: u8 = (value as int / 0x100_0000) as u8;
    assert(b0 == value % 0x100 && b1 == value / 0x100 % 0x100 && b2 == value / 0x1_0000 % 0x100
        && b3 == value / 0x100_0000);
    assert(b0 + 0x100 * b1 + 0x1_0000 * b2 + 0x100_0000 * b3 == value) by (bit_vector)
        requires
            b0 == value % 0x100,
            b1 == value / 0x100 % 0x100,
            b2 == value / 0x1_0000 % 0x100,
            b3 == value / 0x100_0000,
    ;
    let bytes = u32_le(value);
    assert(bytes[0] == b0 && bytes[1] == b1 && bytes[2] == b2 && bytes[3] == b3);
}

/// Reading four bytes and writing the value gives the same four bytes.
pub proof fn lemma_u32_read_then_written(bytes: Seq<u8>, at: int)
    requires
        0 <= at,
        at + 4 <= bytes.len(),
    ensures
        u32_le(le_u32(bytes, at)) == bytes.subrange(at, at + 4),
{
    let b0 = bytes[at];
    let b1 = bytes[at + 1];
    let b2 = bytes[at + 2];
    let b3 = bytes[at + 3];
    let value = le_u32(bytes, at);
    assert(value == b0 + 0x100 * b1 + 0x1_0000 * b2 + 0x100_0000 * b3);
    assert(value % 0x100 == b0 && value / 0x100 % 0x100 == b1 && value / 0x1_0000 % 0x100 == b2
        && value / 0x100_0000 == b3) by (bit_vector)
        requires
            value == b0 + 0x100 * b1 + 0x1_0000 * b2 + 0x100_0000 * b3,
    ;
    assert(u32_le(value) =~= bytes.subrange(at, at + 4));
}

/// Writing a 64-bit value and reading it back gives the value.
pub proof fn lemma_u64_written_then_read(value: u64)
    ensures
        u64_le(value).len() == 8,
        le_u64(u64_le(value), 0) == value,
{
    let low = (value as int % 0x1_0000_0000) as u32;
    let high = (value as int / 0x1_0000_0000) as u32;
    lemma_u32_written_then_read(low);
    lemma_u32_written_then_read(high);
    let bytes = u64_le(value);
    assert(bytes.subrange(0, 4) =~= u32_le(low));
    assert(bytes.subrange(4, 8) =~= u32_le(high));
    lemma_u32_of_subrange(bytes, 0, 4, 0);
    lemma_u32_of_subrange(bytes, 4, 8, 0);
}

/// Reading eight bytes and writing the value gives the same eight bytes.
pub proof fn lemma_u64_read_then_written(bytes: Seq<u8>, at: int)
    requires
        0 <= at,
        at + 8 <= bytes.len(),
    ensures
        u64_le(le_u64(bytes, at)) == bytes.subrange(at, at + 8),
{
    let low = le_u32(bytes, at);
    let high = le_u32(bytes, at + 4);
    let value = le_u64(bytes, at);
    assert(value == low + 0x1_0000_0000 * high);
    assert(value % 0x1_0000_0000 == low && value / 0x1_0000_0000 == high) by (bit_vector)
        requires
            value == low + 0x1_0000_0000 * high,
    ;
    assert(u64_le(value) == u32_le(low) + u32_le(high));
    assert(u32_le(low) == bytes.subrange(at, at + 4)) by {
        lemma_u32_read_then_written(bytes, at);
    }
    assert(u32_le(high) == bytes.subrange(at + 4, at + 8)) by {
        lemma_u32_read_then_written(bytes, at + 4);
    }
    assert(bytes.subrange(at, at + 4) + bytes.subrange(at + 4, at + 8) =~= bytes.subrange(
        at,
        at + 8,
    ));
}

/// A field read inside a sub-range is the field of the whole buffer at the
/// shifted offset.
pub proof fn lemma_u32_of_subrange(bytes: Seq<u8>, from: int, to: int, at: int)
    requires
        0 <= from <= to <= bytes.len(),
        0 <= at,
        from + at + 4 <= to,
    ensures
        le_u32(bytes.subrange(from, to), at) == le_u32(bytes, from + at),
{
}

/// A 32-bit field of two buffers laid end to end lies in one of them.
pub proof fn lemma_u32_of_concat(front: Seq<u8>, back: Seq<u8>, at: int)
    requires
        0 <= at,
    ensures
        at + 4 <= front.len() ==> le_u32(front + back, at) == le_u32(front, at),
        front.len() <= at && at + 4 <= front.len() + back.len() ==> le_u32(front + back, at)
            == le_u32(back, at - front.len()),
{
}

/// A 64-bit field of two buffers laid end to end lies in one of them.
pub proof fn lemma_u64_of_concat(front: Seq<u8>, back: Seq<u8>, at: int)
    requires
        0 <= at,
    ensures
        at + 8 <= front.len() ==> le_u64(front + back, at) == le_u64(front, at),
        front.len() <= at && at + 8 <= front.len() + back.len() ==> le_u64(front + back, at)
            == le_u64(back, at - front.len()),
{
    lemma_u32_of_concat(front, back, at);
    lemma_u32_of_concat(front, back, at + 4);
}

/// The two readings of a 32-bit pattern are inverse to each other.
pub proof fn lemma_signed_unsigned(raw: u32, value: i32)
    ensures
        unsigned(signed(raw)) == raw,
        signed(unsigned(value)) == value,
{
}

/// Reads the unsigned 32-bit field at offset `at`.
pub fn read_u32(bytes: &[u8], at: usize) -> (value: u32)
    requires
        at + 4 <= bytes.len(),
    ensures
        value == le_u32(bytes@, at as int),
{
    let b0: u32 = bytes[at] as u32;
    let b1: u32 = bytes[at + 1] as u32;
    let b2: u32 = bytes[at + 2] as u32;
    let b3: u32 = bytes[at + 3] as u32;
    b0 + 0x100 * b1 + 0x1_0000 * b2 + 0x100_0000 * b3
}

/// Reads the unsigned 64-bit field at offset `at`.
pub fn read_u64(bytes: &[u8], at: usize) -> (value: u64)
    requires
        at + 8 <= bytes.len(),
    ensures
        value == le_u64(bytes@, at as int),
{
    let low: u64 = read_u32(bytes, at) as u64;
    let high: u64 = read_u32(bytes, at + 4) as u64;
    low + 0x1_0000_0000 * high
}

/// Reads the signed 32-bit field at offset `at`.
pub fn read_i32(bytes: &[u8], at: usize) -> (value: i32)
    requires
        at + 4 <= bytes.len(),
    ensures
        value == le_i32(bytes@, at as int),
{
    let raw: u32 = read_u32(bytes, at);
    if raw < 0x8000_0000 {
        raw as i32
    } else {
        (raw as i64 - 0x1_0000_0000) as i32
    }
}

/// Appends the four bytes of `value` to `out`.
pub fn write_u32(out: &mut Vec<u8>, value: u32)
    ensures
        final(out)@ == old(out)@ + u32_le(value),
{
    out.push((value % 0x100) as u8);
    out.push((value / 0x100 % 0x100) as u8);
    out.push((value / 0x1_0000 % 0x100) as u8);
    out.push((value / 0x100_0000) as u8);
    assert(out@ =~= old(out)@ + u32_le(value));
}

/// Appends the eight bytes of `value` to `out`.
pub fn write_u64(out: &mut Vec<u8>, value: u64)
    ensures
        final(out)@ == old(out)@ + u64_le(value),
{
    write_u32(out, (value % 0x1_0000_0000) as u32);
    write_u32(out, (value / 0x1_0000_0000) as u32);
    assert(out@ =~= old(out)@ + u64_le(value));
}

/// Appends the four bytes of `value`, in two's complement, to `out`.
pub fn write_i32(out: &mut Vec<u8>, value: i32)
    ensures
        final(out)@ == old(out)@ + i32_le(value),
{
    let raw: u32 = if value >= 0 {
        value as u32
    } else {
        (value as i64 + 0x1_0000_0000) as u32
    };
    write_u32(out, raw);
}

} // verus!
