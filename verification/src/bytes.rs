//! Fixed-width integers as byte sequences, in both byte orders.
//!
//! The specifications are plain arithmetic on `int`, so that callers can
//! reason about single bytes without bit-vector proofs.  Signed integers are
//! handled through their two's complement bit patterns.

use byteorder::ByteOrder;
use vstd::arithmetic::div_mod::{lemma_div_denominator, lemma_fundamental_div_mod_converse};
use vstd::prelude::*;
use vstd::slice::slice_subrange;

verus! {

// ---------------------------------------------------------------------------
// Two's complement
// ---------------------------------------------------------------------------
/// The two's complement bit pattern of a signed byte.
pub open spec fn bits_of_i8(v: i8) -> u8 {
    if v >= 0 {
        v as u8
    } else {
        (v + 0x100) as u8
    }
}

/// The signed byte with the given bit pattern.
pub open spec fn i8_of_bits(b: u8) -> i8 {
    if b < 0x80 {
        b as i8
    } else {
        (b - 0x100) as i8
    }
}

/// The two's complement bit pattern of a signed 16 bit integer.
pub open spec fn bits_of_i16(v: i16) -> u16 {
    if v >= 0 {
        v as u16
    } else {
        (v + 0x1_0000) as u16
    }
}

/// The signed 16 bit integer with the given bit pattern.
pub open spec fn i16_of_bits(b: u16) -> i16 {
    if b < 0x8000 {
        b as i16
    } else {
        (b - 0x1_0000) as i16
    }
}

/// The two's complement bit pattern of a signed 32 bit integer.
pub open spec fn bits_of_i32(v: i32) -> u32 {
    if v >= 0 {
        v as u32
    } else {
        (v + 0x1_0000_0000) as u32
    }
}

/// The signed 32 bit integer with the given bit pattern.
pub open spec fn i32_of_bits(b: u32) -> i32 {
    if b < 0x8000_0000 {
        b as i32
    } else {
        (b - 0x1_0000_0000) as i32
    }
}

/// Reinterprets a signed byte as its bit pattern.
pub fn i8_to_bits(v: i8) -> (b: u8)
    ensures
        b == bits_of_i8(v),
{
    assert(v as u8 == (if v >= 0 {
        v as u8
    } else {
        (v + 0x100) as u8
    })) by (bit_vector);
    v as u8
}

/// Reinterprets a bit pattern as a signed byte.
pub fn i8_from_bits(b: u8) -> (v: i8)
    ensures
        v == i8_of_bits(b),
{
    assert(b as i8 == (if b < 0x80 {
        b as i8
    } else {
        (b - 0x100) as i8
    })) by (bit_vector);
    b as i8
}

/// Reinterprets a signed 16 bit integer as its bit pattern.
pub fn i16_to_bits(v: i16) -> (b: u16)
    ensures
        b == bits_of_i16(v),
{
    assert(v as u16 == (if v >= 0 {
        v as u16
    } else {
        (v + 0x1_0000) as u16
    })) by (bit_vector);
    v as u16
}

/// Reinterprets a bit pattern as a signed 16 bit integer.
pub fn i16_from_bits(b: u16) -> (v: i16)
    ensures
        v == i16_of_bits(b),
{
    assert(b as i16 == (if b < 0x8000 {
        b as i16
    } else {
        (b - 0x1_0000) as i16
    })) by (bit_vector);
    b as i16
}

/// Reinterprets a signed 32 bit integer as its bit pattern.
pub fn i32_to_bits(v: i32) -> (b: u32)
    ensures
        b == bits_of_i32(v),
{
    assert(v as u32 == (if v >= 0 {
        v as u32
    } else {
        (v + 0x1_0000_0000) as u32
    })) by (bit_vector);
    v as u32
}

/// Reinterprets a bit pattern as a signed 32 bit integer.
pub fn i32_from_bits(b: u32) -> (v: i32)
    ensures
        v == i32_of_bits(b),
{
    assert(b as i32 == (if b < 0x8000_0000 {
        b as i32
    } else {
        (b - 0x1_0000_0000) as i32
    })) by (bit_vector);
    b as i32
}

/// Bit patterns and signed values determine each other.
pub proof fn lemma_bits_round_trip()
    ensures
        forall|v: i8| i8_of_bits(#[trigger] bits_of_i8(v)) == v,
        forall|b: u8| bits_of_i8(#[trigger] i8_of_bits(b)) == b,
        forall|v: i16| i16_of_bits(#[trigger] bits_of_i16(v)) == v,
        forall|b: u16| bits_of_i16(#[trigger] i16_of_bits(b)) == b,
        forall|v: i32| i32_of_bits(#[trigger] bits_of_i32(v)) == v,
        forall|b: u32| bits_of_i32(#[trigger] i32_of_bits(b)) == b,
{
}

// ---------------------------------------------------------------------------
// Bytes of an unsigned value
// ---------------------------------------------------------------------------
/// `256^k` for the byte positions of a 64 bit value.
pub open spec fn radix_power(k: int) -> int {
    if k <= 0 {
        1
    } else if k == 1 {
        0x100
    } else if k == 2 {
        0x1_0000
    } else if k == 3 {
        0x100_0000
    } else if k == 4 {
        0x1_0000_0000
    } else if k == 5 {
        0x100_0000_0000
    } else if k == 6 {
        0x1_0000_0000_0000
    } else {
        0x100_0000_0000_0000
    }
}

/// Byte `k` of `v`, where byte 0 is the least significant one.
pub open spec fn byte_of(v: int, k: int) -> u8 {
    ((v / radix_power(k)) % 0x100) as u8
}

/// The two bytes of `v`, least significant first.
pub open spec fn le_bytes_u16(v: u16) -> Seq<u8> {
    seq![byte_of(v as int, 0), byte_of(v as int, 1)]
}

/// The four bytes of `v`, least significant first.
pub open spec fn le_bytes_u32(v: u32) -> Seq<u8> {
    seq![byte_of(v as int, 0), byte_of(v as int, 1), byte_of(v as int, 2), byte_of(v as int, 3)]
}

/// The eight bytes of `v`, least significant first.
pub open spec fn le_bytes_u64(v: u64) -> Seq<u8> {
    seq![
        byte_of(v as int, 0),
        byte_of(v as int, 1),
        byte_of(v as int, 2),
        byte_of(v as int, 3),
        byte_of(v as int, 4),
        byte_of(v as int, 5),
        byte_of(v as int, 6),
        byte_of(v as int, 7),
    ]
}

/// The four bytes of `v`, most significant first.
pub open spec fn be_bytes_u32(v: u32) -> Seq<u8> {
    seq![byte_of(v as int, 3), byte_of(v as int, 2), byte_of(v as int, 1), byte_of(v as int, 0)]
}

/// The value whose little-endian bytes are `b[at]`, `b[at + 1]`.
pub open spec fn le_u16_at(b: Seq<u8>, at: int) -> u16 {
    (b[at] + 0x100 * b[at + 1]) as u16
}

/// The value whose little-endian bytes are `b[at] .. b[at + 3]`.
pub open spec fn le_u32_at(b: Seq<u8>, at: int) -> u32 {
    (b[at] + 0x100 * b[at + 1] + 0x1_0000 * b[at + 2] + 0x100_0000 * b[at + 3]) as u32
}

/// The value whose little-endian bytes are `b[at] .. b[at + 7]`.
pub open spec fn le_u64_at(b: Seq<u8>, at: int) -> u64 {
    (b[at] + 0x100 * b[at + 1] + 0x1_0000 * b[at + 2] + 0x100_0000 * b[at + 3] + 0x1_0000_0000
        * b[at + 4] + 0x100_0000_0000 * b[at + 5] + 0x1_0000_0000_0000 * b[at + 6]
        + 0x100_0000_0000_0000 * b[at + 7]) as u64
}

/// The value whose big-endian bytes are `b[at]`, `b[at + 1]`.
pub open spec fn be_u16_at(b: Seq<u8>, at: int) -> u16 {
    (0x100 * b[at] + b[at + 1]) as u16
}

/// The value whose big-endian bytes are `b[at] .. b[at + 3]`.
pub open spec fn be_u32_at(b: Seq<u8>, at: int) -> u32 {
    (0x100_0000 * b[at] + 0x1_0000 * b[at + 1] + 0x100 * b[at + 2] + b[at + 3]) as u32
}

/// Dropping one more byte is one more division by 256.
proof fn lemma_next_byte(v: int, k: int)
    requires
        0 <= v,
        0 <= k < 7,
    ensures
        v / radix_power(k + 1) == (v / radix_power(k)) / 0x100,
        v / radix_power(k) == 0x100 * (v / radix_power(k + 1)) + byte_of(v, k),
{
    lemma_div_denominator(v, radix_power(k), 0x100);
    assert(radix_power(k) * 0x100 == radix_power(k + 1));
}

/// Reading back the two little-endian bytes of a value gives the value.
pub proof fn lemma_le_u16_of_bytes(v: u16)
    ensures
        le_u16_at(le_bytes_u16(v), 0) == v,
{
    lemma_next_byte(v as int, 0);
}

/// Reading back the four bytes of a value gives the value, in either order.
pub proof fn lemma_u32_of_bytes(v: u32)
    ensures
        le_u32_at(le_bytes_u32(v), 0) == v,
        be_u32_at(be_bytes_u32(v), 0) == v,
{
    lemma_next_byte(v as int, 0);
    lemma_next_byte(v as int, 1);
    lemma_next_byte(v as int, 2);
}

/// Reading back the eight little-endian bytes of a value gives the value.
pub proof fn lemma_le_u64_of_bytes(v: u64)
    ensures
        le_u64_at(le_bytes_u64(v), 0) == v,
{
    lemma_next_byte(v as int, 0);
    lemma_next_byte(v as int, 1);
    lemma_next_byte(v as int, 2);
    lemma_next_byte(v as int, 3);
    lemma_next_byte(v as int, 4);
    lemma_next_byte(v as int, 5);
    lemma_next_byte(v as int, 6);
}

/// Byte `k` of `low + 256^k * (b + 256 * high)` is `b` when `low` fits below it.
proof fn lemma_byte_of_sum(low: int, b: u8, high: int, k: int)
    requires
        0 <= k <= 7,
        0 <= low < radix_power(k),
        0 <= high,
    ensures
        byte_of(low + radix_power(k) * (b + 0x100 * high), k) == b,
{
    let v = low + radix_power(k) * (b + 0x100 * high);
    let q = b + 0x100 * high;
    assert(v == q * radix_power(k) + low) by (nonlinear_arith)
        requires
            v == low + radix_power(k) * q,
    ;
    lemma_fundamental_div_mod_converse(v, radix_power(k), q, low);
    assert(q % 0x100 == b as int);
}

/// Writing out a 16 bit value that was read gives the bytes that were read.
pub proof fn lemma_le_bytes_of_u16(b: Seq<u8>, at: int)
    requires
        0 <= at,
        at + 2 <= b.len(),
    ensures
        le_bytes_u16(le_u16_at(b, at)) == b.subrange(at, at + 2),
{
    let v = le_u16_at(b, at) as int;
    lemma_byte_of_sum(0, b[at], b[at + 1] as int, 0);
    lemma_byte_of_sum(b[at] as int, b[at + 1], 0, 1);
    assert(le_bytes_u16(le_u16_at(b, at)) =~= b.subrange(at, at + 2));
}

/// Writing out a 32 bit value that was read gives the bytes that were read.
pub proof fn lemma_le_bytes_of_u32(b: Seq<u8>, at: int)
    requires
        0 <= at,
        at + 4 <= b.len(),
    ensures
        le_bytes_u32(le_u32_at(b, at)) == b.subrange(at, at + 4),
{
    let b0 = b[at] as int;
    let b1 = b[at + 1] as int;
    let b2 = b[at + 2] as int;
    let b3 = b[at + 3] as int;
    lemma_byte_of_sum(0, b[at], b1 + 0x100 * b2 + 0x1_0000 * b3, 0);
    lemma_byte_of_sum(b0, b[at + 1], b2 + 0x100 * b3, 1);
    lemma_byte_of_sum(b0 + 0x100 * b1, b[at + 2], b3, 2);
    lemma_byte_of_sum(b0 + 0x100 * b1 + 0x1_0000 * b2, b[at + 3], 0, 3);
    assert(le_bytes_u32(le_u32_at(b, at)) =~= b.subrange(at, at + 4));
}

/// Writing out a big-endian 32 bit value that was read gives the bytes that
/// were read.
pub proof fn lemma_be_bytes_of_u32(b: Seq<u8>, at: int)
    requires
        0 <= at,
        at + 4 <= b.len(),
    ensures
        be_bytes_u32(be_u32_at(b, at)) == b.subrange(at, at + 4),
{
    let b0 = b[at + 3] as int;
    let b1 = b[at + 2] as int;
    let b2 = b[at + 1] as int;
    let b3 = b[at] as int;
    lemma_byte_of_sum(0, b[at + 3], b1 + 0x100 * b2 + 0x1_0000 * b3, 0);
    lemma_byte_of_sum(b0, b[at + 2], b2 + 0x100 * b3, 1);
    lemma_byte_of_sum(b0 + 0x100 * b1, b[at + 1], b3, 2);
    lemma_byte_of_sum(b0 + 0x100 * b1 + 0x1_0000 * b2, b[at], 0, 3);
    assert(be_bytes_u32(be_u32_at(b, at)) =~= b.subrange(at, at + 4));
}

/// Writing out a 64 bit value that was read gives the bytes that were read.
pub proof fn lemma_le_bytes_of_u64(b: Seq<u8>, at: int)
    requires
        0 <= at,
        at + 8 <= b.len(),
    ensures
        le_bytes_u64(le_u64_at(b, at)) == b.subrange(at, at + 8),
{
    let b0 = b[at] as int;
    let b1 = b[at + 1] as int;
    let b2 = b[at + 2] as int;
    let b3 = b[at + 3] as int;
    let b4 = b[at + 4] as int;
    let b5 = b[at + 5] as int;
    let b6 = b[at + 6] as int;
    let b7 = b[at + 7] as int;
    let h7 = 0int;
    let h6 = b7 + 0x100 * h7;
    let h5 = b6 + 0x100 * h6;
    let h4 = b5 + 0x100 * h5;
    let h3 = b4 + 0x100 * h4;
    let h2 = b3 + 0x100 * h3;
    let h1 = b2 + 0x100 * h2;
    let h0 = b1 + 0x100 * h1;
    let l1 = b0;
    let l2 = l1 + 0x100 * b1;
    let l3 = l2 + 0x1_0000 * b2;
    let l4 = l3 + 0x100_0000 * b3;
    let l5 = l4 + 0x1_0000_0000 * b4;
    let l6 = l5 + 0x100_0000_0000 * b5;
    let l7 = l6 + 0x1_0000_0000_0000 * b6;
    lemma_byte_of_sum(0, b[at], h0, 0);
    lemma_byte_of_sum(l1, b[at + 1], h1, 1);
    lemma_byte_of_sum(l2, b[at + 2], h2, 2);
    lemma_byte_of_sum(l3, b[at + 3], h3, 3);
    lemma_byte_of_sum(l4, b[at + 4], h4, 4);
    lemma_byte_of_sum(l5, b[at + 5], h5, 5);
    lemma_byte_of_sum(l6, b[at + 6], h6, 6);
    lemma_byte_of_sum(l7, b[at + 7], h7, 7);
    assert(le_bytes_u64(le_u64_at(b, at)) =~= b.subrange(at, at + 8));
}

// ---------------------------------------------------------------------------
// Reading
// ---------------------------------------------------------------------------
/// Reads a little-endian 16 bit integer from the front of `input` and
/// advances `input` past it.
pub fn read_le_u16(input: &mut &[u8]) -> (v: u16)
    requires
        old(input)@.len() >= 2,
    ensures
        v == le_u16_at(old(input)@, 0),
        final(input)@ == old(input)@.skip(2),
{
    let whole: &[u8] = *input;
    let b0: u16 = whole[0] as u16;
    let b1: u16 = whole[1] as u16;
    *input = slice_subrange(whole, 2, whole.len());
    b0 + 0x100 * b1
}

/// Reads a little-endian 32 bit integer from the front of `input` and
/// advances `input` past it.
pub fn read_le_u32(input: &mut &[u8]) -> (v: u32)
    requires
        old(input)@.len() >= 4,
    ensures
        v == le_u32_at(old(input)@, 0),
        final(input)@ == old(input)@.skip(4),
{
    let whole: &[u8] = *input;
    let b0: u32 = whole[0] as u32;
    let b1: u32 = whole[1] as u32;
    let b2: u32 = whole[2] as u32;
    let b3: u32 = whole[3] as u32;
    *input = slice_subrange(whole, 4, whole.len());
    b0 + 0x100 * b1 + 0x1_0000 * b2 + 0x100_0000 * b3
}

/// Reads a little-endian 64 bit integer from the front of `input` and
/// advances `input` past it.
pub fn read_le_u64(input: &mut &[u8]) -> (v: u64)
    requires
        old(input)@.len() >= 8,
    ensures
        v == le_u64_at(old(input)@, 0),
        final(input)@ == old(input)@.skip(8),
{
    let whole: &[u8] = *input;
    let b0: u64 = whole[0] as u64;
    let b1: u64 = whole[1] as u64;
    let b2: u64 = whole[2] as u64;
    let b3: u64 = whole[3] as u64;
    let b4: u64 = whole[4] as u64;
    let b5: u64 = whole[5] as u64;
    let b6: u64 = whole[6] as u64;
    let b7: u64 = whole[7] as u64;
    *input = slice_subrange(whole, 8, whole.len());
    b0 + 0x100 * b1 + 0x1_0000 * b2 + 0x100_0000 * b3 + 0x1_0000_0000 * b4 + 0x100_0000_0000 * b5
        + 0x1_0000_0000_0000 * b6 + 0x100_0000_0000_0000 * b7
}

/// The big-endian 16 bit integer at `bytes[at..at + 2]`.
pub fn be_u16_from(bytes: &[u8], at: usize) -> (v: u16)
    requires
        at + 2 <= bytes@.len(),
    ensures
        v == be_u16_at(bytes@, at as int),
{
    let b0: u16 = bytes[at] as u16;
    let b1: u16 = bytes[at + 1] as u16;
    0x100 * b0 + b1
}

/// The big-endian 32 bit integer at `bytes[at..at + 4]`.
pub fn be_u32_from(bytes: &[u8], at: usize) -> (v: u32)
    requires
        at + 4 <= bytes@.len(),
    ensures
        v == be_u32_at(bytes@, at as int),
{
    let b0: u32 = bytes[at] as u32;
    let b1: u32 = bytes[at + 1] as u32;
    let b2: u32 = bytes[at + 2] as u32;
    let b3: u32 = bytes[at + 3] as u32;
    0x100_0000 * b0 + 0x1_0000 * b1 + 0x100 * b2 + b3
}

// ---------------------------------------------------------------------------
// Writing
// ---------------------------------------------------------------------------
/// `byteorder::LittleEndian::write_u16` on a two byte buffer: the buffer then
/// holds the low byte of `v` followed by its high byte.
#[verifier::external_body]
fn le_array_u16(v: u16) -> (b: [u8; 2])
    ensures
        b@ == le_bytes_u16(v),
{
    let mut b: [u8; 2] = [0; 2];
    byteorder::LittleEndian::write_u16(&mut b, v);
    b
}

/// `byteorder::LittleEndian::write_u32` on a four byte buffer: the buffer then
/// holds the bytes of `v` from the least to the most significant.
#[verifier::external_body]
fn le_array_u32(v: u32) -> (b: [u8; 4])
    ensures
        b@ == le_bytes_u32(v),
{
    let mut b: [u8; 4] = [0; 4];
    byteorder::LittleEndian::write_u32(&mut b, v);
    b
}

/// `byteorder::LittleEndian::write_u64` on an eight byte buffer: the buffer
/// then holds the bytes of `v` from the least to the most significant.
#[verifier::external_body]
fn le_array_u64(v: u64) -> (b: [u8; 8])
    ensures
        b@ == le_bytes_u64(v),
{
    let mut b: [u8; 8] = [0; 8];
    byteorder::LittleEndian::write_u64(&mut b, v);
    b
}

/// Appends the little-endian bytes of `v` to `out`.
pub fn write_le_u16(out: &mut Vec<u8>, v: u16)
    ensures
        final(out)@ == old(out)@ + le_bytes_u16(v),
{
    let b = le_array_u16(v);
    out.push(b[0]);
    out.push(b[1]);
    assert(out@ =~= old(out)@ + le_bytes_u16(v));
}

/// Appends the little-endian bytes of `v` to `out`.
pub fn write_le_u32(out: &mut Vec<u8>, v: u32)
    ensures
        final(out)@ == old(out)@ + le_bytes_u32(v),
{
    let b = le_array_u32(v);
    out.push(b[0]);
    out.push(b[1]);
    out.push(b[2]);
    out.push(b[3]);
    assert(out@ =~= old(out)@ + le_bytes_u32(v));
}

/// Appends the little-endian bytes of `v` to `out`.
pub fn write_le_u64(out: &mut Vec<u8>, v: u64)
    ensures
        final(out)@ == old(out)@ + le_bytes_u64(v),
{
    let b = le_array_u64(v);
    out.push(b[0]);
    out.push(b[1]);
    out.push(b[2]);
    out.push(b[3]);
    out.push(b[4]);
    out.push(b[5]);
    out.push(b[6]);
    out.push(b[7]);
    assert(out@ =~= old(out)@ + le_bytes_u64(v));
}

/// Appends the big-endian bytes of `v` to `out`.
pub fn write_be_u32(out: &mut Vec<u8>, v: u32)
    ensures
        final(out)@ == old(out)@ + be_bytes_u32(v),
{
    out.push((v / 0x100_0000) as u8);
    out.push((v / 0x1_0000 % 0x100) as u8);
    out.push((v / 0x100 % 0x100) as u8);
    out.push((v % 0x100) as u8);
    assert(out@ =~= old(out)@ + be_bytes_u32(v));
}

} // verus!
