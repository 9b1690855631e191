//! Numbers as the store holds them: little-endian, and signed numbers in
//! two's complement.

use vstd::prelude::*;
use vstd::slice::*;

verus! {

/// The unsigned 16-bit number in the two bytes from `at`.
pub open spec fn u16_at(b: Seq<u8>, at: int) -> int {
    b[at] as int + 256 * (b[at + 1] as int)
}

/// The unsigned 32-bit number in the four bytes from `at`.
pub open spec fn u32_at(b: Seq<u8>, at: int) -> int {
    u16_at(b, at) + 65536 * u16_at(b, at + 2)
}

/// The unsigned 64-bit number in the eight bytes from `at`.
pub open spec fn u64_at(b: Seq<u8>, at: int) -> int {
    u32_at(b, at) + 4294967296 * u32_at(b, at + 4)
}

/// The unsigned 32-bit number in the four bytes from `at`, highest byte
/// first: the order in which keys hold numbers, so that keys compare as the
/// numbers do.
pub open spec fn u32_be_at(b: Seq<u8>, at: int) -> int {
    16777216 * (b[at] as int) + 65536 * (b[at + 1] as int) + 256 * (b[at + 2] as int) + (b[at
        + 3] as int)
}

/// The signed number that `u` stands for in two's complement, where `half`
/// is the least number that stands for a negative one.
pub open spec fn signed(u: int, half: int) -> int {
    if u < half {
        u
    } else {
        u - 2 * half
    }
}

/// Reads the unsigned 16-bit number in the two bytes from `at`.
pub fn read_u16(b: &[u8], at: usize) -> (r: u16)
    requires
        at + 2 <= b.len(),
    ensures
        r == u16_at(b@, at as int),
{
    b[at] as u16 + 256 * (b[at + 1] as u16)
}

/// Reads the unsigned 32-bit number in the four bytes from `at`.
pub fn read_u32(b: &[u8], at: usize) -> (r: u32)
    requires
        at + 4 <= b.len(),
    ensures
        r == u32_at(b@, at as int),
{
    read_u16(b, at) as u32 + 65536 * (read_u16(b, at + 2) as u32)
}

/// Reads the unsigned 64-bit number in the eight bytes from `at`.
pub fn read_u64(b: &[u8], at: usize) -> (r: u64)
    requires
        at + 8 <= b.len(),
    ensures
        r == u64_at(b@, at as int),
{
    read_u32(b, at) as u64 + 4294967296 * (read_u32(b, at + 4) as u64)
}

/// Reads the unsigned 32-bit number in the four bytes from `at`, highest
/// byte first.
pub fn read_u32_be(b: &[u8], at: usize) -> (r: u32)
    requires
        at + 4 <= b.len(),
    ensures
        r == u32_be_at(b@, at as int),
{
    16777216 * (b[at] as u32) + 65536 * (b[at + 1] as u32) + 256 * (b[at + 2] as u32) + (b[at
        + 3] as u32)
}

/// The signed reading of eight bits.
pub fn to_i8(u: u8) -> (r: i8)
    ensures
        r == signed(u as int, 128),
{
    if u < 128 {
        u as i8
    } else {
        (u as i16 - 256) as i8
    }
}

/// The signed reading of sixteen bits.
pub fn to_i16(u: u16) -> (r: i16)
    ensures
        r == signed(u as int, 32768),
{
    if u < 32768 {
        u as i16
    } else {
        (u as i32 - 65536) as i16
    }
}

/// The signed reading of thirty-two bits.
pub fn to_i32(u: u32) -> (r: i32)
    ensures
        r == signed(u as int, 2147483648),
{
    if u < 2147483648 {
        u as i32
    } else {
        (u as i64 - 4294967296) as i32
    }
}

/// The signed reading of sixty-four bits.
pub fn to_i64(u: u64) -> (r: i64)
    ensures
        r == signed(u as int, 9223372036854775808),
{
    if u < 9223372036854775808 {
        u as i64
    } else {
        (u as i128 - 18446744073709551616) as i64
    }
}

/// A copy of the bytes from `from` up to `to`.
pub fn copy_range(b: &[u8], from: usize, to: usize) -> (r: Vec<u8>)
    requires
        from <= to <= b.len(),
    ensures
        r@ == b@.subrange(from as int, to as int),
{
    let mut r: Vec<u8> = Vec::new();
    let mut i: usize = from;
    while i < to
        invariant
            from <= i <= to <= b.len(),
            r@ == b@.subrange(from as int, i as int),
        decreases to - i,
    {
        r.push(b[i]);
        assert(r@ =~= b@.subrange(from as int, i + 1));
        i += 1;
    }
    r
}

} // verus!
