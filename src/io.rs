//! Reading and writing values at given offsets of a byte slice, without a
//! reader. The callers supply offsets that lie inside the slice.
use vstd::prelude::*;
use vstd::utf8::{decode_utf8, encode_utf8, valid_utf8};

use crate::endian::Endian;
use crate::numeric::{
    be_bytes, decode_be, decode_le, int_value, le_bytes,
    lemma_be_value_bound, lemma_byte_ranges, lemma_le_value_bound, pattern,
    pattern_i128, pattern_i16, pattern_i32, pattern_i64, pattern_i8, push_be, push_le, signed_value, to_i128, to_i16, to_i32, to_i64, to_i8, uint_bytes, uint_value,
};
use crate::text::{string_from_utf16_lossy, string_from_utf8, take_until, units_of, until_nul, units_from_bytes, units_until_nul, utf16_lossy};

verus! {

/// The `n` bytes of `buf` from `ptr` on.
pub open spec fn window(buf: Seq<u8>, ptr: int, n: int) -> Seq<u8> {
    buf.subrange(ptr, ptr + n)
}

/// The byte at `ptr`.
pub fn read_byte(buf: &[u8], ptr: usize) -> (r: u8)
    requires
        ptr < buf@.len(),
    ensures
        r == buf@[ptr as int],
{
    buf[ptr]
}

/// The byte at `ptr` as a two's complement `i8`.
pub fn read_i8(buf: &[u8], ptr: usize) -> (r: i8)
    requires
        ptr < buf@.len(),
    ensures
        r == signed_value(buf@[ptr as int] as nat, 1),
{
    to_i8(buf[ptr])
}

/// The `u16` in the 2 bytes at `ptr`, most significant byte first.
pub fn read_u16_be(buf: &[u8], ptr: usize) -> (r: u16)
    requires
        ptr + 2 <= buf@.len(),
    ensures
        r == uint_value(window(buf@, ptr as int, 2), Endian::BigEndian),
{
    proof {
        lemma_be_value_bound(window(buf@, ptr as int, 2));
        lemma_le_value_bound(window(buf@, ptr as int, 2));
        lemma_byte_ranges();
    }
    decode_be(buf, ptr, 2) as u16
}

/// The `i16` (two's complement) in the 2 bytes at `ptr`, most significant byte first.
pub fn read_i16_be(buf: &[u8], ptr: usize) -> (r: i16)
    requires
        ptr + 2 <= buf@.len(),
    ensures
        r == int_value(window(buf@, ptr as int, 2), Endian::BigEndian),
{
    proof {
        lemma_be_value_bound(window(buf@, ptr as int, 2));
        lemma_le_value_bound(window(buf@, ptr as int, 2));
        lemma_byte_ranges();
    }
    to_i16(decode_be(buf, ptr, 2))
}

/// The `u16` in the 2 bytes at `ptr`, least significant byte first.
pub fn read_u16_le(buf: &[u8], ptr: usize) -> (r: u16)
    requires
        ptr + 2 <= buf@.len(),
    ensures
        r == uint_value(window(buf@, ptr as int, 2), Endian::LittleEndian),
{
    proof {
        lemma_be_value_bound(window(buf@, ptr as int, 2));
        lemma_le_value_bound(window(buf@, ptr as int, 2));
        lemma_byte_ranges();
    }
    decode_le(buf, ptr, 2) as u16
}

/// The `i16` (two's complement) in the 2 bytes at `ptr`, least significant byte first.
pub fn read_i16_le(buf: &[u8], ptr: usize) -> (r: i16)
    requires
        ptr + 2 <= buf@.len(),
    ensures
        r == int_value(window(buf@, ptr as int, 2), Endian::LittleEndian),
{
    proof {
        lemma_be_value_bound(window(buf@, ptr as int, 2));
        lemma_le_value_bound(window(buf@, ptr as int, 2));
        lemma_byte_ranges();
    }
    to_i16(decode_le(buf, ptr, 2))
}

/// The `u16` in the 2 bytes at `ptr`, in byte order `endian`.
pub fn read_u16(buf: &[u8], ptr: usize, endian: Endian) -> (r: u16)
    requires
        ptr + 2 <= buf@.len(),
    ensures
        r == uint_value(window(buf@, ptr as int, 2), endian),
{
    if endian == Endian::LittleEndian {
        read_u16_le(buf, ptr)
    } else {
        read_u16_be(buf, ptr)
    }
}

/// The `i16` (two's complement) in the 2 bytes at `ptr`, in byte order `endian`.
pub fn read_i16(buf: &[u8], ptr: usize, endian: Endian) -> (r: i16)
    requires
        ptr + 2 <= buf@.len(),
    ensures
        r == int_value(window(buf@, ptr as int, 2), endian),
{
    if endian == Endian::LittleEndian {
        read_i16_le(buf, ptr)
    } else {
        read_i16_be(buf, ptr)
    }
}

/// The `u32` in the 4 bytes at `ptr`, most significant byte first.
pub fn read_u32_be(buf: &[u8], ptr: usize) -> (r: u32)
    requires
        ptr + 4 <= buf@.len(),
    ensures
        r == uint_value(window(buf@, ptr as int, 4), Endian::BigEndian),
{
    proof {
        lemma_be_value_bound(window(buf@, ptr as int, 4));
        lemma_le_value_bound(window(buf@, ptr as int, 4));
        lemma_byte_ranges();
    }
    decode_be(buf, ptr, 4) as u32
}

/// The `i32` (two's complement) in the 4 bytes at `ptr`, most significant byte first.
pub fn read_i32_be(buf: &[u8], ptr: usize) -> (r: i32)
    requires
        ptr + 4 <= buf@.len(),
    ensures
        r == int_value(window(buf@, ptr as int, 4), Endian::BigEndian),
{
    proof {
        lemma_be_value_bound(window(buf@, ptr as int, 4));
        lemma_le_value_bound(window(buf@, ptr as int, 4));
        lemma_byte_ranges();
    }
    to_i32(decode_be(buf, ptr, 4))
}

/// The `u32` in the 4 bytes at `ptr`, least significant byte first.
pub fn read_u32_le(buf: &[u8], ptr: usize) -> (r: u32)
    requires
        ptr + 4 <= buf@.len(),
    ensures
        r == uint_value(window(buf@, ptr as int, 4), Endian::LittleEndian),
{
    proof {
        lemma_be_value_bound(window(buf@, ptr as int, 4));
        lemma_le_value_bound(window(buf@, ptr as int, 4));
        lemma_byte_ranges();
    }
    decode_le(buf, ptr, 4) as u32
}

/// The `i32` (two's complement) in the 4 bytes at `ptr`, least significant byte first.
pub fn read_i32_le(buf: &[u8], ptr: usize) -> (r: i32)
    requires
        ptr + 4 <= buf@.len(),
    ensures
        r == int_value(window(buf@, ptr as int, 4), Endian::LittleEndian),
{
    proof {
        lemma_be_value_bound(window(buf@, ptr as int, 4));
        lemma_le_value_bound(window(buf@, ptr as int, 4));
        lemma_byte_ranges();
    }
    to_i32(decode_le(buf, ptr, 4))
}

/// The `u32` in the 4 bytes at `ptr`, in byte order `endian`.
pub fn read_u32(buf: &[u8], ptr: usize, endian: Endian) -> (r: u32)
    requires
        ptr + 4 <= buf@.len(),
    ensures
        r == uint_value(window(buf@, ptr as int, 4), endian),
{
    if endian == Endian::LittleEndian {
        read_u32_le(buf, ptr)
    } else {
        read_u32_be(buf, ptr)
    }
}

/// The `i32` (two's complement) in the 4 bytes at `ptr`, in byte order `endian`.
pub fn read_i32(buf: &[u8], ptr: usize, endian: Endian) -> (r: i32)
    requires
        ptr + 4 <= buf@.len(),
    ensures
        r == int_value(window(buf@, ptr as int, 4), endian),
{
    if endian == Endian::LittleEndian {
        read_i32_le(buf, ptr)
    } else {
        read_i32_be(buf, ptr)
    }
}

/// The `u64` in the 8 bytes at `ptr`, most significant byte first.
pub fn read_u64_be(buf: &[u8], ptr: usize) -> (r: u64)
    requires
        ptr + 8 <= buf@.len(),
    ensures
        r == uint_value(window(buf@, ptr as int, 8), Endian::BigEndian),
{
    proof {
        lemma_be_value_bound(window(buf@, ptr as int, 8));
        lemma_le_value_bound(window(buf@, ptr as int, 8));
        lemma_byte_ranges();
    }
    decode_be(buf, ptr, 8) as u64
}

/// The `i64` (two's complement) in the 8 bytes at `ptr`, most significant byte first.
pub fn read_i64_be(buf: &[u8], ptr: usize) -> (r: i64)
    requires
        ptr + 8 <= buf@.len(),
    ensures
        r == int_value(window(buf@, ptr as int, 8), Endian::BigEndian),
{
    proof {
        lemma_be_value_bound(window(buf@, ptr as int, 8));
        lemma_le_value_bound(window(buf@, ptr as int, 8));
        lemma_byte_ranges();
    }
    to_i64(decode_be(buf, ptr, 8))
}

/// The `u64` in the 8 bytes at `ptr`, least significant byte first.
pub fn read_u64_le(buf: &[u8], ptr: usize) -> (r: u64)
    requires
        ptr + 8 <= buf@.len(),
    ensures
        r == uint_value(window(buf@, ptr as int, 8), Endian::LittleEndian),
{
    proof {
        lemma_be_value_bound(window(buf@, ptr as int, 8));
        lemma_le_value_bound(window(buf@, ptr as int, 8));
        lemma_byte_ranges();
    }
    decode_le(buf, ptr, 8) as u64
}

/// The `i64` (two's complement) in the 8 bytes at `ptr`, least significant byte first.
pub fn read_i64_le(buf: &[u8], ptr: usize) -> (r: i64)
    requires
        ptr + 8 <= buf@.len(),
    ensures
        r == int_value(window(buf@, ptr as int, 8), Endian::LittleEndian),
{
    proof {
        lemma_be_value_bound(window(buf@, ptr as int, 8));
        lemma_le_value_bound(window(buf@, ptr as int, 8));
        lemma_byte_ranges();
    }
    to_i64(decode_le(buf, ptr, 8))
}

/// The `u64` in the 8 bytes at `ptr`, in byte order `endian`.
pub fn read_u64(buf: &[u8], ptr: usize, endian: Endian) -> (r: u64)
    requires
        ptr + 8 <= buf@.len(),
    ensures
        r == uint_value(window(buf@, ptr as int, 8), endian),
{
    if endian == Endian::LittleEndian {
        read_u64_le(buf, ptr)
    } else {
        read_u64_be(buf, ptr)
    }
}

/// The `i64` (two's complement) in the 8 bytes at `ptr`, in byte order `endian`.
pub fn read_i64(buf: &[u8], ptr: usize, endian: Endian) -> (r: i64)
    requires
        ptr + 8 <= buf@.len(),
    ensures
        r == int_value(window(buf@, ptr as int, 8), endian),
{
    if endian == Endian::LittleEndian {
        read_i64_le(buf, ptr)
    } else {
        read_i64_be(buf, ptr)
    }
}

/// The `u128` in the 16 bytes at `ptr`, most significant byte first.
pub fn read_u128_be(buf: &[u8], ptr: usize) -> (r: u128)
    requires
        ptr + 16 <= buf@.len(),
    ensures
        r == uint_value(window(buf@, ptr as int, 16), Endian::BigEndian),
{
    proof {
        lemma_be_value_bound(window(buf@, ptr as int, 16));
        lemma_le_value_bound(window(buf@, ptr as int, 16));
        lemma_byte_ranges();
    }
    decode_be(buf, ptr, 16) as u128
}

/// The `i128` (two's complement) in the 16 bytes at `ptr`, most significant byte first.
pub fn read_i128_be(buf: &[u8], ptr: usize) -> (r: i128)
    requires
        ptr + 16 <= buf@.len(),
    ensures
        r == int_value(window(buf@, ptr as int, 16), Endian::BigEndian),
{
    proof {
        lemma_be_value_bound(window(buf@, ptr as int, 16));
        lemma_le_value_bound(window(buf@, ptr as int, 16));
        lemma_byte_ranges();
    }
    to_i128(decode_be(buf, ptr, 16))
}

/// The `u128` in the 16 bytes at `ptr`, least significant byte first.
pub fn read_u128_le(buf: &[u8], ptr: usize) -> (r: u128)
    requires
        ptr + 16 <= buf@.len(),
    ensures
        r == uint_value(window(buf@, ptr as int, 16), Endian::LittleEndian),
{
    proof {
        lemma_be_value_bound(window(buf@, ptr as int, 16));
        lemma_le_value_bound(window(buf@, ptr as int, 16));
        lemma_byte_ranges();
    }
    decode_le(buf, ptr, 16) as u128
}

/// The `i128` (two's complement) in the 16 bytes at `ptr`, least significant byte first.
pub fn read_i128_le(buf: &[u8], ptr: usize) -> (r: i128)
    requires
        ptr + 16 <= buf@.len(),
    ensures
        r == int_value(window(buf@, ptr as int, 16), Endian::LittleEndian),
{
    proof {
        lemma_be_value_bound(window(buf@, ptr as int, 16));
        lemma_le_value_bound(window(buf@, ptr as int, 16));
        lemma_byte_ranges();
    }
    to_i128(decode_le(buf, ptr, 16))
}

/// The `u128` in the 16 bytes at `ptr`, in byte order `endian`.
pub fn read_u128(buf: &[u8], ptr: usize, endian: Endian) -> (r: u128)
    requires
        ptr + 16 <= buf@.len(),
    ensures
        r == uint_value(window(buf@, ptr as int, 16), endian),
{
    if endian == Endian::LittleEndian {
        read_u128_le(buf, ptr)
    } else {
        read_u128_be(buf, ptr)
    }
}

/// The `i128` (two's complement) in the 16 bytes at `ptr`, in byte order `endian`.
pub fn read_i128(buf: &[u8], ptr: usize, endian: Endian) -> (r: i128)
    requires
        ptr + 16 <= buf@.len(),
    ensures
        r == int_value(window(buf@, ptr as int, 16), endian),
{
    if endian == Endian::LittleEndian {
        read_i128_le(buf, ptr)
    } else {
        read_i128_be(buf, ptr)
    }
}

/// The `num` bytes at `ptr`, each taken as one character (ISO 8859-1).
pub fn read_ascii_string(buf: &[u8], ptr: usize, num: usize) -> (r: String)
    requires
        ptr + num <= buf@.len(),
    ensures
        r@ == utf16_lossy(window(buf@, ptr as int, num as int).map_values(|b: u8| b as u16)),
{
    let mut units: Vec<u16> = Vec::new();
    let mut i: usize = 0;
    while i < num
        invariant
            i <= num,
            ptr + num <= buf.len(),
            units@ == window(buf@, ptr as int, i as int).map_values(|b: u8| b as u16),
        decreases num - i,
    {
        units.push(buf[ptr + i] as u16);
        i = i + 1;
        assert(units@ =~= window(buf@, ptr as int, i as int).map_values(|b: u8| b as u16));
    }
    string_from_utf16_lossy(units.as_slice())
}

/// The UTF-8 text before the first zero among the `num` bytes at `ptr`; the
/// empty string if that text is not valid UTF-8.
pub fn read_string(buf: &[u8], ptr: usize, num: usize) -> (r: String)
    requires
        ptr + num <= buf@.len(),
    ensures
        valid_utf8(take_until(window(buf@, ptr as int, num as int), 0u8)) ==> r@ == decode_utf8(
            take_until(window(buf@, ptr as int, num as int), 0u8),
        ),
        !valid_utf8(take_until(window(buf@, ptr as int, num as int), 0u8)) ==> r@ == Seq::<char>::empty(),
{
    let field = read_bytes_as_vec(buf, ptr, num);
    let run = until_nul(field.as_slice());
    match string_from_utf8(run) {
        Some(s) => s,
        None => String::new(),
    }
}

/// The UTF-16 text in the `num` bytes at `ptr`, as code units in byte order
/// `endian`, up to the first zero unit. Unpaired surrogates become U+FFFD.
pub fn read_utf16_string(buf: &[u8], ptr: usize, num: usize, endian: Endian) -> (r: String)
    requires
        ptr + num <= buf@.len(),
    ensures
        r@ == utf16_lossy(take_until(units_of(window(buf@, ptr as int, num as int), endian), 0u16)),
{
    let field = read_bytes_as_vec(buf, ptr, num);
    let units = units_from_bytes(field.as_slice(), endian);
    let run = units_until_nul(units.as_slice());
    string_from_utf16_lossy(run.as_slice())
}

/// A copy of the `length` bytes at `ptr`.
pub fn read_bytes_as_vec(buf: &[u8], ptr: usize, length: usize) -> (r: Vec<u8>)
    requires
        ptr + length <= buf@.len(),
    ensures
        r@ == window(buf@, ptr as int, length as int),
{
    let mut c: Vec<u8> = Vec::new();
    let mut i: usize = 0;
    while i < length
        invariant
            i <= length,
            ptr + length <= buf.len(),
            c@ == window(buf@, ptr as int, i as int),
        decreases length - i,
    {
        c.push(buf[ptr + i]);
        i = i + 1;
        assert(c@ =~= window(buf@, ptr as int, i as int));
    }
    c
}

/// The bytes of the whole byte pairs among the `length` bytes at `ptr`,
/// each widened to a `u16`.
pub fn read_bytes_as_u16_vec(buf: &[u8], ptr: usize, length: usize) -> (r: Vec<u16>)
    requires
        ptr + length <= buf@.len(),
    ensures
        r@ == window(buf@, ptr as int, 2 * (length / 2)).map_values(|b: u8| b as u16),
{
    let mut c: Vec<u16> = Vec::new();
    let pairs = length / 2;
    let mut i: usize = 0;
    while i < pairs
        invariant
            pairs == length / 2,
            i <= pairs,
            ptr + length <= buf.len(),
            c@ == window(buf@, ptr as int, 2 * i).map_values(|b: u8| b as u16),
        decreases pairs - i,
    {
        c.push(buf[ptr + i * 2] as u16);
        c.push(buf[ptr + i * 2 + 1] as u16);
        i = i + 1;
        assert(c@ =~= window(buf@, ptr as int, 2 * i).map_values(|b: u8| b as u16));
    }
    c
}

/// Appends `num`.
pub fn write_byte(num: u8, buf: &mut Vec<u8>)
    ensures
        final(buf)@ == old(buf)@.push(num),
{
    buf.push(num);
}

/// Appends the two's complement byte of `num`.
pub fn write_i8(num: i8, buf: &mut Vec<u8>)
    ensures
        final(buf)@ == old(buf)@.push(pattern(num as int, 1) as u8),
{
    buf.push(pattern_i8(num));
}

/// Appends the 2 bytes of `num`, most significant byte first.
pub fn write_u16_be(num: u16, buf: &mut Vec<u8>)
    ensures
        final(buf)@ == old(buf)@ + be_bytes(num as nat, 2),
{
    push_be(buf, num as u128, 2);
}

/// Appends the 2 two's complement bytes of `num`, most significant byte first.
pub fn write_i16_be(num: i16, buf: &mut Vec<u8>)
    ensures
        final(buf)@ == old(buf)@ + be_bytes(pattern(num as int, 2), 2),
{
    push_be(buf, pattern_i16(num), 2);
}

/// Appends the 2 bytes of `num`, least significant byte first.
pub fn write_u16_le(num: u16, buf: &mut Vec<u8>)
    ensures
        final(buf)@ == old(buf)@ + le_bytes(num as nat, 2),
{
    push_le(buf, num as u128, 2);
}

/// Appends the 2 two's complement bytes of `num`, least significant byte first.
pub fn write_i16_le(num: i16, buf: &mut Vec<u8>)
    ensures
        final(buf)@ == old(buf)@ + le_bytes(pattern(num as int, 2), 2),
{
    push_le(buf, pattern_i16(num), 2);
}

/// Appends the 2 bytes of `num` in byte order `endian`.
pub fn write_u16(num: u16, buf: &mut Vec<u8>, endian: Endian)
    ensures
        final(buf)@ == old(buf)@ + uint_bytes(num as nat, 2, endian),
{
    if endian == Endian::BigEndian {
        write_u16_be(num, buf)
    } else {
        write_u16_le(num, buf)
    }
}

/// Appends the 2 two's complement bytes of `num` in byte order `endian`.
pub fn write_i16(num: i16, buf: &mut Vec<u8>, endian: Endian)
    ensures
        final(buf)@ == old(buf)@ + uint_bytes(pattern(num as int, 2), 2, endian),
{
    if endian == Endian::BigEndian {
        write_i16_be(num, buf)
    } else {
        write_i16_le(num, buf)
    }
}

/// Appends the 4 bytes of `num`, most significant byte first.
pub fn write_u32_be(num: u32, buf: &mut Vec<u8>)
    ensures
        final(buf)@ == old(buf)@ + be_bytes(num as nat, 4),
{
    push_be(buf, num as u128, 4);
}

/// Appends the 4 two's complement bytes of `num`, most significant byte first.
pub fn write_i32_be(num: i32, buf: &mut Vec<u8>)
    ensures
        final(buf)@ == old(buf)@ + be_bytes(pattern(num as int, 4), 4),
{
    push_be(buf, pattern_i32(num), 4);
}

/// Appends the 4 bytes of `num`, least significant byte first.
pub fn write_u32_le(num: u32, buf: &mut Vec<u8>)
    ensures
        final(buf)@ == old(buf)@ + le_bytes(num as nat, 4),
{
    push_le(buf, num as u128, 4);
}

/// Appends the 4 two's complement bytes of `num`, least significant byte first.
pub fn write_i32_le(num: i32, buf: &mut Vec<u8>)
    ensures
        final(buf)@ == old(buf)@ + le_bytes(pattern(num as int, 4), 4),
{
    push_le(buf, pattern_i32(num), 4);
}

/// Appends the 4 bytes of `num` in byte order `endian`.
pub fn write_u32(num: u32, buf: &mut Vec<u8>, endian: Endian)
    ensures
        final(buf)@ == old(buf)@ + uint_bytes(num as nat, 4, endian),
{
    if endian == Endian::BigEndian {
        write_u32_be(num, buf)
    } else {
        write_u32_le(num, buf)
    }
}

/// Appends the 4 two's complement bytes of `num` in byte order `endian`.
pub fn write_i32(num: i32, buf: &mut Vec<u8>, endian: Endian)
    ensures
        final(buf)@ == old(buf)@ + uint_bytes(pattern(num as int, 4), 4, endian),
{
    if endian == Endian::BigEndian {
        write_i32_be(num, buf)
    } else {
        write_i32_le(num, buf)
    }
}

/// Appends the 8 bytes of `num`, most significant byte first.
pub fn write_u64_be(num: u64, buf: &mut Vec<u8>)
    ensures
        final(buf)@ == old(buf)@ + be_bytes(num as nat, 8),
{
    push_be(buf, num as u128, 8);
}

/// Appends the 8 two's complement bytes of `num`, most significant byte first.
pub fn write_i64_be(num: i64, buf: &mut Vec<u8>)
    ensures
        final(buf)@ == old(buf)@ + be_bytes(pattern(num as int, 8), 8),
{
    push_be(buf, pattern_i64(num), 8);
}

/// Appends the 8 bytes of `num`, least significant byte first.
pub fn write_u64_le(num: u64, buf: &mut Vec<u8>)
    ensures
        final(buf)@ == old(buf)@ + le_bytes(num as nat, 8),
{
    push_le(buf, num as u128, 8);
}

/// Appends the 8 two's complement bytes of `num`, least significant byte first.
pub fn write_i64_le(num: i64, buf: &mut Vec<u8>)
    ensures
        final(buf)@ == old(buf)@ + le_bytes(pattern(num as int, 8), 8),
{
    push_le(buf, pattern_i64(num), 8);
}

/// Appends the 8 bytes of `num` in byte order `endian`.
pub fn write_u64(num: u64, buf: &mut Vec<u8>, endian: Endian)
    ensures
        final(buf)@ == old(buf)@ + uint_bytes(num as nat, 8, endian),
{
    if endian == Endian::BigEndian {
        write_u64_be(num, buf)
    } else {
        write_u64_le(num, buf)
    }
}

/// Appends the 8 two's complement bytes of `num` in byte order `endian`.
pub fn write_i64(num: i64, buf: &mut Vec<u8>, endian: Endian)
    ensures
        final(buf)@ == old(buf)@ + uint_bytes(pattern(num as int, 8), 8, endian),
{
    if endian == Endian::BigEndian {
        write_i64_be(num, buf)
    } else {
        write_i64_le(num, buf)
    }
}

/// Appends the 16 bytes of `num`, most significant byte first.
pub fn write_u128_be(num: u128, buf: &mut Vec<u8>)
    ensures
        final(buf)@ == old(buf)@ + be_bytes(num as nat, 16),
{
    push_be(buf, num as u128, 16);
}

/// Appends the 16 two's complement bytes of `num`, most significant byte first.
pub fn write_i128_be(num: i128, buf: &mut Vec<u8>)
    ensures
        final(buf)@ == old(buf)@ + be_bytes(pattern(num as int, 16), 16),
{
    push_be(buf, pattern_i128(num), 16);
}

/// Appends the 16 bytes of `num`, least significant byte first.
pub fn write_u128_le(num: u128, buf: &mut Vec<u8>)
    ensures
        final(buf)@ == old(buf)@ + le_bytes(num as nat, 16),
{
    push_le(buf, num as u128, 16);
}

/// Appends the 16 two's complement bytes of `num`, least significant byte first.
pub fn write_i128_le(num: i128, buf: &mut Vec<u8>)
    ensures
        final(buf)@ == old(buf)@ + le_bytes(pattern(num as int, 16), 16),
{
    push_le(buf, pattern_i128(num), 16);
}

/// Appends the 16 bytes of `num` in byte order `endian`.
pub fn write_u128(num: u128, buf: &mut Vec<u8>, endian: Endian)
    ensures
        final(buf)@ == old(buf)@ + uint_bytes(num as nat, 16, endian),
{
    if endian == Endian::BigEndian {
        write_u128_be(num, buf)
    } else {
        write_u128_le(num, buf)
    }
}

/// Appends the 16 two's complement bytes of `num` in byte order `endian`.
pub fn write_i128(num: i128, buf: &mut Vec<u8>, endian: Endian)
    ensures
        final(buf)@ == old(buf)@ + uint_bytes(pattern(num as int, 16), 16, endian),
{
    if endian == Endian::BigEndian {
        write_i128_be(num, buf)
    } else {
        write_i128_le(num, buf)
    }
}

/// Appends the UTF-8 bytes of `text` and a terminating zero.
pub fn write_ascii_string(text: String, buf: &mut Vec<u8>)
    ensures
        final(buf)@ == old(buf)@ + encode_utf8(text@) + seq![0u8],
{
    write_bytes(text.as_str().as_bytes(), buf);
    buf.push(0);
}

/// Appends the UTF-8 bytes of `text`.
pub fn write_string(text: String, buf: &mut Vec<u8>)
    ensures
        final(buf)@ == old(buf)@ + encode_utf8(text@),
{
    write_bytes(text.as_str().as_bytes(), buf);
}

/// Appends `bytes`.
pub fn write_bytes(bytes: &[u8], buf: &mut Vec<u8>)
    ensures
        final(buf)@ == old(buf)@ + bytes@,
{
    let mut i: usize = 0;
    while i < bytes.len()
        invariant
            i <= bytes@.len(),
            buf@ == old(buf)@ + bytes@.take(i as int),
        decreases bytes@.len() - i,
    {
        buf.push(bytes[i]);
        i = i + 1;
        assert(buf@ =~= old(buf)@ + bytes@.take(i as int));
    }
    assert(bytes@.take(bytes@.len() as int) =~= bytes@);
}

} // verus!
