//! Fixed-width integers and the bytes that hold them.
//!
//! A value of `n` bytes is modelled as a natural number below `256^n`; signed
//! values use the two's complement of that number.
use vstd::prelude::*;

use crate::endian::Endian;

verus! {

/// `256^n`: how many values `n` bytes can hold.
pub open spec fn byte_range(n: nat) -> nat
    decreases n,
{
    if n == 0 {
        1
    } else {
        256 * byte_range((n - 1) as nat)
    }
}

/// The unsigned value of `b`, most significant byte first.
pub open spec fn be_value(b: Seq<u8>) -> nat
    decreases b.len(),
{
    if b.len() == 0 {
        0
    } else {
        (be_value(b.drop_last()) * 256 + b.last()) as nat
    }
}

/// The unsigned value of `b`, least significant byte first.
pub open spec fn le_value(b: Seq<u8>) -> nat
    decreases b.len(),
{
    if b.len() == 0 {
        0
    } else {
        (b[0] + 256 * le_value(b.drop_first())) as nat
    }
}

/// The unsigned value of `b` in byte order `e`.
pub open spec fn uint_value(b: Seq<u8>, e: Endian) -> nat {
    match e {
        Endian::BigEndian => be_value(b),
        Endian::LittleEndian => le_value(b),
    }
}

/// `v`, the pattern of an `n`-byte value, read as two's complement.
pub open spec fn signed_value(v: nat, n: nat) -> int {
    if 2 * v >= byte_range(n) {
        v - byte_range(n)
    } else {
        v as int
    }
}

/// The signed value of `b` in byte order `e`.
pub open spec fn int_value(b: Seq<u8>, e: Endian) -> int {
    signed_value(uint_value(b, e), b.len())
}

/// The `n`-byte pattern of `x` (two's complement where `x` is negative).
pub open spec fn pattern(x: int, n: nat) -> nat {
    if x < 0 {
        (x + byte_range(n)) as nat
    } else {
        x as nat
    }
}

/// The low `n` bytes of `v`, most significant first.
pub open spec fn be_bytes(v: nat, n: nat) -> Seq<u8>
    decreases n,
{
    if n == 0 {
        seq![]
    } else {
        be_bytes(v / 256, (n - 1) as nat).push((v % 256) as u8)
    }
}

/// The low `n` bytes of `v`, least significant first.
pub open spec fn le_bytes(v: nat, n: nat) -> Seq<u8>
    decreases n,
{
    if n == 0 {
        seq![]
    } else {
        seq![(v % 256) as u8] + le_bytes(v / 256, (n - 1) as nat)
    }
}

/// The low `n` bytes of `v` in byte order `e`.
pub open spec fn uint_bytes(v: nat, n: nat, e: Endian) -> Seq<u8> {
    match e {
        Endian::BigEndian => be_bytes(v, n),
        Endian::LittleEndian => le_bytes(v, n),
    }
}

/// The sizes used here: 256, 65536, 2^32, 2^64, 2^128 for 1, 2, 4, 8, 16 bytes.
pub proof fn lemma_byte_ranges()
    ensures
        byte_range(1) == 0x100,
        byte_range(2) == 0x1_0000,
        byte_range(4) == 0x1_0000_0000,
        byte_range(8) == 0x1_0000_0000_0000_0000,
        byte_range(15) == 0x1_0000_0000_0000_0000_0000_0000_0000_00,
        byte_range(16) == 0x1_0000_0000_0000_0000_0000_0000_0000_0000,
{
    reveal_with_fuel(byte_range, 17);
}

/// More bytes hold more values.
pub proof fn lemma_byte_range_grows(m: nat, n: nat)
    requires
        m <= n,
    ensures
        byte_range(m) <= byte_range(n),
    decreases n,
{
    if m < n {
        lemma_byte_range_grows(m, (n - 1) as nat);
    }
}

/// The value of `n` bytes is below `256^n`.
pub proof fn lemma_be_value_bound(b: Seq<u8>)
    ensures
        be_value(b) < byte_range(b.len()),
    decreases b.len(),
{
    if b.len() > 0 {
        lemma_be_value_bound(b.drop_last());
    }
}

/// The value of `n` bytes is below `256^n`.
pub proof fn lemma_le_value_bound(b: Seq<u8>)
    ensures
        le_value(b) < byte_range(b.len()),
    decreases b.len(),
{
    if b.len() > 0 {
        lemma_le_value_bound(b.drop_first());
    }
}

/// Reading bytes most significant first gives what reading the reversed
/// bytes least significant first gives, for unsigned and signed values alike.
pub proof fn lemma_reversed_bytes_same_value(b: Seq<u8>)
    ensures
        be_value(b) == le_value(b.reverse()),
        signed_value(be_value(b), b.len()) == signed_value(le_value(b.reverse()), b.len()),
        uint_value(b, Endian::BigEndian) == uint_value(b.reverse(), Endian::LittleEndian),
        int_value(b, Endian::BigEndian) == int_value(b.reverse(), Endian::LittleEndian),
    decreases b.len(),
{
    if b.len() > 0 {
        let r = b.reverse();
        assert(r.drop_first() =~= b.drop_last().reverse());
        assert(r[0] == b.last());
        lemma_reversed_bytes_same_value(b.drop_last());
    }
    assert(b.reverse().len() == b.len());
}

/// Writing `v` as `n` bytes, most significant first, and reading them back
/// gives `v` again.
pub proof fn lemma_be_bytes_round_trip(v: nat, n: nat)
    requires
        v < byte_range(n),
    ensures
        be_bytes(v, n).len() == n,
        be_value(be_bytes(v, n)) == v,
    decreases n,
{
    if n > 0 {
        lemma_be_bytes_round_trip(v / 256, (n - 1) as nat);
        let b = be_bytes(v, n);
        assert(b.drop_last() =~= be_bytes(v / 256, (n - 1) as nat));
    }
}

/// Writing `v` as `n` bytes, least significant first, and reading them back
/// gives `v` again.
pub proof fn lemma_le_bytes_round_trip(v: nat, n: nat)
    requires
        v < byte_range(n),
    ensures
        le_bytes(v, n).len() == n,
        le_value(le_bytes(v, n)) == v,
    decreases n,
{
    if n > 0 {
        lemma_le_bytes_round_trip(v / 256, (n - 1) as nat);
        let b = le_bytes(v, n);
        assert(b.drop_first() =~= le_bytes(v / 256, (n - 1) as nat));
    }
}

/// The unsigned value of `buf[start .. start + n]`, most significant byte first.
pub fn decode_be(buf: &[u8], start: usize, n: usize) -> (r: u128)
    requires
        start + n <= buf@.len(),
        n <= 16,
    ensures
        r == be_value(buf@.subrange(start as int, start + n)),
{
    let len = buf.len();
    let mut acc: u128 = 0;
    let mut i: usize = 0;
    while i < n
        invariant
            i <= n,
            len == buf@.len(),
            start + n <= buf@.len(),
            n <= 16,
            acc == be_value(buf@.subrange(start as int, start + i)),
        decreases n - i,
    {
        proof {
            let done = buf@.subrange(start as int, start + i);
            lemma_be_value_bound(done);
            lemma_byte_range_grows(i as nat, 15);
            lemma_byte_ranges();
            assert(buf@.subrange(start as int, start + i + 1).drop_last() =~= done);
        }
        acc = acc * 256 + buf[start + i] as u128;
        i = i + 1;
    }
    acc
}

/// The unsigned value of `buf[start .. start + n]`, least significant byte first.
pub fn decode_le(buf: &[u8], start: usize, n: usize) -> (r: u128)
    requires
        start + n <= buf@.len(),
        n <= 16,
    ensures
        r == le_value(buf@.subrange(start as int, start + n)),
{
    let len = buf.len();
    let mut acc: u128 = 0;
    let mut i: usize = n;
    while i > 0
        invariant
            i <= n,
            len == buf@.len(),
            start + n <= buf@.len(),
            n <= 16,
            acc == le_value(buf@.subrange(start + i, start + n)),
        decreases i,
    {
        proof {
            let done = buf@.subrange(start + i, start + n);
            lemma_le_value_bound(done);
            lemma_byte_range_grows((n - i) as nat, 15);
            lemma_byte_ranges();
            assert(buf@.subrange(start + i - 1, start + n).drop_first() =~= done);
        }
        i = i - 1;
        acc = buf[start + i] as u128 + 256 * acc;
    }
    acc
}

/// The unsigned value of `buf[start .. start + n]` in byte order `e`.
pub fn decode_uint(buf: &[u8], start: usize, n: usize, e: Endian) -> (r: u128)
    requires
        start + n <= buf@.len(),
        n <= 16,
    ensures
        r == uint_value(buf@.subrange(start as int, start + n), e),
{
    match e {
        Endian::BigEndian => decode_be(buf, start, n),
        Endian::LittleEndian => decode_le(buf, start, n),
    }
}

/// The `i8` whose two's complement pattern is `v`.
pub fn to_i8(v: u8) -> (r: i8)
    ensures
        r == signed_value(v as nat, 1),
{
    proof {
        lemma_byte_ranges();
    }
    if v < 0x80 {
        v as i8
    } else {
        (v - 0x80) as i8 + i8::MIN
    }
}

/// The `i16` whose two's complement pattern is `v`.
pub fn to_i16(v: u128) -> (r: i16)
    requires
        v < 0x1_0000,
    ensures
        r == signed_value(v as nat, 2),
{
    proof {
        lemma_byte_ranges();
    }
    if v < 0x8000 {
        v as i16
    } else {
        (v - 0x8000) as i16 + i16::MIN
    }
}

/// The `i32` whose two's complement pattern is `v`.
pub fn to_i32(v: u128) -> (r: i32)
    requires
        v < 0x1_0000_0000,
    ensures
        r == signed_value(v as nat, 4),
{
    proof {
        lemma_byte_ranges();
    }
    if v < 0x8000_0000 {
        v as i32
    } else {
        (v - 0x8000_0000) as i32 + i32::MIN
    }
}

/// The `i64` whose two's complement pattern is `v`.
pub fn to_i64(v: u128) -> (r: i64)
    requires
        v < 0x1_0000_0000_0000_0000,
    ensures
        r == signed_value(v as nat, 8),
{
    proof {
        lemma_byte_ranges();
    }
    if v < 0x8000_0000_0000_0000 {
        v as i64
    } else {
        (v - 0x8000_0000_0000_0000) as i64 + i64::MIN
    }
}

/// The `i128` whose two's complement pattern is `v`.
pub fn to_i128(v: u128) -> (r: i128)
    ensures
        r == signed_value(v as nat, 16),
{
    proof {
        lemma_byte_ranges();
    }
    if v < 0x8000_0000_0000_0000_0000_0000_0000_0000 {
        v as i128
    } else {
        (v - 0x8000_0000_0000_0000_0000_0000_0000_0000) as i128 + i128::MIN
    }
}

/// The one-byte pattern of `x`.
pub fn pattern_i8(x: i8) -> (r: u8)
    ensures
        r == pattern(x as int, 1),
{
    proof {
        lemma_byte_ranges();
    }
    if x < 0 {
        (x as i16 + 0x100) as u8
    } else {
        x as u8
    }
}

/// The two-byte pattern of `x`.
pub fn pattern_i16(x: i16) -> (r: u128)
    ensures
        r == pattern(x as int, 2),
{
    proof {
        lemma_byte_ranges();
    }
    if x < 0 {
        (x as i32 + 0x1_0000) as u128
    } else {
        x as u128
    }
}

/// The four-byte pattern of `x`.
pub fn pattern_i32(x: i32) -> (r: u128)
    ensures
        r == pattern(x as int, 4),
{
    proof {
        lemma_byte_ranges();
    }
    if x < 0 {
        (x as i64 + 0x1_0000_0000) as u128
    } else {
        x as u128
    }
}

/// The eight-byte pattern of `x`.
pub fn pattern_i64(x: i64) -> (r: u128)
    ensures
        r == pattern(x as int, 8),
{
    proof {
        lemma_byte_ranges();
    }
    if x < 0 {
        (x as i128 + 0x1_0000_0000_0000_0000) as u128
    } else {
        x as u128
    }
}

/// The sixteen-byte pattern of `x`.
pub fn pattern_i128(x: i128) -> (r: u128)
    ensures
        r == pattern(x as int, 16),
{
    proof {
        lemma_byte_ranges();
    }
    if x < 0 {
        (x - i128::MIN) as u128 + 0x8000_0000_0000_0000_0000_0000_0000_0000
    } else {
        x as u128
    }
}

/// Appends the low `n` bytes of `v` to `buf`, most significant first.
pub fn push_be(buf: &mut Vec<u8>, v: u128, n: usize)
    ensures
        final(buf)@ == old(buf)@ + be_bytes(v as nat, n as nat),
    decreases n,
{
    if n > 0 {
        push_be(buf, v / 256, n - 1);
        buf.push((v % 256) as u8);
        proof {
            let head = be_bytes((v / 256) as nat, (n - 1) as nat);
            assert(old(buf)@ + head.push((v % 256) as u8) =~= (old(buf)@ + head).push((v % 256) as u8));
        }
    } else {
        assert(old(buf)@ + seq![] =~= old(buf)@);
    }
}

/// Appends the low `n` bytes of `v` to `buf`, least significant first.
pub fn push_le(buf: &mut Vec<u8>, v: u128, n: usize)
    ensures
        final(buf)@ == old(buf)@ + le_bytes(v as nat, n as nat),
    decreases n,
{
    if n > 0 {
        buf.push((v % 256) as u8);
        push_le(buf, v / 256, n - 1);
        proof {
            let tail = le_bytes((v / 256) as nat, (n - 1) as nat);
            assert(old(buf)@.push((v % 256) as u8) + tail =~= old(buf)@ + (seq![(v % 256) as u8] + tail));
        }
    } else {
        assert(old(buf)@ + seq![] =~= old(buf)@);
    }
}

} // verus!
