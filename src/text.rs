//! Strings stored in byte fields: zero-terminated UTF-8, plain UTF-8, and
//! UTF-16 in either byte order.
use vstd::prelude::*;
use vstd::utf8::{char_is_scalar, char_u32_cast, decode_utf8, valid_utf8};

use crate::endian::Endian;
use crate::error::{BinError, ErrorKind};
use crate::numeric::{decode_uint, le_value, be_value, lemma_be_value_bound, lemma_le_value_bound, lemma_byte_ranges, uint_value};

verus! {

/// The items of `s` before the first `stop` (all of `s` if there is none).
pub open spec fn take_until<A>(s: Seq<A>, stop: A) -> Seq<A>
    decreases s.len(),
{
    if s.len() == 0 || s[0] == stop {
        seq![]
    } else {
        seq![s[0]] + take_until(s.drop_first(), stop)
    }
}

/// The UTF-16 code units of one character.
pub open spec fn char_units(c: char) -> Seq<u16> {
    let v = c as u32;
    if v < 0x1_0000 {
        seq![v as u16]
    } else {
        seq![(0xD800 + (v - 0x1_0000) / 0x400) as u16, (0xDC00 + (v - 0x1_0000) % 0x400) as u16]
    }
}

/// The UTF-16 encoding of `s`.
pub open spec fn utf16_units(s: Seq<char>) -> Seq<u16>
    decreases s.len(),
{
    if s.len() == 0 {
        seq![]
    } else {
        char_units(s[0]) + utf16_units(s.drop_first())
    }
}

/// `u` is the UTF-16 encoding of some text.
pub open spec fn is_utf16(u: Seq<u16>) -> bool {
    exists|t: Seq<char>| utf16_units(t) == u
}

/// The 16-bit code units that `b` holds in byte order `e`; an odd last byte
/// is left out.
pub open spec fn units_of(b: Seq<u8>, e: Endian) -> Seq<u16> {
    Seq::new(b.len() / 2, |i: int| uint_value(b.subrange(2 * i, 2 * i + 2), e) as u16)
}

/// Each `take_until` result is the part of `s` before position `k`, where
/// `k` is the first `stop` or the end.
pub proof fn lemma_take_until_prefix<A>(s: Seq<A>, stop: A, k: int)
    requires
        0 <= k <= s.len(),
        forall|i: int| 0 <= i < k ==> s[i] != stop,
        k < s.len() ==> s[k] == stop,
    ensures
        take_until(s, stop) == s.take(k),
    decreases s.len(),
{
    if k > 0 {
        lemma_take_until_prefix(s.drop_first(), stop, k - 1);
        assert(s.take(k) =~= seq![s[0]] + s.drop_first().take(k - 1));
    } else {
        assert(s.take(k) =~= seq![]);
    }
}

/// Different texts have different UTF-16 encodings.
pub proof fn lemma_utf16_units_injective(a: Seq<char>, b: Seq<char>)
    requires
        utf16_units(a) == utf16_units(b),
    ensures
        a == b,
    decreases a.len(),
{
    if a.len() == 0 {
        if b.len() > 0 {
            assert(utf16_units(b).len() > 0);
        }
        assert(a =~= b);
    } else {
        if b.len() == 0 {
            assert(utf16_units(a).len() > 0);
        }
        let (ca, cb) = (a[0], b[0]);
        let (va, vb) = (ca as u32, cb as u32);
        char_is_scalar(ca);
        char_is_scalar(cb);
        let ua = char_units(ca);
        let ub = char_units(cb);
        let rest_a = utf16_units(a.drop_first());
        let rest_b = utf16_units(b.drop_first());
        assert(utf16_units(a) == ua + rest_a);
        assert(utf16_units(b) == ub + rest_b);
        assert((ua + rest_a)[0] == ua[0]);
        assert((ub + rest_b)[0] == ub[0]);
        if va < 0x1_0000 {
            assert(vb < 0x1_0000);
            assert(va == vb);
        } else {
            assert(vb >= 0x1_0000);
            assert((ua + rest_a)[1] == ua[1]);
            assert((ub + rest_b)[1] == ub[1]);
            assert(va == vb);
        }
        char_u32_cast(ca, va);
        char_u32_cast(cb, vb);
        assert(ca == cb);
        assert(ua =~= ub);
        assert(rest_a =~= (ua + rest_a).skip(ua.len() as int));
        assert(rest_b =~= (ub + rest_b).skip(ub.len() as int));
        lemma_utf16_units_injective(a.drop_first(), b.drop_first());
        assert(a =~= seq![ca] + a.drop_first());
        assert(b =~= seq![cb] + b.drop_first());
    }
}

/// The code units `u` written out as bytes, each unit in byte order `e`.
pub open spec fn units_bytes(u: Seq<u16>, e: Endian) -> Seq<u8> {
    Seq::new(
        2 * u.len(),
        |j: int|
            if (j % 2 == 0) == (e == Endian::BigEndian) {
                (u[j / 2] / 256) as u8
            } else {
                (u[j / 2] % 256) as u8
            },
    )
}

/// `x` with its two bytes exchanged.
pub open spec fn swap_bytes(x: u16) -> u16 {
    ((x % 256) * 256 + x / 256) as u16
}

/// The value of two bytes in either order.
proof fn lemma_two_bytes(b: Seq<u8>)
    requires
        b.len() == 2,
    ensures
        be_value(b) == b[0] * 256 + b[1],
        le_value(b) == b[0] + 256 * b[1],
{
    reveal_with_fuel(be_value, 3);
    reveal_with_fuel(le_value, 3);
    assert(b.drop_last().drop_last() =~= Seq::<u8>::empty());
    assert(b.drop_first().drop_first() =~= Seq::<u8>::empty());
    assert(b.drop_last()[0] == b[0]);
    assert(b.drop_first()[0] == b[1]);
}

/// Code units written out in byte order `e` read back as themselves in
/// that order, and with their bytes exchanged in the other order.
pub proof fn lemma_units_bytes_read_back(u: Seq<u16>, e: Endian)
    ensures
        units_of(units_bytes(u, e), e) == u,
        units_of(units_bytes(u, e), e.flipped()) == u.map_values(|x: u16| swap_bytes(x)),
{
    let b = units_bytes(u, e);
    assert forall|i: int| 0 <= i < u.len() implies units_of(b, e)[i] == u[i]
        && units_of(b, e.flipped())[i] == swap_bytes(u[i]) by {
        let w = b.subrange(2 * i, 2 * i + 2);
        lemma_two_bytes(w);
        assert((2 * i) / 2 == i);
        assert((2 * i + 1) / 2 == i);
        assert((2 * i) % 2 == 0);
        assert((2 * i + 1) % 2 == 1);
        assert(w[0] == b[2 * i]);
        assert(w[1] == b[2 * i + 1]);
    }
    assert(units_of(b, e) =~= u);
    assert(units_of(b, e.flipped()) =~= u.map_values(|x: u16| swap_bytes(x)));
}

/// Text without a NUL character has no zero unit in its UTF-16 encoding.
proof fn lemma_utf16_units_nonzero(t: Seq<char>)
    requires
        forall|i: int| 0 <= i < t.len() ==> t[i] != '\0',
    ensures
        forall|i: int| 0 <= i < utf16_units(t).len() ==> utf16_units(t)[i] != 0u16,
    decreases t.len(),
{
    if t.len() > 0 {
        let c = t[0];
        char_is_scalar(c);
        char_u32_cast(c, c as u32);
        if c as u32 == 0 {
            assert((0u32 as char) == '\0');
        }
        lemma_utf16_units_nonzero(t.drop_first());
        let head = char_units(c);
        let rest = utf16_units(t.drop_first());
        assert forall|i: int| 0 <= i < (head + rest).len() implies (head + rest)[i] != 0u16 by {
            if i >= head.len() {
                assert((head + rest)[i] == rest[i - head.len()]);
            }
        }
    }
}

/// A sequence without `stop` is kept whole by `take_until`.
proof fn lemma_take_until_whole<A>(s: Seq<A>, stop: A)
    requires
        forall|i: int| 0 <= i < s.len() ==> s[i] != stop,
    ensures
        take_until(s, stop) == s,
{
    lemma_take_until_prefix(s, stop, s.len() as int);
    assert(s.take(s.len() as int) =~= s);
}

/// Text without NUL characters, written as UTF-16 in byte order `e`, decodes
/// from those bytes in that order to exactly the same text. Read in the
/// other byte order it never decodes to that text, as long as one of its code
/// units has two different bytes.
pub proof fn lemma_utf16_round_trip(text: Seq<char>, e: Endian)
    requires
        forall|i: int| 0 <= i < text.len() ==> text[i] != '\0',
    ensures
        is_utf16(take_until(units_of(units_bytes(utf16_units(text), e), e), 0u16)),
        forall|s: Seq<char>|
            utf16_units(s) == take_until(units_of(units_bytes(utf16_units(text), e), e), 0u16)
                ==> s == text,
        (exists|i: int|
            0 <= i < utf16_units(text).len() && swap_bytes(utf16_units(text)[i]) != utf16_units(text)[i])
            ==> forall|s: Seq<char>|
            utf16_units(s) == take_until(
                units_of(units_bytes(utf16_units(text), e), e.flipped()),
                0u16,
            ) ==> s != text,
{
    let u = utf16_units(text);
    lemma_units_bytes_read_back(u, e);
    lemma_utf16_units_nonzero(text);
    lemma_take_until_whole(u, 0u16);
    assert forall|s: Seq<char>| utf16_units(s) == take_until(units_of(units_bytes(u, e), e), 0u16)
        implies s == text by {
        lemma_utf16_units_injective(s, text);
    }
    let w = u.map_values(|x: u16| swap_bytes(x));
    assert forall|i: int| 0 <= i < w.len() implies w[i] != 0u16 by {
        assert(u[i] != 0u16);
        assert(w[i] == swap_bytes(u[i]));
    }
    lemma_take_until_whole(w, 0u16);
    if exists|i: int| 0 <= i < u.len() && swap_bytes(u[i]) != u[i] {
        let i = choose|i: int| 0 <= i < u.len() && swap_bytes(u[i]) != u[i];
        assert(w[i] != u[i]);
        assert forall|s: Seq<char>|
            utf16_units(s) == take_until(units_of(units_bytes(u, e), e.flipped()), 0u16)
                implies s != text by {
            if s == text {
                assert(w == u);
            }
        }
    }
}

/// What `String::from_utf16_lossy` makes of `units`.
pub uninterp spec fn utf16_lossy(units: Seq<u16>) -> Seq<char>;

/// Relies on `String::from_utf16_lossy`: it decodes `units` as UTF-16 and
/// puts U+FFFD in place of each unpaired surrogate, so that the UTF-16
/// encoding of some text decodes to that text.
#[verifier::external_body]
pub(crate) fn string_from_utf16_lossy(units: &[u16]) -> (r: String)
    ensures
        r@ == utf16_lossy(units@),
        forall|t: Seq<char>| utf16_units(t) == units@ ==> r@ == t,
{
    String::from_utf16_lossy(units)
}

/// Relies on `String::from_utf8`: it accepts exactly the valid UTF-8
/// sequences and decodes them.
#[verifier::external_body]
pub(crate) fn string_from_utf8(bytes: Vec<u8>) -> (r: Option<String>)
    ensures
        match r {
            Some(s) => valid_utf8(bytes@) && s@ == decode_utf8(bytes@),
            None => !valid_utf8(bytes@),
        },
{
    String::from_utf8(bytes).ok()
}

/// Relies on `String::from_utf16`: it accepts exactly the sequences that
/// are the UTF-16 encoding of some text, and returns that text.
#[verifier::external_body]
fn string_from_utf16(units: &[u16]) -> (r: Option<String>)
    ensures
        match r {
            Some(s) => utf16_units(s@) == units@,
            None => !is_utf16(units@),
        },
{
    String::from_utf16(units).ok()
}

/// The bytes of `bytes` before the first zero.
pub fn until_nul(bytes: &[u8]) -> (r: Vec<u8>)
    ensures
        r@ == take_until(bytes@, 0u8),
{
    let mut out: Vec<u8> = Vec::new();
    let mut i: usize = 0;
    while i < bytes.len() && bytes[i] != 0
        invariant
            i <= bytes@.len(),
            out@ == bytes@.take(i as int),
            forall|j: int| 0 <= j < i ==> bytes@[j] != 0u8,
        decreases bytes@.len() - i,
    {
        out.push(bytes[i]);
        i = i + 1;
        assert(out@ =~= bytes@.take(i as int));
    }
    proof {
        lemma_take_until_prefix(bytes@, 0u8, i as int);
    }
    out
}

/// The 16-bit code units held in `bytes` in byte order `e`.
pub fn units_from_bytes(bytes: &[u8], e: Endian) -> (r: Vec<u16>)
    ensures
        r@ == units_of(bytes@, e),
{
    let len = bytes.len();
    let count = len / 2;
    let mut out: Vec<u16> = Vec::new();
    let mut i: usize = 0;
    while i < count
        invariant
            len == bytes@.len(),
            count == len / 2,
            i <= count,
            out@.len() == i,
            forall|j: int| 0 <= j < i ==> out@[j] == units_of(bytes@, e)[j],
        decreases count - i,
    {
        let v = decode_uint(bytes, 2 * i, 2, e);
        proof {
            let w = bytes@.subrange(2 * i as int, 2 * i + 2);
            lemma_be_value_bound(w);
            lemma_le_value_bound(w);
            lemma_byte_ranges();
        }
        out.push(v as u16);
        i = i + 1;
    }
    assert(out@ =~= units_of(bytes@, e));
    out
}

/// The code units of `units` before the first zero unit.
pub fn units_until_nul(units: &[u16]) -> (r: Vec<u16>)
    ensures
        r@ == take_until(units@, 0u16),
{
    let mut out: Vec<u16> = Vec::new();
    let mut i: usize = 0;
    while i < units.len() && units[i] != 0
        invariant
            i <= units@.len(),
            out@ == units@.take(i as int),
            forall|j: int| 0 <= j < i ==> units@[j] != 0u16,
        decreases units@.len() - i,
    {
        out.push(units[i]);
        i = i + 1;
        assert(out@ =~= units@.take(i as int));
    }
    proof {
        lemma_take_until_prefix(units@, 0u16, i as int);
    }
    out
}

/// Decodes all of `bytes` as UTF-8.
pub fn decode_utf8_field(bytes: &[u8]) -> (r: Result<String, BinError>)
    ensures
        match r {
            Ok(s) => valid_utf8(bytes@) && s@ == decode_utf8(bytes@),
            Err(e) => !valid_utf8(bytes@) && e.kind == ErrorKind::InvalidEncoding,
        },
{
    let mut copy: Vec<u8> = Vec::new();
    let mut i: usize = 0;
    while i < bytes.len()
        invariant
            i <= bytes@.len(),
            copy@ == bytes@.take(i as int),
        decreases bytes@.len() - i,
    {
        copy.push(bytes[i]);
        i = i + 1;
        assert(copy@ =~= bytes@.take(i as int));
    }
    assert(copy@ =~= bytes@);
    match string_from_utf8(copy) {
        Some(s) => Ok(s),
        None => Err(BinError::new(ErrorKind::InvalidEncoding, "the bytes are not valid UTF-8")),
    }
}

/// Decodes the bytes of `bytes` before the first zero as UTF-8; the zero and
/// whatever follows it are padding.
pub fn decode_nul_terminated(bytes: &[u8]) -> (r: Result<String, BinError>)
    ensures
        match r {
            Ok(s) => valid_utf8(take_until(bytes@, 0u8)) && s@ == decode_utf8(take_until(bytes@, 0u8)),
            Err(e) => !valid_utf8(take_until(bytes@, 0u8)) && e.kind == ErrorKind::InvalidEncoding,
        },
{
    let run = until_nul(bytes);
    match string_from_utf8(run) {
        Some(s) => Ok(s),
        None => Err(BinError::new(ErrorKind::InvalidEncoding, "the bytes are not valid UTF-8")),
    }
}

/// Decodes `bytes` as UTF-16 code units in byte order `e`, up to the first
/// zero unit.
pub fn decode_utf16_field(bytes: &[u8], e: Endian) -> (r: Result<String, BinError>)
    ensures
        match r {
            Ok(s) => utf16_units(s@) == take_until(units_of(bytes@, e), 0u16),
            Err(err) => !is_utf16(take_until(units_of(bytes@, e), 0u16))
                && err.kind == ErrorKind::InvalidEncoding,
        },
{
    let units = units_from_bytes(bytes, e);
    let run = units_until_nul(units.as_slice());
    match string_from_utf16(run.as_slice()) {
        Some(s) => Ok(s),
        None => Err(BinError::new(ErrorKind::InvalidEncoding, "the bytes are not valid UTF-16")),
    }
}

} // verus!
