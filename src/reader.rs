//! `BytesReader`: reads values out of an in-memory byte buffer through a
//! cursor, in a byte order that the caller picks.
//!
//! Every read checks first that the bytes it needs remain; if they do not, it
//! fails with `ErrorKind::OutOfBounds` and leaves the cursor where it was.
use vstd::prelude::*;
use vstd::utf8::{decode_utf8, valid_utf8};

use crate::endian::{system_endian, Endian};
use crate::error::{BinError, ErrorKind};
use crate::io::read_bytes_as_vec;
use crate::numeric::{
    byte_range, decode_uint, int_value, lemma_be_value_bound,
    lemma_byte_ranges, lemma_le_value_bound, signed_value, to_i128, to_i16, to_i32, to_i64, to_i8,
    uint_value,
};
use crate::text::{
    decode_nul_terminated, decode_utf16_field, decode_utf8_field, is_utf16, take_until,
    units_of, utf16_units,
};

verus! {

/// Where a seek counts from.
#[derive(Clone, Copy, Debug, PartialEq, Eq, Structural)]
pub enum SeekFrom {
    /// That many bytes from the start.
    Start(u64),
    /// The length of the data plus this (usually negative) amount.
    End(i64),
    /// The cursor plus this amount.
    Current(i64),
}

/// A reader over a byte buffer that it owns.
#[derive(Debug)]
pub struct BytesReader {
    buffer: Vec<u8>,
    ptr: usize,
    endian: Endian,
}

impl BytesReader {
    #[verifier::type_invariant]
    spec fn cursor_in_buffer(self) -> bool {
        self.ptr <= self.buffer@.len()
    }

    /// The bytes being read.
    pub closed spec fn data(self) -> Seq<u8> {
        self.buffer@
    }

    /// The cursor: how many bytes from the start the next read begins.
    pub closed spec fn pos(self) -> int {
        self.ptr as int
    }

    /// The byte order of the reads that do not name one.
    pub closed spec fn byte_order(self) -> Endian {
        self.endian
    }

    /// How many bytes are left after the cursor.
    pub open spec fn remaining(self) -> int {
        self.data().len() - self.pos()
    }

    /// The `n` bytes after the cursor.
    pub open spec fn ahead(self, n: int) -> Seq<u8> {
        self.data().subrange(self.pos(), self.pos() + n)
    }

    /// `self` is what a request for `n` bytes made of `pre`: the data and the
    /// byte order are kept, and the cursor moved on by `n` exactly when `ok`,
    /// which holds exactly when `n` bytes remained.
    pub open spec fn took(self, pre: Self, n: int, ok: bool) -> bool {
        &&& self.data() == pre.data()
        &&& self.byte_order() == pre.byte_order()
        &&& ok == (n <= pre.remaining())
        &&& self.pos() == if ok {
            pre.pos() + n
        } else {
            pre.pos()
        }
    }

    /// `self` is `pre` with nothing changed but the cursor, now at `pos`.
    pub open spec fn moved_to(self, pre: Self, pos: int) -> bool {
        &&& self.data() == pre.data()
        &&& self.byte_order() == pre.byte_order()
        &&& self.pos() == pos
    }

    /// Where `from` points, counted from the start of the data.
    pub open spec fn seek_target(self, from: SeekFrom) -> int {
        match from {
            SeekFrom::Start(p) => p as int,
            SeekFrom::End(d) => self.data().len() + d,
            SeekFrom::Current(d) => self.pos() + d,
        }
    }

    /// A reader over a copy of `buffer`, with the cursor at `ptr`.
    fn new_at(buffer: &[u8], ptr: usize, endian: Endian) -> (r: BytesReader)
        requires
            ptr <= buffer@.len(),
        ensures
            r.data() == buffer@,
            r.pos() == ptr,
            r.byte_order() == endian,
    {
        let mut r = BytesReader::new(buffer);
        r.ptr = ptr;
        r.endian = endian;
        r
    }

    /// A reader over a copy of `buffer`, with the cursor at the start.
    pub fn new(buffer: &[u8]) -> (r: BytesReader)
        ensures
            r.data() == buffer@,
            r.pos() == 0,
            r.byte_order() == Endian::LittleEndian,
    {
        let mut copy: Vec<u8> = Vec::new();
        let mut i: usize = 0;
        while i < buffer.len()
            invariant
                i <= buffer@.len(),
                copy@ == buffer@.take(i as int),
            decreases buffer@.len() - i,
        {
            copy.push(buffer[i]);
            i = i + 1;
            assert(copy@ =~= buffer@.take(i as int));
        }
        assert(copy@ =~= buffer@);
        BytesReader { buffer: copy, ptr: 0, endian: system_endian() }
    }

    /// A reader over `buffer`, with the cursor at the start.
    pub fn from_vec(buffer: Vec<u8>) -> (r: BytesReader)
        ensures
            r.data() == buffer@,
            r.pos() == 0,
            r.byte_order() == Endian::LittleEndian,
    {
        BytesReader { buffer, ptr: 0, endian: system_endian() }
    }

    pub fn set_endian(&mut self, endian: Endian)
        ensures
            final(self).data() == old(self).data(),
            final(self).pos() == old(self).pos(),
            final(self).byte_order() == endian,
    {
        proof {
            use_type_invariant(&*self);
        }
        self.endian = endian;
    }

    pub fn endian(&self) -> (r: Endian)
        ensures
            r == self.byte_order(),
    {
        self.endian
    }

    /// The cursor, as an offset from the start. It never fails.
    pub fn offset(&self) -> (r: Result<u64, BinError>)
        ensures
            r == Ok::<u64, BinError>(self.pos() as u64),
    {
        Ok(self.ptr as u64)
    }

    /// Claims the next `n` bytes: moves the cursor past them and returns
    /// where they start.
    fn claim(&mut self, n: usize) -> (r: Result<usize, BinError>)
        ensures
            final(self).took(*old(self), n as int, r is Ok),
            match r {
                Ok(start) => start == old(self).pos(),
                Err(e) => e.kind == ErrorKind::OutOfBounds,
            },
    {
        proof {
            use_type_invariant(&*self);
        }
        if n <= self.buffer.len() - self.ptr {
            let start = self.ptr;
            self.ptr = self.ptr + n;
            Ok(start)
        } else {
            Err(BinError::new(ErrorKind::OutOfBounds, "the read goes past the end of the buffer"))
        }
    }

    /// Reads an unsigned value of `n` bytes in byte order `e`.
    fn read_uint(&mut self, n: usize, e: Endian) -> (r: Result<u128, BinError>)
        requires
            n <= 16,
        ensures
            final(self).took(*old(self), n as int, r is Ok),
            match r {
                Ok(v) => v == uint_value(old(self).ahead(n as int), e) && v < byte_range(n as nat),
                Err(err) => err.kind == ErrorKind::OutOfBounds,
            },
    {
        match self.claim(n) {
            Ok(start) => {
                let v = decode_uint(self.buffer.as_slice(), start, n, e);
                proof {
                    lemma_be_value_bound(old(self).ahead(n as int));
                    lemma_le_value_bound(old(self).ahead(n as int));
                }
                Ok(v)
            },
            Err(err) => Err(err),
        }
    }

    /// Reads `n` bytes into a new vector.
    fn read_span(&mut self, n: usize) -> (r: Result<Vec<u8>, BinError>)
        ensures
            final(self).took(*old(self), n as int, r is Ok),
            match r {
                Ok(v) => v@ == old(self).ahead(n as int),
                Err(err) => err.kind == ErrorKind::OutOfBounds,
            },
    {
        match self.claim(n) {
            Ok(start) => {
                let mut out: Vec<u8> = Vec::new();
                let mut i: usize = 0;
                while i < n
                    invariant
                        i <= n,
                        start + n <= self.buffer.len(),
                        out@ == self.buffer@.subrange(start as int, start + i),
                    decreases n - i,
                {
                    out.push(self.buffer[start + i]);
                    i = i + 1;
                    assert(out@ =~= self.buffer@.subrange(start as int, start + i));
                }
                Ok(out)
            },
            Err(err) => Err(err),
        }
    }

    pub fn read_byte(&mut self) -> (r: Result<u8, BinError>)
        ensures
            final(self).took(*old(self), 1, r is Ok),
            match r {
                Ok(v) => v == old(self).data()[old(self).pos()],
                Err(e) => e.kind == ErrorKind::OutOfBounds,
            },
    {
        match self.claim(1) {
            Ok(start) => Ok(self.buffer[start]),
            Err(e) => Err(e),
        }
    }

    pub fn read_u8(&mut self) -> (r: Result<u8, BinError>)
        ensures
            final(self).took(*old(self), 1, r is Ok),
            match r {
                Ok(v) => v == old(self).data()[old(self).pos()],
                Err(e) => e.kind == ErrorKind::OutOfBounds,
            },
    {
        self.read_byte()
    }

    /// Reads one byte as a two's complement `i8`.
    pub fn read_i8(&mut self) -> (r: Result<i8, BinError>)
        ensures
            final(self).took(*old(self), 1, r is Ok),
            match r {
                Ok(v) => v == signed_value(old(self).data()[old(self).pos()] as nat, 1),
                Err(e) => e.kind == ErrorKind::OutOfBounds,
            },
    {
        match self.read_byte() {
            Ok(b) => Ok(to_i8(b)),
            Err(e) => Err(e),
        }
    }

    /// Fills `array` with the next `array.len()` bytes. On failure neither the
    /// cursor nor `array` changes.
    pub fn read_exact(&mut self, array: &mut [u8]) -> (r: Result<(), BinError>)
        ensures
            final(self).took(*old(self), old(array)@.len() as int, r is Ok),
            match r {
                Ok(_) => final(array)@ == old(self).ahead(old(array)@.len() as int),
                Err(e) => final(array)@ == old(array)@ && e.kind == ErrorKind::OutOfBounds,
            },
    {
        let n = array.len();
        match self.claim(n) {
            Ok(start) => {
                let mut i: usize = 0;
                while i < n
                    invariant
                        i <= n,
                        n == array@.len(),
                        start + n <= self.buffer.len(),
                        forall|j: int| 0 <= j < i ==> array@[j] == self.buffer@[start + j],
                    decreases n - i,
                {
                    array[i] = self.buffer[start + i];
                    i = i + 1;
                }
                assert(array@ =~= old(self).ahead(n as int));
                Ok(())
            },
            Err(e) => Err(e),
        }
    }

    /// Reads the next `len` bytes into a new vector.
    pub fn read_bytes_as_vec(&mut self, len: usize) -> (r: Result<Vec<u8>, BinError>)
        ensures
            final(self).took(*old(self), len as int, r is Ok),
            match r {
                Ok(v) => v@ == old(self).ahead(len as int),
                Err(e) => e.kind == ErrorKind::OutOfBounds,
            },
    {
        self.read_span(len)
    }

    /// Returns the next `len` bytes without moving the cursor. Any of the
    /// remaining bytes can be looked at this way.
    pub fn read_bytes_no_move(&mut self, len: usize) -> (r: Result<Vec<u8>, BinError>)
        ensures
            final(self).moved_to(*old(self), old(self).pos()),
            r is Ok == (len <= old(self).remaining()),
            match r {
                Ok(v) => v@ == old(self).ahead(len as int),
                Err(e) => e.kind == ErrorKind::OutOfBounds,
            },
    {
        let start = self.ptr;
        let r = self.read_span(len);
        if r.is_ok() {
            self.ptr = start;
        }
        r
    }

    /// Reads a field of `size` bytes that holds zero-terminated UTF-8 text
    /// and returns the text before the first zero. The whole field is
    /// consumed, padding included, also when the text is not valid UTF-8.
    pub fn read_ascii_string(&mut self, size: usize) -> (r: Result<String, BinError>)
        ensures
            final(self).took(*old(self), size as int, size <= old(self).remaining()),
            match r {
                Ok(s) => size <= old(self).remaining()
                    && valid_utf8(take_until(old(self).ahead(size as int), 0u8))
                    && s@ == decode_utf8(take_until(old(self).ahead(size as int), 0u8)),
                Err(e) => if size <= old(self).remaining() {
                    !valid_utf8(take_until(old(self).ahead(size as int), 0u8))
                        && e.kind == ErrorKind::InvalidEncoding
                } else {
                    e.kind == ErrorKind::OutOfBounds
                },
            },
    {
        match self.read_span(size) {
            Ok(bytes) => decode_nul_terminated(bytes.as_slice()),
            Err(e) => Err(e),
        }
    }

    /// Reads `size` bytes and decodes all of them as UTF-8 (zeros included).
    /// The bytes are consumed also when they are not valid UTF-8.
    pub fn read_utf8_string(&mut self, size: usize) -> (r: Result<String, BinError>)
        ensures
            final(self).took(*old(self), size as int, size <= old(self).remaining()),
            match r {
                Ok(s) => size <= old(self).remaining()
                    && valid_utf8(old(self).ahead(size as int))
                    && s@ == decode_utf8(old(self).ahead(size as int)),
                Err(e) => if size <= old(self).remaining() {
                    !valid_utf8(old(self).ahead(size as int)) && e.kind == ErrorKind::InvalidEncoding
                } else {
                    e.kind == ErrorKind::OutOfBounds
                },
            },
    {
        match self.read_span(size) {
            Ok(bytes) => decode_utf8_field(bytes.as_slice()),
            Err(e) => Err(e),
        }
    }

    /// Reads `size` bytes (a byte count, not a character count) as 16-bit
    /// code units in byte order `e`, and decodes as UTF-16 the units before
    /// the first zero unit.
    fn read_utf16_in(&mut self, size: usize, e: Endian) -> (r: Result<String, BinError>)
        ensures
            final(self).took(*old(self), size as int, size <= old(self).remaining()),
            match r {
                Ok(s) => size <= old(self).remaining()
                    && utf16_units(s@) == take_until(units_of(old(self).ahead(size as int), e), 0u16),
                Err(err) => if size <= old(self).remaining() {
                    !is_utf16(take_until(units_of(old(self).ahead(size as int), e), 0u16))
                        && err.kind == ErrorKind::InvalidEncoding
                } else {
                    err.kind == ErrorKind::OutOfBounds
                },
            },
    {
        match self.read_span(size) {
            Ok(bytes) => decode_utf16_field(bytes.as_slice(), e),
            Err(err) => Err(err),
        }
    }

    /// Reads `size` bytes (a byte count, not a character count) as 16-bit
    /// code units in the reader's byte order, and decodes as UTF-16 the units
    /// before the first zero unit. An odd last byte is consumed and ignored.
    pub fn read_utf16_string(&mut self, size: usize) -> (r: Result<String, BinError>)
        ensures
            final(self).took(*old(self), size as int, size <= old(self).remaining()),
            match r {
                Ok(s) => size <= old(self).remaining() && utf16_units(s@) == take_until(
                    units_of(old(self).ahead(size as int), old(self).byte_order()),
                    0u16,
                ),
                Err(e) => if size <= old(self).remaining() {
                    !is_utf16(
                        take_until(units_of(old(self).ahead(size as int), old(self).byte_order()), 0u16),
                    ) && e.kind == ErrorKind::InvalidEncoding
                } else {
                    e.kind == ErrorKind::OutOfBounds
                },
            },
    {
        let e = self.endian;
        self.read_utf16_in(size, e)
    }

    /// `read_utf16_string` with big-endian code units; the reader's own byte
    /// order is left as it was.
    pub fn read_utf16be_string(&mut self, size: usize) -> (r: Result<String, BinError>)
        ensures
            final(self).took(*old(self), size as int, size <= old(self).remaining()),
            match r {
                Ok(s) => size <= old(self).remaining() && utf16_units(s@) == take_until(
                    units_of(old(self).ahead(size as int), Endian::BigEndian),
                    0u16,
                ),
                Err(e) => if size <= old(self).remaining() {
                    !is_utf16(
                        take_until(units_of(old(self).ahead(size as int), Endian::BigEndian), 0u16),
                    ) && e.kind == ErrorKind::InvalidEncoding
                } else {
                    e.kind == ErrorKind::OutOfBounds
                },
            },
    {
        self.read_utf16_in(size, Endian::BigEndian)
    }

    /// `read_utf16_string` with little-endian code units; the reader's own
    /// byte order is left as it was.
    pub fn read_utf16le_string(&mut self, size: usize) -> (r: Result<String, BinError>)
        ensures
            final(self).took(*old(self), size as int, size <= old(self).remaining()),
            match r {
                Ok(s) => size <= old(self).remaining() && utf16_units(s@) == take_until(
                    units_of(old(self).ahead(size as int), Endian::LittleEndian),
                    0u16,
                ),
                Err(e) => if size <= old(self).remaining() {
                    !is_utf16(
                        take_until(units_of(old(self).ahead(size as int), Endian::LittleEndian), 0u16),
                    ) && e.kind == ErrorKind::InvalidEncoding
                } else {
                    e.kind == ErrorKind::OutOfBounds
                },
            },
    {
        self.read_utf16_in(size, Endian::LittleEndian)
    }

    /// Moves the cursor on by `size` bytes and returns `size`.
    pub fn skip_ptr(&mut self, size: usize) -> (r: Result<usize, BinError>)
        ensures
            final(self).took(*old(self), size as int, r is Ok),
            match r {
                Ok(v) => v == size,
                Err(e) => e.kind == ErrorKind::OutOfBounds,
            },
    {
        match self.claim(size) {
            Ok(_) => Ok(size),
            Err(e) => Err(e),
        }
    }

    /// Moves the cursor to where `from` points. The target must lie inside
    /// the data (at or after the start, before the end); if it does not, the
    /// seek fails with `ErrorKind::InvalidSeek` and the cursor stays.
    pub fn seek(&mut self, from: SeekFrom) -> (r: Result<u64, BinError>)
        ensures
            r is Ok == (0 <= old(self).seek_target(from) < old(self).data().len()),
            match r {
                Ok(p) => p == old(self).seek_target(from)
                    && final(self).moved_to(*old(self), old(self).seek_target(from)),
                Err(e) => final(self).moved_to(*old(self), old(self).pos())
                    && e.kind == ErrorKind::InvalidSeek,
            },
    {
        proof {
            use_type_invariant(&*self);
        }
        let len = self.buffer.len();
        let target: i128 = match from {
            SeekFrom::Start(p) => p as i128,
            SeekFrom::End(d) => len as i128 + d as i128,
            SeekFrom::Current(d) => self.ptr as i128 + d as i128,
        };
        if 0 <= target && target < len as i128 {
            self.ptr = target as usize;
            Ok(target as u64)
        } else {
            Err(BinError::new(ErrorKind::InvalidSeek, "the seek leaves the buffer"))
        }
    }

    /// Reads a `u16` from 2 bytes, most significant byte first.
    pub fn read_u16_be(&mut self) -> (r: Result<u16, BinError>)
        ensures
            final(self).took(*old(self), 2, r is Ok),
            match r {
                Ok(v) => v == uint_value(old(self).ahead(2), Endian::BigEndian),
                Err(e) => e.kind == ErrorKind::OutOfBounds,
            },
    {
        proof {
            lemma_byte_ranges();
        }
        match self.read_uint(2, Endian::BigEndian) {
            Ok(v) => Ok(v as u16),
            Err(e) => Err(e),
        }
    }

    /// Reads an `i16` (two's complement) from 2 bytes, most significant byte first.
    pub fn read_i16_be(&mut self) -> (r: Result<i16, BinError>)
        ensures
            final(self).took(*old(self), 2, r is Ok),
            match r {
                Ok(v) => v == int_value(old(self).ahead(2), Endian::BigEndian),
                Err(e) => e.kind == ErrorKind::OutOfBounds,
            },
    {
        proof {
            lemma_byte_ranges();
        }
        match self.read_uint(2, Endian::BigEndian) {
            Ok(v) => Ok(to_i16(v)),
            Err(e) => Err(e),
        }
    }

    /// Reads a `u16` from 2 bytes, least significant byte first.
    pub fn read_u16_le(&mut self) -> (r: Result<u16, BinError>)
        ensures
            final(self).took(*old(self), 2, r is Ok),
            match r {
                Ok(v) => v == uint_value(old(self).ahead(2), Endian::LittleEndian),
                Err(e) => e.kind == ErrorKind::OutOfBounds,
            },
    {
        proof {
            lemma_byte_ranges();
        }
        match self.read_uint(2, Endian::LittleEndian) {
            Ok(v) => Ok(v as u16),
            Err(e) => Err(e),
        }
    }

    /// Reads an `i16` (two's complement) from 2 bytes, least significant byte first.
    pub fn read_i16_le(&mut self) -> (r: Result<i16, BinError>)
        ensures
            final(self).took(*old(self), 2, r is Ok),
            match r {
                Ok(v) => v == int_value(old(self).ahead(2), Endian::LittleEndian),
                Err(e) => e.kind == ErrorKind::OutOfBounds,
            },
    {
        proof {
            lemma_byte_ranges();
        }
        match self.read_uint(2, Endian::LittleEndian) {
            Ok(v) => Ok(to_i16(v)),
            Err(e) => Err(e),
        }
    }

    /// Reads a `u16` from 2 bytes, in the reader's byte order.
    pub fn read_u16(&mut self) -> (r: Result<u16, BinError>)
        ensures
            final(self).took(*old(self), 2, r is Ok),
            match r {
                Ok(v) => v == uint_value(old(self).ahead(2), old(self).byte_order()),
                Err(e) => e.kind == ErrorKind::OutOfBounds,
            },
    {
        proof {
            lemma_byte_ranges();
        }
        match self.read_uint(2, self.endian) {
            Ok(v) => Ok(v as u16),
            Err(e) => Err(e),
        }
    }

    /// Reads an `i16` (two's complement) from 2 bytes, in the reader's byte order.
    pub fn read_i16(&mut self) -> (r: Result<i16, BinError>)
        ensures
            final(self).took(*old(self), 2, r is Ok),
            match r {
                Ok(v) => v == int_value(old(self).ahead(2), old(self).byte_order()),
                Err(e) => e.kind == ErrorKind::OutOfBounds,
            },
    {
        proof {
            lemma_byte_ranges();
        }
        match self.read_uint(2, self.endian) {
            Ok(v) => Ok(to_i16(v)),
            Err(e) => Err(e),
        }
    }

    /// Reads a `u32` from 4 bytes, most significant byte first.
    pub fn read_u32_be(&mut self) -> (r: Result<u32, BinError>)
        ensures
            final(self).took(*old(self), 4, r is Ok),
            match r {
                Ok(v) => v == uint_value(old(self).ahead(4), Endian::BigEndian),
                Err(e) => e.kind == ErrorKind::OutOfBounds,
            },
    {
        proof {
            lemma_byte_ranges();
        }
        match self.read_uint(4, Endian::BigEndian) {
            Ok(v) => Ok(v as u32),
            Err(e) => Err(e),
        }
    }

    /// Reads an `i32` (two's complement) from 4 bytes, most significant byte first.
    pub fn read_i32_be(&mut self) -> (r: Result<i32, BinError>)
        ensures
            final(self).took(*old(self), 4, r is Ok),
            match r {
                Ok(v) => v == int_value(old(self).ahead(4), Endian::BigEndian),
                Err(e) => e.kind == ErrorKind::OutOfBounds,
            },
    {
        proof {
            lemma_byte_ranges();
        }
        match self.read_uint(4, Endian::BigEndian) {
            Ok(v) => Ok(to_i32(v)),
            Err(e) => Err(e),
        }
    }

    /// Reads a `u32` from 4 bytes, least significant byte first.
    pub fn read_u32_le(&mut self) -> (r: Result<u32, BinError>)
        ensures
            final(self).took(*old(self), 4, r is Ok),
            match r {
                Ok(v) => v == uint_value(old(self).ahead(4), Endian::LittleEndian),
                Err(e) => e.kind == ErrorKind::OutOfBounds,
            },
    {
        proof {
            lemma_byte_ranges();
        }
        match self.read_uint(4, Endian::LittleEndian) {
            Ok(v) => Ok(v as u32),
            Err(e) => Err(e),
        }
    }

    /// Reads an `i32` (two's complement) from 4 bytes, least significant byte first.
    pub fn read_i32_le(&mut self) -> (r: Result<i32, BinError>)
        ensures
            final(self).took(*old(self), 4, r is Ok),
            match r {
                Ok(v) => v == int_value(old(self).ahead(4), Endian::LittleEndian),
                Err(e) => e.kind == ErrorKind::OutOfBounds,
            },
    {
        proof {
            lemma_byte_ranges();
        }
        match self.read_uint(4, Endian::LittleEndian) {
            Ok(v) => Ok(to_i32(v)),
            Err(e) => Err(e),
        }
    }

    /// Reads a `u32` from 4 bytes, in the reader's byte order.
    pub fn read_u32(&mut self) -> (r: Result<u32, BinError>)
        ensures
            final(self).took(*old(self), 4, r is Ok),
            match r {
                Ok(v) => v == uint_value(old(self).ahead(4), old(self).byte_order()),
                Err(e) => e.kind == ErrorKind::OutOfBounds,
            },
    {
        proof {
            lemma_byte_ranges();
        }
        match self.read_uint(4, self.endian) {
            Ok(v) => Ok(v as u32),
            Err(e) => Err(e),
        }
    }

    /// Reads an `i32` (two's complement) from 4 bytes, in the reader's byte order.
    pub fn read_i32(&mut self) -> (r: Result<i32, BinError>)
        ensures
            final(self).took(*old(self), 4, r is Ok),
            match r {
                Ok(v) => v == int_value(old(self).ahead(4), old(self).byte_order()),
                Err(e) => e.kind == ErrorKind::OutOfBounds,
            },
    {
        proof {
            lemma_byte_ranges();
        }
        match self.read_uint(4, self.endian) {
            Ok(v) => Ok(to_i32(v)),
            Err(e) => Err(e),
        }
    }

    /// Reads a `u64` from 8 bytes, most significant byte first.
    pub fn read_u64_be(&mut self) -> (r: Result<u64, BinError>)
        ensures
            final(self).took(*old(self), 8, r is Ok),
            match r {
                Ok(v) => v == uint_value(old(self).ahead(8), Endian::BigEndian),
                Err(e) => e.kind == ErrorKind::OutOfBounds,
            },
    {
        proof {
            lemma_byte_ranges();
        }
        match self.read_uint(8, Endian::BigEndian) {
            Ok(v) => Ok(v as u64),
            Err(e) => Err(e),
        }
    }

    /// Reads an `i64` (two's complement) from 8 bytes, most significant byte first.
    pub fn read_i64_be(&mut self) -> (r: Result<i64, BinError>)
        ensures
            final(self).took(*old(self), 8, r is Ok),
            match r {
                Ok(v) => v == int_value(old(self).ahead(8), Endian::BigEndian),
                Err(e) => e.kind == ErrorKind::OutOfBounds,
            },
    {
        proof {
            lemma_byte_ranges();
        }
        match self.read_uint(8, Endian::BigEndian) {
            Ok(v) => Ok(to_i64(v)),
            Err(e) => Err(e),
        }
    }

    /// Reads a `u64` from 8 bytes, least significant byte first.
    pub fn read_u64_le(&mut self) -> (r: Result<u64, BinError>)
        ensures
            final(self).took(*old(self), 8, r is Ok),
            match r {
                Ok(v) => v == uint_value(old(self).ahead(8), Endian::LittleEndian),
                Err(e) => e.kind == ErrorKind::OutOfBounds,
            },
    {
        proof {
            lemma_byte_ranges();
        }
        match self.read_uint(8, Endian::LittleEndian) {
            Ok(v) => Ok(v as u64),
            Err(e) => Err(e),
        }
    }

    /// Reads an `i64` (two's complement) from 8 bytes, least significant byte first.
    pub fn read_i64_le(&mut self) -> (r: Result<i64, BinError>)
        ensures
            final(self).took(*old(self), 8, r is Ok),
            match r {
                Ok(v) => v == int_value(old(self).ahead(8), Endian::LittleEndian),
                Err(e) => e.kind == ErrorKind::OutOfBounds,
            },
    {
        proof {
            lemma_byte_ranges();
        }
        match self.read_uint(8, Endian::LittleEndian) {
            Ok(v) => Ok(to_i64(v)),
            Err(e) => Err(e),
        }
    }

    /// Reads a `u64` from 8 bytes, in the reader's byte order.
    pub fn read_u64(&mut self) -> (r: Result<u64, BinError>)
        ensures
            final(self).took(*old(self), 8, r is Ok),
            match r {
                Ok(v) => v == uint_value(old(self).ahead(8), old(self).byte_order()),
                Err(e) => e.kind == ErrorKind::OutOfBounds,
            },
    {
        proof {
            lemma_byte_ranges();
        }
        match self.read_uint(8, self.endian) {
            Ok(v) => Ok(v as u64),
            Err(e) => Err(e),
        }
    }

    /// Reads an `i64` (two's complement) from 8 bytes, in the reader's byte order.
    pub fn read_i64(&mut self) -> (r: Result<i64, BinError>)
        ensures
            final(self).took(*old(self), 8, r is Ok),
            match r {
                Ok(v) => v == int_value(old(self).ahead(8), old(self).byte_order()),
                Err(e) => e.kind == ErrorKind::OutOfBounds,
            },
    {
        proof {
            lemma_byte_ranges();
        }
        match self.read_uint(8, self.endian) {
            Ok(v) => Ok(to_i64(v)),
            Err(e) => Err(e),
        }
    }

    /// Reads a `u128` from 16 bytes, most significant byte first.
    pub fn read_u128_be(&mut self) -> (r: Result<u128, BinError>)
        ensures
            final(self).took(*old(self), 16, r is Ok),
            match r {
                Ok(v) => v == uint_value(old(self).ahead(16), Endian::BigEndian),
                Err(e) => e.kind == ErrorKind::OutOfBounds,
            },
    {
        proof {
            lemma_byte_ranges();
        }
        match self.read_uint(16, Endian::BigEndian) {
            Ok(v) => Ok(v as u128),
            Err(e) => Err(e),
        }
    }

    /// Reads an `i128` (two's complement) from 16 bytes, most significant byte first.
    pub fn read_i128_be(&mut self) -> (r: Result<i128, BinError>)
        ensures
            final(self).took(*old(self), 16, r is Ok),
            match r {
                Ok(v) => v == int_value(old(self).ahead(16), Endian::BigEndian),
                Err(e) => e.kind == ErrorKind::OutOfBounds,
            },
    {
        proof {
            lemma_byte_ranges();
        }
        match self.read_uint(16, Endian::BigEndian) {
            Ok(v) => Ok(to_i128(v)),
            Err(e) => Err(e),
        }
    }

    /// Reads a `u128` from 16 bytes, least significant byte first.
    pub fn read_u128_le(&mut self) -> (r: Result<u128, BinError>)
        ensures
            final(self).took(*old(self), 16, r is Ok),
            match r {
                Ok(v) => v == uint_value(old(self).ahead(16), Endian::LittleEndian),
                Err(e) => e.kind == ErrorKind::OutOfBounds,
            },
    {
        proof {
            lemma_byte_ranges();
        }
        match self.read_uint(16, Endian::LittleEndian) {
            Ok(v) => Ok(v as u128),
            Err(e) => Err(e),
        }
    }

    /// Reads an `i128` (two's complement) from 16 bytes, least significant byte first.
    pub fn read_i128_le(&mut self) -> (r: Result<i128, BinError>)
        ensures
            final(self).took(*old(self), 16, r is Ok),
            match r {
                Ok(v) => v == int_value(old(self).ahead(16), Endian::LittleEndian),
                Err(e) => e.kind == ErrorKind::OutOfBounds,
            },
    {
        proof {
            lemma_byte_ranges();
        }
        match self.read_uint(16, Endian::LittleEndian) {
            Ok(v) => Ok(to_i128(v)),
            Err(e) => Err(e),
        }
    }

    /// Reads a `u128` from 16 bytes, in the reader's byte order.
    pub fn read_u128(&mut self) -> (r: Result<u128, BinError>)
        ensures
            final(self).took(*old(self), 16, r is Ok),
            match r {
                Ok(v) => v == uint_value(old(self).ahead(16), old(self).byte_order()),
                Err(e) => e.kind == ErrorKind::OutOfBounds,
            },
    {
        proof {
            lemma_byte_ranges();
        }
        match self.read_uint(16, self.endian) {
            Ok(v) => Ok(v as u128),
            Err(e) => Err(e),
        }
    }

    /// Reads an `i128` (two's complement) from 16 bytes, in the reader's byte order.
    pub fn read_i128(&mut self) -> (r: Result<i128, BinError>)
        ensures
            final(self).took(*old(self), 16, r is Ok),
            match r {
                Ok(v) => v == int_value(old(self).ahead(16), old(self).byte_order()),
                Err(e) => e.kind == ErrorKind::OutOfBounds,
            },
    {
        proof {
            lemma_byte_ranges();
        }
        match self.read_uint(16, self.endian) {
            Ok(v) => Ok(to_i128(v)),
            Err(e) => Err(e),
        }
    }
}

/// The first `len` bytes of `window`: a look-ahead for a reader over a
/// stream, which can look only at what its source holds buffered. It fails
/// with `ErrorKind::OutOfBounds` when the window holds fewer than `len`
/// bytes, and never returns fewer.
pub fn peek_window(window: &[u8], len: usize) -> (r: Result<Vec<u8>, BinError>)
    ensures
        r is Ok == (len <= window@.len()),
        match r {
            Ok(v) => v@ == window@.take(len as int),
            Err(e) => e.kind == ErrorKind::OutOfBounds,
        },
{
    if len <= window.len() {
        let v = read_bytes_as_vec(window, 0, len);
        assert(window@.subrange(0, len as int) =~= window@.take(len as int));
        Ok(v)
    } else {
        Err(BinError::new(ErrorKind::OutOfBounds, "fewer bytes are buffered than were asked for"))
    }
}

/// Looking ahead with `read_bytes_no_move` does not move the cursor, so a
/// `read_bytes_as_vec` of the same length right after it succeeds, starts
/// where the looked-at bytes began, and returns those very bytes.
pub proof fn lemma_peek_then_read(
    r0: BytesReader,
    r1: BytesReader,
    r2: BytesReader,
    k: int,
    peeked: Seq<u8>,
    got: Seq<u8>,
)
    requires
        r1.moved_to(r0, r0.pos()),
        k <= r0.remaining(),
        peeked == r0.ahead(k),
        r2.took(r1, k, k <= r1.remaining()),
        got == r1.ahead(k),
    ensures
        k <= r1.remaining(),
        r1.pos() == r0.pos(),
        got == peeked,
        r2.pos() == r0.pos() + k,
{
}

/// A read of `n` bytes that fails for lack of data leaves the reader as it
/// was, so a shorter read of `m` bytes that fits succeeds from the same place
/// and returns the same bytes as it would have before.
pub proof fn lemma_failed_read_keeps_place(r0: BytesReader, r1: BytesReader, n: int, m: int)
    requires
        r1.took(r0, n, false),
        0 <= m <= r0.remaining(),
    ensures
        n > r0.remaining(),
        r1.pos() == r0.pos(),
        m <= r1.remaining(),
        r1.ahead(m) == r0.ahead(m),
{
}

/// On data of length `L` at least one, `seek(SeekFrom::End(-1i64))` succeeds
/// and puts the cursor at `L - 1`; a `read_byte` there succeeds, returns the
/// last byte and leaves the cursor at `L`, where no byte remains to read.
pub proof fn lemma_seek_end_then_read(r0: BytesReader, r1: BytesReader, r2: BytesReader)
    requires
        r0.data().len() >= 1,
        r1.moved_to(r0, r0.seek_target(SeekFrom::End(-1i64))),
        r2.took(r1, 1, 1 <= r1.remaining()),
    ensures
        0 <= r0.seek_target(SeekFrom::End(-1i64)) < r0.data().len(),
        r1.pos() == r0.data().len() - 1,
        1 <= r1.remaining(),
        r1.data()[r1.pos()] == r0.data().last(),
        r2.pos() == r0.data().len(),
        r2.remaining() == 0,
{
}

impl From<Vec<u8>> for BytesReader {
    /// A reader over `buffer`, with the cursor at the start.
    fn from(buffer: Vec<u8>) -> (r: BytesReader)
        ensures
            r.data() == buffer@,
            r.pos() == 0,
            r.byte_order() == Endian::LittleEndian,
    {
        BytesReader { buffer, ptr: 0, endian: Endian::LittleEndian }
    }
}

impl vstd::std_specs::convert::FromSpecImpl<Vec<u8>> for BytesReader {
    open spec fn obeys_from_spec() -> bool {
        true
    }

    closed spec fn from_spec(buffer: Vec<u8>) -> BytesReader {
        BytesReader { buffer, ptr: 0, endian: Endian::LittleEndian }
    }
}

impl Clone for BytesReader {
    /// A second reader over a copy of the same bytes, at the same place.
    fn clone(&self) -> (r: BytesReader)
        ensures
            r.data() == self.data(),
            r.pos() == self.pos(),
            r.byte_order() == self.byte_order(),
    {
        proof {
            use_type_invariant(self);
        }
        BytesReader::new_at(self.buffer.as_slice(), self.ptr, self.endian)
    }
}

} // verus!
