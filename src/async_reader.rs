//! The state of a reader over an asynchronous source: the source and the
//! byte order. The source itself is driven by the caller's runtime.
use vstd::prelude::*;

use crate::endian::{system_endian, Endian};

verus! {

/// A reader over an asynchronous byte source `R`.
pub struct AsyncByteReader<R> {
    reader: R,
    endian: Endian,
}

impl<R> AsyncByteReader<R> {
    /// The byte order of the reads that do not name one.
    pub closed spec fn byte_order(self) -> Endian {
        self.endian
    }

    /// The source that the reads take their bytes from.
    pub closed spec fn source(self) -> R {
        self.reader
    }

    /// A reader over `reader`, little-endian to start with.
    pub fn new(reader: R) -> (r: AsyncByteReader<R>)
        ensures
            r.source() == reader,
            r.byte_order() == Endian::LittleEndian,
    {
        AsyncByteReader { reader, endian: system_endian() }
    }

    pub fn set_endian(&mut self, endian: Endian)
        ensures
            final(self).source() == old(self).source(),
            final(self).byte_order() == endian,
    {
        self.endian = endian;
    }

    pub fn endian(&self) -> (r: Endian)
        ensures
            r == self.byte_order(),
    {
        self.endian
    }

    /// The source, for the code that awaits its reads.
    pub fn source_mut(&mut self) -> (r: &mut R)
        ensures
            final(self).byte_order() == old(self).byte_order(),
    {
        &mut self.reader
    }
}

} // verus!
