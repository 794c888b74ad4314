//! Byte order of multi-byte values.
use vstd::prelude::*;

verus! {

/// Order of the bytes of a multi-byte value.
#[derive(Clone, Copy, Debug, PartialEq, Eq, Structural)]
pub enum Endian {
    /// Most significant byte first (`0x00ff` is stored as `0x00 0xff`).
    BigEndian,
    /// Least significant byte first (`0x00ff` is stored as `0xff 0x00`).
    LittleEndian,
}

impl Endian {
    /// The name of this byte order, as text.
    pub fn as_str(&self) -> (r: &'static str)
        ensures
            r@ == self.name(),
    {
        match self {
            Endian::BigEndian => "Big Endian",
            Endian::LittleEndian => "Little Endian",
        }
    }

    /// What `as_str` returns.
    pub open spec fn name(self) -> Seq<char> {
        match self {
            Endian::BigEndian => "Big Endian"@,
            Endian::LittleEndian => "Little Endian"@,
        }
    }

    /// The opposite byte order.
    pub open spec fn flipped(self) -> Endian {
        match self {
            Endian::BigEndian => Endian::LittleEndian,
            Endian::LittleEndian => Endian::BigEndian,
        }
    }
}

/// The byte order that readers start with: little-endian.
pub fn system_endian() -> (r: Endian)
    ensures
        r == Endian::LittleEndian,
{
    Endian::LittleEndian
}

impl Default for Endian {
    fn default() -> (r: Endian)
        ensures
            r == Endian::LittleEndian,
    {
        system_endian()
    }
}

} // verus!
