//! Reading fixed-width integers, byte spans and strings out of binary data,
//! in a byte order chosen by the caller.
//!
//! `reader::BytesReader` reads through a cursor over a buffer that it owns;
//! `io` reads at given offsets of a slice and appends values to a vector.
pub mod endian;
pub mod numeric;
pub mod error;
pub mod text;
pub mod reader;
pub mod io;
pub mod async_reader;

pub use endian::Endian;
pub use error::{BinError, ErrorKind};
