//! Values kept in the binary format.
use vstd::prelude::*;
use crate::error::ParserError;
use crate::reader::ByteReader;

verus! {

/// A value read from and written as binary records.
pub trait BinFormatIO<InternalType>: Sized {
    /// Reads a value from the front of `reader`.
    fn new_from_bin_reader(reader: &mut ByteReader) -> Result<InternalType, ParserError>;

    /// Writes the value at the end of `writer`.
    fn write_as_bin_to_writer(&self, writer: &mut Vec<u8>) -> Result<(), ParserError>;
}

} // verus!
