//! Values kept in the key-value text format.
use vstd::prelude::*;
use crate::error::ParserError;
use crate::reader::ByteReader;

verus! {

/// A value read from and written as `KEY: value` records.
pub trait TextFormatIO<InternalType>: Sized {
    /// Reads a value from the front of `reader`.
    fn new_from_text_reader(reader: &mut ByteReader) -> Result<InternalType, ParserError>;

    /// Writes the value at the end of `writer`.
    fn write_as_text_to_writer(&mut self, writer: &mut Vec<u8>) -> Result<(), ParserError>;
}

} // verus!
