use vstd::prelude::*;

verus! {

/// Why a piece of the file could not be decoded.
#[derive(Debug, Clone, Copy, PartialEq, Eq, Structural)]
pub enum ParseError {
    /// The input ended inside a fixed-width or variable-length field.
    Truncated,
    /// The file does not start with `"SQLite format 3\0"`.
    BadMagic,
    /// The page size field is neither 1 nor a power of two in 512..=32768.
    BadPageSize(u16),
    /// The text encoding field is not 1, 2 or 3.
    UnknownTextEncoding(u32),
    /// The page type byte is not one of 0x02, 0x05, 0x0A, 0x0D.
    UnknownPageType(u8),
    /// A column of serial type 10 or 11 was read.
    ReservedSerialType,
    /// A record's header size is smaller than the varint that encodes it.
    BadRecordHeader,
    /// A slot of the cell pointer array points outside the page.
    BadCellPointer(u16),
}

/// Failure of a reader operation, with the page it concerned where there is one.
#[derive(Debug, Clone, Copy, PartialEq, Eq, Structural)]
pub enum SQLiteError {
    /// The file header could not be decoded.
    ParsingError(ParseError),
    /// The page with this zero-based number could not be decoded.
    PageError(u32, ParseError),
    /// The page with this zero-based number lies beyond the end of the file.
    PageOutOfRange(u32),
}

/// Bytes kept by value, so that they can outlive the buffer they came from.
#[derive(Debug, PartialEq, Eq)]
pub struct OwnedBytes(pub Vec<u8>);

impl From<Vec<u8>> for OwnedBytes {
    fn from(value: Vec<u8>) -> (r: Self) {
        OwnedBytes(value)
    }
}

impl vstd::std_specs::convert::FromSpecImpl<Vec<u8>> for OwnedBytes {
    open spec fn obeys_from_spec() -> bool {
        true
    }

    open spec fn from_spec(v: Vec<u8>) -> OwnedBytes {
        OwnedBytes(v)
    }
}

} // verus!
