//! Read-only decoder for the SQLite version 3 database file format.
//!
//! The library works on a byte image of a database file: it decodes the
//! 100-byte file header and any single b-tree page into typed values. Every
//! decoder is stated against a specification over byte sequences and proved
//! to meet it.
use vstd::prelude::*;

pub mod be_i48;
pub mod cell;
pub mod error;
pub mod model;
pub mod numeric;
pub mod parser;
pub mod record;
pub mod varint;

use crate::error::SQLiteError;
use crate::model::{DbHeader, Page};
use crate::parser::{db_header, db_header_of, get_page_of, page_at};

verus! {

/// A database file held in memory, with its decoded header.
pub struct Reader {
    buf: Vec<u8>,
    pub header: DbHeader,
}

/// What a reader holds: the bytes of the file and its decoded header.
pub struct ReaderView {
    pub bytes: Seq<u8>,
    pub header: DbHeader,
}

impl View for Reader {
    type V = ReaderView;

    closed spec fn view(&self) -> ReaderView {
        ReaderView { bytes: self.buf@, header: self.header }
    }
}

impl Reader {
    /// Opens a database held in `buf`: decodes its file header.
    pub fn from_source(buf: Vec<u8>) -> (r: Result<Reader, SQLiteError>)
        ensures
            match db_header_of(buf@) {
                Ok(h) => r matches Ok(rd) && rd@ == (ReaderView { bytes: buf@, header: h }) && h.wf(),
                Err(e) => r == Err::<Reader, SQLiteError>(SQLiteError::ParsingError(e)),
            },
    {
        match db_header(buf.as_slice()) {
            Ok(header) => Ok(Reader { buf, header }),
            Err(e) => Err(SQLiteError::ParsingError(e)),
        }
    }

    /// Decodes page `pageno` (zero-based). Page 0 shares its first bytes with
    /// the file header, and its slot values count from the start of the file.
    pub fn get_page(&self, pageno: u32) -> (r: Result<Page, SQLiteError>)
        requires
            self@.header.wf(),
        ensures
            match get_page_of(self@.bytes, self@.header, pageno) {
                Ok(pv) => r matches Ok(p) && p.deep_view() == pv,
                Err(e) => r matches Err(x) && x == e,
            },
    {
        page_at(self.buf.as_slice(), &self.header, pageno)
    }
}

} // verus!
