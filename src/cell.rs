use vstd::prelude::*;
use crate::error::ParseError;
use crate::model::{
    DbHeader, IndexCellPayload, InteriorIndexCell, InteriorIndexCellView, InteriorTableCell,
    LeafIndexCell, LeafIndexCellView, LeafTableCell, LeafTableCellView, RecordView, TableCellPayload,
};
use crate::numeric::{be_uint, read_u32};
use crate::record::{index_cell_payload, index_rowid_of, record_of, table_cell_payload};
use crate::varint::{read_varint, varint_at};

verus! {

/// How much of a cell's payload a page keeps: payloads up to `max_local`
/// bytes stay whole; larger ones keep a part of at least `min_local` bytes
/// and continue on overflow pages of `usable` bytes.
#[derive(Debug, Clone, Copy, PartialEq, Eq, Structural)]
pub struct PayloadLimits {
    pub usable: u64,
    pub max_local: u64,
    pub min_local: u64,
}

/// `(u - 12) * frac / 255 - 23`, the bound that a payload fraction sets on a
/// page of `u` bytes, or 0 where that is negative.
pub open spec fn fraction_limit(u: nat, frac: u8) -> nat {
    let a = (u - 12) * frac as int / 255;
    if a < 23 { 0 } else { (a - 23) as nat }
}

pub open spec fn min_nat(a: nat, b: nat) -> nat {
    if a <= b { a } else { b }
}

/// Limits for the cells of table leaf pages.
pub open spec fn table_leaf_limits(hdr: DbHeader) -> PayloadLimits {
    let u = hdr.page_size.spec_real_size();
    let x = (u - 35) as nat;
    PayloadLimits {
        usable: u as u64,
        max_local: x as u64,
        min_local: min_nat(fraction_limit(u, hdr.leaf_payload_fraction), x) as u64,
    }
}

/// Limits for the cells of index pages.
pub open spec fn index_limits(hdr: DbHeader) -> PayloadLimits {
    let u = hdr.page_size.spec_real_size();
    let x = fraction_limit(u, hdr.max_payload_fraction);
    PayloadLimits {
        usable: u as u64,
        max_local: x as u64,
        min_local: min_nat(fraction_limit(u, hdr.min_payload_fraction), x) as u64,
    }
}

/// Number of bytes of a payload of `size` bytes that stay on the page.
pub open spec fn local_payload_size(size: nat, l: PayloadLimits) -> nat {
    if size <= l.max_local {
        size
    } else {
        let k = l.min_local + (size - l.min_local) % (l.usable - 4);
        if k <= l.max_local { k as nat } else { l.min_local as nat }
    }
}

/// Where the on-page part of a payload of `size` bytes starting at `q` of the
/// page `b` ends, and the overflow page number stored after it when the
/// payload does not fit.
#[verifier::opaque]
pub open spec fn payload_extent(b: Seq<u8>, q: int, size: nat, l: PayloadLimits) -> Result<(int, Option<u32>), ParseError> {
    let end = q + local_payload_size(size, l);
    if end > b.len() {
        Err(ParseError::Truncated)
    } else if size <= l.max_local {
        Ok((end, None))
    } else if end + 4 > b.len() {
        Err(ParseError::Truncated)
    } else {
        Ok((end, Some(be_uint(b, end, 4) as u32)))
    }
}

/// Cell of an interior table page at `off` of the page `b`.
pub open spec fn interior_table_cell_at(b: Seq<u8>, off: int) -> Result<InteriorTableCell, ParseError> {
    if off + 4 > b.len() {
        Err(ParseError::Truncated)
    } else {
        match varint_at(b, off + 4) {
            None => Err(ParseError::Truncated),
            Some((k, _)) => Ok(InteriorTableCell { left_child_page_no: be_uint(b, off, 4) as u32, integer_key: k as u64 }),
        }
    }
}

/// Cell of a leaf table page at `off` of the page `b`.
pub open spec fn leaf_table_cell_at(b: Seq<u8>, off: int, hdr: DbHeader) -> Result<LeafTableCellView, ParseError> {
    match varint_at(b, off) {
        None => Err(ParseError::Truncated),
        Some((size, n1)) => match varint_at(b, off + n1) {
            None => Err(ParseError::Truncated),
            Some((rowid, n2)) => {
                let q = off + n1 + n2;
                match payload_extent(b, q, size, table_leaf_limits(hdr)) {
                    Err(e) => Err(e),
                    Ok((end, overflow)) => match record_of(b.subrange(q, end), hdr.db_text_encoding, overflow is Some) {
                        Err(e) => Err(e),
                        Ok(rec) => Ok(LeafTableCellView {
                            payload_size: size as u64,
                            rowid: rowid as u64,
                            payload: rec,
                            overflow_page_no: overflow,
                        }),
                    },
                }
            },
        },
    }
}

/// Record of an index cell whose payload starts at `q` of the page `b`,
/// with the row id that closes it and the overflow page number.
pub open spec fn index_payload_at(b: Seq<u8>, q: int, size: nat, hdr: DbHeader) -> Result<((RecordView, Option<i64>), Option<u32>), ParseError> {
    match payload_extent(b, q, size, index_limits(hdr)) {
        Err(e) => Err(e),
        Ok((end, overflow)) => match record_of(b.subrange(q, end), hdr.db_text_encoding, overflow is Some) {
            Err(e) => Err(e),
            Ok(rec) => Ok(((rec, index_rowid_of(rec.column_values)), overflow)),
        },
    }
}

/// Cell of a leaf index page at `off` of the page `b`.
pub open spec fn leaf_index_cell_at(b: Seq<u8>, off: int, hdr: DbHeader) -> Result<LeafIndexCellView, ParseError> {
    match varint_at(b, off) {
        None => Err(ParseError::Truncated),
        Some((size, n)) => match index_payload_at(b, off + n, size, hdr) {
            Err(e) => Err(e),
            Ok((payload, overflow)) => Ok(LeafIndexCellView { payload_size: size as u64, payload, overflow_page_no: overflow }),
        },
    }
}

/// Cell of an interior index page at `off` of the page `b`.
pub open spec fn interior_index_cell_at(b: Seq<u8>, off: int, hdr: DbHeader) -> Result<InteriorIndexCellView, ParseError> {
    if off + 4 > b.len() {
        Err(ParseError::Truncated)
    } else {
        match varint_at(b, off + 4) {
            None => Err(ParseError::Truncated),
            Some((size, n)) => match index_payload_at(b, off + 4 + n, size, hdr) {
                Err(e) => Err(e),
                Ok((payload, overflow)) => Ok(InteriorIndexCellView {
                    left_child_page_no: be_uint(b, off, 4) as u32,
                    payload_size: size as u64,
                    payload,
                    overflow_page_no: overflow,
                }),
            },
        }
    }
}

fn fraction_bound(u: u64, frac: u8) -> (r: u64)
    requires
        512 <= u <= 65536,
    ensures
        r == fraction_limit(u as nat, frac),
{
    assert((u - 12) * frac as int <= 65536 * 255) by (nonlinear_arith)
        requires
            12 <= u <= 65536,
    ;
    let a = (u - 12) * frac as u64 / 255;
    if a < 23 {
        0
    } else {
        a - 23
    }
}

/// The payload limits of a table leaf page (`table_leaf`) or of an index page.
pub fn payload_limits(hdr: &DbHeader, table_leaf: bool) -> (r: PayloadLimits)
    requires
        hdr.wf(),
    ensures
        r == (if table_leaf { table_leaf_limits(*hdr) } else { index_limits(*hdr) }),
        512 <= r.usable <= 65536,
        r.min_local <= r.max_local <= r.usable - 35,
{
    let u = hdr.page_size.real_size() as u64;
    if table_leaf {
        let x = u - 35;
        let m = fraction_bound(u, hdr.leaf_payload_fraction);
        PayloadLimits { usable: u, max_local: x, min_local: if m <= x { m } else { x } }
    } else {
        let x = fraction_bound(u, hdr.max_payload_fraction);
        let m = fraction_bound(u, hdr.min_payload_fraction);
        assert((u - 12) * hdr.max_payload_fraction as int / 255 <= u - 12) by (nonlinear_arith)
            requires
                u >= 12,
                hdr.max_payload_fraction <= 255,
        ;
        PayloadLimits { usable: u, max_local: x, min_local: if m <= x { m } else { x } }
    }
}

/// Finds the end of the on-page part of a payload of `size` bytes at `q` of
/// the page `b`, and reads the overflow page number after it where there is one.
fn locate_payload(b: &[u8], q: usize, size: u64, l: PayloadLimits) -> (r: Result<(usize, Option<u32>), ParseError>)
    requires
        q <= b@.len(),
        512 <= l.usable <= 65536,
        l.min_local <= l.max_local <= l.usable - 35,
    ensures
        match payload_extent(b@, q as int, size as nat, l) {
            Ok((end, overflow)) => r matches Ok((e, o)) && e == end && o == overflow,
            Err(e) => r == Err::<(usize, Option<u32>), ParseError>(e),
        },
        r matches Ok((end, _)) ==> q <= end <= b@.len(),
{
    reveal(payload_extent);
    let local = if size <= l.max_local {
        size
    } else {
        let k = l.min_local + (size - l.min_local) % (l.usable - 4);
        if k <= l.max_local {
            k
        } else {
            l.min_local
        }
    };
    assert(local == local_payload_size(size as nat, l));
    let avail = b.len() - q;
    if local > avail as u64 {
        return Err(ParseError::Truncated);
    }
    let end = q + local as usize;
    if size <= l.max_local {
        Ok((end, None))
    } else if b.len() - end < 4 {
        Err(ParseError::Truncated)
    } else {
        Ok((end, Some(read_u32(b, end))))
    }
}

/// Decodes the cell of an interior table page at `off` of the page `b`.
pub fn interior_table_cell(b: &[u8], off: usize) -> (r: Result<InteriorTableCell, ParseError>)
    requires
        off <= b@.len(),
    ensures
        match interior_table_cell_at(b@, off as int) {
            Ok(c) => r == Ok::<InteriorTableCell, ParseError>(c),
            Err(e) => r == Err::<InteriorTableCell, ParseError>(e),
        },
{
    if b.len() - off < 4 {
        return Err(ParseError::Truncated);
    }
    let left_child_page_no = read_u32(b, off);
    match read_varint(b, off + 4) {
        Ok((integer_key, _)) => Ok(InteriorTableCell { left_child_page_no, integer_key }),
        Err(e) => Err(e),
    }
}

/// Decodes the cell of a leaf table page at `off` of the page `b`.
pub fn leaf_table_cell(b: &[u8], off: usize, hdr: &DbHeader) -> (r: Result<LeafTableCell, ParseError>)
    requires
        off <= b@.len(),
        hdr.wf(),
    ensures
        match leaf_table_cell_at(b@, off as int, *hdr) {
            Ok(c) => r matches Ok(x) && x.deep_view() == c,
            Err(e) => r matches Err(x) && x == e,
        },
{
    let (payload_size, p) = match read_varint(b, off) {
        Ok(x) => x,
        Err(e) => {
            return Err(e);
        },
    };
    let (rowid, q) = match read_varint(b, p) {
        Ok(x) => x,
        Err(e) => {
            return Err(e);
        },
    };
    let limits = payload_limits(hdr, true);
    let (end, overflow_page_no) = match locate_payload(b, q, payload_size, limits) {
        Ok(x) => x,
        Err(e) => {
            return Err(e);
        },
    };
    match table_cell_payload(
        vstd::slice::slice_subrange(b, q, end),
        hdr.db_text_encoding,
        overflow_page_no.is_some(),
    ) {
        Ok(payload) => Ok(LeafTableCell { payload_size, rowid, payload, overflow_page_no }),
        Err(e) => Err(e),
    }
}

/// Decodes the payload of an index cell that starts at `q` of the page `b`.
fn index_payload(b: &[u8], q: usize, size: u64, hdr: &DbHeader) -> (r: Result<(IndexCellPayload, Option<u32>), ParseError>)
    requires
        q <= b@.len(),
        hdr.wf(),
    ensures
        match index_payload_at(b@, q as int, size as nat, *hdr) {
            Ok((p, overflow)) => r matches Ok((x, o)) && x.deep_view() == p && o == overflow,
            Err(e) => r matches Err(x) && x == e,
        },
{
    let limits = payload_limits(hdr, false);
    let (end, overflow_page_no) = match locate_payload(b, q, size, limits) {
        Ok(x) => x,
        Err(e) => {
            return Err(e);
        },
    };
    match index_cell_payload(
        vstd::slice::slice_subrange(b, q, end),
        hdr.db_text_encoding,
        overflow_page_no.is_some(),
    ) {
        Ok(payload) => Ok((payload, overflow_page_no)),
        Err(e) => Err(e),
    }
}

/// Decodes the cell of a leaf index page at `off` of the page `b`.
pub fn leaf_index_cell(b: &[u8], off: usize, hdr: &DbHeader) -> (r: Result<LeafIndexCell, ParseError>)
    requires
        off <= b@.len(),
        hdr.wf(),
    ensures
        match leaf_index_cell_at(b@, off as int, *hdr) {
            Ok(c) => r matches Ok(x) && x.deep_view() == c,
            Err(e) => r matches Err(x) && x == e,
        },
{
    let (payload_size, q) = match read_varint(b, off) {
        Ok(x) => x,
        Err(e) => {
            return Err(e);
        },
    };
    match index_payload(b, q, payload_size, hdr) {
        Ok((payload, overflow_page_no)) => Ok(LeafIndexCell { payload_size, payload, overflow_page_no }),
        Err(e) => Err(e),
    }
}

/// Decodes the cell of an interior index page at `off` of the page `b`.
pub fn interior_index_cell(b: &[u8], off: usize, hdr: &DbHeader) -> (r: Result<InteriorIndexCell, ParseError>)
    requires
        off <= b@.len(),
        hdr.wf(),
    ensures
        match interior_index_cell_at(b@, off as int, *hdr) {
            Ok(c) => r matches Ok(x) && x.deep_view() == c,
            Err(e) => r matches Err(x) && x == e,
        },
{
    if b.len() - off < 4 {
        return Err(ParseError::Truncated);
    }
    let left_child_page_no = read_u32(b, off);
    let (payload_size, q) = match read_varint(b, off + 4) {
        Ok(x) => x,
        Err(e) => {
            return Err(e);
        },
    };
    match index_payload(b, q, payload_size, hdr) {
        Ok((payload, overflow_page_no)) => Ok(
            InteriorIndexCell { left_child_page_no, payload_size, payload, overflow_page_no },
        ),
        Err(e) => Err(e),
    }
}

} // verus!
