use vstd::prelude::*;
use crate::error::{ParseError, SQLiteError};
use crate::cell::{
    interior_index_cell, interior_index_cell_at, interior_table_cell, interior_table_cell_at, leaf_index_cell,
    leaf_index_cell_at, leaf_table_cell, leaf_table_cell_at,
};
use crate::model::{
    text_encoding_of, valid_page_size, CellOffset, Database, DbHeader, InteriorIndexCell, InteriorIndexCellView,
    InteriorIndexPage, InteriorPageHeader, InteriorTableCell, InteriorTablePage, LeafIndexCell, LeafIndexCellView,
    LeafIndexPage, LeafPageHeader, LeafTableCell, LeafTableCellView, LeafTablePage, Page, PageBody, PageSize,
    PageView, TextEncoding,
};
use crate::numeric::{be_uint, read_u16, read_u32};

verus! {

/// Size in bytes of the file header, which page 1 shares.
pub const HEADER_SIZE: usize = 100;

/// The 16 bytes that open every database file: `"SQLite format 3\0"`.
pub open spec fn magic() -> Seq<u8> {
    seq![0x53u8, 0x51, 0x4c, 0x69, 0x74, 0x65, 0x20, 0x66, 0x6f, 0x72, 0x6d, 0x61, 0x74, 0x20, 0x33, 0x00]
}

/// The file header that the bytes `b` begin with.
pub open spec fn db_header_of(b: Seq<u8>) -> Result<DbHeader, ParseError> {
    if b.len() < 100 {
        Err(ParseError::Truncated)
    } else if b.subrange(0, 16) != magic() {
        Err(ParseError::BadMagic)
    } else if !valid_page_size(be_uint(b, 16, 2) as u16) {
        Err(ParseError::BadPageSize(be_uint(b, 16, 2) as u16))
    } else {
        match text_encoding_of(be_uint(b, 56, 4) as u32) {
            Err(e) => Err(e),
            Ok(enc) => Ok(DbHeader {
                page_size: PageSize(be_uint(b, 16, 2) as u16),
                write_version: b[18],
                read_version: b[19],
                max_payload_fraction: b[21],
                min_payload_fraction: b[22],
                leaf_payload_fraction: b[23],
                file_change_counter: be_uint(b, 24, 4) as u32,
                db_size: be_uint(b, 28, 4) as u32,
                first_freelist_page_no: be_uint(b, 32, 4) as u32,
                total_freelist_pages: be_uint(b, 36, 4) as u32,
                schema_cookie: be_uint(b, 40, 4) as u32,
                schema_format_no: be_uint(b, 44, 4) as u32,
                default_page_cache_size: be_uint(b, 48, 4) as u32,
                no_largest_root_b_tree: be_uint(b, 52, 4) as u32,
                db_text_encoding: enc,
                user_version: be_uint(b, 60, 4) as u32,
                incremental_vacuum_mode: be_uint(b, 64, 4) as u32,
                application_id: be_uint(b, 68, 4) as u32,
                version_valid_for_no: be_uint(b, 92, 4) as u32,
                sqlite_version_number: be_uint(b, 96, 4) as u32,
            }),
        }
    }
}

/// File header parser: page size and text encoding are what the page
/// decoders need from it.
pub fn db_header(i: &[u8]) -> (r: Result<DbHeader, ParseError>)
    ensures
        match db_header_of(i@) {
            Ok(h) => r == Ok::<DbHeader, ParseError>(h) && h.wf(),
            Err(e) => r == Err::<DbHeader, ParseError>(e),
        },
{
    if i.len() < HEADER_SIZE {
        return Err(ParseError::Truncated);
    }
    let expected: [u8; 16] = [0x53, 0x51, 0x4c, 0x69, 0x74, 0x65, 0x20, 0x66, 0x6f, 0x72, 0x6d, 0x61, 0x74, 0x20, 0x33, 0x00];
    assert(expected@ == magic());
    let mut k: usize = 0;
    while k < 16
        invariant
            k <= 16,
            i@.len() >= 100,
            expected@ == magic(),
            forall|j: int| 0 <= j < k ==> i@[j] == magic()[j],
        decreases 16 - k,
    {
        if i[k] != expected[k] {
            assert(i@.subrange(0, 16)[k as int] != magic()[k as int]);
            return Err(ParseError::BadMagic);
        }
        k = k + 1;
    }
    assert(i@.subrange(0, 16) =~= magic());
    let raw_page_size = read_u16(i, 16);
    if !(raw_page_size == 1 || raw_page_size == 512 || raw_page_size == 1024 || raw_page_size == 2048
        || raw_page_size == 4096 || raw_page_size == 8192 || raw_page_size == 16384 || raw_page_size == 32768) {
        return Err(ParseError::BadPageSize(raw_page_size));
    }
    let db_text_encoding = match TextEncoding::try_from(read_u32(i, 56)) {
        Ok(e) => e,
        Err(e) => {
            return Err(e);
        },
    };
    Ok(DbHeader {
        page_size: PageSize(raw_page_size),
        write_version: i[18],
        read_version: i[19],
        max_payload_fraction: i[21],
        min_payload_fraction: i[22],
        leaf_payload_fraction: i[23],
        file_change_counter: read_u32(i, 24),
        db_size: read_u32(i, 28),
        first_freelist_page_no: read_u32(i, 32),
        total_freelist_pages: read_u32(i, 36),
        schema_cookie: read_u32(i, 40),
        schema_format_no: read_u32(i, 44),
        default_page_cache_size: read_u32(i, 48),
        no_largest_root_b_tree: read_u32(i, 52),
        db_text_encoding,
        user_version: read_u32(i, 60),
        incremental_vacuum_mode: read_u32(i, 64),
        application_id: read_u32(i, 68),
        version_valid_for_no: read_u32(i, 92),
        sqlite_version_number: read_u32(i, 96),
    })
}

/// A freeblock offset field: 0 means that the page has no freeblock.
pub open spec fn freeblock_of(x: nat) -> Option<u16> {
    if x == 0 { None } else { Some(x as u16) }
}

/// Header of a leaf page `b`, which follows its type byte.
pub open spec fn leaf_page_header_of(b: Seq<u8>) -> Option<LeafPageHeader> {
    if b.len() < 8 {
        None
    } else {
        Some(LeafPageHeader {
            first_freeblock_offset: freeblock_of(be_uint(b, 1, 2)),
            no_cells: be_uint(b, 3, 2) as u16,
            cell_content_offset: CellOffset(be_uint(b, 5, 2) as u16),
            no_fragmented_bytes: b[7],
        })
    }
}

/// Header of an interior page `b`, which follows its type byte.
pub open spec fn interior_page_header_of(b: Seq<u8>) -> Option<InteriorPageHeader> {
    if b.len() < 12 {
        None
    } else {
        Some(InteriorPageHeader {
            first_freeblock_offset: freeblock_of(be_uint(b, 1, 2)),
            no_cells: be_uint(b, 3, 2) as u16,
            cell_content_offset: CellOffset(be_uint(b, 5, 2) as u16),
            no_fragmented_bytes: b[7],
            rightmost_pointer: be_uint(b, 8, 4) as u32,
        })
    }
}

/// The slot array of `count` big-endian u16 values at `p` of the page `b`.
pub open spec fn cell_pointers_of(b: Seq<u8>, p: int, count: nat) -> Option<Seq<u16>> {
    if p + 2 * count <= b.len() {
        Some(Seq::new(count, |k: int| be_uint(b, p + 2 * k, 2) as u16))
    } else {
        None
    }
}

/// Adds to `cs` the cell that the slot value `ptr` points at. Slot values
/// count from `start` bytes before the first byte of `b`.
pub open spec fn push_cell<C>(b: Seq<u8>, start: int, ptr: u16, cell: spec_fn(int) -> Result<C, ParseError>, cs: Seq<C>) -> Result<Seq<C>, ParseError> {
    if start <= ptr && ptr - start < b.len() {
        match cell(ptr - start) {
            Ok(c) => Ok(cs.push(c)),
            Err(e) => Err(e),
        }
    } else {
        Err(ParseError::BadCellPointer(ptr))
    }
}

/// The cells that the slot values `ptrs` point at, in slot order.
pub open spec fn cells_from<C>(b: Seq<u8>, start: int, ptrs: Seq<u16>, cell: spec_fn(int) -> Result<C, ParseError>) -> Result<Seq<C>, ParseError>
    decreases ptrs.len(),
{
    if ptrs.len() == 0 {
        Ok(seq![])
    } else {
        match cells_from(b, start, ptrs.drop_last(), cell) {
            Err(e) => Err(e),
            Ok(cs) => push_cell(b, start, ptrs.last(), cell, cs),
        }
    }
}

proof fn lemma_cells_step<C>(b: Seq<u8>, start: int, ptrs: Seq<u16>, cell: spec_fn(int) -> Result<C, ParseError>, k: int)
    requires
        0 <= k < ptrs.len(),
    ensures
        cells_from(b, start, ptrs.take(k + 1), cell) == match cells_from(b, start, ptrs.take(k), cell) {
            Err(e) => Err(e),
            Ok(cs) => push_cell(b, start, ptrs[k], cell, cs),
        },
{
    assert(ptrs.take(k + 1).drop_last() =~= ptrs.take(k));
}

proof fn lemma_cells_err<C>(b: Seq<u8>, start: int, ptrs: Seq<u16>, cell: spec_fn(int) -> Result<C, ParseError>, k: int)
    requires
        0 <= k <= ptrs.len(),
        cells_from(b, start, ptrs.take(k), cell) is Err,
    ensures
        cells_from(b, start, ptrs, cell) == cells_from(b, start, ptrs.take(k), cell),
    decreases ptrs.len() - k,
{
    if k < ptrs.len() {
        lemma_cells_step(b, start, ptrs, cell, k);
        lemma_cells_err(b, start, ptrs, cell, k + 1);
    } else {
        assert(ptrs.take(k) =~= ptrs);
    }
}

proof fn lemma_cells_len<C>(b: Seq<u8>, start: int, ptrs: Seq<u16>, cell: spec_fn(int) -> Result<C, ParseError>)
    ensures
        cells_from(b, start, ptrs, cell) matches Ok(cs) ==> cs.len() == ptrs.len(),
    decreases ptrs.len(),
{
    if ptrs.len() > 0 {
        lemma_cells_len(b, start, ptrs.drop_last(), cell);
    }
}

pub open spec fn interior_index_cell_fn(b: Seq<u8>, hdr: DbHeader) -> spec_fn(int) -> Result<InteriorIndexCellView, ParseError> {
    |off: int| interior_index_cell_at(b, off, hdr)
}

pub open spec fn leaf_index_cell_fn(b: Seq<u8>, hdr: DbHeader) -> spec_fn(int) -> Result<LeafIndexCellView, ParseError> {
    |off: int| leaf_index_cell_at(b, off, hdr)
}

pub open spec fn interior_table_cell_fn(b: Seq<u8>) -> spec_fn(int) -> Result<InteriorTableCell, ParseError> {
    |off: int| interior_table_cell_at(b, off)
}

pub open spec fn leaf_table_cell_fn(b: Seq<u8>, hdr: DbHeader) -> spec_fn(int) -> Result<LeafTableCellView, ParseError> {
    |off: int| leaf_table_cell_at(b, off, hdr)
}

/// Body of an interior page: header, slot array, and cells read by `cell`.
pub open spec fn interior_body_of<C>(b: Seq<u8>, start: int, cell: spec_fn(int) -> Result<C, ParseError>) -> Result<PageBody<InteriorPageHeader, C>, ParseError> {
    match interior_page_header_of(b) {
        None => Err(ParseError::Truncated),
        Some(h) => match cell_pointers_of(b, 12, h.no_cells as nat) {
            None => Err(ParseError::Truncated),
            Some(ptrs) => match cells_from(b, start, ptrs, cell) {
                Ok(cs) => Ok(PageBody { header: h, cell_pointers: ptrs, cells: cs }),
                Err(e) => Err(e),
            },
        },
    }
}

/// Body of a leaf page: header, slot array, and cells read by `cell`.
pub open spec fn leaf_body_of<C>(b: Seq<u8>, start: int, cell: spec_fn(int) -> Result<C, ParseError>) -> Result<PageBody<LeafPageHeader, C>, ParseError> {
    match leaf_page_header_of(b) {
        None => Err(ParseError::Truncated),
        Some(h) => match cell_pointers_of(b, 8, h.no_cells as nat) {
            None => Err(ParseError::Truncated),
            Some(ptrs) => match cells_from(b, start, ptrs, cell) {
                Ok(cs) => Ok(PageBody { header: h, cell_pointers: ptrs, cells: cs }),
                Err(e) => Err(e),
            },
        },
    }
}

/// The page held by `b`, whose first byte is the page type. Slot values
/// count from `start` bytes before the first byte of `b`.
#[verifier::opaque]
pub open spec fn page_of(b: Seq<u8>, start: int, hdr: DbHeader) -> Result<PageView, ParseError> {
    if b.len() == 0 {
        Err(ParseError::Truncated)
    } else if b[0] == 0x02 {
        match interior_body_of(b, start, interior_index_cell_fn(b, hdr)) {
            Ok(p) => Ok(PageView::InteriorIndex(p)),
            Err(e) => Err(e),
        }
    } else if b[0] == 0x0a {
        match leaf_body_of(b, start, leaf_index_cell_fn(b, hdr)) {
            Ok(p) => Ok(PageView::LeafIndex(p)),
            Err(e) => Err(e),
        }
    } else if b[0] == 0x05 {
        match interior_body_of(b, start, interior_table_cell_fn(b)) {
            Ok(p) => Ok(PageView::InteriorTable(p)),
            Err(e) => Err(e),
        }
    } else if b[0] == 0x0d {
        match leaf_body_of(b, start, leaf_table_cell_fn(b, hdr)) {
            Ok(p) => Ok(PageView::LeafTable(p)),
            Err(e) => Err(e),
        }
    } else {
        Err(ParseError::UnknownPageType(b[0]))
    }
}

/// Every decoded page has as many cells and slots as its header counts.
pub proof fn lemma_page_cell_count(b: Seq<u8>, start: int, hdr: DbHeader)
    ensures
        page_of(b, start, hdr) matches Ok(pv) ==> match pv {
            PageView::InteriorIndex(p) => p.cells.len() == p.header.no_cells && p.cell_pointers.len() == p.header.no_cells,
            PageView::LeafIndex(p) => p.cells.len() == p.header.no_cells && p.cell_pointers.len() == p.header.no_cells,
            PageView::InteriorTable(p) => p.cells.len() == p.header.no_cells && p.cell_pointers.len() == p.header.no_cells,
            PageView::LeafTable(p) => p.cells.len() == p.header.no_cells && p.cell_pointers.len() == p.header.no_cells,
        },
{
    reveal(page_of);
    if let Some(h) = interior_page_header_of(b) {
        if let Some(ptrs) = cell_pointers_of(b, 12, h.no_cells as nat) {
            lemma_cells_len(b, start, ptrs, interior_index_cell_fn(b, hdr));
            lemma_cells_len(b, start, ptrs, interior_table_cell_fn(b));
        }
    }
    if let Some(h) = leaf_page_header_of(b) {
        if let Some(ptrs) = cell_pointers_of(b, 8, h.no_cells as nat) {
            lemma_cells_len(b, start, ptrs, leaf_index_cell_fn(b, hdr));
            lemma_cells_len(b, start, ptrs, leaf_table_cell_fn(b, hdr));
        }
    }
}

fn freeblock(x: u16) -> (r: Option<u16>)
    ensures
        r == freeblock_of(x as nat),
{
    if x == 0 {
        None
    } else {
        Some(x)
    }
}

/// Decodes the header of an interior page `b`.
fn interior_page_header(b: &[u8]) -> (r: Result<InteriorPageHeader, ParseError>)
    ensures
        match interior_page_header_of(b@) {
            Some(h) => r == Ok::<InteriorPageHeader, ParseError>(h),
            None => r == Err::<InteriorPageHeader, ParseError>(ParseError::Truncated),
        },
{
    if b.len() < 12 {
        return Err(ParseError::Truncated);
    }
    Ok(InteriorPageHeader {
        first_freeblock_offset: freeblock(read_u16(b, 1)),
        no_cells: read_u16(b, 3),
        cell_content_offset: CellOffset(read_u16(b, 5)),
        no_fragmented_bytes: b[7],
        rightmost_pointer: read_u32(b, 8),
    })
}

/// Decodes the header of a leaf page `b`.
fn leaf_page_header(b: &[u8]) -> (r: Result<LeafPageHeader, ParseError>)
    ensures
        match leaf_page_header_of(b@) {
            Some(h) => r == Ok::<LeafPageHeader, ParseError>(h),
            None => r == Err::<LeafPageHeader, ParseError>(ParseError::Truncated),
        },
{
    if b.len() < 8 {
        return Err(ParseError::Truncated);
    }
    Ok(LeafPageHeader {
        first_freeblock_offset: freeblock(read_u16(b, 1)),
        no_cells: read_u16(b, 3),
        cell_content_offset: CellOffset(read_u16(b, 5)),
        no_fragmented_bytes: b[7],
    })
}

/// Reads the slot array of `count` values at `p` of the page `b`.
fn cell_pointers(b: &[u8], p: usize, count: u16) -> (r: Result<Vec<u16>, ParseError>)
    requires
        p <= b@.len(),
    ensures
        match cell_pointers_of(b@, p as int, count as nat) {
            Some(ptrs) => r matches Ok(v) && v@ == ptrs,
            None => r == Err::<Vec<u16>, ParseError>(ParseError::Truncated),
        },
{
    let len = b.len();
    if (len - p) / 2 < count as usize {
        return Err(ParseError::Truncated);
    }
    let mut out: Vec<u16> = Vec::new();
    let mut k: usize = 0;
    while k < count as usize
        invariant
            k <= count,
            p + 2 * count <= b@.len(),
            len == b@.len(),
            out@.len() == k,
            forall|j: int| 0 <= j < k ==> #[trigger] out@[j] == be_uint(b@, p + 2 * j, 2) as u16,
        decreases count - k,
    {
        out.push(read_u16(b, p + 2 * k));
        k = k + 1;
    }
    assert(out@ =~= Seq::new(count as nat, |j: int| be_uint(b@, p + 2 * j, 2) as u16));
    Ok(out)
}

/// Decodes the header, slot array and cells of a interior index page `b`.
fn interior_index_b_tree_page(b: &[u8], start: usize, hdr: &DbHeader) -> (r: Result<InteriorIndexPage, ParseError>)
    requires
        hdr.wf(),
    ensures
        match interior_body_of(b@, start as int, interior_index_cell_fn(b@, *hdr)) {
            Ok(p) => r matches Ok(x) && x.deep_view() == p,
            Err(e) => r matches Err(x) && x == e,
        },
{
    let header = match interior_page_header(b) {
        Ok(h) => h,
        Err(e) => {
            return Err(e);
        },
    };
    let cell_pointers = match cell_pointers(b, 12, header.no_cells) {
        Ok(v) => v,
        Err(e) => {
            return Err(e);
        },
    };
    let ghost f = interior_index_cell_fn(b@, *hdr);
    let mut cells: Vec<InteriorIndexCell> = Vec::new();
    let mut k: usize = 0;
    let len = b.len();
    proof {
        assert(cell_pointers@.take(0) =~= Seq::<u16>::empty());
        assert(cells.deep_view() =~= Seq::<InteriorIndexCellView>::empty());
    }
    while k < cell_pointers.len()
        invariant
            interior_page_header_of(b@) == Some(header),
            cell_pointers_of(b@, 12, header.no_cells as nat) == Some(cell_pointers@),
            k <= cell_pointers@.len(),
            len == b@.len(),
            hdr.wf(),
            f == interior_index_cell_fn(b@, *hdr),
            cells_from(b@, start as int, cell_pointers@.take(k as int), f) == Ok::<Seq<InteriorIndexCellView>, ParseError>(
                cells.deep_view(),
            ),
        decreases cell_pointers@.len() - k,
    {
        let ptr = cell_pointers[k];
        proof {
            lemma_cells_step(b@, start as int, cell_pointers@, f, k as int);
            assert(cells_from(b@, start as int, cell_pointers@.take(k + 1), f) == push_cell(
                b@,
                start as int,
                ptr,
                f,
                cells.deep_view(),
            ));
        }
        if (ptr as usize) < start || ptr as usize - start >= len {
            proof {
                lemma_cells_err(b@, start as int, cell_pointers@, f, k + 1);
            }
            return Err(ParseError::BadCellPointer(ptr));
        }
        assert(f(ptr - start) == interior_index_cell_at(b@, ptr - start, *hdr));
        match interior_index_cell(b, ptr as usize - start, hdr) {
            Ok(c) => {
                let ghost before = cells.deep_view();
                let ghost cv = c.deep_view();
                cells.push(c);
                proof {
                    assert(cells.deep_view() =~= before.push(cv));
                }
            },
            Err(e) => {
                proof {
                    lemma_cells_err(b@, start as int, cell_pointers@, f, k + 1);
                }
                return Err(e);
            },
        }
        k = k + 1;
    }
    proof {
        assert(cell_pointers@.take(k as int) =~= cell_pointers@);
    }
    Ok(InteriorIndexPage { header, cell_pointers, cells })
}

/// Decodes the header, slot array and cells of a leaf index page `b`.
fn leaf_index_b_tree_page(b: &[u8], start: usize, hdr: &DbHeader) -> (r: Result<LeafIndexPage, ParseError>)
    requires
        hdr.wf(),
    ensures
        match leaf_body_of(b@, start as int, leaf_index_cell_fn(b@, *hdr)) {
            Ok(p) => r matches Ok(x) && x.deep_view() == p,
            Err(e) => r matches Err(x) && x == e,
        },
{
    let header = match leaf_page_header(b) {
        Ok(h) => h,
        Err(e) => {
            return Err(e);
        },
    };
    let cell_pointers = match cell_pointers(b, 8, header.no_cells) {
        Ok(v) => v,
        Err(e) => {
            return Err(e);
        },
    };
    let ghost f = leaf_index_cell_fn(b@, *hdr);
    let mut cells: Vec<LeafIndexCell> = Vec::new();
    let mut k: usize = 0;
    let len = b.len();
    proof {
        assert(cell_pointers@.take(0) =~= Seq::<u16>::empty());
        assert(cells.deep_view() =~= Seq::<LeafIndexCellView>::empty());
    }
    while k < cell_pointers.len()
        invariant
            leaf_page_header_of(b@) == Some(header),
            cell_pointers_of(b@, 8, header.no_cells as nat) == Some(cell_pointers@),
            k <= cell_pointers@.len(),
            len == b@.len(),
            hdr.wf(),
            f == leaf_index_cell_fn(b@, *hdr),
            cells_from(b@, start as int, cell_pointers@.take(k as int), f) == Ok::<Seq<LeafIndexCellView>, ParseError>(
                cells.deep_view(),
            ),
        decreases cell_pointers@.len() - k,
    {
        let ptr = cell_pointers[k];
        proof {
            lemma_cells_step(b@, start as int, cell_pointers@, f, k as int);
            assert(cells_from(b@, start as int, cell_pointers@.take(k + 1), f) == push_cell(
                b@,
                start as int,
                ptr,
                f,
                cells.deep_view(),
            ));
        }
        if (ptr as usize) < start || ptr as usize - start >= len {
            proof {
                lemma_cells_err(b@, start as int, cell_pointers@, f, k + 1);
            }
            return Err(ParseError::BadCellPointer(ptr));
        }
        assert(f(ptr - start) == leaf_index_cell_at(b@, ptr - start, *hdr));
        match leaf_index_cell(b, ptr as usize - start, hdr) {
            Ok(c) => {
                let ghost before = cells.deep_view();
                let ghost cv = c.deep_view();
                cells.push(c);
                proof {
                    assert(cells.deep_view() =~= before.push(cv));
                }
            },
            Err(e) => {
                proof {
                    lemma_cells_err(b@, start as int, cell_pointers@, f, k + 1);
                }
                return Err(e);
            },
        }
        k = k + 1;
    }
    proof {
        assert(cell_pointers@.take(k as int) =~= cell_pointers@);
    }
    Ok(LeafIndexPage { header, cell_pointers, cells })
}

/// Decodes the header, slot array and cells of a interior table page `b`.
fn interior_table_b_tree_page(b: &[u8], start: usize, hdr: &DbHeader) -> (r: Result<InteriorTablePage, ParseError>)
    requires
        hdr.wf(),
    ensures
        match interior_body_of(b@, start as int, interior_table_cell_fn(b@)) {
            Ok(p) => r matches Ok(x) && x.deep_view() == p,
            Err(e) => r matches Err(x) && x == e,
        },
{
    let header = match interior_page_header(b) {
        Ok(h) => h,
        Err(e) => {
            return Err(e);
        },
    };
    let cell_pointers = match cell_pointers(b, 12, header.no_cells) {
        Ok(v) => v,
        Err(e) => {
            return Err(e);
        },
    };
    let ghost f = interior_table_cell_fn(b@);
    let mut cells: Vec<InteriorTableCell> = Vec::new();
    let mut k: usize = 0;
    let len = b.len();
    proof {
        assert(cell_pointers@.take(0) =~= Seq::<u16>::empty());
        assert(cells.deep_view() =~= Seq::<InteriorTableCell>::empty());
    }
    while k < cell_pointers.len()
        invariant
            interior_page_header_of(b@) == Some(header),
            cell_pointers_of(b@, 12, header.no_cells as nat) == Some(cell_pointers@),
            k <= cell_pointers@.len(),
            len == b@.len(),
            hdr.wf(),
            f == interior_table_cell_fn(b@),
            cells_from(b@, start as int, cell_pointers@.take(k as int), f) == Ok::<Seq<InteriorTableCell>, ParseError>(
                cells.deep_view(),
            ),
        decreases cell_pointers@.len() - k,
    {
        let ptr = cell_pointers[k];
        proof {
            lemma_cells_step(b@, start as int, cell_pointers@, f, k as int);
            assert(cells_from(b@, start as int, cell_pointers@.take(k + 1), f) == push_cell(
                b@,
                start as int,
                ptr,
                f,
                cells.deep_view(),
            ));
        }
        if (ptr as usize) < start || ptr as usize - start >= len {
            proof {
                lemma_cells_err(b@, start as int, cell_pointers@, f, k + 1);
            }
            return Err(ParseError::BadCellPointer(ptr));
        }
        assert(f(ptr - start) == interior_table_cell_at(b@, ptr - start));
        match interior_table_cell(b, ptr as usize - start) {
            Ok(c) => {
                let ghost before = cells.deep_view();
                let ghost cv = c.deep_view();
                cells.push(c);
                proof {
                    assert(cells.deep_view() =~= before.push(cv));
                }
            },
            Err(e) => {
                proof {
                    lemma_cells_err(b@, start as int, cell_pointers@, f, k + 1);
                }
                return Err(e);
            },
        }
        k = k + 1;
    }
    proof {
        assert(cell_pointers@.take(k as int) =~= cell_pointers@);
    }
    Ok(InteriorTablePage { header, cell_pointers, cells })
}

/// Decodes the header, slot array and cells of a leaf table page `b`.
fn leaf_table_b_tree_page(b: &[u8], start: usize, hdr: &DbHeader) -> (r: Result<LeafTablePage, ParseError>)
    requires
        hdr.wf(),
    ensures
        match leaf_body_of(b@, start as int, leaf_table_cell_fn(b@, *hdr)) {
            Ok(p) => r matches Ok(x) && x.deep_view() == p,
            Err(e) => r matches Err(x) && x == e,
        },
{
    let header = match leaf_page_header(b) {
        Ok(h) => h,
        Err(e) => {
            return Err(e);
        },
    };
    let cell_pointers = match cell_pointers(b, 8, header.no_cells) {
        Ok(v) => v,
        Err(e) => {
            return Err(e);
        },
    };
    let ghost f = leaf_table_cell_fn(b@, *hdr);
    let mut cells: Vec<LeafTableCell> = Vec::new();
    let mut k: usize = 0;
    let len = b.len();
    proof {
        assert(cell_pointers@.take(0) =~= Seq::<u16>::empty());
        assert(cells.deep_view() =~= Seq::<LeafTableCellView>::empty());
    }
    while k < cell_pointers.len()
        invariant
            leaf_page_header_of(b@) == Some(header),
            cell_pointers_of(b@, 8, header.no_cells as nat) == Some(cell_pointers@),
            k <= cell_pointers@.len(),
            len == b@.len(),
            hdr.wf(),
            f == leaf_table_cell_fn(b@, *hdr),
            cells_from(b@, start as int, cell_pointers@.take(k as int), f) == Ok::<Seq<LeafTableCellView>, ParseError>(
                cells.deep_view(),
            ),
        decreases cell_pointers@.len() - k,
    {
        let ptr = cell_pointers[k];
        proof {
            lemma_cells_step(b@, start as int, cell_pointers@, f, k as int);
            assert(cells_from(b@, start as int, cell_pointers@.take(k + 1), f) == push_cell(
                b@,
                start as int,
                ptr,
                f,
                cells.deep_view(),
            ));
        }
        if (ptr as usize) < start || ptr as usize - start >= len {
            proof {
                lemma_cells_err(b@, start as int, cell_pointers@, f, k + 1);
            }
            return Err(ParseError::BadCellPointer(ptr));
        }
        assert(f(ptr - start) == leaf_table_cell_at(b@, ptr - start, *hdr));
        match leaf_table_cell(b, ptr as usize - start, hdr) {
            Ok(c) => {
                let ghost before = cells.deep_view();
                let ghost cv = c.deep_view();
                cells.push(c);
                proof {
                    assert(cells.deep_view() =~= before.push(cv));
                }
            },
            Err(e) => {
                proof {
                    lemma_cells_err(b@, start as int, cell_pointers@, f, k + 1);
                }
                return Err(e);
            },
        }
        k = k + 1;
    }
    proof {
        assert(cell_pointers@.take(k as int) =~= cell_pointers@);
    }
    Ok(LeafTablePage { header, cell_pointers, cells })
}

/// Decodes the page held by `b` by the kind its type byte names.
pub(crate) fn page_generic(b: &[u8], start: usize, hdr: &DbHeader) -> (r: Result<Page, ParseError>)
    requires
        hdr.wf(),
    ensures
        match page_of(b@, start as int, *hdr) {
            Ok(pv) => r matches Ok(p) && p.deep_view() == pv,
            Err(e) => r matches Err(x) && x == e,
        },
{
    reveal(page_of);
    if b.len() == 0 {
        return Err(ParseError::Truncated);
    }
    let t = b[0];
    if t == 0x02 {
        match interior_index_b_tree_page(b, start, hdr) {
            Ok(p) => Ok(Page::InteriorIndex(p)),
            Err(e) => Err(e),
        }
    } else if t == 0x0a {
        match leaf_index_b_tree_page(b, start, hdr) {
            Ok(p) => Ok(Page::LeafIndex(p)),
            Err(e) => Err(e),
        }
    } else if t == 0x05 {
        match interior_table_b_tree_page(b, start, hdr) {
            Ok(p) => Ok(Page::InteriorTable(p)),
            Err(e) => Err(e),
        }
    } else if t == 0x0d {
        match leaf_table_b_tree_page(b, start, hdr) {
            Ok(p) => Ok(Page::LeafTable(p)),
            Err(e) => Err(e),
        }
    } else {
        Err(ParseError::UnknownPageType(t))
    }
}

/// Decodes a page other than the first: `i` holds exactly that page.
pub fn page(i: &[u8], hdr: &DbHeader) -> (r: Result<Page, ParseError>)
    requires
        hdr.wf(),
    ensures
        match page_of(i@, 0, *hdr) {
            Ok(pv) => r matches Ok(p) && p.deep_view() == pv,
            Err(e) => r matches Err(x) && x == e,
        },
{
    page_generic(i, 0, hdr)
}

/// The first page, as the bytes `i` of that page with the file header in
/// front of it hold it.
pub open spec fn root_page_of(i: Seq<u8>, hdr: DbHeader) -> Result<PageView, ParseError> {
    if i.len() < HEADER_SIZE {
        Err(ParseError::Truncated)
    } else {
        page_of(i.subrange(HEADER_SIZE as int, i.len() as int), HEADER_SIZE as int, hdr)
    }
}

/// Decodes the first page, which follows the file header: `i` holds the
/// page with the header in front of it.
pub fn root_page(i: &[u8], hdr: &DbHeader) -> (r: Result<Page, ParseError>)
    requires
        hdr.wf(),
    ensures
        match root_page_of(i@, *hdr) {
            Ok(pv) => r matches Ok(p) && p.deep_view() == pv,
            Err(e) => r matches Err(x) && x == e,
        },
{
    if i.len() < HEADER_SIZE {
        return Err(ParseError::Truncated);
    }
    page_generic(vstd::slice::slice_subrange(i, HEADER_SIZE, i.len()), HEADER_SIZE, hdr)
}

/// Bytes of page `n` (zero-based) of the file `b` whose pages hold `ps` bytes,
/// as the page decoder reads them: page 0 without the file header.
pub open spec fn page_bytes(b: Seq<u8>, ps: nat, n: nat) -> Seq<u8> {
    if n == 0 {
        b.subrange(HEADER_SIZE as int, ps as int)
    } else {
        b.subrange((n * ps) as int, ((n + 1) * ps) as int)
    }
}

/// Where the slot values of page `n` count from, relative to its bytes.
pub open spec fn page_start(n: nat) -> int {
    if n == 0 { HEADER_SIZE as int } else { 0 }
}

/// Page `n` (zero-based) of the file `b` with header `hdr`.
pub open spec fn get_page_of(b: Seq<u8>, hdr: DbHeader, n: u32) -> Result<PageView, SQLiteError> {
    let ps = hdr.page_size.spec_real_size();
    if (n + 1) * ps > b.len() {
        Err(SQLiteError::PageOutOfRange(n))
    } else {
        match page_of(page_bytes(b, ps, n as nat), page_start(n as nat), hdr) {
            Ok(p) => Ok(p),
            Err(e) => Err(SQLiteError::PageError(n, e)),
        }
    }
}

/// In a file of exactly `db_size` pages, a page number is out of range if and
/// only if it is `db_size` or more.
pub proof fn lemma_page_range(b: Seq<u8>, hdr: DbHeader, n: u32)
    requires
        hdr.wf(),
        b.len() == hdr.db_size * hdr.page_size.spec_real_size(),
    ensures
        get_page_of(b, hdr, n) == Err::<PageView, SQLiteError>(SQLiteError::PageOutOfRange(n)) <==> n >= hdr.db_size,
{
    let ps = hdr.page_size.spec_real_size();
    let d = hdr.db_size as int;
    assert(ps > 0);
    if n >= d {
        assert((n + 1) * ps > d * ps) by (nonlinear_arith)
            requires
                n >= d,
                ps > 0,
        ;
    } else {
        assert((n + 1) * ps <= d * ps) by (nonlinear_arith)
            requires
                n + 1 <= d,
                ps > 0,
        ;
    }
}

/// Decodes page `n` (zero-based) of the file `b`.
pub(crate) fn page_at(b: &[u8], hdr: &DbHeader, n: u32) -> (r: Result<Page, SQLiteError>)
    requires
        hdr.wf(),
    ensures
        match get_page_of(b@, *hdr, n) {
            Ok(pv) => r matches Ok(p) && p.deep_view() == pv,
            Err(e) => r matches Err(x) && x == e,
        },
{
    let ps = hdr.page_size.real_size();
    assert((n + 1) * ps == n * ps + ps) by (nonlinear_arith);
    assert(n * ps <= 0xffff_ffff * 65536) by (nonlinear_arith)
        requires
            n <= 0xffff_ffff,
            ps <= 65536,
    ;
    let lo = n as u64 * ps as u64;
    let hi = lo + ps as u64;
    if hi > b.len() as u64 {
        return Err(SQLiteError::PageOutOfRange(n));
    }
    let res = if n == 0 {
        page_generic(vstd::slice::slice_subrange(b, HEADER_SIZE, ps), HEADER_SIZE, hdr)
    } else {
        page_generic(vstd::slice::slice_subrange(b, lo as usize, hi as usize), 0, hdr)
    };
    match res {
        Ok(p) => Ok(p),
        Err(e) => Err(SQLiteError::PageError(n, e)),
    }
}

/// Number of whole pages in a file of `len` bytes with pages of `ps` bytes,
/// as far as a `u32` page number reaches.
pub open spec fn page_count(len: nat, ps: nat) -> nat {
    if len / ps > 0x1_0000_0000 { 0x1_0000_0000 } else { len / ps }
}

/// The first `k` pages of the file `b`, or the error of the first of them
/// that cannot be decoded.
pub open spec fn pages_of(b: Seq<u8>, hdr: DbHeader, k: nat) -> Result<Seq<PageView>, SQLiteError>
    decreases k,
{
    if k == 0 {
        Ok(seq![])
    } else {
        match pages_of(b, hdr, (k - 1) as nat) {
            Err(e) => Err(e),
            Ok(ps) => match get_page_of(b, hdr, (k - 1) as u32) {
                Ok(p) => Ok(ps.push(p)),
                Err(e) => Err(e),
            },
        }
    }
}

/// The header and every whole page of the file `b`.
pub open spec fn database_of(b: Seq<u8>) -> Result<(DbHeader, Seq<PageView>), SQLiteError> {
    match db_header_of(b) {
        Err(e) => Err(SQLiteError::ParsingError(e)),
        Ok(h) => match pages_of(b, h, page_count(b.len(), h.page_size.spec_real_size())) {
            Ok(ps) => Ok((h, ps)),
            Err(e) => Err(e),
        },
    }
}

proof fn lemma_pages_err(b: Seq<u8>, hdr: DbHeader, j: nat, k: nat)
    requires
        j <= k,
        pages_of(b, hdr, j) is Err,
    ensures
        pages_of(b, hdr, k) == pages_of(b, hdr, j),
    decreases k - j,
{
    if j < k {
        lemma_pages_err(b, hdr, j, (k - 1) as nat);
    }
}

/// Goes through the whole input page by page. To decode a file lazily, use
/// the page decoders or `Reader`.
pub fn database(i: &[u8]) -> (r: Result<Database, SQLiteError>)
    ensures
        match database_of(i@) {
            Ok((h, ps)) => r matches Ok(db) && db.header == h && db.pages.deep_view() == ps,
            Err(e) => r matches Err(x) && x == e,
        },
{
    let header = match db_header(i) {
        Ok(h) => h,
        Err(e) => {
            return Err(SQLiteError::ParsingError(e));
        },
    };
    let ps = header.page_size.real_size() as u64;
    let whole = i.len() as u64 / ps;
    let count: u64 = if whole > 0x1_0000_0000 { 0x1_0000_0000 } else { whole };
    let mut pages: Vec<Page> = Vec::new();
    let mut n: u64 = 0;
    proof {
        assert(pages.deep_view() =~= Seq::<PageView>::empty());
    }
    while n < count
        invariant
            n <= count,
            count == page_count(i@.len(), header.page_size.spec_real_size()),
            db_header_of(i@) == Ok::<DbHeader, ParseError>(header),
            header.wf(),
            pages_of(i@, header, n as nat) == Ok::<Seq<PageView>, SQLiteError>(pages.deep_view()),
        decreases count - n,
    {
        match page_at(i, &header, n as u32) {
            Ok(p) => {
                let ghost before = pages.deep_view();
                let ghost pv = p.deep_view();
                pages.push(p);
                proof {
                    assert(pages.deep_view() =~= before.push(pv));
                }
            },
            Err(e) => {
                proof {
                    lemma_pages_err(i@, header, (n + 1) as nat, count as nat);
                }
                return Err(e);
            },
        }
        n = n + 1;
    }
    Ok(Database { header, pages })
}

} // verus!
