use vstd::prelude::*;
use crate::error::ParseError;

verus! {

/// Raw page size field of the file header; 1 stands for 65536.
#[derive(Debug, Clone, Copy, PartialEq, Eq, Structural)]
pub struct PageSize(pub u16);

impl PageSize {
    /// Page size in bytes that the raw field denotes.
    pub open spec fn spec_real_size(self) -> nat {
        if self.0 == 1 { 65536 } else { self.0 as nat }
    }

    pub fn real_size(&self) -> (r: usize)
        ensures
            r == self.spec_real_size(),
    {
        match self.0 {
            1 => 0x1_0000,
            _ => self.0 as usize,
        }
    }
}

/// Raw cell content offset of a page header; 0 stands for 65536.
#[derive(Debug, Clone, Copy, PartialEq, Eq, Structural)]
pub struct CellOffset(pub u16);

impl CellOffset {
    /// Offset in bytes that the raw field denotes.
    pub open spec fn spec_real_offset(self) -> nat {
        if self.0 == 0 { 65536 } else { self.0 as nat }
    }

    pub fn real_offset(&self) -> (r: u32)
        ensures
            r == self.spec_real_offset(),
    {
        match self.0 {
            0 => 0x1_0000,
            _ => self.0 as u32,
        }
    }
}

/// Column type and width descriptor of a record, decoded from a varint tag.
/// `Blob` and `Text` keep the tag itself.
#[derive(Debug, Clone, Copy, PartialEq, Eq, Structural)]
pub enum SerialType {
    Null,
    I8,
    I16,
    I24,
    I32,
    I48,
    I64,
    F64,
    Const0,
    Const1,
    Reserved,
    Blob(u64),
    Text(u64),
}

/// The serial type that the tag `v` stands for.
pub open spec fn serial_type_of(v: u64) -> SerialType {
    if v == 0 {
        SerialType::Null
    } else if v == 1 {
        SerialType::I8
    } else if v == 2 {
        SerialType::I16
    } else if v == 3 {
        SerialType::I24
    } else if v == 4 {
        SerialType::I32
    } else if v == 5 {
        SerialType::I48
    } else if v == 6 {
        SerialType::I64
    } else if v == 7 {
        SerialType::F64
    } else if v == 8 {
        SerialType::Const0
    } else if v == 9 {
        SerialType::Const1
    } else if v == 10 || v == 11 {
        SerialType::Reserved
    } else if v % 2 == 0 {
        SerialType::Blob(v)
    } else {
        SerialType::Text(v)
    }
}

impl SerialType {
    /// The tag of a `Blob` is even and at least 12, that of a `Text` odd and at least 13.
    pub open spec fn wf(self) -> bool {
        match self {
            SerialType::Blob(n) => n >= 12 && n % 2 == 0,
            SerialType::Text(n) => n >= 13 && n % 2 == 1,
            _ => true,
        }
    }

    /// On-disk width in bytes; `None` for `Reserved`, which has none.
    pub open spec fn spec_size(self) -> Option<nat> {
        match self {
            SerialType::Null => Some(0),
            SerialType::I8 => Some(1),
            SerialType::I16 => Some(2),
            SerialType::I24 => Some(3),
            SerialType::I32 => Some(4),
            SerialType::I48 => Some(6),
            SerialType::I64 => Some(8),
            SerialType::F64 => Some(8),
            SerialType::Const0 => Some(0),
            SerialType::Const1 => Some(0),
            SerialType::Reserved => None,
            SerialType::Blob(n) => Some(((n - 12) / 2) as nat),
            SerialType::Text(n) => Some(((n - 13) / 2) as nat),
        }
    }

    /// On-disk width in bytes of a column of this type.
    pub fn size(&self) -> (r: Result<u64, ParseError>)
        requires
            self.wf(),
        ensures
            match self.spec_size() {
                Some(w) => r == Ok::<u64, ParseError>(w as u64),
                None => r == Err::<u64, ParseError>(ParseError::ReservedSerialType),
            },
    {
        match self {
            SerialType::Null => Ok(0),
            SerialType::I8 => Ok(1),
            SerialType::I16 => Ok(2),
            SerialType::I24 => Ok(3),
            SerialType::I32 => Ok(4),
            SerialType::I48 => Ok(6),
            SerialType::I64 => Ok(8),
            SerialType::F64 => Ok(8),
            SerialType::Const0 => Ok(0),
            SerialType::Const1 => Ok(0),
            SerialType::Reserved => Err(ParseError::ReservedSerialType),
            SerialType::Blob(n) => Ok((*n - 12) / 2),
            SerialType::Text(n) => Ok((*n - 13) / 2),
        }
    }
}

impl From<u64> for SerialType {
    fn from(value: u64) -> (r: Self) {
        if value == 0 {
            SerialType::Null
        } else if value == 1 {
            SerialType::I8
        } else if value == 2 {
            SerialType::I16
        } else if value == 3 {
            SerialType::I24
        } else if value == 4 {
            SerialType::I32
        } else if value == 5 {
            SerialType::I48
        } else if value == 6 {
            SerialType::I64
        } else if value == 7 {
            SerialType::F64
        } else if value == 8 {
            SerialType::Const0
        } else if value == 9 {
            SerialType::Const1
        } else if value == 10 || value == 11 {
            SerialType::Reserved
        } else if value % 2 == 0 {
            SerialType::Blob(value)
        } else {
            SerialType::Text(value)
        }
    }
}

impl vstd::std_specs::convert::FromSpecImpl<u64> for SerialType {
    open spec fn obeys_from_spec() -> bool {
        true
    }

    open spec fn from_spec(v: u64) -> SerialType {
        serial_type_of(v)
    }
}

/// Every tag decodes to a well-formed serial type; an even tag from 12 on is a
/// `Blob` of `(v - 12) / 2` bytes and an odd tag from 13 on a `Text` of
/// `(v - 13) / 2` bytes.
pub proof fn lemma_serial_type_sizes(v: u64)
    ensures
        serial_type_of(v).wf(),
        v >= 12 && v % 2 == 0 ==> serial_type_of(v) == SerialType::Blob(v)
            && SerialType::Blob(v).spec_size() == Some(((v - 12) / 2) as nat),
        v >= 13 && v % 2 == 1 ==> serial_type_of(v) == SerialType::Text(v)
            && SerialType::Text(v).spec_size() == Some(((v - 13) / 2) as nat),
{
}

/// Text encoding that the file header declares for every text column.
#[derive(Debug, Clone, Copy, PartialEq, Eq, Structural)]
pub enum TextEncoding {
    Utf8,
    Utf16Le,
    Utf16Be,
}

/// The encoding that the header field value `v` names.
pub open spec fn text_encoding_of(v: u32) -> Result<TextEncoding, ParseError> {
    if v == 1 {
        Ok(TextEncoding::Utf8)
    } else if v == 2 {
        Ok(TextEncoding::Utf16Le)
    } else if v == 3 {
        Ok(TextEncoding::Utf16Be)
    } else {
        Err(ParseError::UnknownTextEncoding(v))
    }
}

impl TryFrom<u32> for TextEncoding {
    type Error = ParseError;

    fn try_from(value: u32) -> (r: Result<Self, Self::Error>) {
        match value {
            1 => Ok(TextEncoding::Utf8),
            2 => Ok(TextEncoding::Utf16Le),
            3 => Ok(TextEncoding::Utf16Be),
            _ => Err(ParseError::UnknownTextEncoding(value)),
        }
    }
}

impl vstd::std_specs::convert::TryFromSpecImpl<u32> for TextEncoding {
    open spec fn obeys_try_from_spec() -> bool {
        true
    }

    open spec fn try_from_spec(v: u32) -> Result<TextEncoding, ParseError> {
        text_encoding_of(v)
    }
}

/// Decoded value of one column. `F64` holds the bit pattern of an IEEE-754
/// binary64 number; `Text` holds the bytes in the file's declared encoding.
#[derive(Debug, PartialEq, Eq)]
pub enum Payload {
    I8(i8),
    I16(i16),
    I32(i32),
    I64(i64),
    F64(u64),
    Blob(Vec<u8>),
    Text(Vec<u8>, TextEncoding),
}

/// A column value as a mathematical object.
pub enum PayloadView {
    I8(i8),
    I16(i16),
    I32(i32),
    I64(i64),
    F64(u64),
    Blob(Seq<u8>),
    Text(Seq<u8>, TextEncoding),
}

impl DeepView for Payload {
    type V = PayloadView;

    open spec fn deep_view(&self) -> PayloadView {
        match self {
            Payload::I8(x) => PayloadView::I8(*x),
            Payload::I16(x) => PayloadView::I16(*x),
            Payload::I32(x) => PayloadView::I32(*x),
            Payload::I64(x) => PayloadView::I64(*x),
            Payload::F64(x) => PayloadView::F64(*x),
            Payload::Blob(b) => PayloadView::Blob(b@),
            Payload::Text(b, e) => PayloadView::Text(b@, *e),
        }
    }
}

/// A decoded record: the header size, the serial type of each column and the
/// value of each column (`None` where the column holds no value).
pub struct RecordView {
    pub header_size: u64,
    pub column_types: Seq<SerialType>,
    pub column_values: Seq<Option<PayloadView>>,
}

/// Record of a table b-tree leaf cell.
pub struct TableCellPayload {
    pub header_size: u64,
    pub column_types: Vec<SerialType>,
    pub column_values: Vec<Option<Payload>>,
}

impl DeepView for TableCellPayload {
    type V = RecordView;

    open spec fn deep_view(&self) -> RecordView {
        RecordView {
            header_size: self.header_size,
            column_types: self.column_types@,
            column_values: self.column_values.deep_view(),
        }
    }
}

/// Record of an index b-tree cell. Its last column is the row id of the
/// indexed row; `rowid` holds it where that column is an integer.
pub struct IndexCellPayload {
    pub header_size: u64,
    pub column_types: Vec<SerialType>,
    pub column_values: Vec<Option<Payload>>,
    pub rowid: Option<i64>,
}

impl DeepView for IndexCellPayload {
    type V = (RecordView, Option<i64>);

    open spec fn deep_view(&self) -> (RecordView, Option<i64>) {
        (
            RecordView {
                header_size: self.header_size,
                column_types: self.column_types@,
                column_values: self.column_values.deep_view(),
            },
            self.rowid,
        )
    }
}

/// Header of an interior b-tree page.
#[derive(Debug, Clone, Copy, PartialEq, Eq, Structural)]
pub struct InteriorPageHeader {
    pub first_freeblock_offset: Option<u16>,
    pub no_cells: u16,
    pub cell_content_offset: CellOffset,
    pub no_fragmented_bytes: u8,
    pub rightmost_pointer: u32,
}

/// Header of a leaf b-tree page.
#[derive(Debug, Clone, Copy, PartialEq, Eq, Structural)]
pub struct LeafPageHeader {
    pub first_freeblock_offset: Option<u16>,
    pub no_cells: u16,
    pub cell_content_offset: CellOffset,
    pub no_fragmented_bytes: u8,
}

/// Cell of an interior table page.
#[derive(Debug, Clone, Copy, PartialEq, Eq, Structural)]
pub struct InteriorTableCell {
    pub left_child_page_no: u32,
    pub integer_key: u64,
}

impl DeepView for InteriorTableCell {
    type V = InteriorTableCell;

    open spec fn deep_view(&self) -> InteriorTableCell {
        *self
    }
}

/// Cell of a leaf table page.
pub struct LeafTableCell {
    pub payload_size: u64,
    pub rowid: u64,
    pub payload: TableCellPayload,
    pub overflow_page_no: Option<u32>,
}

pub struct LeafTableCellView {
    pub payload_size: u64,
    pub rowid: u64,
    pub payload: RecordView,
    pub overflow_page_no: Option<u32>,
}

impl DeepView for LeafTableCell {
    type V = LeafTableCellView;

    open spec fn deep_view(&self) -> LeafTableCellView {
        LeafTableCellView {
            payload_size: self.payload_size,
            rowid: self.rowid,
            payload: self.payload.deep_view(),
            overflow_page_no: self.overflow_page_no,
        }
    }
}

/// Cell of an interior index page.
pub struct InteriorIndexCell {
    pub left_child_page_no: u32,
    pub payload_size: u64,
    pub payload: IndexCellPayload,
    pub overflow_page_no: Option<u32>,
}

pub struct InteriorIndexCellView {
    pub left_child_page_no: u32,
    pub payload_size: u64,
    pub payload: (RecordView, Option<i64>),
    pub overflow_page_no: Option<u32>,
}

impl DeepView for InteriorIndexCell {
    type V = InteriorIndexCellView;

    open spec fn deep_view(&self) -> InteriorIndexCellView {
        InteriorIndexCellView {
            left_child_page_no: self.left_child_page_no,
            payload_size: self.payload_size,
            payload: self.payload.deep_view(),
            overflow_page_no: self.overflow_page_no,
        }
    }
}

/// Cell of a leaf index page.
pub struct LeafIndexCell {
    pub payload_size: u64,
    pub payload: IndexCellPayload,
    pub overflow_page_no: Option<u32>,
}

pub struct LeafIndexCellView {
    pub payload_size: u64,
    pub payload: (RecordView, Option<i64>),
    pub overflow_page_no: Option<u32>,
}

impl DeepView for LeafIndexCell {
    type V = LeafIndexCellView;

    open spec fn deep_view(&self) -> LeafIndexCellView {
        LeafIndexCellView {
            payload_size: self.payload_size,
            payload: self.payload.deep_view(),
            overflow_page_no: self.overflow_page_no,
        }
    }
}

/// A decoded page of either kind: its header, its slot array and its cells.
pub struct PageBody<H, C> {
    pub header: H,
    pub cell_pointers: Seq<u16>,
    pub cells: Seq<C>,
}

pub struct InteriorIndexPage {
    pub header: InteriorPageHeader,
    pub cell_pointers: Vec<u16>,
    pub cells: Vec<InteriorIndexCell>,
}

impl DeepView for InteriorIndexPage {
    type V = PageBody<InteriorPageHeader, InteriorIndexCellView>;

    open spec fn deep_view(&self) -> Self::V {
        PageBody { header: self.header, cell_pointers: self.cell_pointers@, cells: self.cells.deep_view() }
    }
}

pub struct LeafIndexPage {
    pub header: LeafPageHeader,
    pub cell_pointers: Vec<u16>,
    pub cells: Vec<LeafIndexCell>,
}

impl DeepView for LeafIndexPage {
    type V = PageBody<LeafPageHeader, LeafIndexCellView>;

    open spec fn deep_view(&self) -> Self::V {
        PageBody { header: self.header, cell_pointers: self.cell_pointers@, cells: self.cells.deep_view() }
    }
}

pub struct InteriorTablePage {
    pub header: InteriorPageHeader,
    pub cell_pointers: Vec<u16>,
    pub cells: Vec<InteriorTableCell>,
}

impl DeepView for InteriorTablePage {
    type V = PageBody<InteriorPageHeader, InteriorTableCell>;

    open spec fn deep_view(&self) -> Self::V {
        PageBody { header: self.header, cell_pointers: self.cell_pointers@, cells: self.cells.deep_view() }
    }
}

pub struct LeafTablePage {
    pub header: LeafPageHeader,
    pub cell_pointers: Vec<u16>,
    pub cells: Vec<LeafTableCell>,
}

impl DeepView for LeafTablePage {
    type V = PageBody<LeafPageHeader, LeafTableCellView>;

    open spec fn deep_view(&self) -> Self::V {
        PageBody { header: self.header, cell_pointers: self.cell_pointers@, cells: self.cells.deep_view() }
    }
}

/// A decoded b-tree page, by the kind its type byte names.
pub enum Page {
    InteriorIndex(InteriorIndexPage),
    LeafIndex(LeafIndexPage),
    InteriorTable(InteriorTablePage),
    LeafTable(LeafTablePage),
}

pub enum PageView {
    InteriorIndex(PageBody<InteriorPageHeader, InteriorIndexCellView>),
    LeafIndex(PageBody<LeafPageHeader, LeafIndexCellView>),
    InteriorTable(PageBody<InteriorPageHeader, InteriorTableCell>),
    LeafTable(PageBody<LeafPageHeader, LeafTableCellView>),
}

impl DeepView for Page {
    type V = PageView;

    open spec fn deep_view(&self) -> PageView {
        match self {
            Page::InteriorIndex(p) => PageView::InteriorIndex(p.deep_view()),
            Page::LeafIndex(p) => PageView::LeafIndex(p.deep_view()),
            Page::InteriorTable(p) => PageView::InteriorTable(p.deep_view()),
            Page::LeafTable(p) => PageView::LeafTable(p.deep_view()),
        }
    }
}

/// The 100-byte database file header.
#[derive(Debug, Clone, Copy, PartialEq, Eq, Structural)]
pub struct DbHeader {
    pub page_size: PageSize,
    pub write_version: u8,
    pub read_version: u8,
    pub max_payload_fraction: u8,
    pub min_payload_fraction: u8,
    pub leaf_payload_fraction: u8,
    pub file_change_counter: u32,
    pub db_size: u32,
    pub first_freelist_page_no: u32,
    pub total_freelist_pages: u32,
    pub schema_cookie: u32,
    pub schema_format_no: u32,
    pub default_page_cache_size: u32,
    pub no_largest_root_b_tree: u32,
    pub db_text_encoding: TextEncoding,
    pub user_version: u32,
    pub incremental_vacuum_mode: u32,
    pub application_id: u32,
    pub version_valid_for_no: u32,
    pub sqlite_version_number: u32,
}

/// A raw page size that the format allows: 1, or a power of two from 512 to 32768.
pub open spec fn valid_page_size(raw: u16) -> bool {
    raw == 1 || raw == 512 || raw == 1024 || raw == 2048 || raw == 4096 || raw == 8192
        || raw == 16384 || raw == 32768
}

impl DbHeader {
    pub open spec fn wf(self) -> bool {
        valid_page_size(self.page_size.0)
    }
}

/// A whole database: its header and every page in order.
pub struct Database {
    pub header: DbHeader,
    pub pages: Vec<Page>,
}

} // verus!
