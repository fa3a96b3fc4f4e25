use rusqlite::Connection;
use sqlite_parser::error::{ParseError, SQLiteError};
use sqlite_parser::model::SerialType::{Null, Text, I8};
use sqlite_parser::model::{Page, Payload, SerialType, TextEncoding};
use sqlite_parser::parser::{database, db_header, page, root_page};
use sqlite_parser::Reader;
use std::io::Read;
use tempfile::NamedTempFile;

/// Runs `statements` on a fresh database file and returns the file's bytes.
fn make_db(statements: &[&str]) -> Vec<u8> {
    let file = NamedTempFile::new().unwrap();
    let conn = Connection::open(file.path()).unwrap();
    for s in statements {
        conn.execute(s, ()).unwrap();
    }
    conn.close().unwrap();
    let mut buf = Vec::new();
    file.reopen().unwrap().read_to_end(&mut buf).unwrap();
    buf
}

fn text(s: &str) -> Option<Payload> {
    Some(Payload::Text(s.as_bytes().to_vec(), TextEncoding::Utf8))
}

#[test]
fn empty_db() {
    let buf = make_db(&["CREATE TABLE test (id INTEGER PRIMARY KEY, foo TEXT NOT NULL)"]);
    let reader = Reader::from_source(buf).unwrap();

    assert_eq!(reader.header.page_size.real_size(), 4096);

    match reader.get_page(0).unwrap() {
        Page::LeafTable(p) => {
            assert_eq!(p.header.no_cells, 1);
            assert_eq!(p.cells.len(), 1);
            assert_eq!(
                p.cells.first().unwrap().payload.column_types,
                // type, name, tbl_name, rootpage, sql
                vec![Text(23), Text(21), Text(21), I8, Text(135)]
            );
            assert_eq!(
                p.cells.first().unwrap().payload.column_values,
                vec![
                    text("table"),
                    text("test"),
                    text("test"),
                    Some(Payload::I8(2)),
                    text("CREATE TABLE test (id INTEGER PRIMARY KEY, foo TEXT NOT NULL)"),
                ]
            );
        }
        _ => unreachable!("root page should be table leaf page"),
    }

    match reader.get_page(1).unwrap() {
        Page::LeafTable(p) => {
            assert_eq!(p.header.no_cells, 0);
            assert_eq!(p.cells.len(), 0);
        }
        _ => unreachable!("second page should be leaf page"),
    }
}

#[test]
fn parse_table_content() {
    let buf = make_db(&[
        "CREATE TABLE test (id INTEGER PRIMARY KEY, foo TEXT NOT NULL)",
        "INSERT INTO test VALUES (42, 'tjena tjena')",
    ]);
    let reader = Reader::from_source(buf).unwrap();

    match reader.get_page(1).unwrap() {
        Page::LeafTable(p) => {
            assert_eq!(p.header.no_cells, 1);
            assert_eq!(p.cells.len(), 1);
            assert_eq!(p.cells.first().unwrap().rowid, 42);
            assert_eq!(
                p.cells.first().unwrap().payload.column_types,
                // type, name, tbl_name, rootpage, sql
                vec![Null, Text(35)]
            );
            assert_eq!(
                p.cells.first().unwrap().payload.column_values,
                vec![None, text("tjena tjena")]
            );
        }
        _ => unreachable!("root page should be table leaf page"),
    }
}

#[test]
fn header_fields_of_a_fresh_file() {
    let buf = make_db(&["CREATE TABLE test (id INTEGER PRIMARY KEY, foo TEXT NOT NULL)"]);
    let len = buf.len();
    let reader = Reader::from_source(buf).unwrap();
    let h = reader.header;
    assert_eq!(h.db_size, 2);
    assert_eq!(len, 2 * 4096);
    assert_eq!(h.max_payload_fraction, 64);
    assert_eq!(h.min_payload_fraction, 32);
    assert_eq!(h.leaf_payload_fraction, 32);
    assert_eq!(h.db_text_encoding, TextEncoding::Utf8);
    assert_eq!(h.schema_format_no, 4);
}

#[test]
fn bad_magic_is_refused() {
    let mut buf = make_db(&["CREATE TABLE test (id INTEGER PRIMARY KEY, foo TEXT NOT NULL)"]);
    buf[..16].copy_from_slice(b"Not a database!!");
    assert_eq!(
        Reader::from_source(buf).err().unwrap(),
        SQLiteError::ParsingError(ParseError::BadMagic)
    );
}

#[test]
fn unknown_text_encoding_is_refused() {
    let mut buf = make_db(&["CREATE TABLE test (id INTEGER PRIMARY KEY, foo TEXT NOT NULL)"]);
    buf[56..60].copy_from_slice(&[0, 0, 0, 4]);
    assert_eq!(
        Reader::from_source(buf).err().unwrap(),
        SQLiteError::ParsingError(ParseError::UnknownTextEncoding(4))
    );
}

#[test]
fn short_file_is_truncated() {
    assert_eq!(
        Reader::from_source(vec![0x53, 0x51, 0x4c, 0x69, 0x74, 0x65]).err().unwrap(),
        SQLiteError::ParsingError(ParseError::Truncated)
    );
}

#[test]
fn bad_page_size_is_refused() {
    let mut buf = make_db(&["CREATE TABLE t (a)"]);
    buf[16..18].copy_from_slice(&[0x03, 0x00]);
    assert_eq!(
        Reader::from_source(buf).err().unwrap(),
        SQLiteError::ParsingError(ParseError::BadPageSize(0x300))
    );
}

#[test]
fn pages_up_to_db_size_are_in_range() {
    let buf = make_db(&[
        "CREATE TABLE a (x)",
        "CREATE TABLE b (y)",
        "INSERT INTO a VALUES (1)",
    ]);
    let reader = Reader::from_source(buf).unwrap();
    let n = reader.header.db_size;
    assert_eq!(n, 3);
    for i in 0..n {
        assert!(reader.get_page(i).is_ok());
    }
    assert_eq!(reader.get_page(n).err().unwrap(), SQLiteError::PageOutOfRange(n));
}

#[test]
fn unknown_page_type_names_the_page() {
    let mut buf = make_db(&["CREATE TABLE t (a)"]);
    buf[4096] = 0x07;
    let reader = Reader::from_source(buf).unwrap();
    assert_eq!(
        reader.get_page(1).err().unwrap(),
        SQLiteError::PageError(1, ParseError::UnknownPageType(0x07))
    );
}

#[test]
fn column_kinds_decode_to_atoms() {
    let buf = make_db(&[
        "CREATE TABLE t (a, b, c, d, e, f, g, h, i, j)",
        "INSERT INTO t VALUES (0, 1, -5, 300, 70000, 1099511627776, 2.5, x'0102', NULL, '')",
    ]);
    let reader = Reader::from_source(buf).unwrap();
    match reader.get_page(1).unwrap() {
        Page::LeafTable(p) => {
            let cell = &p.cells[0];
            assert_eq!(cell.rowid, 1);
            assert_eq!(cell.overflow_page_no, None);
            assert_eq!(
                cell.payload.column_types,
                vec![
                    SerialType::Const0,
                    SerialType::Const1,
                    SerialType::I8,
                    SerialType::I16,
                    SerialType::I24,
                    SerialType::I48,
                    SerialType::F64,
                    SerialType::Blob(16),
                    SerialType::Null,
                    SerialType::Text(13),
                ]
            );
            assert_eq!(
                cell.payload.column_values,
                vec![
                    Some(Payload::I8(0)),
                    Some(Payload::I8(1)),
                    Some(Payload::I8(-5)),
                    Some(Payload::I16(300)),
                    Some(Payload::I32(70000)),
                    Some(Payload::I64(1099511627776)),
                    Some(Payload::F64(2.5f64.to_bits())),
                    Some(Payload::Blob(vec![1, 2])),
                    None,
                    None,
                ]
            );
            assert_eq!(cell.payload_size as usize, 1 + 10 + 1 + 2 + 3 + 6 + 8 + 2);
        }
        _ => unreachable!("table page should be a leaf"),
    }
}

#[test]
fn index_leaf_cells_end_with_the_rowid() {
    let buf = make_db(&[
        "CREATE TABLE t (name TEXT)",
        "CREATE INDEX t_name ON t (name)",
        "INSERT INTO t VALUES ('b')",
        "INSERT INTO t VALUES ('a')",
    ]);
    let reader = Reader::from_source(buf).unwrap();
    match reader.get_page(2).unwrap() {
        Page::LeafIndex(p) => {
            assert_eq!(p.header.no_cells, 2);
            assert_eq!(p.cell_pointers.len(), 2);
            assert_eq!(p.cells.len(), 2);
            let first = &p.cells[0].payload;
            assert_eq!(first.column_types, vec![Text(15), SerialType::I8]);
            assert_eq!(first.column_values, vec![text("a"), Some(Payload::I8(2))]);
            assert_eq!(first.rowid, Some(2));
            assert_eq!(p.cells[1].payload.rowid, Some(1));
        }
        _ => unreachable!("index page should be a leaf"),
    }
}

#[test]
fn many_rows_make_an_interior_table_page() {
    let mut statements = vec!["CREATE TABLE t (id INTEGER PRIMARY KEY, body TEXT)".to_string()];
    for i in 0..300 {
        statements.push(format!("INSERT INTO t VALUES ({}, '{}')", i + 1, "x".repeat(100)));
    }
    let refs: Vec<&str> = statements.iter().map(|s| s.as_str()).collect();
    let buf = make_db(&refs);
    let reader = Reader::from_source(buf).unwrap();
    match reader.get_page(1).unwrap() {
        Page::InteriorTable(p) => {
            assert_eq!(p.cells.len(), p.header.no_cells as usize);
            assert_eq!(p.cell_pointers.len(), p.header.no_cells as usize);
            assert!(p.header.rightmost_pointer > 2);
            for w in p.cells.windows(2) {
                assert!(w[0].integer_key < w[1].integer_key);
            }
            let child = p.cells[0].left_child_page_no;
            match reader.get_page(child - 1).unwrap() {
                Page::LeafTable(leaf) => {
                    assert_eq!(leaf.cells[0].rowid, 1);
                    assert_eq!(leaf.cells.last().unwrap().rowid, p.cells[0].integer_key);
                }
                _ => unreachable!("child of the root should be a leaf"),
            }
        }
        _ => unreachable!("root of a large table should be interior"),
    }
}

#[test]
fn whole_database_has_every_page() {
    let buf = make_db(&[
        "CREATE TABLE a (x)",
        "INSERT INTO a VALUES ('hello')",
    ]);
    let db = database(&buf).unwrap();
    assert_eq!(db.pages.len(), db.header.db_size as usize);
    assert!(matches!(db.pages[0], Page::LeafTable(_)));
}

#[test]
fn row_spilling_to_an_overflow_page_keeps_its_local_part() {
    let big = "y".repeat(6000);
    let insert = format!("INSERT INTO t VALUES (1, '{}')", big);
    let buf = make_db(&["CREATE TABLE t (n, body TEXT)", &insert]);
    let reader = Reader::from_source(buf).unwrap();
    match reader.get_page(1).unwrap() {
        Page::LeafTable(p) => {
            let cell = &p.cells[0];
            // header of four bytes, then the text
            assert_eq!(cell.payload_size, 6004);
            assert_eq!(cell.payload.column_types, vec![SerialType::Const1, Text(12013)]);
            assert_eq!(cell.payload.column_values, vec![Some(Payload::I8(1)), None]);
            let overflow = cell.overflow_page_no.unwrap();
            assert!(overflow >= 3 && overflow <= reader.header.db_size);
        }
        _ => unreachable!("table page should be a leaf"),
    }
}

#[test]
fn slot_pointing_into_the_file_header_is_refused() {
    let mut buf = make_db(&["CREATE TABLE test (id INTEGER PRIMARY KEY, foo TEXT NOT NULL)"]);
    // first slot of page 0: the leaf header ends at byte 108 of the file
    buf[108..110].copy_from_slice(&[0x00, 0x10]);
    let reader = Reader::from_source(buf).unwrap();
    assert_eq!(
        reader.get_page(0).err().unwrap(),
        SQLiteError::PageError(0, ParseError::BadCellPointer(0x10))
    );
}

#[test]
fn page_decoders_take_page_bytes() {
    let buf = make_db(&[
        "CREATE TABLE test (id INTEGER PRIMARY KEY, foo TEXT NOT NULL)",
        "INSERT INTO test VALUES (7, 'x')",
    ]);
    let header = db_header(&buf).unwrap();
    match root_page(&buf[..4096], &header).unwrap() {
        Page::LeafTable(p) => {
            assert_eq!(p.cells.len(), 1);
            assert_eq!(p.cells[0].rowid, 1);
        }
        _ => unreachable!("root page should be table leaf page"),
    }
    match page(&buf[4096..8192], &header).unwrap() {
        Page::LeafTable(p) => {
            assert_eq!(p.cells[0].rowid, 7);
            assert_eq!(p.cells[0].payload.column_values, vec![None, text("x")]);
            assert_eq!(p.header.first_freeblock_offset, None);
            assert_eq!(p.header.cell_content_offset.real_offset(), p.cell_pointers[0] as u32);
        }
        _ => unreachable!("table page should be a leaf"),
    }
    assert_eq!(root_page(&buf[..50], &header).err().unwrap(), ParseError::Truncated);
    assert_eq!(page(&[], &header).err().unwrap(), ParseError::Truncated);
}
