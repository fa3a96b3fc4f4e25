use sqlite_parser::error::{OwnedBytes, ParseError};
use sqlite_parser::model::{CellOffset, PageSize, Payload, SerialType, TextEncoding};
use sqlite_parser::record::{column_types, table_cell_payload};

#[test]
fn page_size_one_means_65536() {
    assert_eq!(PageSize(1).real_size(), 65536);
    assert_eq!(PageSize(4096).real_size(), 4096);
}

#[test]
fn cell_offset_zero_means_65536() {
    assert_eq!(CellOffset(0).real_offset(), 65536);
    assert_eq!(CellOffset(3000).real_offset(), 3000);
}

#[test]
fn serial_type_tags() {
    assert_eq!(SerialType::from(0), SerialType::Null);
    assert_eq!(SerialType::from(5), SerialType::I48);
    assert_eq!(SerialType::from(9), SerialType::Const1);
    assert_eq!(SerialType::from(10), SerialType::Reserved);
    assert_eq!(SerialType::from(11), SerialType::Reserved);
    assert_eq!(SerialType::from(12), SerialType::Blob(12));
    assert_eq!(SerialType::from(13), SerialType::Text(13));
}

#[test]
fn serial_type_sizes() {
    assert_eq!(SerialType::Blob(12).size(), Ok(0));
    assert_eq!(SerialType::Blob(20).size(), Ok(4));
    assert_eq!(SerialType::Text(13).size(), Ok(0));
    assert_eq!(SerialType::Text(23).size(), Ok(5));
    assert_eq!(SerialType::I48.size(), Ok(6));
    assert_eq!(SerialType::F64.size(), Ok(8));
    assert_eq!(SerialType::Const1.size(), Ok(0));
    assert_eq!(SerialType::Reserved.size(), Err(ParseError::ReservedSerialType));
}

#[test]
fn text_encoding_codes() {
    assert_eq!(TextEncoding::try_from(1u32), Ok(TextEncoding::Utf8));
    assert_eq!(TextEncoding::try_from(2u32), Ok(TextEncoding::Utf16Le));
    assert_eq!(TextEncoding::try_from(3u32), Ok(TextEncoding::Utf16Be));
    assert_eq!(TextEncoding::try_from(0u32), Err(ParseError::UnknownTextEncoding(0)));
}

#[test]
fn type_area_lists_each_tag() {
    assert_eq!(column_types(&[]).unwrap(), vec![]);
    assert_eq!(
        column_types(&[0x01, 0x81, 0x00, 0x09]).unwrap(),
        vec![SerialType::I8, SerialType::Blob(128), SerialType::Const1]
    );
    assert_eq!(column_types(&[0x81]).unwrap_err(), ParseError::Truncated);
}

#[test]
fn record_with_constants_and_text() {
    // header size 4, types: Const0, Const1, Text(17) ("ab"), then the value area
    let r = [0x04, 0x08, 0x09, 0x11, b'a', b'b'];
    let p = table_cell_payload(&r, TextEncoding::Utf16Be, false).unwrap();
    assert_eq!(p.header_size, 4);
    assert_eq!(p.column_types.len(), 3);
    assert_eq!(p.column_values.len(), 3);
    assert_eq!(
        p.column_values,
        vec![
            Some(Payload::I8(0)),
            Some(Payload::I8(1)),
            Some(Payload::Text(vec![b'a', b'b'], TextEncoding::Utf16Be)),
        ]
    );
}

#[test]
fn record_with_two_byte_header_size() {
    // the header size varint takes two bytes: 0x81 0x00 = 128
    let mut r = vec![0x81, 0x00];
    r.extend(std::iter::repeat(0x00).take(126));
    let p = table_cell_payload(&r, TextEncoding::Utf8, false).unwrap();
    assert_eq!(p.header_size, 128);
    assert_eq!(p.column_types.len(), 126);
    assert!(p.column_values.iter().all(|v| v.is_none()));
}

#[test]
fn record_errors() {
    assert_eq!(table_cell_payload(&[], TextEncoding::Utf8, false).err().unwrap(), ParseError::Truncated);
    assert_eq!(table_cell_payload(&[0x00], TextEncoding::Utf8, false).err().unwrap(), ParseError::BadRecordHeader);
    assert_eq!(table_cell_payload(&[0x05, 0x01], TextEncoding::Utf8, false).err().unwrap(), ParseError::Truncated);
    assert_eq!(table_cell_payload(&[0x02, 0x0a], TextEncoding::Utf8, false).err().unwrap(), ParseError::ReservedSerialType);
    assert_eq!(table_cell_payload(&[0x02, 0x04, 0x00], TextEncoding::Utf8, false).err().unwrap(), ParseError::Truncated);
}

#[test]
fn partial_record_leaves_values_past_the_end_absent() {
    // types: I8, Text(19) of three bytes, Const1; only one text byte is present
    let r = [0x04, 0x01, 0x13, 0x09, 0x07, b'a'];
    let p = table_cell_payload(&r, TextEncoding::Utf8, true).unwrap();
    assert_eq!(
        p.column_values,
        vec![Some(Payload::I8(7)), None, Some(Payload::I8(1))]
    );
    assert_eq!(table_cell_payload(&r, TextEncoding::Utf8, false).err().unwrap(), ParseError::Truncated);
}

#[test]
fn record_integer_widths() {
    let r = [0x05, 0x02, 0x03, 0x04, 0x06, 0xff, 0xfe, 0x80, 0x00, 0x00, 0xff, 0xff, 0xff, 0xfd, 0x00, 0x00, 0x00, 0x00, 0x00, 0x00, 0x01, 0x00];
    let p = table_cell_payload(&r, TextEncoding::Utf8, false).unwrap();
    assert_eq!(
        p.column_values,
        vec![
            Some(Payload::I16(-2)),
            Some(Payload::I32(-8388608)),
            Some(Payload::I32(-3)),
            Some(Payload::I64(256)),
        ]
    );
}

#[test]
fn owned_bytes_from_vec() {
    let b = OwnedBytes::from(vec![1u8, 2, 3]);
    assert_eq!(b.0, vec![1, 2, 3]);
}
