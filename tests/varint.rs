use sqlite_parser::error::ParseError;
use sqlite_parser::varint::be_u64_varint;

#[test]
fn parse_1_byte() {
    let varint = [0b0000_1111];
    let (i, res) = be_u64_varint(&varint).unwrap();

    assert!(i.is_empty());
    assert_eq!(res, 0b0000_1111);
}

#[test]
fn parse_2_byte() {
    let varint = [0b1000_1111, 0b0000_1011];
    let (i, res) = be_u64_varint(&varint).unwrap();

    assert!(i.is_empty());
    assert_eq!(res, 0b1111_000_1011);
}

#[test]
fn parse_3_byte() {
    let varint = [0b1000_1111, 0b1000_1101, 0b0000_1011];
    let (i, res) = be_u64_varint(&varint).unwrap();

    assert!(i.is_empty());
    assert_eq!(res, 0b1111_000_1101_000_1011);
}

#[test]
fn parse_4_byte() {
    let varint = [0b1000_1111, 0b1000_0111, 0b1000_1101, 0b0000_1011];
    let (i, res) = be_u64_varint(&varint).unwrap();

    assert!(i.is_empty());
    assert_eq!(res, 0b1111_000_0111_000_1101_000_1011);
}

#[test]
fn parse_5_byte() {
    let varint = [
        0b1000_1111,
        0b1000_1110,
        0b1000_0111,
        0b1000_1101,
        0b0000_1011,
    ];
    let (i, res) = be_u64_varint(&varint).unwrap();

    assert!(i.is_empty());
    assert_eq!(res, 0b1111_000_1110_000_0111_000_1101_000_1011);
}

#[test]
fn ignore_rest() {
    let varint = [
        0b1000_1111,
        0b1000_1110,
        0b1000_0111,
        0b1000_1101,
        0b0000_1011,
        0b0,
    ];
    let (i, _) = be_u64_varint(&varint).unwrap();

    assert_eq!(i.len(), 1);
}

#[test]
fn nine_byte_varint_takes_all_bits_of_the_last_byte() {
    let varint = [0xff, 0xff, 0xff, 0xff, 0xff, 0xff, 0xff, 0xff, 0xff, 0x01];
    let (i, res) = be_u64_varint(&varint).unwrap();

    assert_eq!(i, &[0x01]);
    assert_eq!(res, u64::MAX);
}

#[test]
fn nine_byte_varint_value() {
    let varint = [0x81, 0x80, 0x80, 0x80, 0x80, 0x80, 0x80, 0x80, 0x02];
    let (i, res) = be_u64_varint(&varint).unwrap();

    assert!(i.is_empty());
    assert_eq!(res, (1u64 << 57) | 2);
}

#[test]
fn varint_ending_early_is_truncated() {
    assert_eq!(be_u64_varint(&[0x81, 0x82]).unwrap_err(), ParseError::Truncated);
    assert_eq!(be_u64_varint(&[]).unwrap_err(), ParseError::Truncated);
}

#[test]
fn varint_round_trip_single_byte() {
    let (_, v) = be_u64_varint(&[0x0f]).unwrap();
    assert_eq!(v, 15);
}
