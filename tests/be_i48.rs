use sqlite_parser::be_i48::be_i48;
use sqlite_parser::error::ParseError;

#[test]
fn consumes_6_bytes() {
    let bytes = [0x11, 0x22, 0x33, 0x44, 0x55, 0x66];
    let (i, res) = be_i48(&bytes).unwrap();

    assert_eq!(i.len(), 0); // consumes all
    assert_eq!(res, 0x11_22_33_44_55_66);
}

#[test]
fn fails_on_short_input() {
    let bytes = [0x11, 0x22, 0x33, 0x44, 0x55];
    let res = be_i48(&bytes);

    assert!(res.is_err());
}

#[test]
fn passes_through_rest() {
    let bytes = [0x11, 0x22, 0x33, 0x44, 0x55, 0x66, 0x77];
    let (i, _) = be_i48(&bytes).unwrap();

    assert_eq!(i.len(), 1);
    assert_eq!(i.first().unwrap().to_owned(), 0x77);
}

#[test]
fn i48_all_ones_is_minus_one() {
    let (_, v) = be_i48(&[0xff, 0xff, 0xff, 0xff, 0xff, 0xff]).unwrap();
    assert_eq!(v, -1);
}

#[test]
fn i48_smallest_value() {
    let (_, v) = be_i48(&[0x80, 0, 0, 0, 0, 0]).unwrap();
    assert_eq!(v, -140737488355328);
}

#[test]
fn i48_largest_value() {
    let (_, v) = be_i48(&[0x7f, 0xff, 0xff, 0xff, 0xff, 0xff]).unwrap();
    assert_eq!(v, 140737488355327);
}

#[test]
fn i48_short_input_is_truncated() {
    assert_eq!(be_i48(&[]).unwrap_err(), ParseError::Truncated);
}
