use vstd::prelude::*;
use crate::error::ParseError;
use crate::model::{lemma_serial_type_sizes, serial_type_of, IndexCellPayload, Payload, TableCellPayload, PayloadView, RecordView, SerialType, TextEncoding};
use crate::numeric::{be_sint, be_uint, read_int, read_uint};
use crate::varint::{lemma_scan_facts, read_varint, varint_at};

verus! {

/// Serial types of a record's type area `t`, read as varints from position `p`
/// to its end; `None` when a varint runs past the end.
pub open spec fn serial_types_from(t: Seq<u8>, p: int) -> Option<Seq<SerialType>>
    decreases t.len() - p,
    via serial_types_from_decreases
{
    if p >= t.len() {
        Some(seq![])
    } else {
        match varint_at(t, p) {
            Some((v, n)) => match serial_types_from(t, p + n) {
                Some(rest) => Some(seq![serial_type_of(v as u64)] + rest),
                None => None,
            },
            None => None,
        }
    }
}

#[via_fn]
proof fn serial_types_from_decreases(t: Seq<u8>, p: int) {
    lemma_scan_facts(t, p, 0);
}

/// A value of `w` bytes at `p`, if the record holds them. Where it does not,
/// and the record is `partial` (the rest of the payload is on overflow
/// pages), the value is absent and the position moves to the end.
pub open spec fn fixed_value(r: Seq<u8>, p: int, w: nat, v: PayloadView, partial: bool) -> Result<(Option<PayloadView>, nat), ParseError> {
    if p + w <= r.len() {
        Ok((Some(v), w))
    } else if partial {
        Ok((None, (r.len() - p) as nat))
    } else {
        Err(ParseError::Truncated)
    }
}

/// The value of a column of type `t` that starts at `p` of the record `r`, and
/// the number of bytes it takes.
pub open spec fn column_value_at(r: Seq<u8>, p: int, t: SerialType, enc: TextEncoding, partial: bool) -> Result<(Option<PayloadView>, nat), ParseError> {
    match t {
        SerialType::Null => Ok((None, 0)),
        SerialType::I8 => fixed_value(r, p, 1, PayloadView::I8(be_sint(r, p, 1) as i8), partial),
        SerialType::I16 => fixed_value(r, p, 2, PayloadView::I16(be_sint(r, p, 2) as i16), partial),
        SerialType::I24 => fixed_value(r, p, 3, PayloadView::I32(be_sint(r, p, 3) as i32), partial),
        SerialType::I32 => fixed_value(r, p, 4, PayloadView::I32(be_sint(r, p, 4) as i32), partial),
        SerialType::I48 => fixed_value(r, p, 6, PayloadView::I64(be_sint(r, p, 6) as i64), partial),
        SerialType::I64 => fixed_value(r, p, 8, PayloadView::I64(be_sint(r, p, 8) as i64), partial),
        SerialType::F64 => fixed_value(r, p, 8, PayloadView::F64(be_uint(r, p, 8) as u64), partial),
        SerialType::Const0 => Ok((Some(PayloadView::I8(0)), 0)),
        SerialType::Const1 => Ok((Some(PayloadView::I8(1)), 0)),
        SerialType::Reserved => Err(ParseError::ReservedSerialType),
        SerialType::Blob(n) => {
            let w = ((n - 12) / 2) as nat;
            if w == 0 {
                Ok((None, 0))
            } else {
                fixed_value(r, p, w, PayloadView::Blob(r.subrange(p, p + w)), partial)
            }
        },
        SerialType::Text(n) => {
            let w = ((n - 13) / 2) as nat;
            if w == 0 {
                Ok((None, 0))
            } else {
                fixed_value(r, p, w, PayloadView::Text(r.subrange(p, p + w), enc), partial)
            }
        },
    }
}

/// The values of columns of types `ts`, stored one after another from `p` of `r`.
pub open spec fn column_values_from(r: Seq<u8>, p: int, ts: Seq<SerialType>, enc: TextEncoding, partial: bool) -> Result<Seq<Option<PayloadView>>, ParseError>
    decreases ts.len(),
{
    if ts.len() == 0 {
        Ok(seq![])
    } else {
        match column_value_at(r, p, ts[0], enc, partial) {
            Ok((v, w)) => match column_values_from(r, p + w, ts.drop_first(), enc, partial) {
                Ok(rest) => Ok(seq![v] + rest),
                Err(e) => Err(e),
            },
            Err(e) => Err(e),
        }
    }
}

/// The record held by the payload bytes `r`: a varint header size that counts
/// itself, the serial types that fill the rest of the header, then the values.
/// A `partial` record is the part of a payload that a page keeps.
#[verifier::opaque]
pub open spec fn record_of(r: Seq<u8>, enc: TextEncoding, partial: bool) -> Result<RecordView, ParseError> {
    match varint_at(r, 0) {
        None => Err(ParseError::Truncated),
        Some((h, n)) => if h < n {
            Err(ParseError::BadRecordHeader)
        } else if h > r.len() {
            Err(ParseError::Truncated)
        } else {
            match serial_types_from(r.subrange(n as int, h as int), 0) {
                None => Err(ParseError::Truncated),
                Some(ts) => match column_values_from(r, h as int, ts, enc, partial) {
                    Ok(vs) => Ok(RecordView { header_size: h as u64, column_types: ts, column_values: vs }),
                    Err(e) => Err(e),
                },
            }
        },
    }
}

/// The row id that closes an index record: its last column, where that is an integer.
pub open spec fn index_rowid_of(vs: Seq<Option<PayloadView>>) -> Option<i64> {
    if vs.len() == 0 {
        None
    } else {
        match vs.last() {
            Some(PayloadView::I8(x)) => Some(x as i64),
            Some(PayloadView::I16(x)) => Some(x as i64),
            Some(PayloadView::I32(x)) => Some(x as i64),
            Some(PayloadView::I64(x)) => Some(x),
            _ => None,
        }
    }
}

proof fn lemma_serial_types_wf(t: Seq<u8>, p: int)
    ensures
        serial_types_from(t, p) matches Some(ts) ==> forall|i: int| 0 <= i < ts.len() ==> (#[trigger] ts[i]).wf(),
    decreases t.len() - p,
{
    if p < t.len() {
        if let Some((v, n)) = varint_at(t, p) {
            lemma_scan_facts(t, p, 0);
            lemma_serial_types_wf(t, p + n);
            lemma_serial_type_sizes(v as u64);
            if let Some(rest) = serial_types_from(t, p + n) {
                let ts = seq![serial_type_of(v as u64)] + rest;
                assert forall|i: int| 0 <= i < ts.len() implies (#[trigger] ts[i]).wf() by {
                    if i > 0 {
                        assert(ts[i] == rest[i - 1]);
                    }
                }
            }
        }
    }
}

/// Decodes a type area that holds nothing but serial-type varints.
pub fn column_types(t: &[u8]) -> (r: Result<Vec<SerialType>, ParseError>)
    ensures
        match serial_types_from(t@, 0) {
            Some(ts) => r matches Ok(v) && v@ == ts,
            None => r == Err::<Vec<SerialType>, ParseError>(ParseError::Truncated),
        },
{
    let mut res: Vec<SerialType> = Vec::new();
    let mut p: usize = 0;
    let len = t.len();
    while p < len
        invariant
            p <= len,
            len == t@.len(),
            match serial_types_from(t@, p as int) {
                Some(rest) => serial_types_from(t@, 0) == Some(res@ + rest),
                None => serial_types_from(t@, 0) is None,
            },
        decreases len - p,
    {
        match read_varint(t, p) {
            Ok((v, q)) => {
                let ghost old_res = res@;
                let st = SerialType::from(v);
                res.push(st);
                proof {
                    if let Some(rest) = serial_types_from(t@, q as int) {
                        assert(old_res + (seq![st] + rest) =~= res@ + rest);
                    }
                }
                p = q;
            },
            Err(e) => {
                return Err(e);
            },
        }
    }
    proof {
        assert(res@ + seq![] =~= res@);
    }
    Ok(res)
}

/// Copies the bytes from `p` to `q` of `r` into a blob value.
fn blob_payload(r: &[u8], p: usize, q: usize) -> (v: Option<Payload>)
    requires
        p <= q <= r@.len(),
    ensures
        v matches Some(x) && x.deep_view() == PayloadView::Blob(r@.subrange(p as int, q as int)),
{
    Some(Payload::Blob(vstd::slice::slice_to_vec(vstd::slice::slice_subrange(r, p, q))))
}

/// Copies the bytes from `p` to `q` of `r` into a text value in encoding `enc`.
fn text_payload(r: &[u8], p: usize, q: usize, enc: TextEncoding) -> (v: Option<Payload>)
    requires
        p <= q <= r@.len(),
    ensures
        v matches Some(x) && x.deep_view() == PayloadView::Text(r@.subrange(p as int, q as int), enc),
{
    Some(Payload::Text(vstd::slice::slice_to_vec(vstd::slice::slice_subrange(r, p, q)), enc))
}

/// What a value that runs past the end of the record gives: nothing, and the
/// end as the next position, where the record is `partial`; else an error.
fn past_end(len: usize, partial: bool) -> (res: Result<(Option<Payload>, usize), ParseError>)
    ensures
        res == (if partial {
            Ok::<(Option<Payload>, usize), ParseError>((None, len))
        } else {
            Err::<(Option<Payload>, usize), ParseError>(ParseError::Truncated)
        }),
{
    if partial {
        Ok((None, len))
    } else {
        Err(ParseError::Truncated)
    }
}

/// Decodes the value of a column of type `t` at `p` of `r`; gives it with the
/// position just after it.
fn column_value(r: &[u8], p: usize, t: SerialType, enc: TextEncoding, partial: bool) -> (res: Result<(Option<Payload>, usize), ParseError>)
    requires
        p <= r@.len(),
        t.wf(),
    ensures
        match column_value_at(r@, p as int, t, enc, partial) {
            Ok((v, w)) => res matches Ok((x, q)) && x.deep_view() == v && q == p + w,
            Err(e) => res == Err::<(Option<Payload>, usize), ParseError>(e),
        },
{
    let avail = r.len() - p;
    match t {
        SerialType::Null => Ok((None, p)),
        SerialType::I8 => if avail < 1 {
            past_end(r.len(), partial)
        } else {
            Ok((Some(Payload::I8(read_int(r, p, 1) as i8)), p + 1))
        },
        SerialType::I16 => if avail < 2 {
            past_end(r.len(), partial)
        } else {
            Ok((Some(Payload::I16(read_int(r, p, 2) as i16)), p + 2))
        },
        SerialType::I24 => if avail < 3 {
            past_end(r.len(), partial)
        } else {
            Ok((Some(Payload::I32(read_int(r, p, 3) as i32)), p + 3))
        },
        SerialType::I32 => if avail < 4 {
            past_end(r.len(), partial)
        } else {
            Ok((Some(Payload::I32(read_int(r, p, 4) as i32)), p + 4))
        },
        SerialType::I48 => if avail < 6 {
            past_end(r.len(), partial)
        } else {
            Ok((Some(Payload::I64(read_int(r, p, 6))), p + 6))
        },
        SerialType::I64 => if avail < 8 {
            past_end(r.len(), partial)
        } else {
            Ok((Some(Payload::I64(read_int(r, p, 8))), p + 8))
        },
        SerialType::F64 => if avail < 8 {
            past_end(r.len(), partial)
        } else {
            Ok((Some(Payload::F64(read_uint(r, p, 8))), p + 8))
        },
        SerialType::Const0 => Ok((Some(Payload::I8(0)), p)),
        SerialType::Const1 => Ok((Some(Payload::I8(1)), p)),
        SerialType::Reserved => Err(ParseError::ReservedSerialType),
        SerialType::Blob(_) | SerialType::Text(_) => {
            let w = match t.size() {
                Ok(w) => w,
                Err(e) => {
                    return Err(e);
                },
            };
            if w == 0 {
                Ok((None, p))
            } else if w > avail as u64 {
                past_end(r.len(), partial)
            } else {
                let q = p + w as usize;
                if let SerialType::Blob(_) = t {
                    Ok((blob_payload(r, p, q), q))
                } else {
                    Ok((text_payload(r, p, q, enc), q))
                }
            }
        },
    }
}

proof fn lemma_column_values_len(r: Seq<u8>, p: int, ts: Seq<SerialType>, enc: TextEncoding, partial: bool)
    ensures
        column_values_from(r, p, ts, enc, partial) matches Ok(vs) ==> vs.len() == ts.len(),
    decreases ts.len(),
{
    if ts.len() > 0 {
        if let Ok((v, w)) = column_value_at(r, p, ts[0], enc, partial) {
            lemma_column_values_len(r, p + w, ts.drop_first(), enc, partial);
        }
    }
}

/// A decoded record has exactly one value per column type.
pub proof fn lemma_record_columns(r: Seq<u8>, enc: TextEncoding, partial: bool)
    ensures
        record_of(r, enc, partial) matches Ok(rec) ==> rec.column_values.len() == rec.column_types.len(),
{
    reveal(record_of);
    if let Some((h, n)) = varint_at(r, 0) {
        if n <= h <= r.len() {
            if let Some(ts) = serial_types_from(r.subrange(n as int, h as int), 0) {
                lemma_column_values_len(r, h as int, ts, enc, partial);
            }
        }
    }
}

/// Decodes the values of columns of types `ts`, stored one after another from
/// `start` of `r`.
pub fn column_values(r: &[u8], start: usize, ts: &Vec<SerialType>, enc: TextEncoding, partial: bool) -> (res: Result<Vec<Option<Payload>>, ParseError>)
    requires
        start <= r@.len(),
        forall|i: int| 0 <= i < ts@.len() ==> (#[trigger] ts@[i]).wf(),
    ensures
        match column_values_from(r@, start as int, ts@, enc, partial) {
            Ok(vs) => res matches Ok(v) && v.deep_view() == vs,
            Err(e) => res matches Err(x) && x == e,
        },
{
    let mut out: Vec<Option<Payload>> = Vec::new();
    let mut p: usize = start;
    let mut k: usize = 0;
    proof {
        assert(ts@.subrange(0, ts@.len() as int) =~= ts@);
        if let Ok(rest) = column_values_from(r@, start as int, ts@, enc, partial) {
            assert(out.deep_view() + rest =~= rest);
        }
    }
    while k < ts.len()
        invariant
            k <= ts@.len(),
            p <= r@.len(),
            forall|i: int| 0 <= i < ts@.len() ==> (#[trigger] ts@[i]).wf(),
            match column_values_from(r@, p as int, ts@.subrange(k as int, ts@.len() as int), enc, partial) {
                Ok(rest) => column_values_from(r@, start as int, ts@, enc, partial) == Ok::<Seq<Option<PayloadView>>, ParseError>(out.deep_view() + rest),
                Err(e) => column_values_from(r@, start as int, ts@, enc, partial) == Err::<Seq<Option<PayloadView>>, ParseError>(e),
            },
        decreases ts@.len() - k,
    {
        let ghost tail = ts@.subrange(k as int, ts@.len() as int);
        assert(tail.drop_first() =~= ts@.subrange(k + 1, ts@.len() as int));
        assert(tail[0] == ts@[k as int]);
        match column_value(r, p, ts[k], enc, partial) {
            Ok((v, q)) => {
                let ghost before = out.deep_view();
                out.push(v);
                proof {
                    assert(out.deep_view() =~= before.push(v.deep_view()));
                    if let Ok(rest) = column_values_from(r@, q as int, ts@.subrange(k + 1, ts@.len() as int), enc, partial) {
                        assert(before + (seq![v.deep_view()] + rest) =~= out.deep_view() + rest);
                    }
                }
                p = q;
                k = k + 1;
            },
            Err(e) => {
                return Err(e);
            },
        }
    }
    proof {
        assert(ts@.subrange(k as int, ts@.len() as int) =~= Seq::<SerialType>::empty());
        assert(out.deep_view() + seq![] =~= out.deep_view());
    }
    Ok(out)
}

/// Decodes the record held by the payload bytes `r`: its header size, column
/// types and column values.
pub fn record(r: &[u8], enc: TextEncoding, partial: bool) -> (res: Result<(u64, Vec<SerialType>, Vec<Option<Payload>>), ParseError>)
    ensures
        match record_of(r@, enc, partial) {
            Ok(rec) => res matches Ok((h, ts, vs)) && h == rec.header_size && ts@ == rec.column_types
                && vs.deep_view() == rec.column_values,
            Err(e) => res matches Err(x) && x == e,
        },
{
    reveal(record_of);
    let (h, n) = match read_varint(r, 0) {
        Ok(x) => x,
        Err(e) => {
            return Err(e);
        },
    };
    if h < n as u64 {
        return Err(ParseError::BadRecordHeader);
    }
    if h > r.len() as u64 {
        return Err(ParseError::Truncated);
    }
    let h_end = h as usize;
    let types = match column_types(vstd::slice::slice_subrange(r, n, h_end)) {
        Ok(ts) => ts,
        Err(e) => {
            return Err(e);
        },
    };
    proof {
        lemma_serial_types_wf(r@.subrange(n as int, h as int), 0);
    }
    match column_values(r, h_end, &types, enc, partial) {
        Ok(vs) => Ok((h, types, vs)),
        Err(e) => Err(e),
    }
}

/// Decodes the record of a table b-tree leaf cell; `partial` where the page
/// keeps only a part of the payload.
pub fn table_cell_payload(r: &[u8], enc: TextEncoding, partial: bool) -> (res: Result<TableCellPayload, ParseError>)
    ensures
        match record_of(r@, enc, partial) {
            Ok(rec) => res matches Ok(x) && x.deep_view() == rec,
            Err(e) => res matches Err(x) && x == e,
        },
{
    match record(r, enc, partial) {
        Ok((header_size, column_types, column_values)) => Ok(
            TableCellPayload { header_size, column_types, column_values },
        ),
        Err(e) => Err(e),
    }
}

/// Decodes the record of an index b-tree cell, whose last column is the row
/// id; `partial` where the page keeps only a part of the payload.
pub fn index_cell_payload(r: &[u8], enc: TextEncoding, partial: bool) -> (res: Result<IndexCellPayload, ParseError>)
    ensures
        match record_of(r@, enc, partial) {
            Ok(rec) => res matches Ok(x) && x.deep_view() == (rec, index_rowid_of(rec.column_values)),
            Err(e) => res matches Err(x) && x == e,
        },
{
    match record(r, enc, partial) {
        Ok((header_size, column_types, column_values)) => {
            let n = column_values.len();
            let rowid = if n == 0 {
                None
            } else {
                match &column_values[n - 1] {
                    Some(Payload::I8(x)) => Some(*x as i64),
                    Some(Payload::I16(x)) => Some(*x as i64),
                    Some(Payload::I32(x)) => Some(*x as i64),
                    Some(Payload::I64(x)) => Some(*x),
                    _ => None,
                }
            };
            Ok(IndexCellPayload { header_size, column_types, column_values, rowid })
        },
        Err(e) => Err(e),
    }
}

} // verus!
