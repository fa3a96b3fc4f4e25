use vstd::prelude::*;
use crate::error::ParseError;
use crate::numeric::{be_sint, be_uint, lemma_be_uint_bound, lemma_be_uint_split, lemma_pow256_values, read_uint};

verus! {

/// Signed 48-bit two's-complement value of the first six bytes of `b`, big-endian.
pub open spec fn i48_of(b: Seq<u8>) -> int {
    let u = be_uint(b, 0, 6);
    if u >= 0x8000_0000_0000 { u - 0x1_0000_0000_0000 } else { u as int }
}

proof fn lemma_sign_extend_48(head: u64, tail: u64, x: u64, y: u64)
    by (bit_vector)
    requires
        head < 0x1_0000,
        tail < 0x1_0000_0000,
        x == (head << 32u64) | tail,
        y == (if x & 0x8000_0000_0000u64 != 0 { x | 0xffff_0000_0000_0000u64 } else { x }),
    ensures
        x == head * 0x1_0000_0000 + tail,
        (y as i64) == (if x >= 0x8000_0000_0000u64 { x - 0x1_0000_0000_0000 } else { x as int }),
{
}

/// Big-endian signed 48-bit two's-complement integer: decodes the first six
/// bytes of `i` and hands back the bytes after them.
pub fn be_i48(i: &[u8]) -> (r: Result<(&[u8], i64), ParseError>)
    ensures
        match r {
            Ok((rest, v)) => {
                &&& i@.len() >= 6
                &&& v == i48_of(i@)
                &&& v == be_sint(i@, 0, 6)
                &&& rest@ == i@.subrange(6, i@.len() as int)
            },
            Err(e) => i@.len() < 6 && e == ParseError::Truncated,
        },
{
    if i.len() < 6 {
        return Err(ParseError::Truncated);
    }
    let head = read_uint(i, 0, 2);
    let tail = read_uint(i, 2, 4);
    proof {
        lemma_pow256_values();
        lemma_be_uint_split(i@, 0, 2, 4);
        lemma_be_uint_bound(i@, 0, 2);
        lemma_be_uint_bound(i@, 2, 4);
    }
    let mut x: u64 = (head << 32u64) | tail;
    let ghost x0 = x;
    if x & 0x8000_0000_0000u64 != 0 {
        x = x | 0xffff_0000_0000_0000u64;
    }
    proof {
        lemma_sign_extend_48(head, tail, x0, x);
    }
    let rest = vstd::slice::slice_subrange(i, 6, i.len());
    Ok((rest, x as i64))
}

} // verus!
