use vstd::prelude::*;
use crate::error::ParseError;

verus! {

/// 128 to the power `n`.
pub open spec fn pow128(n: nat) -> nat
    decreases n,
{
    if n == 0 { 1 } else { 128 * pow128((n - 1) as nat) }
}

/// The low seven bits of the first `n` bytes of `b` at `p`, most significant first.
pub open spec fn be7(b: Seq<u8>, p: int, n: nat) -> nat
    decreases n,
{
    if n == 0 { 0 } else { be7(b, p, (n - 1) as nat) * 128 + (b[p + n - 1] % 128) as nat }
}

/// Length of the varint at `p`, looking from its `k`-th byte on: a byte below
/// 0x80 ends it, and the ninth byte always does. `None` when the input ends first.
pub open spec fn varint_scan(b: Seq<u8>, p: int, k: nat) -> Option<nat>
    decreases 9 - k,
{
    if p + k >= b.len() {
        None
    } else if k >= 8 || b[p + k] < 128 {
        Some(k + 1)
    } else {
        varint_scan(b, p, k + 1)
    }
}

/// Value of an `n`-byte varint at `p`: seven bits from each of the first
/// eight bytes, and all eight bits of a ninth.
pub open spec fn varint_value(b: Seq<u8>, p: int, n: nat) -> nat {
    if n == 9 { be7(b, p, 8) * 256 + b[p + 8] as nat } else { be7(b, p, n) }
}

/// The varint at `p` of `b`: its value and its length in bytes, or `None`
/// when the input ends inside it.
pub open spec fn varint_at(b: Seq<u8>, p: int) -> Option<(nat, nat)> {
    match varint_scan(b, p, 0) {
        Some(n) => Some((varint_value(b, p, n), n)),
        None => None,
    }
}

pub proof fn lemma_scan_facts(b: Seq<u8>, p: int, k: nat)
    requires
        k <= 8,
    ensures
        match varint_scan(b, p, k) {
            Some(n) => k < n <= 9 && p + n <= b.len() && (n == 9 || b[p + n - 1] < 128),
            None => true,
        },
    decreases 9 - k,
{
    if p + k < b.len() && !(k >= 8 || b[p + k] < 128) {
        lemma_scan_facts(b, p, k + 1);
    }
}

proof fn lemma_be7_bound(b: Seq<u8>, p: int, n: nat)
    ensures
        be7(b, p, n) < pow128(n),
    decreases n,
{
    if n > 0 {
        lemma_be7_bound(b, p, (n - 1) as nat);
    }
}

/// Decodes the varint that starts at `p` of `b`, giving its value and the
/// position just after it.
pub fn read_varint(b: &[u8], p: usize) -> (r: Result<(u64, usize), ParseError>)
    requires
        p <= b@.len(),
    ensures
        match varint_at(b@, p as int) {
            Some((v, n)) => {
                &&& r matches Ok((x, q)) && x == v && q == p + n
                &&& v < 0x1_0000_0000_0000_0000
                &&& 1 <= n <= 9
                &&& p + n <= b@.len()
            },
            None => r == Err::<(u64, usize), ParseError>(ParseError::Truncated),
        },
{
    let len = b.len();
    let mut res: u64 = 0;
    let mut k: usize = 0;
    proof {
        reveal_with_fuel(pow128, 9);
        lemma_scan_facts(b@, p as int, 0);
    }
    loop
        invariant
            k <= 8,
            p <= len,
            len == b@.len(),
            res == be7(b@, p as int, k as nat),
            varint_scan(b@, p as int, 0) == varint_scan(b@, p as int, k as nat),
            pow128(8) == 0x100_0000_0000_0000,
        decreases 9 - k,
    {
        if len - p <= k {
            return Err(ParseError::Truncated);
        }
        let byte = b[p + k];
        proof {
            lemma_be7_bound(b@, p as int, k as nat);
            lemma_pow128_monotone(k as nat, 8);
        }
        if k == 8 {
            let v = res * 256 + byte as u64;
            return Ok((v, p + 9));
        }
        proof {
            lemma_be7_bound(b@, p as int, (k + 1) as nat);
            lemma_pow128_monotone((k + 1) as nat, 8);
        }
        res = res * 128 + (byte % 128) as u64;
        if byte < 128 {
            return Ok((res, p + k + 1));
        }
        k = k + 1;
    }
}

proof fn lemma_pow128_monotone(m: nat, n: nat)
    requires
        m <= n,
    ensures
        pow128(m) <= pow128(n),
    decreases n,
{
    if m < n {
        lemma_pow128_monotone(m, (n - 1) as nat);
    }
}

/// Base-128 digits of `v`, most significant first, without leading zeros.
pub open spec fn base128_digits(v: nat) -> Seq<nat>
    decreases v,
{
    if v < 128 { seq![v] } else { base128_digits(v / 128).push(v % 128) }
}

/// Encoding of `v` under the base-128 continuation rule: one byte per digit,
/// the high bit set on every byte but the last.
pub open spec fn varint_encoding(v: nat) -> Seq<u8> {
    let d = base128_digits(v);
    Seq::new(d.len(), |i: int| if i + 1 < d.len() { (d[i] + 128) as u8 } else { d[i] as u8 })
}

proof fn lemma_scan_continues(b: Seq<u8>, p: int, k: nat, n: nat)
    requires
        k <= 8,
        varint_scan(b, p, k) == Some(n),
    ensures
        forall|j: int| k <= j < n - 1 ==> #[trigger] b[p + j] >= 128,
    decreases 9 - k,
{
    if p + k < b.len() && !(k >= 8 || b[p + k] < 128) {
        lemma_scan_continues(b, p, k + 1, n);
    }
}

proof fn lemma_be7_positive(b: Seq<u8>, k: nat)
    requires
        1 <= k,
        b[0] % 128 != 0,
    ensures
        be7(b, 0, k) >= 1,
    decreases k,
{
    if k > 1 {
        lemma_be7_positive(b, (k - 1) as nat);
    }
}

proof fn lemma_be7_digits(b: Seq<u8>, k: nat)
    requires
        1 <= k <= b.len(),
        k == 1 || b[0] % 128 != 0,
    ensures
        base128_digits(be7(b, 0, k)) =~= Seq::new(k, |i: int| (b[i] % 128) as nat),
    decreases k,
{
    let v = be7(b, 0, k);
    if k == 1 {
        assert(be7(b, 0, 0) == 0);
        assert(v == (b[0] % 128) as nat);
    } else {
        let w = be7(b, 0, (k - 1) as nat);
        let d = (b[k - 1] % 128) as nat;
        lemma_be7_positive(b, (k - 1) as nat);
        lemma_be7_digits(b, (k - 1) as nat);
        assert(v == w * 128 + d);
        assert(v / 128 == w && v % 128 == d);
        assert(base128_digits(v) == base128_digits(w).push(d));
    }
}

/// Decoding a varint of one to eight bytes and encoding its value again under
/// the base-128 continuation rule gives back the same bytes. The varint must
/// not open with an empty group (a first byte of 0x80), which the encoding
/// never writes.
pub proof fn lemma_varint_round_trip(b: Seq<u8>)
    requires
        1 <= b.len() <= 8,
        varint_scan(b, 0, 0) == Some(b.len()),
        b.len() == 1 || b[0] != 0x80,
    ensures
        varint_at(b, 0) matches Some((v, n)) && n == b.len() && varint_encoding(v) == b,
{
    let n = b.len();
    lemma_scan_continues(b, 0, 0, n);
    lemma_scan_facts(b, 0, 0);
    if n > 1 {
        assert(b[0int + 0] >= 128);
        assert(b[0] % 128 != 0);
    }
    lemma_be7_digits(b, n);
    let v = varint_value(b, 0, n);
    assert(v == be7(b, 0, n));
    let d = base128_digits(v);
    assert(d.len() == n);
    assert forall|i: int| 0 <= i < n implies #[trigger] varint_encoding(v)[i] == b[i] by {
        if i + 1 < n {
            assert(b[0 + i] >= 128);
        } else {
            assert(b[i] < 128);
        }
    }
    assert(varint_encoding(v) =~= b);
}

proof fn lemma_digits_facts(v: nat)
    ensures
        base128_digits(v).len() >= 1,
        forall|i: int| 0 <= i < base128_digits(v).len() ==> #[trigger] base128_digits(v)[i] < 128,
        v > 0 ==> base128_digits(v)[0] != 0,
        v < 128 ==> base128_digits(v).len() == 1,
    decreases v,
{
    if v >= 128 {
        lemma_digits_facts(v / 128);
        let d = base128_digits(v / 128);
        assert(base128_digits(v) == d.push(v % 128));
        assert forall|i: int| 0 <= i < base128_digits(v).len() implies #[trigger] base128_digits(v)[i] < 128 by {
            if i < d.len() {
                assert(base128_digits(v)[i] == d[i]);
            }
        }
        assert(base128_digits(v)[0] == d[0]);
    }
}

proof fn lemma_digits_len(v: nat, k: nat)
    requires
        1 <= k,
        v < pow128(k),
    ensures
        base128_digits(v).len() <= k,
    decreases k,
{
    if v >= 128 {
        if k == 1 {
            assert(pow128(1) == 128 * pow128(0));
        }
        let q = pow128((k - 1) as nat);
        assert(pow128(k) == 128 * q);
        assert(v / 128 < q) by (nonlinear_arith)
            requires
                v < 128 * q,
        ;
        lemma_digits_len(v / 128, (k - 1) as nat);
    }
}

/// The encoding's bytes, read back seven bits at a time, give the value.
proof fn lemma_encoding_be7(v: nat, k: nat)
    requires
        k <= base128_digits(v).len(),
    ensures
        be7(varint_encoding(v), 0, k) == be7_digits(base128_digits(v), k),
    decreases k,
{
    if k > 0 {
        lemma_encoding_be7(v, (k - 1) as nat);
        lemma_digits_facts(v);
        let d = base128_digits(v);
        let e = varint_encoding(v);
        assert(d[k - 1] < 128);
        assert(e[k - 1] % 128 == d[k - 1]);
    }
}

/// Base-128 digits `d` read back as a number, first `k` of them.
pub open spec fn be7_digits(d: Seq<nat>, k: nat) -> nat
    decreases k,
{
    if k == 0 { 0 } else { be7_digits(d, (k - 1) as nat) * 128 + d[k - 1] }
}

proof fn lemma_be7_digits_value(v: nat)
    ensures
        be7_digits(base128_digits(v), base128_digits(v).len()) == v,
    decreases v,
{
    if v >= 128 {
        lemma_be7_digits_value(v / 128);
        let d = base128_digits(v / 128);
        let e = d.push(v % 128);
        assert(base128_digits(v) == e);
        lemma_be7_digits_prefix(d, v % 128, d.len());
        assert(e[d.len() as int] == v % 128);
        assert(be7_digits(e, e.len()) == be7_digits(e, d.len()) * 128 + v % 128);
        assert(v == (v / 128) * 128 + v % 128);
    } else {
        let d = base128_digits(v);
        assert(d =~= seq![v]);
        assert(be7_digits(d, 0) == 0);
        assert(be7_digits(d, 1) == be7_digits(d, 0) * 128 + d[0]);
    }
}

proof fn lemma_be7_digits_prefix(d: Seq<nat>, x: nat, k: nat)
    requires
        k <= d.len(),
    ensures
        be7_digits(d.push(x), k) == be7_digits(d, k),
    decreases k,
{
    if k > 0 {
        lemma_be7_digits_prefix(d, x, (k - 1) as nat);
    }
}

proof fn lemma_encoding_scan(v: nat, k: nat)
    requires
        base128_digits(v).len() <= 8,
        k < base128_digits(v).len(),
    ensures
        varint_scan(varint_encoding(v), 0, k) == Some(base128_digits(v).len()),
    decreases base128_digits(v).len() - k,
{
    lemma_digits_facts(v);
    let d = base128_digits(v);
    let e = varint_encoding(v);
    if k + 1 < d.len() {
        assert(e[k as int] >= 128);
        lemma_encoding_scan(v, k + 1);
    } else {
        assert(e[k as int] < 128);
    }
}

/// Encoding a value below 2^56 under the base-128 continuation rule and
/// decoding the bytes again gives back the value, and the decoder takes all
/// the bytes.
pub proof fn lemma_varint_encode_decode(v: nat)
    requires
        v < 0x100_0000_0000_0000,
    ensures
        varint_at(varint_encoding(v), 0) == Some((v, varint_encoding(v).len())),
        1 <= varint_encoding(v).len() <= 8,
{
    reveal_with_fuel(pow128, 9);
    lemma_digits_len(v, 8);
    lemma_digits_facts(v);
    let n = base128_digits(v).len();
    assert(v < pow128(8));
    lemma_encoding_scan(v, 0);
    lemma_encoding_be7(v, n);
    lemma_be7_digits_value(v);
}

/// Big-endian base-128 varint of one to nine bytes: decodes it from the
/// front of `i` and hands back the bytes after it.
pub fn be_u64_varint(i: &[u8]) -> (r: Result<(&[u8], u64), ParseError>)
    ensures
        match varint_at(i@, 0) {
            Some((v, n)) => match r {
                Ok((rest, x)) => x == v && rest@ == i@.subrange(n as int, i@.len() as int),
                Err(_) => false,
            },
            None => r matches Err(ParseError::Truncated),
        },
{
    match read_varint(i, 0) {
        Ok((v, q)) => Ok((vstd::slice::slice_subrange(i, q, i.len()), v)),
        Err(e) => Err(e),
    }
}

} // verus!
