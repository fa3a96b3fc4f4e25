use vstd::prelude::*;

verus! {

/// 256 to the power `n`: the number of values that `n` bytes can hold.
pub open spec fn pow256(n: nat) -> nat
    decreases n,
{
    if n == 0 { 1 } else { 256 * pow256((n - 1) as nat) }
}

/// Unsigned big-endian value of the `n` bytes of `b` that start at `p`.
pub open spec fn be_uint(b: Seq<u8>, p: int, n: nat) -> nat
    decreases n,
{
    if n == 0 { 0 } else { be_uint(b, p, (n - 1) as nat) * 256 + b[p + n - 1] as nat }
}

/// Two's-complement reading of `u` as an `n`-byte quantity.
pub open spec fn signed_of(u: nat, n: nat) -> int {
    if 2 * u >= pow256(n) { u - pow256(n) } else { u as int }
}

/// Signed big-endian two's-complement value of `n` bytes of `b` at `p`.
pub open spec fn be_sint(b: Seq<u8>, p: int, n: nat) -> int {
    signed_of(be_uint(b, p, n), n)
}

pub proof fn lemma_pow256_values()
    ensures
        pow256(1) == 0x100,
        pow256(2) == 0x1_0000,
        pow256(3) == 0x100_0000,
        pow256(4) == 0x1_0000_0000,
        pow256(6) == 0x1_0000_0000_0000,
        pow256(8) == 0x1_0000_0000_0000_0000,
{
    reveal_with_fuel(pow256, 9);
}

/// An `n`-byte value is below `pow256(n)`.
pub proof fn lemma_be_uint_bound(b: Seq<u8>, p: int, n: nat)
    ensures
        be_uint(b, p, n) < pow256(n),
    decreases n,
{
    if n > 0 {
        lemma_be_uint_bound(b, p, (n - 1) as nat);
    }
}

/// A big-endian value splits into its first `m` bytes and the `n` after them.
pub proof fn lemma_be_uint_split(b: Seq<u8>, p: int, m: nat, n: nat)
    ensures
        be_uint(b, p, m + n) == be_uint(b, p, m) * pow256(n) + be_uint(b, p + m, n),
    decreases n,
{
    if n > 0 {
        lemma_be_uint_split(b, p, m, (n - 1) as nat);
        let a = be_uint(b, p, m);
        let c = be_uint(b, p + m, (n - 1) as nat);
        let q = pow256((n - 1) as nat);
        assert(be_uint(b, p, m + n) == be_uint(b, p, (m + n - 1) as nat) * 256 + b[p + m + n - 1] as nat);
        assert(be_uint(b, p + m, n) == c * 256 + b[p + m + n - 1] as nat);
        assert(pow256(n) == 256 * q);
        assert(be_uint(b, p, (m + n - 1) as nat) == a * q + c);
        assert((a * q + c) * 256 == a * (256 * q) + c * 256) by (nonlinear_arith);
    } else {
        assert(pow256(0) == 1);
        assert(m + n == m);
    }
}

/// Reads the `n` bytes of `b` at `p` as an unsigned big-endian integer.
pub fn read_uint(b: &[u8], p: usize, n: usize) -> (r: u64)
    requires
        n <= 8,
        p + n <= b@.len(),
    ensures
        r == be_uint(b@, p as int, n as nat),
{
    let mut r: u64 = 0;
    let mut k: usize = 0;
    let len = b.len();
    proof {
        lemma_pow256_values();
    }
    while k < n
        invariant
            k <= n <= 8,
            p + n <= b@.len(),
            len == b@.len(),
            r == be_uint(b@, p as int, k as nat),
            pow256(8) == 0x1_0000_0000_0000_0000,
        decreases n - k,
    {
        proof {
            lemma_be_uint_bound(b@, p as int, (k + 1) as nat);
            lemma_pow256_monotone((k + 1) as nat, 8);
        }
        r = r * 256 + b[p + k] as u64;
        k = k + 1;
    }
    r
}

pub proof fn lemma_pow256_monotone(m: nat, n: nat)
    requires
        m <= n,
    ensures
        pow256(m) <= pow256(n),
    decreases n,
{
    if m < n {
        lemma_pow256_monotone(m, (n - 1) as nat);
    }
}

/// Reads the `n` bytes of `b` at `p` as a big-endian two's-complement integer.
pub fn read_int(b: &[u8], p: usize, n: usize) -> (r: i64)
    requires
        1 <= n <= 8,
        p + n <= b@.len(),
    ensures
        r == be_sint(b@, p as int, n as nat),
{
    let u = read_uint(b, p, n);
    proof {
        lemma_pow256_values();
        lemma_be_uint_bound(b@, p as int, n as nat);
    }
    if n == 8 {
        let r = u as i64;
        assert(r == (if u >= 0x8000_0000_0000_0000u64 { u - 0x1_0000_0000_0000_0000 } else { u as int })) by (bit_vector)
            requires
                r == u as i64,
        ;
        r
    } else {
        let full: u64 = if n == 1 {
            0x100
        } else if n == 2 {
            0x1_0000
        } else if n == 3 {
            0x100_0000
        } else if n == 4 {
            0x1_0000_0000
        } else if n == 5 {
            0x100_0000_0000
        } else if n == 6 {
            0x1_0000_0000_0000
        } else {
            0x100_0000_0000_0000
        };
        proof {
            reveal_with_fuel(pow256, 8);
        }
        assert(full == pow256(n as nat));
        if u >= full / 2 {
            u as i64 - full as i64
        } else {
            u as i64
        }
    }
}

/// Reads the four bytes of `b` at `p` as a big-endian `u32`.
pub fn read_u32(b: &[u8], p: usize) -> (r: u32)
    requires
        p + 4 <= b@.len(),
    ensures
        r == be_uint(b@, p as int, 4),
{
    proof {
        lemma_be_uint_bound(b@, p as int, 4);
        lemma_pow256_values();
    }
    read_uint(b, p, 4) as u32
}

/// Reads the two bytes of `b` at `p` as a big-endian `u16`.
pub fn read_u16(b: &[u8], p: usize) -> (r: u16)
    requires
        p + 2 <= b@.len(),
    ensures
        r == be_uint(b@, p as int, 2),
{
    proof {
        lemma_be_uint_bound(b@, p as int, 2);
        lemma_pow256_values();
    }
    read_uint(b, p, 2) as u16
}

} // verus!
