//! Big- and little-endian integers over byte sequences.
use vstd::prelude::*;

verus! {

pub open spec fn pow256(n: nat) -> nat
    decreases n,
{
    if n == 0 {
        1
    } else {
        256 * pow256((n - 1) as nat)
    }
}

/// Big-endian value of a byte sequence.
pub open spec fn be_value(s: Seq<u8>) -> nat
    decreases s.len(),
{
    if s.len() == 0 {
        0
    } else {
        be_value(s.drop_last()) * 256 + s.last() as nat
    }
}

/// Little-endian value of a byte sequence.
pub open spec fn le_value(s: Seq<u8>) -> nat
    decreases s.len(),
{
    if s.len() == 0 {
        0
    } else {
        s[0] as nat + 256 * le_value(s.drop_first())
    }
}

/// The `n`-byte big-endian encoding of `v` (the low `n` bytes).
pub open spec fn be_bytes(v: nat, n: nat) -> Seq<u8>
    decreases n,
{
    if n == 0 {
        Seq::empty()
    } else {
        be_bytes(v / 256, (n - 1) as nat).push((v % 256) as u8)
    }
}

/// The `n`-byte little-endian encoding of `v` (the low `n` bytes).
pub open spec fn le_bytes(v: nat, n: nat) -> Seq<u8>
    decreases n,
{
    if n == 0 {
        Seq::empty()
    } else {
        seq![(v % 256) as u8] + le_bytes(v / 256, (n - 1) as nat)
    }
}

pub proof fn lemma_pow256_positive(n: nat)
    ensures
        pow256(n) >= 1,
    decreases n,
{
    if n > 0 {
        lemma_pow256_positive((n - 1) as nat);
    }
}

pub proof fn lemma_be_value_bound(s: Seq<u8>)
    ensures
        be_value(s) < pow256(s.len()),
    decreases s.len(),
{
    if s.len() > 0 {
        lemma_be_value_bound(s.drop_last());
        let a = be_value(s.drop_last());
        let p = pow256((s.len() - 1) as nat);
        assert(a * 256 + s.last() < p * 256) by (nonlinear_arith)
            requires a < p, s.last() < 256;
    }
}

pub proof fn lemma_be_bytes_len(v: nat, n: nat)
    ensures
        be_bytes(v, n).len() == n,
    decreases n,
{
    if n > 0 {
        lemma_be_bytes_len(v / 256, (n - 1) as nat);
    }
}

pub proof fn lemma_le_bytes_len(v: nat, n: nat)
    ensures
        le_bytes(v, n).len() == n,
    decreases n,
{
    if n > 0 {
        lemma_le_bytes_len(v / 256, (n - 1) as nat);
    }
}

/// Decoding a big-endian encoding gives the value back when it fits.
pub proof fn lemma_be_roundtrip(v: nat, n: nat)
    requires
        v < pow256(n),
    ensures
        be_value(be_bytes(v, n)) == v,
    decreases n,
{
    lemma_be_bytes_len(v, n);
    if n > 0 {
        let p = pow256((n - 1) as nat);
        assert(v / 256 < p) by (nonlinear_arith)
            requires v < 256 * p;
        lemma_be_roundtrip(v / 256, (n - 1) as nat);
        let b = be_bytes(v, n);
        assert(b.drop_last() =~= be_bytes(v / 256, (n - 1) as nat));
        assert(b.last() == (v % 256) as u8);
        assert((v / 256) * 256 + v % 256 == v) by (nonlinear_arith);
    } else {
        assert(v == 0);
    }
}

/// Decoding a little-endian encoding gives the value back when it fits.
pub proof fn lemma_le_roundtrip(v: nat, n: nat)
    requires
        v < pow256(n),
    ensures
        le_value(le_bytes(v, n)) == v,
    decreases n,
{
    lemma_le_bytes_len(v, n);
    if n > 0 {
        let p = pow256((n - 1) as nat);
        assert(v / 256 < p) by (nonlinear_arith)
            requires v < 256 * p;
        lemma_le_roundtrip(v / 256, (n - 1) as nat);
        let b = le_bytes(v, n);
        assert(b.drop_first() =~= le_bytes(v / 256, (n - 1) as nat));
        assert(b[0] == (v % 256) as u8);
        assert(v % 256 + 256 * (v / 256) == v) by (nonlinear_arith);
    } else {
        assert(v == 0);
    }
}

pub proof fn lemma_pow256_values()
    ensures
        pow256(2) == 65536,
        pow256(4) == 0x1_0000_0000,
        pow256(8) == 0x1_0000_0000_0000_0000,
{
    reveal_with_fuel(pow256, 9);
}

/// Big-endian value of `s[start..start + n]`.
pub fn read_be(s: &[u8], start: usize, n: usize) -> (v: u64)
    requires
        n <= 8,
        start + n <= s@.len(),
    ensures
        v as nat == be_value(s@.subrange(start as int, start + n)),
{
    let mut v: u64 = 0;
    let mut i: usize = 0;
    let len = s.len();
    proof {
        lemma_pow256_values();
    }
    while i < n
        invariant
            len == s@.len(),
            i <= n <= 8,
            start + n <= s@.len(),
            v as nat == be_value(s@.subrange(start as int, start + i)),
            pow256(8) == 0x1_0000_0000_0000_0000,
        decreases n - i,
    {
        proof {
            let t = s@.subrange(start as int, start + i + 1);
            assert(t.drop_last() =~= s@.subrange(start as int, start + i));
            lemma_be_value_bound(s@.subrange(start as int, start + i));
            lemma_pow_monotone(i as nat, 7);
            assert(v * 256 + s@[start + i] < 0x1_0000_0000_0000_0000) by (nonlinear_arith)
                requires v < pow256(i as nat), pow256(i as nat) <= pow256(7), pow256(8) == 256 * pow256(7),
                    pow256(8) == 0x1_0000_0000_0000_0000, s@[start + i] < 256;
        }
        v = v * 256 + s[start + i] as u64;
        i = i + 1;
    }
    v
}

pub proof fn lemma_pow_monotone(a: nat, b: nat)
    requires
        a <= b,
    ensures
        pow256(a) <= pow256(b),
    decreases b,
{
    if a < b {
        lemma_pow_monotone(a, (b - 1) as nat);
        lemma_pow256_positive((b - 1) as nat);
    }
}

/// Little-endian value of the four bytes `s[start..start + 4]`.
pub fn read_le_u32(s: &[u8], start: usize) -> (v: u32)
    requires
        start + 4 <= s@.len(),
    ensures
        v as nat == le_value(s@.subrange(start as int, start + 4)),
{
    let b0 = s[start] as u32;
    let b1 = s[start + 1] as u32;
    let b2 = s[start + 2] as u32;
    let b3 = s[start + 3] as u32;
    proof {
        let t = s@.subrange(start as int, start + 4);
        assert(t.drop_first().drop_first().drop_first().drop_first() =~= Seq::<u8>::empty());
        reveal_with_fuel(le_value, 5);
        assert(le_value(t) == t[0] + 256 * (t[1] + 256 * (t[2] + 256 * t[3])));
    }
    b0 + 256 * (b1 + 256 * (b2 + 256 * b3))
}

/// The four-byte little-endian encoding of `v`.
pub fn le_u32_bytes(v: u32) -> (b: Vec<u8>)
    ensures
        b@ == le_bytes(v as nat, 4),
{
    let mut b: Vec<u8> = Vec::new();
    b.push((v % 256) as u8);
    b.push(((v / 256) % 256) as u8);
    b.push(((v / 65536) % 256) as u8);
    b.push(((v / 16777216) % 256) as u8);
    proof {
        reveal_with_fuel(le_bytes, 5);
        assert((v as nat / 256) / 256 == v as nat / 65536) by (nonlinear_arith);
        assert(((v as nat / 256) / 256) / 256 == v as nat / 16777216) by (nonlinear_arith);
        assert(b@ =~= le_bytes(v as nat, 4));
    }
    b
}

/// The `n`-byte big-endian encoding of `v`, appended to `out`.
pub fn push_be(out: &mut Vec<u8>, v: u64, n: usize)
    requires
        n <= 8,
    ensures
        final(out)@ == old(out)@ + be_bytes(v as nat, n as nat),
    decreases n,
{
    if n > 0 {
        push_be(out, v / 256, n - 1);
        out.push((v % 256) as u8);
    } else {
        assert(old(out)@ + be_bytes(v as nat, 0) =~= old(out)@);
    }
}

} // verus!
