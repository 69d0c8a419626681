//! Little-endian bytes and the numbers they stand for.

use vstd::prelude::*;

verus! {

/// The number whose little-endian bytes are `s`.
pub open spec fn le_value(s: Seq<u8>) -> int
    decreases s.len(),
{
    if s.len() == 0 {
        0
    } else {
        s[0] + 256 * le_value(s.drop_first())
    }
}

/// The `n` low little-endian bytes of `v`.
pub open spec fn le_bytes(v: int, n: nat) -> Seq<u8>
    decreases n,
{
    if n == 0 {
        Seq::empty()
    } else {
        seq![(v % 256) as u8] + le_bytes(v / 256, (n - 1) as nat)
    }
}

/// `256` to the power of `n`.
pub open spec fn pow256(n: nat) -> int
    decreases n,
{
    if n == 0 {
        1
    } else {
        256 * pow256((n - 1) as nat)
    }
}

/// The powers that operand sizes need.
pub proof fn lemma_pow256()
    ensures
        pow256(0) == 1,
        pow256(1) == 0x100,
        pow256(2) == 0x1_0000,
        pow256(3) == 0x100_0000,
        pow256(4) == 0x1_0000_0000,
        pow256(8) == 0x1_0000_0000_0000_0000,
        pow256(16) == 0x1_0000_0000_0000_0000_0000_0000_0000_0000,
{
    reveal_with_fuel(pow256, 17);
}

/// A number of `n` bytes lies below `256^n`.
pub proof fn lemma_le_value_bound(s: Seq<u8>)
    ensures
        0 <= le_value(s) < pow256(s.len()),
    decreases s.len(),
{
    if s.len() > 0 {
        lemma_le_value_bound(s.drop_first());
    }
}

/// There are as many bytes as were asked for.
pub proof fn lemma_le_bytes_len(v: int, n: nat)
    ensures
        le_bytes(v, n).len() == n,
    decreases n,
{
    if n > 0 {
        lemma_le_bytes_len(v / 256, (n - 1) as nat);
    }
}

/// Taking a number apart and putting it together again keeps its low bytes.
pub proof fn bytes_round_trip(v: int, n: nat)
    requires
        0 <= v,
    ensures
        le_value(le_bytes(v, n)) == v % pow256(n),
    decreases n,
{
    if n > 0 {
        let rest = le_bytes(v / 256, (n - 1) as nat);
        let b = seq![(v % 256) as u8] + rest;
        bytes_round_trip(v / 256, (n - 1) as nat);
        assert(b.drop_first() =~= rest);
        let p = pow256((n - 1) as nat);
        lemma_pow256_positive((n - 1) as nat);
        vstd::arithmetic::div_mod::lemma_mod_breakdown(v, 256, p);
        assert(v % (256 * p) == 256 * ((v / 256) % p) + v % 256);
    }
}

/// Putting bytes together and taking the number apart again gives the bytes.
pub proof fn value_round_trip(s: Seq<u8>)
    ensures
        le_bytes(le_value(s), s.len()) == s,
    decreases s.len(),
{
    if s.len() > 0 {
        let rest = s.drop_first();
        value_round_trip(rest);
        lemma_le_value_bound(rest);
        let v = le_value(s);
        assert(v % 256 == s[0] && v / 256 == le_value(rest)) by {
            assert(v == s[0] + 256 * le_value(rest));
        }
        assert(seq![s[0]] + rest =~= s);
    } else {
        assert(le_bytes(le_value(s), 0) =~= s);
    }
}

/// The powers are positive.
pub proof fn lemma_pow256_positive(n: nat)
    ensures
        pow256(n) >= 1,
    decreases n,
{
    if n > 0 {
        lemma_pow256_positive((n - 1) as nat);
    }
}

/// Splitting the bytes of a number at `k` splits the number.
pub proof fn lemma_le_value_split(s: Seq<u8>, k: int)
    requires
        0 <= k <= s.len(),
    ensures
        le_value(s) == le_value(s.take(k)) + pow256(k as nat) * le_value(s.skip(k)),
    decreases k,
{
    if k == 0 {
        assert(s.skip(0) =~= s);
    } else {
        let rest = s.drop_first();
        lemma_le_value_split(rest, k - 1);
        assert(s.take(k).drop_first() =~= rest.take(k - 1));
        assert(s.skip(k) =~= rest.skip(k - 1));
        let p = pow256((k - 1) as nat);
        let h = le_value(rest.skip(k - 1));
        assert(256 * (p * h) == (256 * p) * h) by (nonlinear_arith);
    }
}

/// Reads up to eight little-endian bytes.
pub fn read_le(bytes: &[u8]) -> (v: u64)
    requires
        bytes@.len() <= 8,
    ensures
        v == le_value(bytes@),
{
    let n: usize = bytes.len();
    let mut i: usize = n;
    let mut v: u64 = 0;
    assert(bytes@.skip(n as int) =~= Seq::<u8>::empty());
    while i > 0
        invariant
            i <= n,
            n == bytes@.len(),
            n <= 8,
            v == le_value(bytes@.skip(i as int)),
        decreases i,
    {
        i = i - 1;
        proof {
            let tail = bytes@.skip(i + 1);
            lemma_le_value_bound(tail);
            lemma_pow256();
            lemma_pow256_monotone(tail.len(), 7);
            reveal_with_fuel(pow256, 8);
            assert(bytes@.skip(i as int).drop_first() =~= tail);
        }
        v = v * 256 + bytes[i] as u64;
    }
    assert(bytes@.skip(0) =~= bytes@);
    v
}

/// Reads up to sixteen little-endian bytes.
pub fn read_le_wide(bytes: &[u8]) -> (v: u128)
    requires
        bytes@.len() <= 16,
    ensures
        v == le_value(bytes@),
{
    let n: usize = bytes.len();
    let mut i: usize = n;
    let mut v: u128 = 0;
    assert(bytes@.skip(n as int) =~= Seq::<u8>::empty());
    while i > 0
        invariant
            i <= n,
            n == bytes@.len(),
            n <= 16,
            v == le_value(bytes@.skip(i as int)),
        decreases i,
    {
        i = i - 1;
        proof {
            let tail = bytes@.skip(i + 1);
            lemma_le_value_bound(tail);
            lemma_pow256_monotone(tail.len(), 15);
            reveal_with_fuel(pow256, 16);
            assert(bytes@.skip(i as int).drop_first() =~= tail);
        }
        v = v * 256 + bytes[i] as u128;
    }
    assert(bytes@.skip(0) =~= bytes@);
    v
}

/// The powers grow.
pub proof fn lemma_pow256_monotone(a: nat, b: nat)
    requires
        a <= b,
    ensures
        pow256(a) <= pow256(b),
    decreases b,
{
    if a < b {
        lemma_pow256_monotone(a, (b - 1) as nat);
        lemma_pow256_positive((b - 1) as nat);
    }
}

/// The `n` low little-endian bytes of `v`.
pub fn write_le(v: u64, n: usize) -> (bytes: Vec<u8>)
    ensures
        bytes@ == le_bytes(v as int, n as nat),
        bytes@.len() == n,
{
    write_le_wide(v as u128, n)
}

/// The `n` low little-endian bytes of `v`.
pub fn write_le_wide(v: u128, n: usize) -> (bytes: Vec<u8>)
    ensures
        bytes@ == le_bytes(v as int, n as nat),
        bytes@.len() == n,
{
    let mut bytes: Vec<u8> = Vec::new();
    let mut rest: u128 = v;
    let mut i: usize = 0;
    assert(bytes@ + le_bytes(v as int, n as nat) =~= le_bytes(v as int, n as nat));
    while i < n
        invariant
            i <= n,
            bytes@.len() == i,
            bytes@ + le_bytes(rest as int, (n - i) as nat) == le_bytes(v as int, n as nat),
        decreases n - i,
    {
        let ghost before = bytes@;
        bytes.push((rest % 256) as u8);
        proof {
            let tail = le_bytes((rest / 256) as int, (n - i - 1) as nat);
            assert(le_bytes(rest as int, (n - i) as nat) == seq![(rest % 256) as u8] + tail);
            assert(bytes@ + tail =~= before + (seq![(rest % 256) as u8] + tail));
        }
        rest = rest / 256;
        i = i + 1;
    }
    proof {
        lemma_le_bytes_len(v as int, n as nat);
        assert(bytes@ + le_bytes(rest as int, 0) =~= bytes@);
    }
    bytes
}

/// The lowest byte comes first: byte number `k` of a number is its digit of weight `256^k`,
/// and bytes stand for the first of them and 256 times what the others stand for.
pub proof fn lowest_bytes_come_first(v: int, n: nat, k: int, b: u8, rest: Seq<u8>)
    requires
        0 <= v,
        0 <= k < n,
    ensures
        le_bytes(v, n).len() == n,
        le_bytes(v, n)[k] == v / pow256(k as nat) % 256,
        le_value(seq![b] + rest) == b + 256 * le_value(rest),
        le_value(Seq::empty()) == 0,
    decreases n,
{
    lemma_le_bytes_len(v, n);
    assert((seq![b] + rest).drop_first() =~= rest);
    if k > 0 {
        let j = (k - 1) as nat;
        lowest_bytes_come_first(v / 256, (n - 1) as nat, k - 1, b, rest);
        lemma_pow256_positive(j);
        vstd::arithmetic::div_mod::lemma_div_denominator(v, 256, pow256(j));
        lemma_le_bytes_len(v / 256, (n - 1) as nat);
        assert(le_bytes(v, n)[k] == le_bytes(v / 256, (n - 1) as nat)[k - 1]);
    } else {
        assert(pow256(0) == 1);
    }
}

} // verus!
