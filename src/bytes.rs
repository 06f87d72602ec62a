//! Little-endian byte strings and the integers they encode.

use vstd::prelude::*;

verus! {

/// `256` raised to the power `n`.
pub open spec fn p256(n: nat) -> nat
    decreases n,
{
    if n == 0 {
        1
    } else {
        256 * p256((n - 1) as nat)
    }
}

/// The unsigned integer encoded little-endian by `s`.
pub open spec fn le_val(s: Seq<u8>) -> nat
    decreases s.len(),
{
    if s.len() == 0 {
        0
    } else {
        s[0] as nat + 256 * le_val(s.drop_first())
    }
}

/// The `n` low-order bytes of `v`, little-endian, in two's complement for negative `v`.
pub open spec fn to_le(v: int, n: nat) -> Seq<u8>
    decreases n,
{
    if n == 0 {
        Seq::empty()
    } else {
        seq![(v % 256) as u8] + to_le(v / 256, (n - 1) as nat)
    }
}

/// The two's complement value of `s`.
pub open spec fn le_sval(s: Seq<u8>) -> int {
    if 2 * le_val(s) >= p256(s.len()) {
        le_val(s) - p256(s.len())
    } else {
        le_val(s) as int
    }
}

pub proof fn lemma_p256_pos(n: nat)
    ensures
        p256(n) >= 1,
    decreases n,
{
    if n > 0 {
        lemma_p256_pos((n - 1) as nat);
    }
}

pub proof fn lemma_p256_mono(a: nat, b: nat)
    requires
        a <= b,
    ensures
        p256(a) <= p256(b),
    decreases b,
{
    if a < b {
        lemma_p256_mono(a, (b - 1) as nat);
        lemma_p256_pos((b - 1) as nat);
    }
}

pub proof fn lemma_p256_eight()
    ensures
        p256(1) == 0x100,
        p256(2) == 0x1_0000,
        p256(4) == 0x1_0000_0000,
        p256(8) == 0x1_0000_0000_0000_0000,
{
    reveal_with_fuel(p256, 9);
}

pub proof fn lemma_le_val_bound(s: Seq<u8>)
    ensures
        le_val(s) < p256(s.len()),
    decreases s.len(),
{
    if s.len() > 0 {
        lemma_le_val_bound(s.drop_first());
    }
}

pub proof fn lemma_to_le_len(v: int, n: nat)
    ensures
        to_le(v, n).len() == n,
    decreases n,
{
    if n > 0 {
        lemma_to_le_len(v / 256, (n - 1) as nat);
    }
}

/// Adding a multiple of `256^n` leaves the `n` low-order bytes alone.
pub proof fn lemma_to_le_wrap(v: int, k: int, n: nat)
    ensures
        to_le(v + k * p256(n), n) == to_le(v, n),
    decreases n,
{
    if n > 0 {
        let m = k * p256((n - 1) as nat);
        assert(k * p256(n) == 256 * m) by (nonlinear_arith)
            requires p256(n) == 256 * p256((n - 1) as nat), m == k * p256((n - 1) as nat);
        vstd::arithmetic::div_mod::lemma_mod_multiples_vanish(m, v, 256);
        vstd::arithmetic::div_mod::lemma_fundamental_div_mod(v, 256);
        assert(v + 256 * m == 256 * (v / 256 + m) + v % 256) by (nonlinear_arith)
            requires v == 256 * (v / 256) + v % 256;
        vstd::arithmetic::div_mod::lemma_div_multiples_vanish_fancy(v / 256 + m, v % 256, 256);
        lemma_to_le_wrap(v / 256, k, (n - 1) as nat);
    }
}

/// Only the value modulo `256^n` matters to the `n` low-order bytes.
pub proof fn lemma_to_le_mod(v: int, n: nat)
    ensures
        to_le(v % (p256(n) as int), n) == to_le(v, n),
{
    lemma_p256_pos(n);
    let m = p256(n) as int;
    vstd::arithmetic::div_mod::lemma_fundamental_div_mod(v, m);
    lemma_to_le_wrap(v % m, v / m, n);
    assert(v % m + (v / m) * m == v) by (nonlinear_arith)
        requires v == m * (v / m) + v % m;
}

/// Encoding a value that fits and decoding it gives it back.
pub proof fn lemma_le_val_to_le(v: nat, n: nat)
    requires
        v < p256(n),
    ensures
        le_val(to_le(v as int, n)) == v,
    decreases n,
{
    if n > 0 {
        lemma_to_le_len((v / 256) as int, (n - 1) as nat);
        let s = to_le(v as int, n);
        assert(s.drop_first() =~= to_le((v / 256) as int, (n - 1) as nat));
        assert(v / 256 < p256((n - 1) as nat)) by (nonlinear_arith)
            requires v < p256(n), p256(n) == 256 * p256((n - 1) as nat);
        lemma_le_val_to_le(v / 256, (n - 1) as nat);
    }
}

/// Decoding a string and encoding the value back at the same length gives the string.
pub proof fn lemma_to_le_le_val(s: Seq<u8>)
    ensures
        to_le(le_val(s) as int, s.len()) == s,
    decreases s.len(),
{
    if s.len() > 0 {
        let v = le_val(s) as int;
        let t = s.drop_first();
        assert(v == s[0] as int + 256 * le_val(t));
        vstd::arithmetic::div_mod::lemma_mod_multiples_vanish(le_val(t) as int, s[0] as int, 256);
        vstd::arithmetic::div_mod::lemma_div_multiples_vanish_fancy(le_val(t) as int, s[0] as int, 256);
        lemma_to_le_le_val(t);
        assert(to_le(v, s.len()) =~= s);
    }
}

/// Reads the unsigned little-endian value of a string of at most eight bytes.
pub fn read_le(s: &Vec<u8>) -> (r: u64)
    requires
        s@.len() <= 8,
    ensures
        r == le_val(s@),
{
    let mut v: u64 = 0;
    let mut i: usize = s.len();
    while i > 0
        invariant
            i <= s@.len() <= 8,
            v == le_val(s@.subrange(i as int, s@.len() as int)),
        decreases i,
    {
        let ghost tail = s@.subrange(i as int, s@.len() as int);
        proof {
            lemma_le_val_bound(tail);
            lemma_p256_mono(tail.len(), 7);
            lemma_p256_eight();
            reveal_with_fuel(p256, 8);
            assert(s@.subrange(i - 1, s@.len() as int).drop_first() =~= tail);
        }
        v = s[i - 1] as u64 + 256 * v;
        i = i - 1;
    }
    assert(s@.subrange(0, s@.len() as int) =~= s@);
    v
}

/// Writes the `n` low-order bytes of `v`, little-endian.
pub fn write_le(v: u128, n: usize) -> (r: Vec<u8>)
    ensures
        r@ == to_le(v as int, n as nat),
{
    let mut out: Vec<u8> = Vec::new();
    let mut x: u128 = v;
    let mut i: usize = 0;
    while i < n
        invariant
            i <= n,
            to_le(v as int, n as nat) == out@ + to_le(x as int, (n - i) as nat),
        decreases n - i,
    {
        let ghost before = out@;
        assert(to_le(x as int, (n - i) as nat) == seq![(x % 256) as u8] + to_le(
            (x / 256) as int,
            (n - i - 1) as nat,
        ));
        let old_x_byte = (x % 256) as u8;
        out.push(old_x_byte);
        x = x / 256;
        i = i + 1;
        assert(before + (seq![old_x_byte] + to_le(x as int, (n - i) as nat)) =~= out@ + to_le(
            x as int,
            (n - i) as nat,
        ));
    }
    assert(to_le(x as int, 0) == Seq::<u8>::empty());
    assert(out@ + Seq::<u8>::empty() =~= out@);
    out
}

} // verus!
