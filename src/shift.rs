//! Shifts of byte strings of any length, as multiplication and division by powers of two.

use vstd::prelude::*;
use vstd::arithmetic::power::pow;
use crate::bytes::{
    le_val, lemma_le_val_bound, lemma_le_val_to_le, lemma_p256_pos, lemma_to_le_le_val,
    lemma_to_le_len, lemma_to_le_mod, lemma_to_le_wrap, p256, to_le,
};

verus! {

proof fn lemma_le_val_push(s: Seq<u8>, x: u8)
    ensures
        le_val(s.push(x)) == le_val(s) + x * p256(s.len()),
    decreases s.len(),
{
    let t = s.push(x);
    assert(le_val(Seq::<u8>::empty()) == 0);
    if s.len() == 0 {
        assert(t.drop_first() =~= Seq::<u8>::empty());
        assert(le_val(t) == t[0] as nat + 256 * le_val(t.drop_first()));
        assert(t[0] == x);
        assert(p256(0) == 1);
    } else {
        assert(t.drop_first() =~= s.drop_first().push(x));
        assert(t[0] == s[0]);
        lemma_le_val_push(s.drop_first(), x);
        let a = le_val(s.drop_first());
        let p = p256((s.len() - 1) as nat);
        assert(p256(s.len()) == 256 * p);
        assert(le_val(t) == s[0] + 256 * (a + x * p));
        assert(le_val(s) == s[0] + 256 * a);
        assert(256 * (a + x * p) == 256 * a + x * (256 * p)) by (nonlinear_arith);
    }
}

/// Multiplying by `c` and keeping the low-order bytes does not depend on the bytes above.
proof fn lemma_to_le_mul_mod(c: int, x: int, n: nat)
    ensures
        to_le(c * (x % (p256(n) as int)), n) == to_le(c * x, n),
{
    lemma_p256_pos(n);
    let m = p256(n) as int;
    vstd::arithmetic::div_mod::lemma_fundamental_div_mod(x, m);
    assert(c * x == c * (x % m) + (c * (x / m)) * m) by (nonlinear_arith)
        requires x == m * (x / m) + x % m;
    lemma_to_le_wrap(c * (x % m), c * (x / m), n);
}

/// `c * a` on as many bytes as `a` has, carrying from the low-order byte up.
fn mul_small(a: &Vec<u8>, c: u32) -> (r: Vec<u8>)
    requires
        1 <= c <= 256,
    ensures
        r@ == to_le(c * le_val(a@), a@.len()),
{
    let n = a.len();
    let mut out: Vec<u8> = Vec::new();
    let mut carry: u32 = 0;
    let mut j: usize = 0;
    assert(a@.subrange(0, 0) =~= Seq::<u8>::empty());
    assert(le_val(Seq::<u8>::empty()) == 0);
    while j < n
        invariant
            j <= n == a@.len(),
            1 <= c <= 256,
            carry < 256,
            out@.len() == j,
            c * le_val(a@.subrange(0, j as int)) == le_val(out@) + carry * p256(j as nat),
        decreases n - j,
    {
        assert((a[j as int] as u32) * c <= 255 * 256) by (nonlinear_arith)
            requires a[j as int] < 256, c <= 256;
        let t: u32 = a[j] as u32 * c + carry;
        proof {
            let pre = a@.subrange(0, j as int);
            assert(a@.subrange(0, j + 1) =~= pre.push(a@[j as int]));
            lemma_le_val_push(pre, a@[j as int]);
            lemma_le_val_push(out@, (t % 256) as u8);
            let p = p256(j as nat);
            assert(p256((j + 1) as nat) == 256 * p);
            assert(c * (le_val(pre) + a@[j as int] * p) == le_val(out@) + (t % 256) * p + (t / 256)
                * (256 * p)) by (nonlinear_arith)
                requires
                    c * le_val(pre) == le_val(out@) + carry * p,
                    t == a@[j as int] * c + carry,
                    t == 256 * (t / 256) + t % 256,
            ;
            assert(t < 256 * 256) by (nonlinear_arith)
                requires t == a@[j as int] * c + carry, c <= 256, carry < 256, a@[j as int] < 256;
        }
        out.push((t % 256) as u8);
        carry = t / 256;
        j = j + 1;
    }
    proof {
        assert(a@.subrange(0, n as int) =~= a@);
        lemma_to_le_wrap(le_val(out@) as int, carry as int, n as nat);
        lemma_to_le_le_val(out@);
    }
    out
}

/// `a / c` on as many bytes as `a` has, dividing from the high-order byte down.
fn div_small(a: &Vec<u8>, c: u32) -> (r: Vec<u8>)
    requires
        1 <= c <= 256,
    ensures
        r@ == to_le(le_val(a@) as int / (c as int), a@.len()),
{
    let n = a.len();
    let mut out: Vec<u8> = Vec::new();
    let mut k: usize = 0;
    while k < n
        invariant
            k <= n,
            out@.len() == k,
        decreases n - k,
    {
        out.push(0u8);
        k = k + 1;
    }
    let mut rem: u32 = 0;
    let mut j: usize = n;
    assert(a@.subrange(n as int, n as int) =~= Seq::<u8>::empty());
    assert(out@.subrange(n as int, n as int) =~= Seq::<u8>::empty());
    assert(le_val(Seq::<u8>::empty()) == 0);
    while j > 0
        invariant
            j <= n == a@.len() == out@.len(),
            1 <= c <= 256,
            rem < c,
            le_val(a@.subrange(j as int, n as int)) == le_val(out@.subrange(j as int, n as int)) * c
                + rem,
        decreases j,
    {
        let t: u32 = rem * 256 + a[j - 1] as u32;
        let q: u32 = t / c;
        proof {
            assert(t < c * 256) by (nonlinear_arith)
                requires t == rem * 256 + a@[j - 1], rem < c, a@[j - 1] < 256;
            assert(q < 256) by (nonlinear_arith)
                requires q == t / c, t < c * 256, c >= 1;
        }
        let ghost old_out = out@;
        out.set(j - 1, q as u8);
        proof {
            let la = a@.subrange(j as int, n as int);
            let lo = old_out.subrange(j as int, n as int);
            assert(a@.subrange(j - 1, n as int).drop_first() =~= la);
            assert(out@.subrange(j - 1, n as int).drop_first() =~= lo);
            assert(out@.subrange(j as int, n as int) =~= lo);
            assert(a@.subrange(j - 1, n as int)[0] == a@[j - 1]);
            assert(out@.subrange(j - 1, n as int)[0] == q as u8);
            vstd::arithmetic::div_mod::lemma_fundamental_div_mod(t as int, c as int);
            assert(a@[j - 1] + 256 * le_val(la) == (q + 256 * le_val(lo)) * c + t % c)
                by (nonlinear_arith)
                requires
                    le_val(la) == le_val(lo) * c + rem,
                    t == rem * 256 + a@[j - 1],
                    t == c * q + t % c,
            ;
            assert(le_val(a@.subrange(j - 1, n as int)) == a@[j - 1] + 256 * le_val(la));
            assert(le_val(out@.subrange(j - 1, n as int)) == q + 256 * le_val(lo));
        }
        rem = t % c;
        j = j - 1;
    }
    proof {
        assert(a@.subrange(0, n as int) =~= a@);
        assert(out@.subrange(0, n as int) =~= out@);
        let v = le_val(out@) as int;
        vstd::arithmetic::div_mod::lemma_fundamental_div_mod(le_val(a@) as int, c as int);
        assert(le_val(a@) as int / (c as int) == v) by {
            vstd::arithmetic::div_mod::lemma_div_multiples_vanish_fancy(v, rem as int, c as int);
            assert(v * c + rem == c * v + rem) by (nonlinear_arith);
        }
        lemma_to_le_le_val(out@);
    }
    out
}

proof fn lemma_pow2_step(k: nat, r: nat)
    requires
        r <= 8,
    ensures
        pow(2, k + r) == pow(2, k) * pow(2, r),
        pow(2, r) <= 256,
        pow(2, r) >= 1,
        pow(2, 8) == 256,
{
    vstd::arithmetic::power::lemma_pow_adds(2, k, r);
    vstd::arithmetic::power2::lemma2_to64();
    vstd::arithmetic::power2::lemma_pow2(r);
    vstd::arithmetic::power2::lemma_pow2(8);
    vstd::arithmetic::power::lemma_pow_increases(2, r, 8);
    vstd::arithmetic::power::lemma_pow_positive(2, r);
}

/// `a * 2^s`, on as many bytes as `a` has.
pub fn shift_left(a: &Vec<u8>, s: u64) -> (r: Vec<u8>)
    ensures
        r@ == to_le(le_val(a@) * pow(2, s as nat), a@.len()),
{
    let n = a.len();
    let q = s / 8;
    let rbits = s % 8;
    let mut cur = a.clone();
    assert(cur@ =~= a@);
    proof {
        lemma_to_le_le_val(a@);
        vstd::arithmetic::power::lemma_pow0(2);
    }
    let mut k: u64 = 0;
    while k < q
        invariant
            k <= q,
            cur@ == to_le(le_val(a@) * pow(2, (8 * k) as nat), n as nat),
            n == a@.len(),
        decreases q - k,
    {
        let ghost x = le_val(a@) * pow(2, (8 * k) as nat);
        proof {
            lemma_to_le_len(x, n as nat);
            lemma_to_le_mod(x, n as nat);
            lemma_p256_pos(n as nat);
            let m = p256(n as nat) as int;
            assert(0 <= x % m < m) by (nonlinear_arith)
                requires m > 0;
            lemma_le_val_to_le((x % m) as nat, n as nat);
            lemma_to_le_mul_mod(256, x, n as nat);
            lemma_pow2_step((8 * k) as nat, 8);
            assert(x * 256 == le_val(a@) * pow(2, (8 * (k + 1)) as nat)) by (nonlinear_arith)
                requires
                    x == le_val(a@) * pow(2, (8 * k) as nat),
                    pow(2, (8 * k + 8) as nat) == pow(2, (8 * k) as nat) * 256,
                    (8 * (k + 1)) as nat == (8 * k + 8) as nat,
            ;
            assert(to_le(le_val(cur@) as int * 256, n as nat) == to_le(256 * x, n as nat)) by {
                assert(le_val(cur@) as int * 256 == 256 * (x % m));
            }
            assert(256 * x == x * 256);
        }
        cur = mul_small(&cur, 256);
        k = k + 1;
    }
    let ghost x = le_val(a@) * pow(2, (8 * q) as nat);
    proof {
        lemma_to_le_len(x, n as nat);
        lemma_to_le_mod(x, n as nat);
        lemma_p256_pos(n as nat);
        let m = p256(n as nat) as int;
        assert(0 <= x % m < m) by (nonlinear_arith)
            requires m > 0;
        lemma_le_val_to_le((x % m) as nat, n as nat);
        lemma_pow2_step((8 * q) as nat, rbits as nat);
        lemma_to_le_mul_mod(pow(2, rbits as nat), x, n as nat);
        assert(s as nat == (8 * q + rbits) as nat);
        assert(pow(2, rbits as nat) * x == le_val(a@) * pow(2, s as nat)) by (nonlinear_arith)
            requires
                x == le_val(a@) * pow(2, (8 * q) as nat),
                pow(2, (8 * q + rbits) as nat) == pow(2, (8 * q) as nat) * pow(2, rbits as nat),
                s as nat == (8 * q + rbits) as nat,
        ;
    }
    let c = two_to(rbits);
    mul_small(&cur, c)
}

/// `a / 2^s`, on as many bytes as `a` has.
pub fn shift_right(a: &Vec<u8>, s: u64) -> (r: Vec<u8>)
    ensures
        r@ == to_le(le_val(a@) as int / pow(2, s as nat), a@.len()),
{
    let n = a.len();
    let q = s / 8;
    let rbits = s % 8;
    let mut cur = a.clone();
    assert(cur@ =~= a@);
    proof {
        lemma_to_le_le_val(a@);
        vstd::arithmetic::power::lemma_pow0(2);
        lemma_le_val_bound(a@);
    }
    let mut k: u64 = 0;
    while k < q
        invariant
            k <= q,
            cur@ == to_le(le_val(a@) as int / pow(2, (8 * k) as nat), n as nat),
            n == a@.len(),
            pow(2, (8 * k) as nat) >= 1,
        decreases q - k,
    {
        let ghost d = pow(2, (8 * k) as nat);
        let ghost x = le_val(a@) as int / d;
        proof {
            lemma_le_val_bound(a@);
            assert(0 <= x <= le_val(a@)) by (nonlinear_arith)
                requires x == le_val(a@) as int / d, d >= 1;
            lemma_le_val_to_le(x as nat, n as nat);
            lemma_to_le_len(x, n as nat);
            lemma_pow2_step((8 * k) as nat, 8);
            vstd::arithmetic::div_mod::lemma_div_denominator(le_val(a@) as int, d, 256);
            assert((8 * (k + 1)) as nat == (8 * k + 8) as nat);
            assert(le_val(cur@) == x);
            assert(x / 256 == le_val(a@) as int / pow(2, (8 * (k + 1)) as nat));
        }
        cur = div_small(&cur, 256);
        k = k + 1;
    }
    let ghost d = pow(2, (8 * q) as nat);
    let ghost x = le_val(a@) as int / d;
    proof {
        lemma_le_val_bound(a@);
        assert(0 <= x <= le_val(a@)) by (nonlinear_arith)
            requires x == le_val(a@) as int / d, d >= 1;
        lemma_le_val_to_le(x as nat, n as nat);
        lemma_to_le_len(x, n as nat);
        lemma_pow2_step((8 * q) as nat, rbits as nat);
        vstd::arithmetic::div_mod::lemma_div_denominator(le_val(a@) as int, d, pow(2, rbits as nat));
        assert(s as nat == (8 * q + rbits) as nat);
        assert(le_val(cur@) == x);
        assert(x / pow(2, rbits as nat) == le_val(a@) as int / pow(2, s as nat));
    }
    let c = two_to(rbits);
    div_small(&cur, c)
}

/// `2^r` for `r < 8`.
fn two_to(r: u64) -> (c: u32)
    requires
        r < 8,
    ensures
        c == pow(2, r as nat),
        1 <= c <= 256,
{
    proof {
        vstd::arithmetic::power2::lemma2_to64();
        vstd::arithmetic::power2::lemma_pow2(r as nat);
    }
    if r == 0 {
        1
    } else if r == 1 {
        2
    } else if r == 2 {
        4
    } else if r == 3 {
        8
    } else if r == 4 {
        16
    } else if r == 5 {
        32
    } else if r == 6 {
        64
    } else {
        128
    }
}

} // verus!
