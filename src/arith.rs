//! Typed integer operations on register contents.

use vstd::prelude::*;
use vstd::arithmetic::power::pow;
use crate::bytes::{le_sval, le_val, lemma_le_val_bound, lemma_p256_eight, lemma_to_le_mod, read_le, lemma_to_le_wrap, p256, to_le, write_le};
use crate::instr::{FaultKind, Op, Type};

verus! {

pub open spec fn abs(x: int) -> int {
    if x < 0 {
        -x
    } else {
        x
    }
}

/// Quotient rounded toward zero.
pub open spec fn tdiv(x: int, y: int) -> int {
    let q = abs(x) / abs(y);
    if (x < 0) != (y < 0) {
        -q
    } else {
        q
    }
}

/// Remainder of the division rounded toward zero: it has the sign of `x`.
pub open spec fn tmod(x: int, y: int) -> int {
    let r = abs(x) % abs(y);
    if x < 0 {
        -r
    } else {
        r
    }
}

/// The one-byte encoding of a boolean.
pub open spec fn bool_bytes(b: bool) -> Seq<u8> {
    seq![if b { 1u8 } else { 0u8 }]
}

/// The integer value of `s` under the signedness of `t`.
pub open spec fn typed_val(t: Type, s: Seq<u8>) -> int {
    if t.is_signed() {
        le_sval(s)
    } else {
        le_val(s) as int
    }
}

/// What a typed operation `op` over type `t` yields on operands `a` and `b`.
pub open spec fn typed_result(op: Op, a: Seq<u8>, b: Seq<u8>) -> Result<Seq<u8>, FaultKind> {
    let t = op_type(op);
    let w = t.width();
    if !is_typed(op) || !t.is_int() || a.len() != w || b.len() != w {
        Err(FaultKind::TypeMismatch)
    } else {
        let x = le_val(a) as int;
        let y = le_val(b) as int;
        match op {
            Op::Add(_) => Ok(to_le(x + y, w)),
            Op::Sub(_) => Ok(to_le(x - y, w)),
            Op::Mul(_) => Ok(to_le(x * y, w)),
            Op::Udiv(_) => if y == 0 {
                Err(FaultKind::DivideByZero)
            } else {
                Ok(to_le(x / y, w))
            },
            Op::Umod(_) => if y == 0 {
                Err(FaultKind::DivideByZero)
            } else {
                Ok(to_le(x % y, w))
            },
            Op::Sdiv(_) => if y == 0 {
                Err(FaultKind::DivideByZero)
            } else {
                Ok(to_le(tdiv(le_sval(a), le_sval(b)), w))
            },
            Op::Smod(_) => if y == 0 {
                Err(FaultKind::DivideByZero)
            } else {
                Ok(to_le(tmod(le_sval(a), le_sval(b)), w))
            },
            Op::Pow(_) => if typed_val(t, b) < 0 {
                Err(FaultKind::NegativeExponent)
            } else {
                Ok(to_le(pow(x, y as nat), w))
            },
            Op::Lt(_) => Ok(bool_bytes(typed_val(t, a) < typed_val(t, b))),
            _ => Ok(bool_bytes(typed_val(t, a) > typed_val(t, b))),
        }
    }
}

/// Whether `op` is one of the typed two-operand operations.
pub open spec fn is_typed(op: Op) -> bool {
    op is Add || op is Sub || op is Mul || op is Udiv || op is Umod || op is Sdiv || op is Smod
        || op is Pow || op is Lt || op is Gt
}

/// The type that a typed operation names (`U8` for the others).
pub open spec fn op_type(op: Op) -> Type {
    match op {
        Op::Add(t) | Op::Sub(t) | Op::Mul(t) | Op::Udiv(t) | Op::Umod(t) | Op::Sdiv(t)
        | Op::Smod(t) | Op::Pow(t) | Op::Lt(t) | Op::Gt(t) => t,
        _ => Type::U8,
    }
}

pub open spec fn res_view(r: Result<Vec<u8>, FaultKind>) -> Result<Seq<u8>, FaultKind> {
    match r {
        Ok(v) => Ok(v@),
        Err(e) => Err(e),
    }
}

/// `256^w` for an integer width.
fn modulus(w: usize) -> (m: u128)
    requires
        w == 1 || w == 2 || w == 4 || w == 8,
    ensures
        m == p256(w as nat),
{
    proof {
        lemma_p256_eight();
    }
    if w == 1 {
        0x100
    } else if w == 2 {
        0x1_0000
    } else if w == 4 {
        0x1_0000_0000
    } else {
        0x1_0000_0000_0000_0000
    }
}

/// Splits a register value into its sign and magnitude under two's complement.
fn sign_mag(v: u64, m: u128) -> (r: (bool, u128))
    requires
        v < m,
    ensures
        r.0 == (2 * v >= m),
        r.0 ==> r.1 == m - v,
        !r.0 ==> r.1 == v,
{
    if 2 * (v as u128) >= m {
        (true, m - v as u128)
    } else {
        (false, v as u128)
    }
}

/// Encodes `-q` (when `neg`) or `q` on `w` bytes.
fn write_signed(neg: bool, q: u128, m: u128, w: usize) -> (r: Vec<u8>)
    requires
        q <= m,
        m == p256(w as nat),
    ensures
        r@ == to_le(if neg { -q } else { q as int }, w as nat),
{
    if neg {
        proof {
            lemma_to_le_wrap(-q, 1, w as nat);
        }
        write_le(m - q, w)
    } else {
        write_le(q, w)
    }
}

/// `b^e mod m`, by repeated squaring.
fn pow_mod(b: u64, e: u64, m: u128) -> (r: u128)
    requires
        1 <= m <= 0x1_0000_0000_0000_0000,
    ensures
        r == pow(b as int, e as nat) % (m as int),
{
    let mut acc: u128 = 1 % m;
    let mut base: u128 = (b as u128) % m;
    let mut k: u64 = e;
    proof {
        vstd::arithmetic::power::lemma_pow_mod_noop(b as int, e as nat, m as int);
        let p = pow(base as int, e as nat);
        if m == 1 {
            let pb = pow(b as int, e as nat);
            assert((acc * p) % 1 == 0 && pb % 1 == 0) by (nonlinear_arith);
        } else {
            vstd::arithmetic::div_mod::lemma_small_mod(1, m as nat);
            assert(acc == 1);
            assert(acc * p == p) by (nonlinear_arith)
                requires acc == 1;
        }
    }
    while k > 0
        invariant
            1 <= m <= 0x1_0000_0000_0000_0000,
            acc < m,
            base < m,
            (acc * pow(base as int, k as nat)) % (m as int) == pow(b as int, e as nat) % (m as int),
        decreases k,
    {
        let ghost q = (k / 2) as nat;
        let ghost r = (k % 2) as nat;
        let ghost old_acc = acc as int;
        let ghost old_base = base as int;
        assert(acc * base < 0x1_0000_0000_0000_0000_0000_0000_0000_0000) by (nonlinear_arith)
            requires acc < m, base < m, m <= 0x1_0000_0000_0000_0000;
        assert(base * base < 0x1_0000_0000_0000_0000_0000_0000_0000_0000) by (nonlinear_arith)
            requires base < m, m <= 0x1_0000_0000_0000_0000;
        proof {
            vstd::arithmetic::power::lemma_pow_adds(old_base, r, 2 * q);
            vstd::arithmetic::power::lemma_pow_multiplies(old_base, 2, q);
            vstd::arithmetic::power::lemma_square_is_pow2(old_base);
            assert(k as nat == r + 2 * q);
            assert(pow(old_base, k as nat) == pow(old_base, r) * pow(old_base * old_base, q));
            // acc * base^r * (base^2)^q, reduced mod m piece by piece
            let sq = old_base * old_base;
            vstd::arithmetic::power::lemma_pow_mod_noop(sq, q, m as int);
            let ar = old_acc * pow(old_base, r);
            vstd::arithmetic::div_mod::lemma_mul_mod_noop(ar, pow(sq, q), m as int);
            vstd::arithmetic::div_mod::lemma_mul_mod_noop(ar, pow(sq % (m as int), q), m as int);
            vstd::arithmetic::div_mod::lemma_mod_mod(pow(sq % (m as int), q), m as int, 1);
            vstd::arithmetic::div_mod::lemma_mod_mod(pow(sq, q), m as int, 1);
            assert(old_acc * pow(old_base, k as nat) == ar * pow(sq, q)) by (nonlinear_arith)
                requires pow(old_base, k as nat) == pow(old_base, r) * pow(sq, q), ar == old_acc
                    * pow(old_base, r);
            if r == 1 {
                vstd::arithmetic::power::lemma_pow1(old_base);
                vstd::arithmetic::div_mod::lemma_mul_mod_noop(ar, pow(sq % (m as int), q), m as int);
                vstd::arithmetic::div_mod::lemma_mul_mod_noop(ar % (m as int), pow(sq % (m as int), q), m as int);
                vstd::arithmetic::div_mod::lemma_mod_mod(ar, m as int, 1);
            } else {
                vstd::arithmetic::power::lemma_pow0(old_base);
            }
        }
        if k % 2 == 1 {
            acc = (acc * base) % m;
        }
        base = (base * base) % m;
        k = k / 2;
    }
    proof {
        vstd::arithmetic::power::lemma_pow0(base as int);
        vstd::arithmetic::div_mod::lemma_small_mod(acc as nat, m as nat);
    }
    acc
}

/// Runs a typed two-operand operation (`Add` to `Gt`) on the contents of two registers.
pub fn typed_op(op: Op, a: &Vec<u8>, b: &Vec<u8>) -> (r: Result<Vec<u8>, FaultKind>)
    ensures
        res_view(r) == typed_result(op, a@, b@),
{
    let t = match op {
        Op::Add(t) | Op::Sub(t) | Op::Mul(t) | Op::Udiv(t) | Op::Umod(t) | Op::Sdiv(t)
        | Op::Smod(t) | Op::Pow(t) | Op::Lt(t) | Op::Gt(t) => t,
        _ => {
            return Err(FaultKind::TypeMismatch);
        },
    };
    assert(op_type(op) == t && is_typed(op));
    let w = t.width_of();
    if !t.is_integer() || a.len() != w || b.len() != w {
        return Err(FaultKind::TypeMismatch);
    }
    let m = modulus(w);
    let x = read_le(a);
    let y = read_le(b);
    proof {
        lemma_le_val_bound(a@);
        lemma_le_val_bound(b@);
        lemma_p256_eight();
    }
    match op {
        Op::Add(_) => Ok(write_le(x as u128 + y as u128, w)),
        Op::Sub(_) => {
            proof {
                lemma_to_le_wrap(x - y, 1, w as nat);
            }
            Ok(write_le(x as u128 + (m - y as u128), w))
        },
        Op::Mul(_) => {
            assert(x * y < 0x1_0000_0000_0000_0000_0000_0000_0000_0000) by (nonlinear_arith)
                requires x < 0x1_0000_0000_0000_0000, y < 0x1_0000_0000_0000_0000;
            Ok(write_le(x as u128 * y as u128, w))
        },
        Op::Udiv(_) => if y == 0 {
            Err(FaultKind::DivideByZero)
        } else {
            Ok(write_le((x / y) as u128, w))
        },
        Op::Umod(_) => if y == 0 {
            Err(FaultKind::DivideByZero)
        } else {
            Ok(write_le((x % y) as u128, w))
        },
        Op::Sdiv(_) => if y == 0 {
            Err(FaultKind::DivideByZero)
        } else {
            let (na, ma) = sign_mag(x, m);
            let (nb, mb) = sign_mag(y, m);
            assert(le_sval(a@) == if na { -ma } else { ma as int });
            assert(le_sval(b@) == if nb { -mb } else { mb as int });
            let q = ma / mb;
            assert(q <= ma) by (nonlinear_arith)
                requires mb >= 1, q == ma / mb;
            Ok(write_signed(na != nb, q, m, w))
        },
        Op::Smod(_) => if y == 0 {
            Err(FaultKind::DivideByZero)
        } else {
            let (na, ma) = sign_mag(x, m);
            let (nb, mb) = sign_mag(y, m);
            assert(le_sval(a@) == if na { -ma } else { ma as int });
            assert(le_sval(b@) == if nb { -mb } else { mb as int });
            let q = ma % mb;
            assert(q <= ma) by (nonlinear_arith)
                requires mb >= 1, q == ma % mb;
            Ok(write_signed(na, q, m, w))
        },
        Op::Pow(_) => if t.signed() && 2 * (y as u128) >= m {
            Err(FaultKind::NegativeExponent)
        } else {
            let p = pow_mod(x, y, m);
            proof {
                lemma_to_le_mod(pow(x as int, y as nat), w as nat);
            }
            Ok(write_le(p, w))
        },
        _ => {
            let (sa, sb) = if t.signed() {
                (
                    x as i128 - (if 2 * (x as u128) >= m { m as i128 } else { 0 }),
                    y as i128 - (if 2 * (y as u128) >= m { m as i128 } else { 0 }),
                )
            } else {
                (x as i128, y as i128)
            };
            let c = if matches!(op, Op::Lt(_)) {
                sa < sb
            } else {
                sb < sa
            };
            assert(sa == typed_val(t, a@) && sb == typed_val(t, b@));
            let v = if c { vec![1u8] } else { vec![0u8] };
            assert(v@ =~= bool_bytes(c));
            Ok(v)
        },
    }
}

} // verus!
