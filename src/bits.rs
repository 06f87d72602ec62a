//! Untyped operations: they read registers as plain byte strings.

use vstd::prelude::*;
use vstd::arithmetic::power::pow;
use crate::arith::{bool_bytes, res_view, typed_op, typed_result};
use crate::bytes::{le_val, read_le, to_le};
use crate::shift::{shift_left, shift_right};
use crate::instr::{FaultKind, Op};

verus! {

/// `n` zero bytes.
pub open spec fn zeros(n: nat) -> Seq<u8> {
    Seq::new(n, |i: int| 0u8)
}

pub open spec fn bitwise(op: Op, x: u8, y: u8) -> u8 {
    match op {
        Op::And => x & y,
        Op::Or => x | y,
        _ => x ^ y,
    }
}

/// `a` shifted left (`left`) or right by `s` bits, on `a.len()` bytes.
pub open spec fn shifted(left: bool, a: Seq<u8>, s: nat) -> Seq<u8> {
    if s >= 8 * a.len() {
        zeros(a.len())
    } else if left {
        to_le(le_val(a) * pow(2, s), a.len())
    } else {
        to_le(le_val(a) as int / pow(2, s), a.len())
    }
}

/// What a two-operand operation yields on the contents `a` and `b` of its input registers.
/// A shift amount is read from a register of at most eight bytes.
pub open spec fn binary_result(op: Op, a: Seq<u8>, b: Seq<u8>) -> Result<Seq<u8>, FaultKind> {
    match op {
        Op::Eq => if a.len() != b.len() {
            Err(FaultKind::TypeMismatch)
        } else {
            Ok(bool_bytes(a == b))
        },
        Op::And | Op::Or | Op::Xor => if a.len() != b.len() {
            Err(FaultKind::TypeMismatch)
        } else {
            Ok(Seq::new(a.len(), |i: int| bitwise(op, a[i], b[i])))
        },
        Op::Shl | Op::Shr => if b.len() > 8 {
            Err(FaultKind::TypeMismatch)
        } else {
            Ok(shifted(op is Shl, a, le_val(b)))
        },
        _ => typed_result(op, a, b),
    }
}

/// Whether `op` takes two input registers and one output register.
pub open spec fn is_binary(op: Op) -> bool {
    crate::arith::is_typed(op) || op is Eq || op is And || op is Or || op is Xor || op is Shl
        || op is Shr
}

/// The bitwise negation of every byte.
pub open spec fn not_bytes(a: Seq<u8>) -> Seq<u8> {
    Seq::new(a.len(), |i: int| !a[i])
}

fn bytes_equal(a: &Vec<u8>, b: &Vec<u8>) -> (r: bool)
    requires
        a@.len() == b@.len(),
    ensures
        r == (a@ == b@),
{
    let mut i: usize = 0;
    while i < a.len()
        invariant
            i <= a@.len() == b@.len(),
            forall|j: int| 0 <= j < i ==> a@[j] == b@[j],
        decreases a@.len() - i,
    {
        if a[i] != b[i] {
            return false;
        }
        i = i + 1;
    }
    assert(a@ =~= b@);
    true
}

fn bitwise_bytes(op: Op, a: &Vec<u8>, b: &Vec<u8>) -> (r: Vec<u8>)
    requires
        a@.len() == b@.len(),
    ensures
        r@ == Seq::new(a@.len(), |i: int| bitwise(op, a@[i], b@[i])),
{
    let mut out: Vec<u8> = Vec::new();
    let mut i: usize = 0;
    while i < a.len()
        invariant
            i <= a@.len() == b@.len(),
            out@.len() == i,
            forall|j: int| 0 <= j < i ==> out@[j] == bitwise(op, a@[j], b@[j]),
        decreases a@.len() - i,
    {
        let x = a[i];
        let y = b[i];
        let v = match op {
            Op::And => x & y,
            Op::Or => x | y,
            _ => x ^ y,
        };
        out.push(v);
        i = i + 1;
    }
    assert(out@ =~= Seq::new(a@.len(), |i: int| bitwise(op, a@[i], b@[i])));
    out
}

/// The bitwise negation of a register's contents.
pub fn not_op(a: &Vec<u8>) -> (r: Vec<u8>)
    ensures
        r@ == not_bytes(a@),
{
    let mut out: Vec<u8> = Vec::new();
    let mut i: usize = 0;
    while i < a.len()
        invariant
            i <= a@.len(),
            out@.len() == i,
            forall|j: int| 0 <= j < i ==> out@[j] == !a@[j],
        decreases a@.len() - i,
    {
        out.push(!a[i]);
        i = i + 1;
    }
    assert(out@ =~= not_bytes(a@));
    out
}

/// `n` zero bytes.
pub fn zero_bytes(n: usize) -> (r: Vec<u8>)
    ensures
        r@ == zeros(n as nat),
{
    let mut out: Vec<u8> = Vec::new();
    let mut i: usize = 0;
    while i < n
        invariant
            i <= n,
            out@.len() == i,
            forall|j: int| 0 <= j < i ==> out@[j] == 0u8,
        decreases n - i,
    {
        out.push(0u8);
        i = i + 1;
    }
    assert(out@ =~= zeros(n as nat));
    out
}

fn shift_op(left: bool, a: &Vec<u8>, b: &Vec<u8>) -> (r: Vec<u8>)
    requires
        b@.len() <= 8,
    ensures
        r@ == shifted(left, a@, le_val(b@)),
{
    let s = read_le(b);
    let n = a.len();
    if s as u128 >= 8 * (n as u128) {
        zero_bytes(n)
    } else if left {
        shift_left(a, s)
    } else {
        shift_right(a, s)
    }
}

/// Runs a two-operand operation on the contents of its two input registers.
pub fn binary_op(op: Op, a: &Vec<u8>, b: &Vec<u8>) -> (r: Result<Vec<u8>, FaultKind>)
    ensures
        res_view(r) == binary_result(op, a@, b@),
{
    match op {
        Op::Eq => if a.len() != b.len() {
            Err(FaultKind::TypeMismatch)
        } else {
            let e = bytes_equal(a, b);
            let v = if e { vec![1u8] } else { vec![0u8] };
            assert(v@ =~= bool_bytes(e));
            Ok(v)
        },
        Op::And | Op::Or | Op::Xor => if a.len() != b.len() {
            Err(FaultKind::TypeMismatch)
        } else {
            Ok(bitwise_bytes(op, a, b))
        },
        Op::Shl | Op::Shr => if b.len() > 8 {
            Err(FaultKind::TypeMismatch)
        } else {
            Ok(shift_op(matches!(op, Op::Shl), a, b))
        },
        _ => typed_op(op, a, b),
    }
}

} // verus!
