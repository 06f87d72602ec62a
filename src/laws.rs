//! Laws that relate the operations to one another.

use vstd::prelude::*;
use crate::arith::{bool_bytes, typed_result};
use crate::bits::binary_result;
use crate::bytes::{
    le_val, lemma_le_val_bound, lemma_le_val_to_le, lemma_p256_pos, lemma_to_le_le_val,
    lemma_to_le_mod, lemma_to_le_wrap, p256, to_le,
};
use crate::instr::{FaultKind, Op, Program, Type};
use crate::stack::{fault, step, write_all, write_reg, Cursor, Step, StackView};

verus! {

/// Adding `b` and then subtracting `b` gives back `a`, for every integer type.
pub proof fn lemma_add_then_sub(t: Type, a: Seq<u8>, b: Seq<u8>)
    requires
        t.is_int(),
        a.len() == t.width(),
        b.len() == t.width(),
    ensures
        typed_result(Op::Add(t), a, b) is Ok,
        typed_result(Op::Sub(t), typed_result(Op::Add(t), a, b)->Ok_0, b) == Ok::<
            Seq<u8>,
            FaultKind,
        >(a),
{
    let w = t.width();
    let x = le_val(a) as int;
    let y = le_val(b) as int;
    lemma_p256_pos(w);
    let m = p256(w) as int;
    let c = to_le(x + y, w);
    lemma_to_le_mod(x + y, w);
    let r = (x + y) % m;
    assert(0 <= r < m) by (nonlinear_arith)
        requires m > 0, r == (x + y) % m;
    lemma_le_val_to_le(r as nat, w);
    crate::bytes::lemma_to_le_len(x + y, w);
    assert(le_val(c) == r);
    vstd::arithmetic::div_mod::lemma_fundamental_div_mod(x + y, m);
    lemma_to_le_wrap(r - y, (x + y) / m, w);
    assert(r - y + ((x + y) / m) * m == x) by (nonlinear_arith)
        requires x + y == m * ((x + y) / m) + r;
    lemma_to_le_le_val(a);
}

/// A register is always equal to itself.
pub proof fn lemma_eq_reflexive(r: Seq<u8>)
    ensures
        binary_result(Op::Eq, r, r) == Ok::<Seq<u8>, FaultKind>(bool_bytes(true)),
{
}

/// Division and remainder by a zero register fault with `DivideByZero`.
pub proof fn lemma_divide_by_zero(op: Op, t: Type, a: Seq<u8>, b: Seq<u8>)
    requires
        op == Op::Udiv(t) || op == Op::Sdiv(t) || op == Op::Umod(t) || op == Op::Smod(t),
        t.is_int(),
        a.len() == t.width(),
        b.len() == t.width(),
        le_val(b) == 0,
    ensures
        binary_result(op, a, b) == Err::<Seq<u8>, FaultKind>(FaultKind::DivideByZero),
{
}

/// A `Call` whose output registers do not number the callee's outputs faults with
/// `ArityMismatch`, and no frame is entered.
pub proof fn lemma_call_output_count(
    prog: &Program,
    s: StackView,
    f: usize,
    ins: Seq<usize>,
    outs: Seq<usize>,
)
    requires
        f < prog.functions@.len(),
        ins.len() == prog.functions@[f as int].inputs@.len(),
        outs.len() != prog.functions@[f as int].outputs@.len(),
    ensures
        step(prog, s, Op::Call, seq![f] + ins + outs) == fault(FaultKind::ArityMismatch),
{
    let args = seq![f] + ins + outs;
    assert(args.drop_first() =~= ins + outs);
}

/// Storing values at distinct registers in turn leaves each value at its register.
pub proof fn lemma_write_all_lands(regs: Seq<Seq<u8>>, targets: Seq<usize>, vals: Seq<Seq<u8>>)
    requires
        targets.len() == vals.len(),
        write_all(regs, targets, vals) is Ok,
        forall|i: int, j: int| 0 <= i < j < targets.len() ==> targets[i] != targets[j],
    ensures
        write_all(regs, targets, vals)->Ok_0.len() >= regs.len(),
        forall|j: int|
            0 <= j < targets.len() ==> #[trigger] write_all(regs, targets, vals)->Ok_0[targets[j] as int]
                == vals[j],
        forall|i: int|
            0 <= i < regs.len() && !targets.contains(i as usize) ==> #[trigger] write_all(
                regs,
                targets,
                vals,
            )->Ok_0[i] == regs[i],
    decreases targets.len(),
{
    if targets.len() > 0 {
        let r1 = write_reg(regs, targets[0], vals[0])->Ok_0;
        let ts = targets.drop_first();
        let vs = vals.drop_first();
        assert forall|i: int, j: int| 0 <= i < j < ts.len() implies ts[i] != ts[j] by {
            assert(ts[i] == targets[i + 1] && ts[j] == targets[j + 1]);
        }
        lemma_write_all_lands(r1, ts, vs);
        let out = write_all(regs, targets, vals)->Ok_0;
        assert(out == write_all(r1, ts, vs)->Ok_0);
        assert(r1.len() >= regs.len());
        assert(r1[targets[0] as int] == vals[0]);
        assert forall|j: int| 0 <= j < targets.len() implies #[trigger] out[targets[j] as int]
            == vals[j] by {
            if j == 0 {
                assert(!ts.contains(targets[0])) by {
                    if ts.contains(targets[0]) {
                        let k = choose|k: int| 0 <= k < ts.len() && ts[k] == targets[0];
                        assert(targets[k + 1] == targets[0]);
                    }
                }
            } else {
                assert(ts[j - 1] == targets[j]);
            }
        }
        assert forall|i: int|
            0 <= i < regs.len() && !targets.contains(i as usize) implies #[trigger] out[i]
            == regs[i] by {
            assert(targets[0] != i as usize);
            if ts.contains(i as usize) {
                let k = choose|k: int| 0 <= k < ts.len() && ts[k] == i as usize;
                assert(targets[k + 1] == i as usize);
            }
        }
    }
}

/// A `Call` and the matching `Ret` of the callee, whatever ran in between at the callee's
/// depth, leave the stack as deep as before, resume after the call, and leave the value
/// of the callee's `k`-th returned register in the caller's `k`-th output register.
pub proof fn lemma_call_then_ret(
    prog: &Program,
    s: StackView,
    call_args: Seq<usize>,
    s1: StackView,
    s2: StackView,
    ret_args: Seq<usize>,
    s3: StackView,
)
    requires
        step(prog, s, Op::Call, call_args) == Step::Next(s1),
        s2.rest == s1.rest,
        step(prog, s2, Op::Ret, ret_args) == Step::Next(s3),
        s2.pc.func < prog.functions@.len(),
        ({
            let outs = s1.rest.last().awaiting;
            forall|i: int, j: int| 0 <= i < j < outs.len() ==> outs[i] != outs[j]
        }),
    ensures
        s3.depth() == s.depth(),
        s3.rest == s.rest,
        s3.pc == (Cursor { offset: (s.pc.offset + 1) as usize, ..s.pc }),
        ret_args.len() == s1.rest.last().awaiting.len(),
        forall|k: int|
            0 <= k < ret_args.len() ==> s3.top[#[trigger] s1.rest.last().awaiting[k] as int]
                == s2.top[ret_args[k] as int],
{
    let caller = s1.rest.last();
    assert(s1.rest.drop_last() =~= s.rest);
    let vals = s2.read_all(ret_args);
    lemma_write_all_lands(caller.regs, caller.awaiting, vals);
}

/// `JumpIf` on a true register goes to the first instruction of the target block.
pub proof fn lemma_jump_if_true(prog: &Program, s: StackView, c: usize, l: usize)
    requires
        c < s.top.len(),
        s.top[c as int] == seq![1u8],
        s.pc.func < prog.functions@.len(),
        l < prog.functions@[s.pc.func as int].body@.len(),
    ensures
        step(prog, s, Op::JumpIf, seq![c, l]) == Step::Next(
            StackView { pc: Cursor { func: s.pc.func, block: l, offset: 0 }, ..s },
        ),
{
}

/// `JumpIf` on a false register goes on with the next instruction of the block.
pub proof fn lemma_jump_if_false(prog: &Program, s: StackView, c: usize, l: usize)
    requires
        c < s.top.len(),
        s.top[c as int] == seq![0u8],
    ensures
        step(prog, s, Op::JumpIf, seq![c, l]) == Step::Next(
            StackView { pc: Cursor { offset: (s.pc.offset + 1) as usize, ..s.pc }, ..s },
        ),
{
    assert(seq![0u8] != seq![1u8]) by {
        assert(seq![0u8][0] != seq![1u8][0]);
    }
}

} // verus!
