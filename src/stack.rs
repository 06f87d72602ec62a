//! Frames, the stack, and one step of execution.

use vstd::prelude::*;
use crate::arith::res_view;
use crate::bits::{binary_op, binary_result, is_binary, not_bytes, not_op, zero_bytes, zeros};
use crate::bytes::{le_val, read_le};
use crate::digest::{sha3_digest, sha3_result};
use crate::instr::{FaultKind, Instr, Op, Program};

verus! {

/// A position in a program: a function, a block of it, an instruction of the block.
#[derive(Clone, Copy, PartialEq, Eq, Structural, Debug)]
pub struct Cursor {
    pub func: usize,
    pub block: usize,
    pub offset: usize,
}

/// A suspended caller: its registers, the registers that will take what the callee
/// returns, and where it resumes.
#[derive(PartialEq, Eq, Debug)]
pub struct Frame {
    curr: Vec<Vec<u8>>,
    awaiting: Vec<usize>,
    resume: Cursor,
}

/// The registers of the running invocation, the suspended callers beneath it (oldest
/// first), the cursor, the linear memory and the greatest number of frames allowed.
#[derive(PartialEq, Eq, Debug)]
pub struct Stack {
    top: Vec<Vec<u8>>,
    rest: Vec<Frame>,
    pc: Cursor,
    memory: Vec<u8>,
    max_depth: usize,
}

/// A program fault: its kind, where it happened, and the diagnostics of a `Panic`.
#[derive(PartialEq, Eq, Debug)]
pub struct Fault {
    pub kind: FaultKind,
    pub at: Cursor,
    pub diag: Vec<Vec<u8>>,
}

pub ghost struct FrameView {
    pub regs: Seq<Seq<u8>>,
    pub awaiting: Seq<usize>,
    pub resume: Cursor,
}

pub ghost struct StackView {
    pub top: Seq<Seq<u8>>,
    pub rest: Seq<FrameView>,
    pub pc: Cursor,
    pub memory: Seq<u8>,
    pub max_depth: nat,
}

/// What one instruction does.
pub ghost enum Step {
    /// Execution goes on in this state.
    Next(StackView),
    /// The outermost function returned these values.
    Done(Seq<Seq<u8>>),
    /// The program faulted, with the diagnostics of a `Panic`.
    Fault(FaultKind, Seq<Seq<u8>>),
}

pub open spec fn regs_view(v: Seq<Vec<u8>>) -> Seq<Seq<u8>> {
    v.map_values(|r: Vec<u8>| r@)
}

impl View for Frame {
    type V = FrameView;

    closed spec fn view(&self) -> FrameView {
        FrameView { regs: regs_view(self.curr@), awaiting: self.awaiting@, resume: self.resume }
    }
}

impl View for Stack {
    type V = StackView;

    closed spec fn view(&self) -> StackView {
        StackView {
            top: regs_view(self.top@),
            rest: self.rest@.map_values(|f: Frame| f@),
            pc: self.pc,
            memory: self.memory@,
            max_depth: self.max_depth as nat,
        }
    }
}

impl StackView {
    /// Number of frames, the running one included.
    pub open spec fn depth(self) -> nat {
        self.rest.len() + 1
    }

    /// Every cursor in the stack names a function of `prog`.
    pub open spec fn wf(self, prog: &Program) -> bool {
        &&& self.pc.func < prog.functions@.len()
        &&& forall|i: int| 0 <= i < self.rest.len() ==> #[trigger] self.rest[i].resume.func
            < prog.functions@.len()
    }

    /// The same state at the next instruction, with registers `regs`.
    pub open spec fn next_with(self, regs: Seq<Seq<u8>>) -> Step {
        Step::Next(
            StackView {
                top: regs,
                pc: Cursor { offset: (self.pc.offset + 1) as usize, ..self.pc },
                ..self
            },
        )
    }

    /// Whether each register index names a register of the running frame.
    pub open spec fn in_range(self, regs: Seq<usize>) -> bool {
        forall|j: int| 0 <= j < regs.len() ==> #[trigger] regs[j] < self.top.len()
    }

    /// The contents of registers `regs`.
    pub open spec fn read_all(self, regs: Seq<usize>) -> Seq<Seq<u8>> {
        regs.map_values(|r: usize| self.top[r as int])
    }
}

pub open spec fn fault(e: FaultKind) -> Step {
    Step::Fault(e, Seq::empty())
}

/// The registers after storing `v` at index `i`: an existing register keeps its width,
/// and the register just past the last one may be created.
pub open spec fn write_reg(regs: Seq<Seq<u8>>, i: usize, v: Seq<u8>) -> Result<
    Seq<Seq<u8>>,
    FaultKind,
> {
    if i < regs.len() {
        if regs[i as int].len() == v.len() {
            Ok(regs.update(i as int, v))
        } else {
            Err(FaultKind::TypeMismatch)
        }
    } else if i == regs.len() {
        Ok(regs.push(v))
    } else {
        Err(FaultKind::OutOfBoundsAccess)
    }
}

/// Stores `vals[k]` at `targets[k]`, in order.
pub open spec fn write_all(regs: Seq<Seq<u8>>, targets: Seq<usize>, vals: Seq<Seq<u8>>) -> Result<
    Seq<Seq<u8>>,
    FaultKind,
>
    decreases targets.len(),
{
    if targets.len() == 0 {
        Ok(regs)
    } else {
        match write_reg(regs, targets[0], vals[0]) {
            Ok(r) => write_all(r, targets.drop_first(), vals.drop_first()),
            Err(e) => Err(e),
        }
    }
}

/// Stores the result of an operation at register `o` and goes on.
pub open spec fn after_write(s: StackView, o: usize, v: Result<Seq<u8>, FaultKind>) -> Step {
    match v {
        Err(e) => fault(e),
        Ok(v) => match write_reg(s.top, o, v) {
            Ok(r) => s.next_with(r),
            Err(e) => fault(e),
        },
    }
}

/// Goes to block `l` of function `f`, keeping the frame.
pub open spec fn jump_to(prog: &Program, s: StackView, f: usize, l: usize) -> Step {
    if f >= prog.functions@.len() {
        fault(FaultKind::UnknownFunction)
    } else if l >= prog.functions@[f as int].body@.len() {
        fault(FaultKind::InvalidJumpTarget)
    } else {
        Step::Next(StackView { pc: Cursor { func: f, block: l, offset: 0 }, ..s })
    }
}

/// Whether register `r` holds one of the two boolean encodings.
pub open spec fn is_bool(r: Seq<u8>) -> bool {
    r == seq![0u8] || r == seq![1u8]
}

/// Whether the registers `regs` have the widths `widths`.
pub open spec fn widths_match(s: StackView, regs: Seq<usize>, widths: Seq<usize>) -> bool {
    &&& regs.len() == widths.len()
    &&& forall|j: int| 0 <= j < regs.len() ==> #[trigger] s.top[regs[j] as int].len() == widths[j]
}

/// Calls function `f`; `args` are its input registers followed by the registers that take
/// its results.
pub open spec fn call_step(prog: &Program, s: StackView, f: usize, args: Seq<usize>) -> Step {
    if f >= prog.functions@.len() {
        fault(FaultKind::UnknownFunction)
    } else {
        let callee = prog.functions@[f as int];
        let n = callee.inputs@.len();
        let m = callee.outputs@.len();
        if args.len() != n + m {
            fault(FaultKind::ArityMismatch)
        } else {
            let ins = args.subrange(0, n as int);
            let outs = args.subrange(n as int, (n + m) as int);
            if !s.in_range(ins) {
                fault(FaultKind::OutOfBoundsAccess)
            } else if !widths_match(s, ins, callee.inputs@) {
                fault(FaultKind::ArityMismatch)
            } else if s.depth() >= s.max_depth {
                fault(FaultKind::StackOverflow)
            } else if callee.body@.len() == 0 {
                fault(FaultKind::InvalidJumpTarget)
            } else {
                Step::Next(
                    StackView {
                        top: s.read_all(ins),
                        rest: s.rest.push(
                            FrameView {
                                regs: s.top,
                                awaiting: outs,
                                resume: Cursor { offset: (s.pc.offset + 1) as usize, ..s.pc },
                            },
                        ),
                        pc: Cursor { func: f, block: 0, offset: 0 },
                        ..s
                    },
                )
            }
        }
    }
}

/// Returns the registers `args` from the running function.
pub open spec fn ret_step(prog: &Program, s: StackView, args: Seq<usize>) -> Step {
    let outputs = prog.functions@[s.pc.func as int].outputs@;
    if args.len() != outputs.len() {
        fault(FaultKind::ArityMismatch)
    } else if !s.in_range(args) {
        fault(FaultKind::OutOfBoundsAccess)
    } else if !widths_match(s, args, outputs) {
        fault(FaultKind::ArityMismatch)
    } else if s.rest.len() == 0 {
        Step::Done(s.read_all(args))
    } else {
        let caller = s.rest.last();
        if caller.awaiting.len() != args.len() {
            fault(FaultKind::ArityMismatch)
        } else {
            match write_all(caller.regs, caller.awaiting, s.read_all(args)) {
                Err(e) => fault(e),
                Ok(r) => Step::Next(
                    StackView { top: r, rest: s.rest.drop_last(), pc: caller.resume, ..s },
                ),
            }
        }
    }
}

/// `COPY(i, l_i, r_i, o, l_o)`.
pub open spec fn copy_step(s: StackView, args: Seq<usize>) -> Step {
    let i = args[0];
    let li = args[1];
    let ri = args[2];
    let o = args[3];
    let lo = args[4];
    if i >= s.top.len() || o >= s.top.len() {
        fault(FaultKind::OutOfBoundsAccess)
    } else {
        let src = s.top[i as int];
        let dst = s.top[o as int];
        if li > ri || ri > src.len() || lo + (ri - li) > dst.len() {
            fault(FaultKind::OutOfBoundsAccess)
        } else {
            let end = lo + (ri - li);
            s.next_with(
                s.top.update(
                    o as int,
                    dst.subrange(0, lo as int) + src.subrange(li as int, ri as int) + dst.subrange(
                        end,
                        dst.len() as int,
                    ),
                ),
            )
        }
    }
}

/// `LOAD(i, o)`: the address is the unsigned value of the eight bytes of `i`.
pub open spec fn load_step(s: StackView, i: usize, o: usize) -> Step {
    if i >= s.top.len() || o >= s.top.len() {
        fault(FaultKind::OutOfBoundsAccess)
    } else if s.top[i as int].len() != 8 {
        fault(FaultKind::TypeMismatch)
    } else {
        let addr = le_val(s.top[i as int]);
        let n = s.top[o as int].len();
        if addr + n > s.memory.len() {
            fault(FaultKind::MemoryFault)
        } else {
            s.next_with(s.top.update(o as int, s.memory.subrange(addr as int, (addr + n) as int)))
        }
    }
}

/// `STORE(i, o)`: the address is the unsigned value of the eight bytes of `o`.
pub open spec fn store_step(s: StackView, i: usize, o: usize) -> Step {
    if i >= s.top.len() || o >= s.top.len() {
        fault(FaultKind::OutOfBoundsAccess)
    } else if s.top[o as int].len() != 8 {
        fault(FaultKind::TypeMismatch)
    } else {
        let addr = le_val(s.top[o as int]);
        let data = s.top[i as int];
        if addr + data.len() > s.memory.len() {
            fault(FaultKind::MemoryFault)
        } else {
            Step::Next(
                StackView {
                    memory: s.memory.subrange(0, addr as int) + data + s.memory.subrange(
                        (addr + data.len()) as int,
                        s.memory.len() as int,
                    ),
                    pc: Cursor { offset: (s.pc.offset + 1) as usize, ..s.pc },
                    ..s
                },
            )
        }
    }
}

/// `JUMPIF(c, l)` or `JUMPIF(c, f, l)`.
pub open spec fn jump_if_step(prog: &Program, s: StackView, c: usize, f: usize, l: usize) -> Step {
    if c >= s.top.len() {
        fault(FaultKind::OutOfBoundsAccess)
    } else if !is_bool(s.top[c as int]) {
        fault(FaultKind::TypeMismatch)
    } else if s.top[c as int] == seq![1u8] {
        jump_to(prog, s, f, l)
    } else {
        s.next_with(s.top)
    }
}

/// What the instruction `op(args)` does in state `s`.
pub open spec fn step(prog: &Program, s: StackView, op: Op, args: Seq<usize>) -> Step {
    if is_binary(op) {
        if args.len() != 3 {
            fault(FaultKind::ArityMismatch)
        } else if args[0] >= s.top.len() || args[1] >= s.top.len() {
            fault(FaultKind::OutOfBoundsAccess)
        } else {
            after_write(
                s,
                args[2],
                binary_result(op, s.top[args[0] as int], s.top[args[1] as int]),
            )
        }
    } else {
        match op {
            Op::Not => if args.len() != 2 {
                fault(FaultKind::ArityMismatch)
            } else if args[0] >= s.top.len() {
                fault(FaultKind::OutOfBoundsAccess)
            } else {
                after_write(s, args[1], Ok(not_bytes(s.top[args[0] as int])))
            },
            Op::Sha3 => if args.len() != 2 {
                fault(FaultKind::ArityMismatch)
            } else if args[0] >= s.top.len() || args[1] >= s.top.len() {
                fault(FaultKind::OutOfBoundsAccess)
            } else {
                after_write(
                    s,
                    args[1],
                    sha3_result(s.top[args[0] as int], s.top[args[1] as int].len()),
                )
            },
            Op::Copy => if args.len() != 5 {
                fault(FaultKind::ArityMismatch)
            } else {
                copy_step(s, args)
            },
            Op::Load => if args.len() != 2 {
                fault(FaultKind::ArityMismatch)
            } else {
                load_step(s, args[0], args[1])
            },
            Op::Store => if args.len() != 2 {
                fault(FaultKind::ArityMismatch)
            } else {
                store_step(s, args[0], args[1])
            },
            Op::Jump => if args.len() == 1 {
                jump_to(prog, s, s.pc.func, args[0])
            } else if args.len() == 2 {
                jump_to(prog, s, args[0], args[1])
            } else {
                fault(FaultKind::ArityMismatch)
            },
            Op::JumpIf => if args.len() == 2 {
                jump_if_step(prog, s, args[0], s.pc.func, args[1])
            } else if args.len() == 3 {
                jump_if_step(prog, s, args[0], args[1], args[2])
            } else {
                fault(FaultKind::ArityMismatch)
            },
            Op::Call => if args.len() == 0 {
                fault(FaultKind::ArityMismatch)
            } else {
                call_step(prog, s, args[0], args.drop_first())
            },
            Op::CallI => if args.len() == 0 {
                fault(FaultKind::ArityMismatch)
            } else if args[0] >= s.top.len() {
                fault(FaultKind::OutOfBoundsAccess)
            } else if s.top[args[0] as int].len() != 8 {
                fault(FaultKind::TypeMismatch)
            } else if le_val(s.top[args[0] as int]) >= prog.functions@.len() {
                fault(FaultKind::UnknownFunction)
            } else {
                call_step(prog, s, le_val(s.top[args[0] as int]) as usize, args.drop_first())
            },
            Op::Ret => ret_step(prog, s, args),
            _ => if !s.in_range(args) {
                fault(FaultKind::OutOfBoundsAccess)
            } else {
                Step::Fault(FaultKind::ExplicitPanic, s.read_all(args))
            },
        }
    }
}

/// Whether `r` is what the instruction did, for the step `st` from a state at `at` to `after`.
pub open spec fn outcome_matches(
    st: Step,
    r: Result<Option<Vec<Vec<u8>>>, Fault>,
    after: StackView,
    at: Cursor,
) -> bool {
    match r {
        Ok(None) => st == Step::Next(after),
        Ok(Some(v)) => st == Step::Done(regs_view(v@)),
        Err(f) => st == Step::Fault(f.kind, regs_view(f.diag@)) && f.at == at,
    }
}

fn copy_bytes(v: &Vec<u8>) -> (r: Vec<u8>)
    ensures
        r@ == v@,
{
    let r = v.clone();
    assert(r@ =~= v@);
    r
}

/// Stores `v` at register `i`, as `write_reg` says.
fn store_reg(regs: &mut Vec<Vec<u8>>, i: usize, v: Vec<u8>) -> (r: Result<(), FaultKind>)
    ensures
        match write_reg(regs_view(old(regs)@), i, v@) {
            Ok(n) => r is Ok && regs_view(final(regs)@) == n,
            Err(e) => r == Err::<(), FaultKind>(e),
        },
{
    let ghost vv = v@;
    if i < regs.len() {
        if regs[i].len() == v.len() {
            regs.set(i, v);
            assert(regs_view(regs@) =~= regs_view(old(regs)@).update(i as int, vv));
            Ok(())
        } else {
            Err(FaultKind::TypeMismatch)
        }
    } else if i == regs.len() {
        regs.push(v);
        assert(regs_view(regs@) =~= regs_view(old(regs)@).push(vv));
        Ok(())
    } else {
        Err(FaultKind::OutOfBoundsAccess)
    }
}

impl Stack {
    fn fail(&self, kind: FaultKind) -> (f: Fault)
        ensures
            f.kind == kind,
            f.at == self.pc,
            regs_view(f.diag@) == Seq::<Seq<u8>>::empty(),
    {
        let f = Fault { kind, at: self.pc, diag: Vec::new() };
        assert(regs_view(f.diag@) =~= Seq::<Seq<u8>>::empty());
        f
    }

    fn advance(&mut self)
        requires
            old(self).pc.offset < usize::MAX,
        ensures
            final(self)@ == (StackView {
                pc: Cursor { offset: (old(self).pc.offset + 1) as usize, ..old(self).pc },
                ..old(self)@
            }),
    {
        self.pc.offset = self.pc.offset + 1;
    }

    /// Stores a result at register `o` and goes on.
    fn finish_write(&mut self, o: usize, v: Result<Vec<u8>, FaultKind>) -> (r: Result<
        Option<Vec<Vec<u8>>>,
        Fault,
    >)
        requires
            old(self).pc.offset < usize::MAX,
        ensures
            outcome_matches(
                after_write(old(self)@, o, res_view(v)),
                r,
                final(self)@,
                old(self).pc,
            ),
    {
        match v {
            Err(e) => Err(self.fail(e)),
            Ok(v) => match store_reg(&mut self.top, o, v) {
                Ok(()) => {
                    self.advance();
                    Ok(None)
                },
                Err(e) => Err(self.fail(e)),
            },
        }
    }

    fn go_to(&mut self, prog: &Program, f: usize, l: usize) -> (r: Result<
        Option<Vec<Vec<u8>>>,
        Fault,
    >)
        ensures
            outcome_matches(jump_to(prog, old(self)@, f, l), r, final(self)@, old(self).pc),
    {
        if f >= prog.functions.len() {
            Err(self.fail(FaultKind::UnknownFunction))
        } else if l >= prog.functions[f].body.len() {
            Err(self.fail(FaultKind::InvalidJumpTarget))
        } else {
            self.pc = Cursor { func: f, block: l, offset: 0 };
            Ok(None)
        }
    }

    fn exec_jump_if(&mut self, prog: &Program, c: usize, f: usize, l: usize) -> (r: Result<
        Option<Vec<Vec<u8>>>,
        Fault,
    >)
        requires
            old(self).pc.offset < usize::MAX,
        ensures
            outcome_matches(jump_if_step(prog, old(self)@, c, f, l), r, final(self)@, old(self).pc),
    {
        if c >= self.top.len() {
            return Err(self.fail(FaultKind::OutOfBoundsAccess));
        }
        let reg = &self.top[c];
        if reg.len() != 1 || reg[0] > 1 {
            assert(!is_bool(reg@)) by {
                if reg@.len() == 1 {
                    assert(reg@ != seq![0u8] && reg@ != seq![1u8]) by {
                        assert(seq![0u8][0] == 0u8 && seq![1u8][0] == 1u8);
                    }
                }
            }
            return Err(self.fail(FaultKind::TypeMismatch));
        }
        if reg[0] == 1 {
            assert(reg@ =~= seq![1u8]);
            self.go_to(prog, f, l)
        } else {
            assert(reg@ =~= seq![0u8]);
            assert(reg@ != seq![1u8]) by {
                assert(seq![1u8][0] == 1u8);
            }
            self.advance();
            assert(regs_view(self.top@) == old(self)@.top);
            Ok(None)
        }
    }

    fn exec_copy(&mut self, args: &Vec<usize>) -> (r: Result<Option<Vec<Vec<u8>>>, Fault>)
        requires
            old(self).pc.offset < usize::MAX,
            args@.len() == 5,
        ensures
            outcome_matches(copy_step(old(self)@, args@), r, final(self)@, old(self).pc),
    {
        let i = args[0];
        let li = args[1];
        let ri = args[2];
        let o = args[3];
        let lo = args[4];
        if i >= self.top.len() || o >= self.top.len() {
            return Err(self.fail(FaultKind::OutOfBoundsAccess));
        }
        let src = &self.top[i];
        let dst = &self.top[o];
        if li > ri || ri > src.len() || lo > dst.len() || ri - li > dst.len() - lo {
            return Err(self.fail(FaultKind::OutOfBoundsAccess));
        }
        let end = lo + (ri - li);
        let mut out: Vec<u8> = Vec::new();
        let mut k: usize = 0;
        while k < dst.len()
            invariant
                k <= dst@.len(),
                lo <= end <= dst@.len(),
                end - lo == ri - li,
                li <= ri <= src@.len(),
                out@.len() == k,
                forall|p: int|
                    0 <= p < k ==> #[trigger] out@[p] == if lo <= p < end {
                        src@[li + p - lo]
                    } else {
                        dst@[p]
                    },
            decreases dst@.len() - k,
        {
            let b = if lo <= k && k < end {
                src[li + (k - lo)]
            } else {
                dst[k]
            };
            out.push(b);
            k = k + 1;
        }
        let ghost want = dst@.subrange(0, lo as int) + src@.subrange(li as int, ri as int)
            + dst@.subrange(end as int, dst@.len() as int);
        assert(out@ =~= want);
        self.top.set(o, out);
        assert(regs_view(self.top@) =~= old(self)@.top.update(o as int, want));
        self.advance();
        Ok(None)
    }

    fn exec_load(&mut self, i: usize, o: usize) -> (r: Result<Option<Vec<Vec<u8>>>, Fault>)
        requires
            old(self).pc.offset < usize::MAX,
        ensures
            outcome_matches(load_step(old(self)@, i, o), r, final(self)@, old(self).pc),
    {
        if i >= self.top.len() || o >= self.top.len() {
            return Err(self.fail(FaultKind::OutOfBoundsAccess));
        }
        if self.top[i].len() != 8 {
            return Err(self.fail(FaultKind::TypeMismatch));
        }
        let addr = read_le(&self.top[i]);
        let n = self.top[o].len();
        if addr as u128 + n as u128 > self.memory.len() as u128 {
            return Err(self.fail(FaultKind::MemoryFault));
        }
        let a = addr as usize;
        let mut out: Vec<u8> = Vec::new();
        let mut k: usize = 0;
        while k < n
            invariant
                k <= n,
                a + n <= self.memory.len(),
                *self == *old(self),
                out@ == self.memory@.subrange(a as int, a + k),
            decreases n - k,
        {
            out.push(self.memory[a + k]);
            k = k + 1;
            assert(out@ =~= self.memory@.subrange(a as int, a + k));
        }
        let ghost want = self.memory@.subrange(a as int, a + n);
        self.top.set(o, out);
        assert(regs_view(self.top@) =~= old(self)@.top.update(o as int, want));
        self.advance();
        Ok(None)
    }

    fn exec_store(&mut self, i: usize, o: usize) -> (r: Result<Option<Vec<Vec<u8>>>, Fault>)
        requires
            old(self).pc.offset < usize::MAX,
        ensures
            outcome_matches(store_step(old(self)@, i, o), r, final(self)@, old(self).pc),
    {
        if i >= self.top.len() || o >= self.top.len() {
            return Err(self.fail(FaultKind::OutOfBoundsAccess));
        }
        if self.top[o].len() != 8 {
            return Err(self.fail(FaultKind::TypeMismatch));
        }
        let addr = read_le(&self.top[o]);
        let n = self.top[i].len();
        if addr as u128 + n as u128 > self.memory.len() as u128 {
            return Err(self.fail(FaultKind::MemoryFault));
        }
        let a = addr as usize;
        let ghost mem0 = self.memory@;
        let ghost data = self.top[i as int]@;
        let mut k: usize = 0;
        while k < n
            invariant
                k <= n,
                n == data.len(),
                a + n <= mem0.len(),
                i < self.top@.len(),
                self.top[i as int]@ == data,
                self.top@ == old(self).top@,
                self.memory@.len() == mem0.len(),
                a + n <= self.memory.len(),
                self.pc == old(self).pc,
                self.rest == old(self).rest,
                self.max_depth == old(self).max_depth,
                forall|p: int|
                    0 <= p < mem0.len() ==> #[trigger] self.memory@[p] == if a <= p < a + k {
                        data[p - a]
                    } else {
                        mem0[p]
                    },
            decreases n - k,
        {
            let b = self.top[i][k];
            self.memory.set(a + k, b);
            k = k + 1;
        }
        assert(self.memory@ =~= mem0.subrange(0, a as int) + data + mem0.subrange(
            (a + n) as int,
            mem0.len() as int,
        ));
        self.advance();
        Ok(None)
    }

    /// Copies of the registers `args[from..to]`, or `None` if one is out of range.
    fn read_regs(&self, args: &Vec<usize>, from: usize, to: usize) -> (r: Option<Vec<Vec<u8>>>)
        requires
            from <= to <= args@.len(),
        ensures
            match r {
                Some(v) => {
                    &&& self@.in_range(args@.subrange(from as int, to as int))
                    &&& regs_view(v@) == self@.read_all(args@.subrange(from as int, to as int))
                    &&& v@.len() == to - from
                    &&& forall|j: int|
                        0 <= j < to - from ==> #[trigger] v@[j]@ == self@.top[args@[from + j] as int]
                },
                None => !self@.in_range(args@.subrange(from as int, to as int)),
            },
    {
        let ghost sub = args@.subrange(from as int, to as int);
        let mut out: Vec<Vec<u8>> = Vec::new();
        let mut k: usize = from;
        while k < to
            invariant
                from <= k <= to <= args@.len(),
                sub == args@.subrange(from as int, to as int),
                out@.len() == k - from,
                forall|j: int| 0 <= j < k - from ==> #[trigger] sub[j] < self.top@.len(),
                forall|j: int|
                    0 <= j < k - from ==> #[trigger] out@[j]@ == self.top@[sub[j] as int]@,
            decreases to - k,
        {
            let i = args[k];
            if i >= self.top.len() {
                assert(sub[k - from] == i);
                return None;
            }
            out.push(copy_bytes(&self.top[i]));
            k = k + 1;
        }
        assert(regs_view(out@) =~= self@.read_all(sub));
        Some(out)
    }

    fn exec_call(&mut self, prog: &Program, f: usize, args: &Vec<usize>) -> (r: Result<
        Option<Vec<Vec<u8>>>,
        Fault,
    >)
        requires
            old(self).pc.offset < usize::MAX,
            args@.len() >= 1,
        ensures
            outcome_matches(
                call_step(prog, old(self)@, f, args@.drop_first()),
                r,
                final(self)@,
                old(self).pc,
            ),
    {
        let ghost cargs = args@.drop_first();
        if f >= prog.functions.len() {
            return Err(self.fail(FaultKind::UnknownFunction));
        }
        let callee = &prog.functions[f];
        let n = callee.inputs.len();
        let m = callee.outputs.len();
        if args.len() - 1 < n || args.len() - 1 - n != m {
            return Err(self.fail(FaultKind::ArityMismatch));
        }
        assert(args@.subrange(1, 1 + n) =~= cargs.subrange(0, n as int));
        assert(args@.subrange(1 + n, args@.len() as int) =~= cargs.subrange(n as int, (n + m) as int));
        let ins = match self.read_regs(args, 1, 1 + n) {
            Some(v) => v,
            None => {
                return Err(self.fail(FaultKind::OutOfBoundsAccess));
            },
        };
        assert forall|q: int| 0 <= q < n implies #[trigger] args@[1 + q] < self@.top.len() by {
            assert(args@.subrange(1, 1 + n)[q] == args@[1 + q]);
        }
        let mut j: usize = 0;
        while j < n
            invariant
                j <= n == callee.inputs@.len() == ins@.len(),
                *self == *old(self),
                f < prog.functions@.len(),
                *callee == prog.functions@[f as int],
                1 + n <= args@.len(),
                args@.len() == 1 + n + m,
                m == callee.outputs@.len(),
                self@.in_range(cargs.subrange(0, n as int)),
                cargs == args@.drop_first(),
                forall|q: int| 0 <= q < n ==> #[trigger] ins@[q]@ == self@.top[args@[1 + q] as int],
                forall|q: int| 0 <= q < n ==> #[trigger] args@[1 + q] < self@.top.len(),
                forall|q: int| 0 <= q < j ==> #[trigger] ins@[q]@.len() == callee.inputs@[q],
            decreases n - j,
        {
            if ins[j].len() != callee.inputs[j] {
                assert(cargs.subrange(0, n as int)[j as int] == args@[1 + j]);
                assert(self@.top[cargs.subrange(0, n as int)[j as int] as int].len()
                    != callee.inputs@[j as int]);
                return Err(self.fail(FaultKind::ArityMismatch));
            }
            j = j + 1;
        }
        assert(widths_match(self@, cargs.subrange(0, n as int), callee.inputs@)) by {
            assert forall|q: int| 0 <= q < n implies #[trigger] self@.top[cargs.subrange(
                0,
                n as int,
            )[q] as int].len() == callee.inputs@[q] by {
                assert(ins@[q]@ == self@.top[cargs.subrange(0, n as int)[q] as int]);
            }
        }
        if self.max_depth == 0 || self.rest.len() >= self.max_depth - 1 {
            return Err(self.fail(FaultKind::StackOverflow));
        }
        if callee.body.len() == 0 {
            return Err(self.fail(FaultKind::InvalidJumpTarget));
        }
        let mut outs: Vec<usize> = Vec::new();
        let mut k: usize = 1 + n;
        while k < args.len()
            invariant
                1 + n <= k <= args@.len(),
                outs@ == args@.subrange(1 + n, k as int),
            decreases args@.len() - k,
        {
            outs.push(args[k]);
            k = k + 1;
            assert(outs@ =~= args@.subrange(1 + n, k as int));
        }
        let mut regs = ins;
        std::mem::swap(&mut regs, &mut self.top);
        let frame = Frame {
            curr: regs,
            awaiting: outs,
            resume: Cursor { func: self.pc.func, block: self.pc.block, offset: self.pc.offset + 1 },
        };
        self.rest.push(frame);
        self.pc = Cursor { func: f, block: 0, offset: 0 };
        assert(self@.rest =~= old(self)@.rest.push(frame@));
        Ok(None)
    }

    /// Stores `vals[k]` at `targets[k]`, in order, as `write_all` says.
    fn store_all(regs: &mut Vec<Vec<u8>>, targets: &Vec<usize>, vals: &Vec<Vec<u8>>) -> (r: Result<
        (),
        FaultKind,
    >)
        requires
            targets@.len() == vals@.len(),
        ensures
            match write_all(regs_view(old(regs)@), targets@, regs_view(vals@)) {
                Ok(n) => r is Ok && regs_view(final(regs)@) == n,
                Err(e) => r == Err::<(), FaultKind>(e),
            },
    {
        let ghost want = write_all(regs_view(regs@), targets@, regs_view(vals@));
        assert(targets@.subrange(0, targets@.len() as int) =~= targets@);
        assert(regs_view(vals@).subrange(0, vals@.len() as int) =~= regs_view(vals@));
        let mut k: usize = 0;
        while k < targets.len()
            invariant
                k <= targets@.len() == vals@.len(),
                want == write_all(regs_view(old(regs)@), targets@, regs_view(vals@)),
                want == write_all(
                    regs_view(regs@),
                    targets@.subrange(k as int, targets@.len() as int),
                    regs_view(vals@).subrange(k as int, vals@.len() as int),
                ),
            decreases targets@.len() - k,
        {
            let ghost ts = targets@.subrange(k as int, targets@.len() as int);
            let ghost vs = regs_view(vals@).subrange(k as int, vals@.len() as int);
            assert(ts.drop_first() =~= targets@.subrange(k + 1, targets@.len() as int));
            assert(vs.drop_first() =~= regs_view(vals@).subrange(k + 1, vals@.len() as int));
            let v = copy_bytes(&vals[k]);
            match store_reg(regs, targets[k], v) {
                Ok(()) => {},
                Err(e) => {
                    return Err(e);
                },
            }
            k = k + 1;
        }
        assert(targets@.subrange(k as int, targets@.len() as int) =~= Seq::<usize>::empty());
        Ok(())
    }

    fn exec_ret(&mut self, prog: &Program, args: &Vec<usize>) -> (r: Result<
        Option<Vec<Vec<u8>>>,
        Fault,
    >)
        requires
            old(self).pc.func < prog.functions@.len(),
        ensures
            outcome_matches(ret_step(prog, old(self)@, args@), r, final(self)@, old(self).pc),
    {
        let outputs = &prog.functions[self.pc.func].outputs;
        if args.len() != outputs.len() {
            return Err(self.fail(FaultKind::ArityMismatch));
        }
        assert(args@.subrange(0, args@.len() as int) =~= args@);
        let vals = match self.read_regs(args, 0, args.len()) {
            Some(v) => v,
            None => {
                return Err(self.fail(FaultKind::OutOfBoundsAccess));
            },
        };
        let mut j: usize = 0;
        while j < args.len()
            invariant
                j <= args@.len() == outputs@.len() == vals@.len(),
                *self == *old(self),
                self.pc.func < prog.functions@.len(),
                *outputs == prog.functions@[self@.pc.func as int].outputs,
                forall|q: int| 0 <= q < args@.len() ==> #[trigger] vals@[q]@ == self@.top[args@[0 + q] as int],
                self@.in_range(args@),
                forall|q: int| 0 <= q < j ==> #[trigger] vals@[q]@.len() == outputs@[q],
            decreases args@.len() - j,
        {
            if vals[j].len() != outputs[j] {
                assert(vals@[j as int]@ == self@.top[args@[0 + j] as int]);
                assert(self@.top[args@[j as int] as int].len() != outputs@[j as int]);
                assert(!widths_match(self@, args@, outputs@));
                assert(self@.in_range(args@));
                return Err(self.fail(FaultKind::ArityMismatch));
            }
            j = j + 1;
        }
        assert(widths_match(self@, args@, outputs@)) by {
            assert forall|q: int| 0 <= q < args@.len() implies #[trigger] self@.top[args@[q] as int].len()
                == outputs@[q] by {
                assert(vals@[q]@ == self@.top[args@[0 + q] as int]);
            }
        }
        if self.rest.len() == 0 {
            return Ok(Some(vals));
        }
        let at = self.pc;
        let ghost s0 = self@;
        let frame = self.rest.pop().unwrap();
        assert(frame@ == s0.rest.last());
        assert(self@.rest =~= s0.rest.drop_last());
        if frame.awaiting.len() != vals.len() {
            let f = Fault { kind: FaultKind::ArityMismatch, at, diag: Vec::new() };
            assert(regs_view(f.diag@) =~= Seq::<Seq<u8>>::empty());
            return Err(f);
        }
        let Frame { curr, awaiting, resume } = frame;
        let mut regs = curr;
        match Self::store_all(&mut regs, &awaiting, &vals) {
            Ok(()) => {
                self.top = regs;
                self.pc = resume;
                Ok(None)
            },
            Err(e) => {
                let f = Fault { kind: e, at, diag: Vec::new() };
                assert(regs_view(f.diag@) =~= Seq::<Seq<u8>>::empty());
                Err(f)
            },
        }
    }

    /// Runs one instruction. `Ok(None)`: execution goes on from the new state;
    /// `Ok(Some(v))`: the outermost function returned `v`; `Err(f)`: the program faulted.
    #[verifier::rlimit(60)]
    pub fn run_op(&mut self, prog: &Program, instr: &Instr) -> (r: Result<
        Option<Vec<Vec<u8>>>,
        Fault,
    >)
        requires
            old(self)@.wf(prog),
            old(self)@.pc.offset < usize::MAX,
        ensures
            outcome_matches(
                step(prog, old(self)@, instr.op, instr.args@),
                r,
                final(self)@,
                old(self)@.pc,
            ),
            r == Ok::<Option<Vec<Vec<u8>>>, Fault>(None) ==> final(self)@.wf(prog),
    {
        let op = instr.op;
        let args = &instr.args;
        let r = if matches!(
            op,
            Op::Add(_) | Op::Sub(_) | Op::Mul(_) | Op::Udiv(_) | Op::Umod(_) | Op::Sdiv(_)
                | Op::Smod(_) | Op::Pow(_) | Op::Lt(_) | Op::Gt(_) | Op::Eq | Op::And | Op::Or
                | Op::Xor | Op::Shl | Op::Shr
        ) {
            if args.len() != 3 {
                Err(self.fail(FaultKind::ArityMismatch))
            } else if args[0] >= self.top.len() || args[1] >= self.top.len() {
                Err(self.fail(FaultKind::OutOfBoundsAccess))
            } else {
                let v = binary_op(op, &self.top[args[0]], &self.top[args[1]]);
                self.finish_write(args[2], v)
            }
        } else {
            match op {
                Op::Not => if args.len() != 2 {
                    Err(self.fail(FaultKind::ArityMismatch))
                } else if args[0] >= self.top.len() {
                    Err(self.fail(FaultKind::OutOfBoundsAccess))
                } else {
                    let v = not_op(&self.top[args[0]]);
                    self.finish_write(args[1], Ok(v))
                },
                Op::Sha3 => if args.len() != 2 {
                    Err(self.fail(FaultKind::ArityMismatch))
                } else if args[0] >= self.top.len() || args[1] >= self.top.len() {
                    Err(self.fail(FaultKind::OutOfBoundsAccess))
                } else {
                    let v = sha3_digest(&self.top[args[0]], self.top[args[1]].len());
                    self.finish_write(args[1], v)
                },
                Op::Copy => if args.len() != 5 {
                    Err(self.fail(FaultKind::ArityMismatch))
                } else {
                    self.exec_copy(args)
                },
                Op::Load => if args.len() != 2 {
                    Err(self.fail(FaultKind::ArityMismatch))
                } else {
                    self.exec_load(args[0], args[1])
                },
                Op::Store => if args.len() != 2 {
                    Err(self.fail(FaultKind::ArityMismatch))
                } else {
                    self.exec_store(args[0], args[1])
                },
                Op::Jump => if args.len() == 1 {
                    let f = self.pc.func;
                    self.go_to(prog, f, args[0])
                } else if args.len() == 2 {
                    self.go_to(prog, args[0], args[1])
                } else {
                    Err(self.fail(FaultKind::ArityMismatch))
                },
                Op::JumpIf => if args.len() == 2 {
                    let f = self.pc.func;
                    self.exec_jump_if(prog, args[0], f, args[1])
                } else if args.len() == 3 {
                    self.exec_jump_if(prog, args[0], args[1], args[2])
                } else {
                    Err(self.fail(FaultKind::ArityMismatch))
                },
                Op::Call => if args.len() == 0 {
                    Err(self.fail(FaultKind::ArityMismatch))
                } else {
                    self.exec_call(prog, args[0], args)
                },
                Op::CallI => if args.len() == 0 {
                    Err(self.fail(FaultKind::ArityMismatch))
                } else if args[0] >= self.top.len() {
                    Err(self.fail(FaultKind::OutOfBoundsAccess))
                } else if self.top[args[0]].len() != 8 {
                    Err(self.fail(FaultKind::TypeMismatch))
                } else {
                    let v = read_le(&self.top[args[0]]);
                    if v as u128 >= prog.functions.len() as u128 {
                        Err(self.fail(FaultKind::UnknownFunction))
                    } else {
                        self.exec_call(prog, v as usize, args)
                    }
                },
                Op::Ret => self.exec_ret(prog, args),
                _ => {
                    match self.read_regs(args, 0, args.len()) {
                        None => {
                            assert(args@.subrange(0, args@.len() as int) =~= args@);
                            Err(self.fail(FaultKind::OutOfBoundsAccess))
                        },
                        Some(v) => {
                            assert(args@.subrange(0, args@.len() as int) =~= args@);
                            Err(Fault { kind: FaultKind::ExplicitPanic, at: self.pc, diag: v })
                        },
                    }
                },
            }
        };
        proof {
            if r == Ok::<Option<Vec<Vec<u8>>>, Fault>(None) {
                let t = self@;
                assert forall|i: int| 0 <= i < t.rest.len() implies #[trigger] t.rest[i].resume.func
                    < prog.functions@.len() by {
                    if i < old(self)@.rest.len() {
                        assert(t.rest[i] == old(self)@.rest[i]);
                    }
                }
            }
        }
        r
    }

    /// The frame of a program's entry function `entry`, called on `inputs`, with
    /// `memory_size` bytes of zeroed memory and at most `max_depth` frames.
    pub fn new(
        prog: &Program,
        entry: usize,
        inputs: Vec<Vec<u8>>,
        max_depth: usize,
        memory_size: usize,
    ) -> (r: Result<Stack, FaultKind>)
        ensures
            match r {
                Ok(s) => entry < prog.functions@.len() && widths_fit(
                    regs_view(inputs@),
                    prog.functions@[entry as int].inputs@,
                ) && s@ == initial_state(entry, regs_view(inputs@), max_depth, memory_size)
                    && s@.wf(prog),
                Err(e) => if entry >= prog.functions@.len() {
                    e == FaultKind::UnknownFunction
                } else {
                    !widths_fit(regs_view(inputs@), prog.functions@[entry as int].inputs@) && e
                        == FaultKind::ArityMismatch
                },
            },
    {
        if entry >= prog.functions.len() {
            return Err(FaultKind::UnknownFunction);
        }
        let sig = &prog.functions[entry].inputs;
        if inputs.len() != sig.len() {
            return Err(FaultKind::ArityMismatch);
        }
        let mut j: usize = 0;
        while j < sig.len()
            invariant
                j <= sig@.len() == inputs@.len(),
                entry < prog.functions@.len(),
                *sig == prog.functions@[entry as int].inputs,
                forall|q: int| 0 <= q < j ==> #[trigger] inputs@[q]@.len() == sig@[q],
            decreases sig@.len() - j,
        {
            if inputs[j].len() != sig[j] {
                assert(regs_view(inputs@)[j as int].len() != sig@[j as int]);
                return Err(FaultKind::ArityMismatch);
            }
            j = j + 1;
        }
        let memory = zero_bytes(memory_size);
        let s = Stack {
            top: inputs,
            rest: Vec::new(),
            pc: Cursor { func: entry, block: 0, offset: 0 },
            memory,
            max_depth,
        };
        assert(s@.rest =~= Seq::<FrameView>::empty());
        Ok(s)
    }

    /// Where execution stands.
    pub fn cursor(&self) -> (c: Cursor)
        ensures
            c == self@.pc,
    {
        self.pc
    }
}

/// Whether values `vals` have the widths `widths`.
pub open spec fn widths_fit(vals: Seq<Seq<u8>>, widths: Seq<usize>) -> bool {
    &&& vals.len() == widths.len()
    &&& forall|j: int| 0 <= j < vals.len() ==> #[trigger] vals[j].len() == widths[j]
}

/// The state in which a program starts.
pub open spec fn initial_state(
    entry: usize,
    inputs: Seq<Seq<u8>>,
    max_depth: usize,
    memory_size: usize,
) -> StackView {
    StackView {
        top: inputs,
        rest: Seq::empty(),
        pc: Cursor { func: entry, block: 0, offset: 0 },
        memory: zeros(memory_size as nat),
        max_depth: max_depth as nat,
    }
}

} // verus!
