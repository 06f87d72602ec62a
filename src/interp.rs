//! The interpreter loop: runs a program from its entry function to a result or a fault.

use vstd::prelude::*;
use crate::instr::{FaultKind, Program};
use crate::stack::{
    initial_state, outcome_matches, regs_view, step, widths_fit, Cursor, Fault, Stack, StackView,
    Step,
};

verus! {

/// How a run ends.
pub ghost enum Outcome {
    /// The outermost function returned these values.
    Returned(Seq<Seq<u8>>),
    /// A fault, where it happened, and the diagnostics of a `Panic`.
    Faulted(FaultKind, Cursor, Seq<Seq<u8>>),
}

/// Whether `pc` names an instruction of `prog`.
pub open spec fn fetchable(prog: &Program, pc: Cursor) -> bool {
    &&& pc.func < prog.functions@.len()
    &&& pc.block < prog.functions@[pc.func as int].body@.len()
    &&& pc.offset < prog.functions@[pc.func as int].body@[pc.block as int]@.len()
}

/// How a run from state `s` ends when at most `fuel` more instructions may run.
pub open spec fn run_from(prog: &Program, s: StackView, fuel: nat) -> Outcome
    decreases fuel,
{
    if fuel == 0 {
        Outcome::Faulted(FaultKind::StepLimit, s.pc, Seq::empty())
    } else if !fetchable(prog, s.pc) {
        Outcome::Faulted(FaultKind::InvalidJumpTarget, s.pc, Seq::empty())
    } else {
        let ins = prog.functions@[s.pc.func as int].body@[s.pc.block as int]@[s.pc.offset as int];
        match step(prog, s, ins.op, ins.args@) {
            Step::Next(t) => run_from(prog, t, (fuel - 1) as nat),
            Step::Done(v) => Outcome::Returned(v),
            Step::Fault(k, d) => Outcome::Faulted(k, s.pc, d),
        }
    }
}

/// How running `prog` from function `entry` on `inputs` ends.
pub open spec fn run_result(
    prog: &Program,
    entry: usize,
    inputs: Seq<Seq<u8>>,
    max_depth: usize,
    memory_size: usize,
    budget: u64,
) -> Outcome {
    let start = Cursor { func: entry, block: 0, offset: 0 };
    if entry >= prog.functions@.len() {
        Outcome::Faulted(FaultKind::UnknownFunction, start, Seq::empty())
    } else if !widths_fit(inputs, prog.functions@[entry as int].inputs@) {
        Outcome::Faulted(FaultKind::ArityMismatch, start, Seq::empty())
    } else {
        run_from(prog, initial_state(entry, inputs, max_depth, memory_size), budget as nat)
    }
}

pub open spec fn outcome_of(r: Result<Vec<Vec<u8>>, Fault>) -> Outcome {
    match r {
        Ok(v) => Outcome::Returned(regs_view(v@)),
        Err(f) => Outcome::Faulted(f.kind, f.at, regs_view(f.diag@)),
    }
}

fn fault_at(kind: FaultKind, at: Cursor) -> (f: Fault)
    ensures
        f.kind == kind,
        f.at == at,
        regs_view(f.diag@) == Seq::<Seq<u8>>::empty(),
{
    let f = Fault { kind, at, diag: Vec::new() };
    assert(regs_view(f.diag@) =~= Seq::<Seq<u8>>::empty());
    f
}

/// Runs `prog` from state `st` for at most `fuel` instructions.
pub fn run_stack(prog: &Program, start: Stack, budget: u64) -> (r: Result<Vec<Vec<u8>>, Fault>)
    requires
        start@.wf(prog),
    ensures
        outcome_of(r) == run_from(prog, start@, budget as nat),
{
    let ghost goal = run_from(prog, start@, budget as nat);
    let mut st = start;
    let mut fuel = budget;
    loop
        invariant
            st@.wf(prog),
            run_from(prog, st@, fuel as nat) == goal,
            goal == run_from(prog, start@, budget as nat),
        decreases fuel,
    {
        let pc = st.cursor();
        if fuel == 0 {
            return Err(fault_at(FaultKind::StepLimit, pc));
        }
        let func = &prog.functions[pc.func];
        if pc.block >= func.body.len() || pc.offset >= func.body[pc.block].len() {
            return Err(fault_at(FaultKind::InvalidJumpTarget, pc));
        }
        let instr = &func.body[pc.block][pc.offset];
        assert(fetchable(prog, st@.pc));
        match st.run_op(prog, instr) {
            Ok(None) => {
                fuel = fuel - 1;
            },
            Ok(Some(v)) => {
                return Ok(v);
            },
            Err(f) => {
                return Err(f);
            },
        }
    }
}

/// Runs `prog` from the first instruction of function `entry`, whose inputs are `inputs`,
/// with `memory_size` bytes of zeroed memory, at most `max_depth` frames and at most
/// `budget` instructions.
pub fn run(
    prog: &Program,
    entry: usize,
    inputs: Vec<Vec<u8>>,
    max_depth: usize,
    memory_size: usize,
    budget: u64,
) -> (r: Result<Vec<Vec<u8>>, Fault>)
    ensures
        outcome_of(r) == run_result(prog, entry, regs_view(inputs@), max_depth, memory_size, budget),
{
    let start = Cursor { func: entry, block: 0, offset: 0 };
    match Stack::new(prog, entry, inputs, max_depth, memory_size) {
        Ok(s) => run_stack(prog, s, budget),
        Err(e) => Err(fault_at(e, start)),
    }
}

} // verus!
