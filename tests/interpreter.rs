use regvm::instr::{FaultKind, Function, Instr, Op, Program, Type};
use regvm::interp::run;
use regvm::stack::{Cursor, Fault, Stack};

fn ins(op: Op, args: &[usize]) -> Instr {
    Instr { op, args: args.to_vec() }
}

fn func(inputs: &[usize], outputs: &[usize], body: Vec<Vec<Instr>>) -> Function {
    Function { inputs: inputs.to_vec(), outputs: outputs.to_vec(), body }
}

fn u32le(v: u32) -> Vec<u8> {
    v.to_le_bytes().to_vec()
}

fn at(func: usize, block: usize, offset: usize) -> Cursor {
    Cursor { func, block, offset }
}

fn plain_fault(kind: FaultKind, cursor: Cursor) -> Fault {
    Fault { kind, at: cursor, diag: Vec::new() }
}

/// Runs a single-block function of two inputs that applies `op` and returns register 2.
fn binary(op: Op, a: Vec<u8>, b: Vec<u8>, out: usize) -> Result<Vec<Vec<u8>>, Fault> {
    let prog = Program {
        functions: vec![func(
            &[a.len(), b.len()],
            &[out],
            vec![vec![ins(op, &[0, 1, 2]), ins(Op::Ret, &[2])]],
        )],
    };
    run(&prog, 0, vec![a, b], 8, 0, 100)
}

#[test]
fn add_u32_returns_twelve() {
    let r = binary(Op::Add(Type::U32), u32le(5), u32le(7), 4);
    assert_eq!(r, Ok(vec![vec![12, 0, 0, 0]]));
}

#[test]
fn call_square_returns_forty_nine() {
    let main = func(&[4], &[4], vec![vec![ins(Op::Call, &[1, 0, 0]), ins(Op::Ret, &[0])]]);
    let square = func(&[4], &[4], vec![vec![ins(Op::Mul(Type::U32), &[0, 0, 1]), ins(Op::Ret, &[1])]]);
    let prog = Program { functions: vec![main, square] };
    assert_eq!(run(&prog, 0, vec![u32le(7)], 8, 0, 100), Ok(vec![u32le(49)]));
}

#[test]
fn panic_carries_diagnostics() {
    let prog = Program { functions: vec![func(&[1], &[], vec![vec![ins(Op::Panic, &[0])]])] };
    let r = run(&prog, 0, vec![vec![0x2a]], 8, 0, 100);
    assert_eq!(
        r,
        Err(Fault { kind: FaultKind::ExplicitPanic, at: at(0, 0, 0), diag: vec![vec![0x2a]] })
    );
}

#[test]
fn panic_inside_callee_unwinds_everything() {
    let main = func(&[1], &[], vec![vec![ins(Op::Call, &[1, 0]), ins(Op::Ret, &[])]]);
    let callee = func(&[1], &[], vec![vec![ins(Op::Panic, &[0])]]);
    let prog = Program { functions: vec![main, callee] };
    let r = run(&prog, 0, vec![vec![0x2a]], 8, 0, 100);
    assert_eq!(
        r,
        Err(Fault { kind: FaultKind::ExplicitPanic, at: at(1, 0, 0), diag: vec![vec![0x2a]] })
    );
}

#[test]
fn shift_by_full_width_gives_zero() {
    assert_eq!(binary(Op::Shl, vec![0xff; 4], vec![32], 4), Ok(vec![vec![0; 4]]));
    assert_eq!(binary(Op::Shr, vec![0xff; 4], vec![32], 4), Ok(vec![vec![0; 4]]));
}

#[test]
fn shifts_move_bits() {
    assert_eq!(binary(Op::Shl, u32le(0x0102_0304), vec![8], 4), Ok(vec![u32le(0x0203_0400)]));
    assert_eq!(binary(Op::Shr, u32le(0x0102_0304), vec![4], 4), Ok(vec![u32le(0x0010_2030)]));
    assert_eq!(binary(Op::Shl, vec![0x81], vec![1], 1), Ok(vec![vec![0x02]]));
}

#[test]
fn add_then_sub_recovers() {
    let a = u32le(0xffff_fff0);
    let b = u32le(0x20);
    let sum = binary(Op::Add(Type::U32), a.clone(), b.clone(), 4).unwrap().remove(0);
    assert_eq!(sum, u32le(0x10));
    assert_eq!(binary(Op::Sub(Type::U32), sum, b, 4), Ok(vec![a]));
}

#[test]
fn arithmetic_wraps() {
    assert_eq!(binary(Op::Add(Type::U8), vec![200], vec![100], 1), Ok(vec![vec![44]]));
    assert_eq!(binary(Op::Sub(Type::U16), vec![1, 0], vec![2, 0], 2), Ok(vec![vec![0xff, 0xff]]));
    assert_eq!(
        binary(Op::Mul(Type::U64), u64::MAX.to_le_bytes().to_vec(), 2u64.to_le_bytes().to_vec(), 8),
        Ok(vec![(u64::MAX - 1).to_le_bytes().to_vec()])
    );
    assert_eq!(binary(Op::Add(Type::I8), vec![127], vec![1], 1), Ok(vec![vec![0x80]]));
}

#[test]
fn division_truncates_toward_zero() {
    let m7 = (-7i32).to_le_bytes().to_vec();
    let p2 = 2i32.to_le_bytes().to_vec();
    assert_eq!(binary(Op::Sdiv(Type::I32), m7.clone(), p2.clone(), 4), Ok(vec![(-3i32).to_le_bytes().to_vec()]));
    assert_eq!(binary(Op::Smod(Type::I32), m7.clone(), p2.clone(), 4), Ok(vec![(-1i32).to_le_bytes().to_vec()]));
    assert_eq!(binary(Op::Udiv(Type::U32), u32le(7), u32le(2), 4), Ok(vec![u32le(3)]));
    assert_eq!(binary(Op::Umod(Type::U32), u32le(7), u32le(2), 4), Ok(vec![u32le(1)]));
    assert_eq!(binary(Op::Sdiv(Type::I8), vec![0x80], vec![0xff], 1), Ok(vec![vec![0x80]]));
}

#[test]
fn division_by_zero_faults() {
    for op in [Op::Udiv(Type::U32), Op::Sdiv(Type::I32), Op::Umod(Type::U32), Op::Smod(Type::I32)] {
        assert_eq!(
            binary(op, u32le(9), u32le(0), 4),
            Err(plain_fault(FaultKind::DivideByZero, at(0, 0, 0)))
        );
    }
}

#[test]
fn power_wraps() {
    assert_eq!(binary(Op::Pow(Type::U32), u32le(3), u32le(4), 4), Ok(vec![u32le(81)]));
    assert_eq!(binary(Op::Pow(Type::U8), vec![2], vec![9], 1), Ok(vec![vec![0]]));
    assert_eq!(binary(Op::Pow(Type::U32), u32le(7), u32le(0), 4), Ok(vec![u32le(1)]));
    assert_eq!(binary(Op::Pow(Type::I8), vec![0xfe], vec![3], 1), Ok(vec![vec![0xf8]]));
    assert_eq!(
        binary(Op::Pow(Type::U64), 3u64.to_le_bytes().to_vec(), 41u64.to_le_bytes().to_vec(), 8),
        Ok(vec![3u64.wrapping_pow(41).to_le_bytes().to_vec()])
    );
}

#[test]
fn negative_exponent_faults() {
    assert_eq!(
        binary(Op::Pow(Type::I8), vec![2], vec![0xff], 1),
        Err(plain_fault(FaultKind::NegativeExponent, at(0, 0, 0)))
    );
}

#[test]
fn comparisons_follow_signedness() {
    assert_eq!(binary(Op::Lt(Type::U8), vec![0xff], vec![1], 1), Ok(vec![vec![0]]));
    assert_eq!(binary(Op::Lt(Type::I8), vec![0xff], vec![1], 1), Ok(vec![vec![1]]));
    assert_eq!(binary(Op::Gt(Type::U8), vec![0xff], vec![1], 1), Ok(vec![vec![1]]));
    assert_eq!(binary(Op::Gt(Type::I8), vec![0xff], vec![1], 1), Ok(vec![vec![0]]));
}

#[test]
fn eq_of_a_register_with_itself_is_true() {
    let prog = Program {
        functions: vec![func(&[3], &[1], vec![vec![ins(Op::Eq, &[0, 0, 1]), ins(Op::Ret, &[1])]])],
    };
    assert_eq!(run(&prog, 0, vec![vec![9, 8, 7]], 8, 0, 100), Ok(vec![vec![1]]));
    assert_eq!(binary(Op::Eq, vec![1, 2], vec![1, 3], 1), Ok(vec![vec![0]]));
}

#[test]
fn width_mismatch_faults() {
    assert_eq!(
        binary(Op::Add(Type::U32), vec![1, 0], u32le(1), 4),
        Err(plain_fault(FaultKind::TypeMismatch, at(0, 0, 0)))
    );
    assert_eq!(
        binary(Op::Eq, vec![1, 0], vec![1], 1),
        Err(plain_fault(FaultKind::TypeMismatch, at(0, 0, 0)))
    );
    assert_eq!(
        binary(Op::Add(Type::Bool), vec![1], vec![1], 1),
        Err(plain_fault(FaultKind::TypeMismatch, at(0, 0, 0)))
    );
}

#[test]
fn bitwise_operations() {
    assert_eq!(binary(Op::And, vec![0b1100, 0xff], vec![0b1010, 0x0f], 2), Ok(vec![vec![0b1000, 0x0f]]));
    assert_eq!(binary(Op::Or, vec![0b1100, 0xf0], vec![0b1010, 0x0f], 2), Ok(vec![vec![0b1110, 0xff]]));
    assert_eq!(binary(Op::Xor, vec![0b1100, 0xff], vec![0b1010, 0x0f], 2), Ok(vec![vec![0b0110, 0xf0]]));
    let prog = Program {
        functions: vec![func(&[2], &[2], vec![vec![ins(Op::Not, &[0, 1]), ins(Op::Ret, &[1])]])],
    };
    assert_eq!(run(&prog, 0, vec![vec![0x0f, 0x00]], 8, 0, 100), Ok(vec![vec![0xf0, 0xff]]));
}

#[test]
fn copy_moves_a_byte_range() {
    let prog = Program {
        functions: vec![func(&[4, 5], &[5], vec![vec![ins(Op::Copy, &[0, 1, 3, 1, 2]), ins(Op::Ret, &[1])]])],
    };
    let r = run(&prog, 0, vec![vec![1, 2, 3, 4], vec![0; 5]], 8, 0, 100);
    assert_eq!(r, Ok(vec![vec![0, 0, 2, 3, 0]]));
    let bad = Program {
        functions: vec![func(&[4, 5], &[5], vec![vec![ins(Op::Copy, &[0, 1, 3, 1, 4]), ins(Op::Ret, &[1])]])],
    };
    let r = run(&bad, 0, vec![vec![1, 2, 3, 4], vec![0; 5]], 8, 0, 100);
    assert_eq!(r, Err(plain_fault(FaultKind::OutOfBoundsAccess, at(0, 0, 0))));
}

#[test]
fn store_then_load_round_trips() {
    // inputs: address, data, destination
    let body = vec![vec![ins(Op::Store, &[1, 0]), ins(Op::Load, &[0, 2]), ins(Op::Ret, &[2])]];
    let prog = Program { functions: vec![func(&[8, 3, 3], &[3], body)] };
    let addr = 5u64.to_le_bytes().to_vec();
    let r = run(&prog, 0, vec![addr, vec![7, 8, 9], vec![0; 3]], 8, 16, 100);
    assert_eq!(r, Ok(vec![vec![7, 8, 9]]));
    let far = 14u64.to_le_bytes().to_vec();
    let r = run(&prog, 0, vec![far, vec![7, 8, 9], vec![0; 3]], 8, 16, 100);
    assert_eq!(r, Err(plain_fault(FaultKind::MemoryFault, at(0, 0, 0))));
}

#[test]
fn jump_if_takes_or_skips() {
    // if r0 { return r1 } else { return r2 }
    let body = vec![vec![ins(Op::JumpIf, &[0, 1]), ins(Op::Ret, &[2])], vec![ins(Op::Ret, &[1])]];
    let prog = Program { functions: vec![func(&[1, 1, 1], &[1], body)] };
    assert_eq!(run(&prog, 0, vec![vec![1], vec![10], vec![20]], 8, 0, 100), Ok(vec![vec![10]]));
    assert_eq!(run(&prog, 0, vec![vec![0], vec![10], vec![20]], 8, 0, 100), Ok(vec![vec![20]]));
    assert_eq!(
        run(&prog, 0, vec![vec![2], vec![10], vec![20]], 8, 0, 100),
        Err(plain_fault(FaultKind::TypeMismatch, at(0, 0, 0)))
    );
}

#[test]
fn jump_to_a_missing_block_faults() {
    let prog = Program { functions: vec![func(&[], &[], vec![vec![ins(Op::Jump, &[3])]])] };
    assert_eq!(run(&prog, 0, vec![], 8, 0, 100), Err(plain_fault(FaultKind::InvalidJumpTarget, at(0, 0, 0))));
}

#[test]
fn jump_loops_until_the_budget_runs_out() {
    let prog = Program { functions: vec![func(&[], &[], vec![vec![ins(Op::Jump, &[0])]])] };
    assert_eq!(run(&prog, 0, vec![], 8, 0, 10), Err(plain_fault(FaultKind::StepLimit, at(0, 0, 0))));
}

#[test]
fn indirect_call_resolves_at_run_time() {
    let main = func(&[8, 4], &[4], vec![vec![ins(Op::CallI, &[0, 1, 1]), ins(Op::Ret, &[1])]]);
    let square = func(&[4], &[4], vec![vec![ins(Op::Mul(Type::U32), &[0, 0, 1]), ins(Op::Ret, &[1])]]);
    let prog = Program { functions: vec![main, square] };
    let one = 1u64.to_le_bytes().to_vec();
    assert_eq!(run(&prog, 0, vec![one, u32le(6)], 8, 0, 100), Ok(vec![u32le(36)]));
    let nine = 9u64.to_le_bytes().to_vec();
    assert_eq!(
        run(&prog, 0, vec![nine, u32le(6)], 8, 0, 100),
        Err(plain_fault(FaultKind::UnknownFunction, at(0, 0, 0)))
    );
}

#[test]
fn call_with_wrong_output_count_faults() {
    let main = func(&[4], &[4], vec![vec![ins(Op::Call, &[1, 0, 0, 0]), ins(Op::Ret, &[0])]]);
    let square = func(&[4], &[4], vec![vec![ins(Op::Mul(Type::U32), &[0, 0, 1]), ins(Op::Ret, &[1])]]);
    let prog = Program { functions: vec![main, square] };
    assert_eq!(
        run(&prog, 0, vec![u32le(7)], 8, 0, 100),
        Err(plain_fault(FaultKind::ArityMismatch, at(0, 0, 0)))
    );
}

#[test]
fn ret_with_wrong_width_faults() {
    let prog = Program { functions: vec![func(&[2], &[4], vec![vec![ins(Op::Ret, &[0])]])] };
    assert_eq!(
        run(&prog, 0, vec![vec![1, 2]], 8, 0, 100),
        Err(plain_fault(FaultKind::ArityMismatch, at(0, 0, 0)))
    );
}

#[test]
fn recursion_overflows_the_stack() {
    let f = func(&[], &[], vec![vec![ins(Op::Call, &[0]), ins(Op::Ret, &[])]]);
    let prog = Program { functions: vec![f] };
    assert_eq!(run(&prog, 0, vec![], 3, 0, 100), Err(plain_fault(FaultKind::StackOverflow, at(0, 0, 0))));
}

#[test]
fn nested_calls_return_in_order() {
    // main(x) = twice(x) + 1, twice(y) = y + y
    let main = func(
        &[4],
        &[4],
        vec![vec![
            ins(Op::Call, &[1, 0, 1]),
            ins(Op::Sub(Type::U32), &[0, 0, 2]),
            ins(Op::Not, &[2, 3]),
            ins(Op::Sub(Type::U32), &[1, 3, 4]),
            ins(Op::Ret, &[4]),
        ]],
    );
    let twice = func(&[4], &[4], vec![vec![ins(Op::Add(Type::U32), &[0, 0, 1]), ins(Op::Ret, &[1])]]);
    let prog = Program { functions: vec![main, twice] };
    assert_eq!(run(&prog, 0, vec![u32le(20)], 8, 0, 100), Ok(vec![u32le(41)]));
}

#[test]
fn entry_checks() {
    let prog = Program { functions: vec![func(&[4], &[], vec![vec![ins(Op::Ret, &[])]])] };
    assert_eq!(run(&prog, 1, vec![], 8, 0, 100), Err(plain_fault(FaultKind::UnknownFunction, at(1, 0, 0))));
    assert_eq!(
        run(&prog, 0, vec![vec![1]], 8, 0, 100),
        Err(plain_fault(FaultKind::ArityMismatch, at(0, 0, 0)))
    );
    assert_eq!(run(&prog, 0, vec![u32le(1)], 8, 0, 100), Ok(vec![]));
}

#[test]
fn run_op_steps_one_instruction() {
    let prog = Program { functions: vec![func(&[4, 4], &[4], vec![vec![ins(Op::Ret, &[0])]])] };
    let mut st = Stack::new(&prog, 0, vec![u32le(5), u32le(7)], 8, 0).unwrap();
    assert_eq!(st.run_op(&prog, &ins(Op::Add(Type::U32), &[0, 1, 2])), Ok(None));
    assert_eq!(st.cursor(), at(0, 0, 1));
    assert_eq!(st.run_op(&prog, &ins(Op::Ret, &[2])), Ok(Some(vec![u32le(12)])));
}

fn hex(s: &str) -> Vec<u8> {
    (0..s.len()).step_by(2).map(|i| u8::from_str_radix(&s[i..i + 2], 16).unwrap()).collect()
}

fn sha3_program(out_len: usize) -> Program {
    Program {
        functions: vec![func(&[3, out_len], &[out_len], vec![vec![ins(Op::Sha3, &[0, 1]), ins(Op::Ret, &[1])]])],
    }
}

#[test]
fn sha3_output_length_picks_the_variant() {
    let r = run(&sha3_program(32), 0, vec![b"abc".to_vec(), vec![0; 32]], 8, 0, 100);
    assert_eq!(r, Ok(vec![hex("3a985da74fe225b2045c172d6bd390bd855f086e3e9d525b46bfe24511431532")]));
    let r = run(&sha3_program(64), 0, vec![b"abc".to_vec(), vec![0; 64]], 8, 0, 100).unwrap();
    assert_eq!(r[0].len(), 64);
    assert_ne!(r[0], vec![0; 64]);
    let r = run(&sha3_program(16), 0, vec![b"abc".to_vec(), vec![0; 16]], 8, 0, 100);
    assert_eq!(r, Err(plain_fault(FaultKind::UnsupportedDigest, at(0, 0, 0))));
}

#[test]
fn shifts_work_on_long_registers() {
    let a: Vec<u8> = (1..=10).collect();
    let mut left = vec![0, 0];
    left.extend_from_slice(&a[..8]);
    assert_eq!(binary(Op::Shl, a.clone(), vec![16], 10), Ok(vec![left]));
    let v = u128::from_le_bytes([1, 2, 3, 4, 5, 6, 7, 8, 9, 10, 0, 0, 0, 0, 0, 0]);
    let want = (v >> 13).to_le_bytes()[..10].to_vec();
    assert_eq!(binary(Op::Shr, a.clone(), vec![13], 10), Ok(vec![want]));
    let want = (v << 3).to_le_bytes()[..10].to_vec();
    assert_eq!(binary(Op::Shl, a.clone(), vec![3], 10), Ok(vec![want]));
    assert_eq!(binary(Op::Shl, a, vec![80], 10), Ok(vec![vec![0; 10]]));
}
