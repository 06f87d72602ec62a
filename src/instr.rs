//! Register types, opcodes, instructions and programs.

use vstd::prelude::*;

verus! {

/// How the raw bytes of a register are read by a typed operation.
#[derive(Clone, Copy, PartialEq, Eq, Structural, Debug)]
pub enum Type {
    U8,
    U16,
    U32,
    U64,
    I8,
    I16,
    I32,
    I64,
    /// One byte, `0` or `1`.
    Bool,
    /// An opaque block of the given number of bytes.
    Bytes(usize),
}

impl Type {
    /// Number of bytes of a register of this type.
    pub open spec fn width(self) -> nat {
        match self {
            Type::U8 | Type::I8 | Type::Bool => 1,
            Type::U16 | Type::I16 => 2,
            Type::U32 | Type::I32 => 4,
            Type::U64 | Type::I64 => 8,
            Type::Bytes(n) => n as nat,
        }
    }

    pub open spec fn is_int(self) -> bool {
        !(self is Bool) && !(self is Bytes)
    }

    pub open spec fn is_signed(self) -> bool {
        self is I8 || self is I16 || self is I32 || self is I64
    }

    /// Number of bytes of a register of this type.
    pub fn width_of(&self) -> (r: usize)
        ensures
            r == self.width(),
    {
        match self {
            Type::U8 | Type::I8 | Type::Bool => 1,
            Type::U16 | Type::I16 => 2,
            Type::U32 | Type::I32 => 4,
            Type::U64 | Type::I64 => 8,
            Type::Bytes(n) => *n,
        }
    }

    /// Whether this is one of the integer types.
    pub fn is_integer(&self) -> (r: bool)
        ensures
            r == self.is_int(),
    {
        !matches!(self, Type::Bool | Type::Bytes(_))
    }

    /// Whether this is one of the signed integer types.
    pub fn signed(&self) -> (r: bool)
        ensures
            r == self.is_signed(),
    {
        matches!(self, Type::I8 | Type::I16 | Type::I32 | Type::I64)
    }
}

/// The opcodes. The operands of an instruction are listed in `Instr::args`.
#[derive(Clone, Copy, PartialEq, Eq, Structural, Debug)]
pub enum Op {
    /// `ADD(l, r, o)` sets `o` to `l + r`, wrapping.
    Add(Type),
    /// `MUL(l, r, o)` sets `o` to `l * r`, wrapping.
    Mul(Type),
    /// `SUB(l, r, o)` sets `o` to `l - r`, wrapping.
    Sub(Type),
    /// `UDIV(l, r, o)` sets `o` to the unsigned quotient of `l` by `r`.
    Udiv(Type),
    /// `SDIV(l, r, o)` sets `o` to the signed quotient of `l` by `r`, rounded toward zero.
    Sdiv(Type),
    /// `UMOD(l, r, o)` sets `o` to the unsigned remainder of `l` by `r`.
    Umod(Type),
    /// `SMOD(l, r, o)` sets `o` to the signed remainder of `l` by `r`, with the sign of `l`.
    Smod(Type),
    /// `POW(b, e, o)` sets `o` to `b` raised to the power `e`, wrapping.
    Pow(Type),
    /// `LT(l, r, o)` sets `o` to true if `l < r`, otherwise false.
    Lt(Type),
    /// `GT(l, r, o)` sets `o` to true if `l > r`, otherwise false.
    Gt(Type),
    /// `EQ(l, r, o)` sets `o` to true if `l` and `r` are bitwise equal, otherwise false.
    Eq,
    /// `AND(l, r, o)` stores the bitwise and of `l` and `r` at `o`.
    And,
    /// `OR(l, r, o)` stores the bitwise or of `l` and `r` at `o`.
    Or,
    /// `XOR(l, r, o)` stores the bitwise xor of `l` and `r` at `o`.
    Xor,
    /// `NOT(i, o)` stores the bitwise negation of `i` in `o`.
    Not,
    /// `SHL(i, s, o)` stores `i` shifted left by `s` bits in `o`.
    Shl,
    /// `SHR(i, s, o)` stores `i` shifted right by `s` bits in `o`.
    Shr,
    /// `SHA3(i, o)` stores the sha3 digest of `i` in `o`; the length of `o` picks the variant.
    Sha3,
    /// `COPY(i, l_i, r_i, o, l_o)` copies bytes `l_i..r_i` of register `i` into register `o`,
    /// starting at byte `l_o`. `l_i`, `r_i` and `l_o` are byte offsets, not registers.
    Copy,
    /// `LOAD(i, o)` fills `o` with the memory starting at the address held in `i`.
    Load,
    /// `STORE(i, o)` stores the contents of `i` in memory, starting at the address held in `o`.
    Store,
    /// `JUMP(l)` goes to marker `l` in the current function;
    /// `JUMP(f, l)` goes to marker `l` in function `f`, keeping the current frame.
    Jump,
    /// `JUMPIF(c, l)` and `JUMPIF(c, f, l)` jump as `JUMP` does if `c` is true,
    /// and otherwise go on with the next instruction.
    JumpIf,
    /// `CALL(f, i_1, .. i_n, o_1, .. o_m)` calls function `f` on `i_1..i_n` and stores
    /// what it returns in `o_1..o_m`.
    Call,
    /// `CALLI(r_f, i_1, .. i_n, o_1, .. o_m)` calls the function whose index is held in
    /// register `r_f`, as `CALL` does.
    CallI,
    /// `RET(r_1, .. r_n)` returns the values of `r_1..r_n`.
    Ret,
    /// `PANIC(d_1, .. d_k)` aborts the program, with the registers as diagnostics.
    Panic,
}

/// An instruction is an opcode and its operands.
#[derive(PartialEq, Eq, Debug)]
pub struct Instr {
    pub op: Op,
    pub args: Vec<usize>,
}

/// A function: the widths of its inputs and outputs, and its blocks.
/// Execution begins at the first instruction of block `0`.
#[derive(PartialEq, Eq, Debug)]
pub struct Function {
    pub inputs: Vec<usize>,
    pub outputs: Vec<usize>,
    pub body: Vec<Vec<Instr>>,
}

/// A table of functions, indexed from `0`.
#[derive(PartialEq, Eq, Debug)]
pub struct Program {
    pub functions: Vec<Function>,
}

/// What went wrong when a program faulted.
#[derive(Clone, Copy, PartialEq, Eq, Structural, Debug)]
pub enum FaultKind {
    /// An operand's width or contents do not suit the operation.
    TypeMismatch,
    /// Division or remainder by zero.
    DivideByZero,
    /// A block that the function does not have, or a cursor past the end of a block.
    InvalidJumpTarget,
    /// Operands that do not match the operation or a function's signature.
    ArityMismatch,
    /// A function index that the program does not have.
    UnknownFunction,
    /// A register index or a byte range out of bounds.
    OutOfBoundsAccess,
    /// A call beyond the greatest number of frames.
    StackOverflow,
    /// A load or store outside the linear memory.
    MemoryFault,
    /// The program ran `Panic`.
    ExplicitPanic,
    /// A signed `Pow` with a negative exponent.
    NegativeExponent,
    /// A `Sha3` output register whose length is no digest length.
    UnsupportedDigest,
    /// The instruction budget ran out.
    StepLimit,
}

} // verus!
