//! The x86-64 assembly tree, before and after stack allocation, and its
//! mathematical view.

use vstd::prelude::*;

verus! {

/// An assembly program.
#[derive(Debug)]
pub struct Program {
    pub functions: Vec<Function>,
}

/// An assembly function: its instructions and the bytes its pseudo-registers
/// take on the stack.
#[derive(Debug)]
pub struct Function {
    pub name: String,
    pub instructions: Vec<Instruction>,
    pub stack_size: i64,
}

/// An assembly instruction.
#[derive(Debug)]
pub enum Instruction {
    Mov { src: Operand, dst: Operand },
    Unary { op: UnaryOp, operand: Operand },
    Binary { op: BinaryOp, left_operand: Operand, right_operand: Operand },
    Cmp { operand1: Operand, operand2: Operand },
    Idiv(Operand),
    Cdq,
    Jmp(String),
    JmpCC { condtion: ConditionCode, target: String },
    SetCC { conditin: ConditionCode, operand: Operand },
    Label(String),
    AllocateStack(i64),
    DeallocateStack(i64),
    Push(Operand),
    Call(String),
    Ret,
}

/// Condition codes of conditional jumps and sets.
#[derive(Debug, Clone, Copy, PartialEq, Eq, Structural)]
pub enum ConditionCode {
    E,
    NE,
    G,
    GE,
    L,
    LE,
}

/// Two-operand arithmetic.
#[derive(Debug, Clone, Copy, PartialEq, Eq, Structural)]
pub enum BinaryOp {
    Add,
    Subtract,
    Multiply,
}

/// One-operand arithmetic.
#[derive(Debug, Clone, Copy, PartialEq, Eq, Structural)]
pub enum UnaryOp {
    Complement,
    Neg,
}

/// An operand: an immediate, a register, a pseudo-register named after a
/// TACKY variable, or a stack slot at an offset from `%rbp`.
#[derive(Debug)]
pub enum Operand {
    Imm(i64),
    Register(Reg),
    Pseudo(String),
    Stack(i64),
}

/// The registers the code uses.
#[derive(Debug, Clone, Copy, PartialEq, Eq, Structural)]
pub enum Reg {
    AX,
    CX,
    DX,
    DI,
    SI,
    R8,
    R9,
    R10,
    R11,
}

// ---------------------------------------------------------------------------
// What the condition codes mean.
// ---------------------------------------------------------------------------

/// Whether condition `cc` holds after `cmp x, y`, which compares `lhs = y`
/// with `rhs = x`: `E` equal, `NE` not equal, `G` greater, `GE` greater or
/// equal, `L` less, `LE` less or equal (signed).
pub open spec fn cc_holds(cc: ConditionCode, lhs: int, rhs: int) -> bool {
    match cc {
        ConditionCode::E => lhs == rhs,
        ConditionCode::NE => lhs != rhs,
        ConditionCode::G => lhs > rhs,
        ConditionCode::GE => lhs >= rhs,
        ConditionCode::L => lhs < rhs,
        ConditionCode::LE => lhs <= rhs,
    }
}

// ---------------------------------------------------------------------------
// The mathematical view.
// ---------------------------------------------------------------------------

pub enum SOperand {
    Imm(i64),
    Register(Reg),
    Pseudo(Seq<char>),
    Stack(i64),
}

pub enum SInstruction {
    Mov { src: SOperand, dst: SOperand },
    Unary { op: UnaryOp, operand: SOperand },
    Binary { op: BinaryOp, left_operand: SOperand, right_operand: SOperand },
    Cmp { operand1: SOperand, operand2: SOperand },
    Idiv(SOperand),
    Cdq,
    Jmp(Seq<char>),
    JmpCC { condtion: ConditionCode, target: Seq<char> },
    SetCC { conditin: ConditionCode, operand: SOperand },
    Label(Seq<char>),
    AllocateStack(i64),
    DeallocateStack(i64),
    Push(SOperand),
    Call(Seq<char>),
    Ret,
}

pub struct SFunction {
    pub name: Seq<char>,
    pub instructions: Seq<SInstruction>,
    pub stack_size: i64,
}

pub struct SProgram {
    pub functions: Seq<SFunction>,
}

impl View for Operand {
    type V = SOperand;

    open spec fn view(&self) -> SOperand {
        match self {
            Operand::Imm(i) => SOperand::Imm(*i),
            Operand::Register(r) => SOperand::Register(*r),
            Operand::Pseudo(n) => SOperand::Pseudo(n@),
            Operand::Stack(o) => SOperand::Stack(*o),
        }
    }
}

impl View for Instruction {
    type V = SInstruction;

    open spec fn view(&self) -> SInstruction {
        match self {
            Instruction::Mov { src, dst } => SInstruction::Mov { src: src@, dst: dst@ },
            Instruction::Unary { op, operand } => SInstruction::Unary { op: *op, operand: operand@ },
            Instruction::Binary { op, left_operand, right_operand } => SInstruction::Binary {
                op: *op,
                left_operand: left_operand@,
                right_operand: right_operand@,
            },
            Instruction::Cmp { operand1, operand2 } => SInstruction::Cmp { operand1: operand1@, operand2: operand2@ },
            Instruction::Idiv(o) => SInstruction::Idiv(o@),
            Instruction::Cdq => SInstruction::Cdq,
            Instruction::Jmp(t) => SInstruction::Jmp(t@),
            Instruction::JmpCC { condtion, target } => SInstruction::JmpCC { condtion: *condtion, target: target@ },
            Instruction::SetCC { conditin, operand } => SInstruction::SetCC { conditin: *conditin, operand: operand@ },
            Instruction::Label(t) => SInstruction::Label(t@),
            Instruction::AllocateStack(n) => SInstruction::AllocateStack(*n),
            Instruction::DeallocateStack(n) => SInstruction::DeallocateStack(*n),
            Instruction::Push(o) => SInstruction::Push(o@),
            Instruction::Call(f) => SInstruction::Call(f@),
            Instruction::Ret => SInstruction::Ret,
        }
    }
}

/// The views of a list of instructions.
pub open spec fn asm_view(v: Seq<Instruction>) -> Seq<SInstruction> {
    v.map_values(|x: Instruction| x@)
}

impl View for Function {
    type V = SFunction;

    open spec fn view(&self) -> SFunction {
        SFunction { name: self.name@, instructions: asm_view(self.instructions@), stack_size: self.stack_size }
    }
}

impl View for Program {
    type V = SProgram;

    open spec fn view(&self) -> SProgram {
        SProgram { functions: self.functions@.map_values(|f: Function| f@) }
    }
}

impl Operand {
    /// A copy of this operand.
    pub fn duplicate(&self) -> (r: Operand)
        ensures
            r@ == self@,
    {
        match self {
            Operand::Imm(i) => Operand::Imm(*i),
            Operand::Register(r) => Operand::Register(*r),
            Operand::Pseudo(n) => Operand::Pseudo(n.clone()),
            Operand::Stack(o) => Operand::Stack(*o),
        }
    }
}

impl Instruction {
    /// A copy of this instruction.
    pub fn duplicate(&self) -> (r: Instruction)
        ensures
            r@ == self@,
    {
        match self {
            Instruction::Mov { src, dst } => Instruction::Mov { src: src.duplicate(), dst: dst.duplicate() },
            Instruction::Unary { op, operand } => Instruction::Unary { op: *op, operand: operand.duplicate() },
            Instruction::Binary { op, left_operand, right_operand } => Instruction::Binary {
                op: *op,
                left_operand: left_operand.duplicate(),
                right_operand: right_operand.duplicate(),
            },
            Instruction::Cmp { operand1, operand2 } => Instruction::Cmp {
                operand1: operand1.duplicate(),
                operand2: operand2.duplicate(),
            },
            Instruction::Idiv(o) => Instruction::Idiv(o.duplicate()),
            Instruction::Cdq => Instruction::Cdq,
            Instruction::Jmp(t) => Instruction::Jmp(t.clone()),
            Instruction::JmpCC { condtion, target } => Instruction::JmpCC { condtion: *condtion, target: target.clone() },
            Instruction::SetCC { conditin, operand } => Instruction::SetCC { conditin: *conditin, operand: operand.duplicate() },
            Instruction::Label(t) => Instruction::Label(t.clone()),
            Instruction::AllocateStack(n) => Instruction::AllocateStack(*n),
            Instruction::DeallocateStack(n) => Instruction::DeallocateStack(*n),
            Instruction::Push(o) => Instruction::Push(o.duplicate()),
            Instruction::Call(f) => Instruction::Call(f.clone()),
            Instruction::Ret => Instruction::Ret,
        }
    }
}

} // verus!
