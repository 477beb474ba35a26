//! The first-generation assembly tree: one function of 32-bit instructions.

use vstd::prelude::*;

verus! {

/// Registers (their 32-bit forms are emitted).
#[derive(Debug, PartialEq, Clone, Copy)]
pub enum Reg {
    AX,
    DX,
    R10,
    R11,
}

/// One-operand instructions.
#[derive(Debug, PartialEq, Clone, Copy)]
pub enum UnaryOperator {
    /// `negl`
    Neg,
    /// `notl`
    Not,
}

/// Two-operand instructions.
#[derive(Debug, PartialEq, Clone, Copy)]
pub enum BinaryOperator {
    Add,
    Sub,
    Mult,
}

/// An operand.
#[derive(Debug, PartialEq, Clone)]
pub enum Operand {
    Imm(i64),
    Reg(Reg),
    Pseudo(String),
    Stack(i64),
}

/// An instruction.
#[derive(Debug, PartialEq, Clone)]
pub enum Instruction {
    Mov { src: Operand, dst: Operand },
    Unary { op: UnaryOperator, operand: Operand },
    Binary { op: BinaryOperator, left_operand: Operand, right_operand: Operand },
    Idiv(Operand),
    Cdq,
    AllocateStack(i64),
    Ret,
}

/// A function: its name and its instructions.
#[derive(Debug, PartialEq, Clone)]
pub struct AssFunction {
    pub name: String,
    pub instructions: Vec<Instruction>,
}

/// A program of one function.
#[derive(Debug, PartialEq, Clone)]
pub struct Assemble {
    pub function: AssFunction,
}

pub enum SOperand {
    Imm(i64),
    Reg(Reg),
    Pseudo(Seq<char>),
    Stack(i64),
}

pub enum SInstruction {
    Mov { src: SOperand, dst: SOperand },
    Unary { op: UnaryOperator, operand: SOperand },
    Binary { op: BinaryOperator, left_operand: SOperand, right_operand: SOperand },
    Idiv(SOperand),
    Cdq,
    AllocateStack(i64),
    Ret,
}

impl View for Operand {
    type V = SOperand;

    open spec fn view(&self) -> SOperand {
        match self {
            Operand::Imm(i) => SOperand::Imm(*i),
            Operand::Reg(r) => SOperand::Reg(*r),
            Operand::Pseudo(n) => SOperand::Pseudo(n@),
            Operand::Stack(o) => SOperand::Stack(*o),
        }
    }
}

impl View for Instruction {
    type V = SInstruction;

    open spec fn view(&self) -> SInstruction {
        match self {
            Instruction::Mov { src, dst } => SInstruction::Mov { src: src@, dst: dst@ },
            Instruction::Unary { op, operand } => SInstruction::Unary { op: *op, operand: operand@ },
            Instruction::Binary { op, left_operand, right_operand } => SInstruction::Binary {
                op: *op,
                left_operand: left_operand@,
                right_operand: right_operand@,
            },
            Instruction::Idiv(o) => SInstruction::Idiv(o@),
            Instruction::Cdq => SInstruction::Cdq,
            Instruction::AllocateStack(n) => SInstruction::AllocateStack(*n),
            Instruction::Ret => SInstruction::Ret,
        }
    }
}

/// The views of a list of instructions.
pub open spec fn code_view(v: Seq<Instruction>) -> Seq<SInstruction> {
    v.map_values(|i: Instruction| i@)
}

impl Operand {
    /// A copy of the operand.
    pub fn duplicate(&self) -> (r: Operand)
        ensures
            r@ == self@,
    {
        match self {
            Operand::Imm(i) => Operand::Imm(*i),
            Operand::Reg(r) => Operand::Reg(*r),
            Operand::Pseudo(n) => Operand::Pseudo(n.clone()),
            Operand::Stack(o) => Operand::Stack(*o),
        }
    }
}

} // verus!
