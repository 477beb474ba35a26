//! The first-generation TACKY: a program of one function, and its view.

use vstd::prelude::*;

verus! {

/// Unary operators.
#[derive(Debug, PartialEq, Clone, Copy)]
pub enum UnaryOperator {
    /// Bitwise complement (`~`).
    Complement,
    /// Arithmetic negation (`-`).
    Negate,
    /// Logical not (`!`).
    Bang,
}

/// Binary operators.
#[derive(Debug, PartialEq, Clone, Copy)]
pub enum BinaryOperator {
    Add,
    Subtract,
    Multiply,
    Divide,
    Remainder,
    EqualEqual,
    BangEqual,
    Less,
    LessEqual,
    Greater,
    GreaterEqual,
}

/// An operand: a constant or a variable.
#[derive(Debug, PartialEq, Clone)]
pub enum Value {
    Constant(i64),
    Var(String),
}

/// An instruction.
#[derive(Debug, PartialEq)]
pub enum Instruction {
    Return(Value),
    Unary { op: UnaryOperator, src: Value, dst: Value },
    Binary { op: BinaryOperator, src1: Value, src2: Value, dst: Value },
    Copy { src: Value, dst: Value },
    Jump { target: String },
    JumpIfZero { condition: Value, target: String },
    JumpIfNotZero { condition: Value, target: String },
    Lable { name: String },
}

/// A function definition: its name and its instructions.
#[derive(Debug, PartialEq)]
pub struct FunctionDefinition {
    pub name: String,
    pub body: Vec<Instruction>,
}

/// A program: one function definition.
#[derive(Debug, PartialEq)]
pub struct Program {
    pub definition: FunctionDefinition,
}

pub enum SValue {
    Constant(i64),
    Var(Seq<char>),
}

pub enum SInstruction {
    Return(SValue),
    Unary { op: UnaryOperator, src: SValue, dst: SValue },
    Binary { op: BinaryOperator, src1: SValue, src2: SValue, dst: SValue },
    Copy { src: SValue, dst: SValue },
    Jump { target: Seq<char> },
    JumpIfZero { condition: SValue, target: Seq<char> },
    JumpIfNotZero { condition: SValue, target: Seq<char> },
    Lable { name: Seq<char> },
}

impl View for Value {
    type V = SValue;

    open spec fn view(&self) -> SValue {
        match self {
            Value::Constant(i) => SValue::Constant(*i),
            Value::Var(n) => SValue::Var(n@),
        }
    }
}

impl View for Instruction {
    type V = SInstruction;

    open spec fn view(&self) -> SInstruction {
        match self {
            Instruction::Return(v) => SInstruction::Return(v@),
            Instruction::Unary { op, src, dst } => SInstruction::Unary { op: *op, src: src@, dst: dst@ },
            Instruction::Binary { op, src1, src2, dst } => SInstruction::Binary {
                op: *op,
                src1: src1@,
                src2: src2@,
                dst: dst@,
            },
            Instruction::Copy { src, dst } => SInstruction::Copy { src: src@, dst: dst@ },
            Instruction::Jump { target } => SInstruction::Jump { target: target@ },
            Instruction::JumpIfZero { condition, target } => SInstruction::JumpIfZero {
                condition: condition@,
                target: target@,
            },
            Instruction::JumpIfNotZero { condition, target } => SInstruction::JumpIfNotZero {
                condition: condition@,
                target: target@,
            },
            Instruction::Lable { name } => SInstruction::Lable { name: name@ },
        }
    }
}

impl Value {
    /// A copy of the value.
    pub fn duplicate(&self) -> (r: Value)
        ensures
            r@ == self@,
    {
        match self {
            Value::Constant(i) => Value::Constant(*i),
            Value::Var(n) => Value::Var(n.clone()),
        }
    }
}

/// The views of a list of instructions.
pub open spec fn body_view(v: Seq<Instruction>) -> Seq<SInstruction> {
    v.map_values(|i: Instruction| i@)
}

} // verus!
