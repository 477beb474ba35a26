//! The TACKY intermediate representation: three-address code with jumps and
//! labels, and its mathematical view.

use vstd::prelude::*;
use crate::frontend::c_ast::{trunc_div, trunc_rem, truth};

verus! {

/// A TACKY program: one function per function definition of the source.
#[derive(Debug)]
pub struct Program {
    pub functions: Vec<Function>,
}

/// A TACKY function: its name, its parameters and its instructions.
#[derive(Debug)]
pub struct Function {
    pub name: String,
    pub params: Vec<String>,
    pub body: Vec<Instruction>,
}

/// A TACKY instruction.
#[derive(Debug)]
pub enum Instruction {
    Return(Value),
    Unary { op: UnaryOp, src: Value, dst: Value },
    Binary { op: BinaryOp, src1: Value, src2: Value, dst: Value },
    Copy { src: Value, dst: Value },
    Jump(String),
    JumpIfZero { condition: Value, target: String },
    JumpIfNotZero { condition: Value, target: String },
    Label(String),
    FunctionCall { name: String, args: Vec<Value>, dst: Value },
}

/// An operand: a constant or a variable.
#[derive(Debug)]
pub enum Value {
    Constant(i64),
    Var(String),
}

/// Unary operators.
#[derive(Debug, Clone, Copy, PartialEq, Eq, Structural)]
pub enum UnaryOp {
    Complement,
    Negate,
    Not,
}

/// Binary operators (the logical ones become jumps).
#[derive(Debug, Clone, Copy, PartialEq, Eq, Structural)]
pub enum BinaryOp {
    Add,
    Subtract,
    Multiply,
    Divide,
    Remainder,
    EqualEqual,
    BangEqual,
    Greater,
    GreaterEqual,
    Less,
    LessEqual,
}

// ---------------------------------------------------------------------------
// What the operators mean.
// ---------------------------------------------------------------------------

/// The value a TACKY `Unary` instruction writes for operand `a` (no
/// overflow): the bitwise complement `-a - 1`, the negation, and for `Not` 1
/// exactly when `a` is 0.
pub open spec fn unary_value(op: UnaryOp, a: int) -> int {
    match op {
        UnaryOp::Complement => -a - 1,
        UnaryOp::Negate => -a,
        UnaryOp::Not => truth(a == 0),
    }
}

/// The value a TACKY `Binary` instruction writes for operands `a` and `b`
/// (no overflow; `b != 0` for `Divide` and `Remainder`): the arithmetic
/// operators compute as C does on `int`, the comparisons give 1 or 0.
pub open spec fn binary_value(op: BinaryOp, a: int, b: int) -> int {
    match op {
        BinaryOp::Add => a + b,
        BinaryOp::Subtract => a - b,
        BinaryOp::Multiply => a * b,
        BinaryOp::Divide => trunc_div(a, b),
        BinaryOp::Remainder => trunc_rem(a, b),
        BinaryOp::EqualEqual => truth(a == b),
        BinaryOp::BangEqual => truth(a != b),
        BinaryOp::Greater => truth(a > b),
        BinaryOp::GreaterEqual => truth(a >= b),
        BinaryOp::Less => truth(a < b),
        BinaryOp::LessEqual => truth(a <= b),
    }
}

// ---------------------------------------------------------------------------
// The mathematical view.
// ---------------------------------------------------------------------------

pub enum SValue {
    Constant(i64),
    Var(Seq<char>),
}

pub enum SInstruction {
    Return(SValue),
    Unary { op: UnaryOp, src: SValue, dst: SValue },
    Binary { op: BinaryOp, src1: SValue, src2: SValue, dst: SValue },
    Copy { src: SValue, dst: SValue },
    Jump(Seq<char>),
    JumpIfZero { condition: SValue, target: Seq<char> },
    JumpIfNotZero { condition: SValue, target: Seq<char> },
    Label(Seq<char>),
    FunctionCall { name: Seq<char>, args: Seq<SValue>, dst: SValue },
}

pub struct SFunction {
    pub name: Seq<char>,
    pub params: Seq<Seq<char>>,
    pub body: Seq<SInstruction>,
}

pub struct SProgram {
    pub functions: Seq<SFunction>,
}

impl View for Value {
    type V = SValue;

    open spec fn view(&self) -> SValue {
        match self {
            Value::Constant(i) => SValue::Constant(*i),
            Value::Var(n) => SValue::Var(n@),
        }
    }
}

/// The views of a list of values.
pub open spec fn values_view(v: Seq<Value>) -> Seq<SValue> {
    v.map_values(|x: Value| x@)
}

impl View for Instruction {
    type V = SInstruction;

    open spec fn view(&self) -> SInstruction {
        match self {
            Instruction::Return(v) => SInstruction::Return(v@),
            Instruction::Unary { op, src, dst } => SInstruction::Unary { op: *op, src: src@, dst: dst@ },
            Instruction::Binary { op, src1, src2, dst } => SInstruction::Binary {
                op: *op,
                src1: src1@,
                src2: src2@,
                dst: dst@,
            },
            Instruction::Copy { src, dst } => SInstruction::Copy { src: src@, dst: dst@ },
            Instruction::Jump(t) => SInstruction::Jump(t@),
            Instruction::JumpIfZero { condition, target } => SInstruction::JumpIfZero {
                condition: condition@,
                target: target@,
            },
            Instruction::JumpIfNotZero { condition, target } => SInstruction::JumpIfNotZero {
                condition: condition@,
                target: target@,
            },
            Instruction::Label(t) => SInstruction::Label(t@),
            Instruction::FunctionCall { name, args, dst } => SInstruction::FunctionCall {
                name: name@,
                args: values_view(args@),
                dst: dst@,
            },
        }
    }
}

/// The views of a list of instructions.
pub open spec fn instrs_view(v: Seq<Instruction>) -> Seq<SInstruction> {
    v.map_values(|x: Instruction| x@)
}

impl View for Function {
    type V = SFunction;

    open spec fn view(&self) -> SFunction {
        SFunction {
            name: self.name@,
            params: self.params@.map_values(|s: String| s@),
            body: instrs_view(self.body@),
        }
    }
}

impl View for Program {
    type V = SProgram;

    open spec fn view(&self) -> SProgram {
        SProgram { functions: self.functions@.map_values(|f: Function| f@) }
    }
}

impl Value {
    /// A copy of this value.
    pub fn duplicate(&self) -> (r: Value)
        ensures
            r@ == self@,
    {
        match self {
            Value::Constant(i) => Value::Constant(*i),
            Value::Var(n) => Value::Var(n.clone()),
        }
    }
}

} // verus!
