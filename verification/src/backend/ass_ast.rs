//! The first assembly tree: moves and returns.

use vstd::prelude::*;

verus! {

/// A program: its functions.
#[derive(Debug)]
pub struct Program {
    pub functions: Vec<Function>,
}

/// A function: its name and its instructions.
#[derive(Debug)]
pub struct Function {
    pub name: String,
    pub instructions: Vec<Instructions>,
}

/// An instruction.
#[derive(Debug)]
pub enum Instructions {
    Mov { src: Operand, dst: Operand },
    Ret,
}

/// An operand: an immediate value or the return register.
#[derive(Debug, Clone, Copy, PartialEq, Eq, Structural)]
pub enum Operand {
    Imm(i64),
    Register(),
}

} // verus!
