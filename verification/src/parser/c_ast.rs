//! The syntax tree of the first-generation front end. Names are kept as
//! tokens (byte ranges of the source); `unique_name` holds the name a
//! variable is known by after semantic analysis.

use vstd::prelude::*;
use crate::lexer::token::Token;

verus! {

/// A program: its functions in source order.
#[derive(Debug, PartialEq)]
pub struct Program {
    pub functions: Vec<Function>,
}

/// A function: its name token and its body items.
#[derive(Debug, PartialEq)]
pub struct Function {
    pub name: Token,
    pub body: Vec<Block>,
}

/// An item of a function body.
#[derive(Debug, PartialEq)]
pub enum Block {
    Stmt(Stmt),
    Declaration(Declaration),
}

/// A variable declaration with an optional initializer.
#[derive(Debug, PartialEq)]
pub struct Declaration {
    pub name: Token,
    pub init: Option<Box<Expr>>,
    pub unique_name: String,
}

/// A statement.
#[derive(Debug, PartialEq)]
pub enum Stmt {
    Return { keyword: Token, value: Option<Box<Expr>> },
    Expression { exp: Box<Expr> },
    Null,
    If { condition: Box<Expr>, then_branch: Box<Stmt>, else_branch: Option<Box<Stmt>> },
}

/// An expression.
#[derive(Debug, PartialEq)]
pub enum Expr {
    Literal(LiteralExpr),
    Unary { operator: Token, right: Box<Expr> },
    Grouping { expression: Box<Expr> },
    Binary { operator: BinaryOperator, left: Box<Expr>, right: Box<Expr> },
    Var { name: Token, unique_name: String },
    Assignment { left: Box<Expr>, right: Box<Expr> },
    Condtional { condition: Box<Expr>, left: Box<Expr>, right: Box<Expr> },
}

/// The binary operators, with `=` and the `?` of a conditional.
#[derive(Debug, Clone, Copy, PartialEq, Eq, Structural)]
pub enum BinaryOperator {
    Add,
    Subtract,
    Multiply,
    Divide,
    Remainder,
    And,
    Or,
    EqualEqual,
    BangEqual,
    Less,
    LessEqual,
    Greater,
    GreaterEqual,
    Equal,
    Question,
}

/// A literal.
#[derive(Debug, Clone, Copy, PartialEq, Eq, Structural)]
pub enum LiteralExpr {
    Integer(i64),
}

/// The binding strength of an operator: a larger number binds tighter.
pub open spec fn precedence_of(op: BinaryOperator) -> u8 {
    match op {
        BinaryOperator::Multiply | BinaryOperator::Divide | BinaryOperator::Remainder => 50,
        BinaryOperator::Add | BinaryOperator::Subtract => 45,
        BinaryOperator::Less | BinaryOperator::LessEqual | BinaryOperator::Greater
        | BinaryOperator::GreaterEqual => 35,
        BinaryOperator::EqualEqual | BinaryOperator::BangEqual => 30,
        BinaryOperator::And => 10,
        BinaryOperator::Or => 5,
        BinaryOperator::Question => 3,
        BinaryOperator::Equal => 1,
    }
}

impl BinaryOperator {
    /// The binding strength of the operator.
    pub fn precedence(&self) -> (r: u8)
        ensures
            r == precedence_of(*self),
    {
        match self {
            BinaryOperator::Multiply | BinaryOperator::Divide | BinaryOperator::Remainder => 50,
            BinaryOperator::Add | BinaryOperator::Subtract => 45,
            BinaryOperator::Less | BinaryOperator::LessEqual | BinaryOperator::Greater
            | BinaryOperator::GreaterEqual => 35,
            BinaryOperator::EqualEqual | BinaryOperator::BangEqual => 30,
            BinaryOperator::And => 10,
            BinaryOperator::Or => 5,
            BinaryOperator::Question => 3,
            BinaryOperator::Equal => 1,
        }
    }
}

// ---------------------------------------------------------------------------
// Views
// ---------------------------------------------------------------------------

pub enum SExpr {
    Literal(LiteralExpr),
    Unary { operator: Token, right: Box<SExpr> },
    Grouping { expression: Box<SExpr> },
    Binary { operator: BinaryOperator, left: Box<SExpr>, right: Box<SExpr> },
    Var { name: Token, unique_name: Seq<char> },
    Assignment { left: Box<SExpr>, right: Box<SExpr> },
    Condtional { condition: Box<SExpr>, left: Box<SExpr>, right: Box<SExpr> },
}

pub enum SStmt {
    Return { keyword: Token, value: Option<SExpr> },
    Expression { exp: SExpr },
    Null,
    If { condition: SExpr, then_branch: Box<SStmt>, else_branch: Option<Box<SStmt>> },
}

pub struct SDeclaration {
    pub name: Token,
    pub init: Option<SExpr>,
    pub unique_name: Seq<char>,
}

pub enum SBlock {
    Stmt(SStmt),
    Declaration(SDeclaration),
}

pub struct SFunction {
    pub name: Token,
    pub body: Seq<SBlock>,
}

pub struct SProgram {
    pub functions: Seq<SFunction>,
}

pub open spec fn expr_view(e: Expr) -> SExpr
    decreases e,
{
    match e {
        Expr::Literal(l) => SExpr::Literal(l),
        Expr::Unary { operator, right } => SExpr::Unary { operator, right: Box::new(expr_view(*right)) },
        Expr::Grouping { expression } => SExpr::Grouping { expression: Box::new(expr_view(*expression)) },
        Expr::Binary { operator, left, right } => SExpr::Binary {
            operator,
            left: Box::new(expr_view(*left)),
            right: Box::new(expr_view(*right)),
        },
        Expr::Var { name, unique_name } => SExpr::Var { name, unique_name: unique_name@ },
        Expr::Assignment { left, right } => SExpr::Assignment {
            left: Box::new(expr_view(*left)),
            right: Box::new(expr_view(*right)),
        },
        Expr::Condtional { condition, left, right } => SExpr::Condtional {
            condition: Box::new(expr_view(*condition)),
            left: Box::new(expr_view(*left)),
            right: Box::new(expr_view(*right)),
        },
    }
}

pub open spec fn opt_expr_view(o: Option<Box<Expr>>) -> Option<SExpr> {
    match o {
        Some(e) => Some(expr_view(*e)),
        None => None,
    }
}

pub open spec fn stmt_view(s: Stmt) -> SStmt
    decreases s,
{
    match s {
        Stmt::Return { keyword, value } => SStmt::Return {
            keyword,
            value: match value {
                Some(e) => Some(expr_view(*e)),
                None => None,
            },
        },
        Stmt::Expression { exp } => SStmt::Expression { exp: expr_view(*exp) },
        Stmt::Null => SStmt::Null,
        Stmt::If { condition, then_branch, else_branch } => SStmt::If {
            condition: expr_view(*condition),
            then_branch: Box::new(stmt_view(*then_branch)),
            else_branch: match else_branch {
                Some(b) => Some(Box::new(stmt_view(*b))),
                None => None,
            },
        },
    }
}

pub open spec fn declaration_view(d: Declaration) -> SDeclaration {
    SDeclaration { name: d.name, init: opt_expr_view(d.init), unique_name: d.unique_name@ }
}

pub open spec fn block_view(b: Block) -> SBlock {
    match b {
        Block::Stmt(s) => SBlock::Stmt(stmt_view(s)),
        Block::Declaration(d) => SBlock::Declaration(declaration_view(d)),
    }
}

pub open spec fn blocks_view(s: Seq<Block>) -> Seq<SBlock> {
    s.map_values(|b: Block| block_view(b))
}

pub open spec fn function_view(f: Function) -> SFunction {
    SFunction { name: f.name, body: blocks_view(f.body@) }
}

pub open spec fn program_view(p: Program) -> SProgram {
    SProgram { functions: p.functions@.map_values(|f: Function| function_view(f)) }
}

} // verus!
