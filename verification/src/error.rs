//! The errors of the first-generation pipeline and the texts they display.

use vstd::prelude::*;
use crate::text::{owned, push_str};

verus! {

/// An error of the lexer.
#[derive(Debug, PartialEq, Clone)]
pub struct LexerError {
    pub message: String,
}

/// An error of the parser.
#[derive(Debug, PartialEq, Clone)]
pub struct ParserError {
    pub message: String,
}

/// An error of semantic analysis.
#[derive(Debug, Clone, PartialEq)]
pub enum SemanticError {
    DuplicateDeclaration { name: String },
    UndeclaredVariable { name: String },
    InvalidLvalue { description: String },
    Internal(String),
    MisplacedBreak,
    MisplacedContinue,
}

/// An error of code generation.
#[derive(Debug, PartialEq, Clone)]
pub struct CodegenError {
    pub message: String,
}

/// An error of the TACKY translation.
#[derive(Debug, PartialEq, Clone)]
pub struct TackyError {
    pub message: String,
}

/// An error of assembly emission.
#[derive(Debug, PartialEq, Clone)]
pub struct CodeEmitterError {
    pub message: String,
}

/// Any error of the compiler.
#[derive(Debug, PartialEq, Clone)]
pub enum CompilerError {
    Lexer(LexerError),
    Parser(ParserError),
    Semantic(SemanticError),
    Codegen(CodegenError),
    CodeEmitter(CodeEmitterError),
    Tacky(TackyError),
    Io(String),
    ExternalToolError(String),
}

/// The text of a semantic error.
pub open spec fn semantic_text(e: SemanticError) -> Seq<char> {
    match e {
        SemanticError::DuplicateDeclaration { name } => "Semantic Error: Variable '"@ + name@
            + "' has already been declared in this scope."@,
        SemanticError::UndeclaredVariable { name } => "Semantic Error: Variable '"@ + name@ + "' has not been declared yet."@,
        SemanticError::InvalidLvalue { description } => "Semantic Error: Invalid assignment target. "@ + description@ + "."@,
        SemanticError::MisplacedBreak => "Semantic Error: 'break' statement is misplaced."@,
        SemanticError::MisplacedContinue => "Semantic Error: 'continue' statement is misplaced."@,
        SemanticError::Internal(msg) => "Semantic Error: Internal error: "@ + msg@,
    }
}

/// The text of a compiler error: the stage, then the error's own text.
pub open spec fn compiler_text(e: CompilerError) -> Seq<char> {
    match e {
        CompilerError::Lexer(err) => "Lexer Error: "@ + err.message@,
        CompilerError::Parser(err) => "Parser Error: "@ + err.message@,
        CompilerError::Semantic(err) => "Semantic Error: "@ + semantic_text(err),
        CompilerError::Codegen(err) => "Codegen Error: "@ + err.message@,
        CompilerError::Tacky(err) => "Tacky Error: "@ + err.message@,
        CompilerError::CodeEmitter(err) => "Code Emitter Error: "@ + err.message@,
        CompilerError::Io(msg) => "IO Error: "@ + msg@,
        CompilerError::ExternalToolError(msg) => "External Tool Error: "@ + msg@,
    }
}

fn joined(prefix: &str, middle: &String, suffix: &str) -> (r: String)
    ensures
        r@ == prefix@ + middle@ + suffix@,
{
    let mut r = owned(prefix);
    push_str(&mut r, middle.as_str());
    push_str(&mut r, suffix);
    r
}

impl LexerError {
    /// The text the error displays: its message.
    pub fn fmt(&self) -> (r: String)
        ensures
            r@ == self.message@,
    {
        self.message.clone()
    }
}

impl ParserError {
    /// The text the error displays: its message.
    pub fn fmt(&self) -> (r: String)
        ensures
            r@ == self.message@,
    {
        self.message.clone()
    }
}

impl CodegenError {
    /// The text the error displays: its message.
    pub fn fmt(&self) -> (r: String)
        ensures
            r@ == self.message@,
    {
        self.message.clone()
    }
}

impl TackyError {
    /// The text the error displays: its message.
    pub fn fmt(&self) -> (r: String)
        ensures
            r@ == self.message@,
    {
        self.message.clone()
    }
}

impl CodeEmitterError {
    /// The text the error displays: its message.
    pub fn fmt(&self) -> (r: String)
        ensures
            r@ == self.message@,
    {
        self.message.clone()
    }
}

impl SemanticError {
    /// The text the error displays.
    pub fn fmt(&self) -> (r: String)
        ensures
            r@ == semantic_text(*self),
    {
        match self {
            SemanticError::DuplicateDeclaration { name } => joined(
                "Semantic Error: Variable '",
                name,
                "' has already been declared in this scope.",
            ),
            SemanticError::UndeclaredVariable { name } => joined(
                "Semantic Error: Variable '",
                name,
                "' has not been declared yet.",
            ),
            SemanticError::InvalidLvalue { description } => joined(
                "Semantic Error: Invalid assignment target. ",
                description,
                ".",
            ),
            SemanticError::MisplacedBreak => owned("Semantic Error: 'break' statement is misplaced."),
            SemanticError::MisplacedContinue => owned("Semantic Error: 'continue' statement is misplaced."),
            SemanticError::Internal(msg) => {
                let mut r = owned("Semantic Error: Internal error: ");
                push_str(&mut r, msg.as_str());
                r
            },
        }
    }
}

impl CompilerError {
    /// The text the error displays: the stage, then the error's own text.
    pub fn fmt(&self) -> (r: String)
        ensures
            r@ == compiler_text(*self),
    {
        let (prefix, inner) = match self {
            CompilerError::Lexer(err) => ("Lexer Error: ", err.fmt()),
            CompilerError::Parser(err) => ("Parser Error: ", err.fmt()),
            CompilerError::Semantic(err) => ("Semantic Error: ", err.fmt()),
            CompilerError::Codegen(err) => ("Codegen Error: ", err.fmt()),
            CompilerError::Tacky(err) => ("Tacky Error: ", err.fmt()),
            CompilerError::CodeEmitter(err) => ("Code Emitter Error: ", err.fmt()),
            CompilerError::Io(msg) => ("IO Error: ", msg.clone()),
            CompilerError::ExternalToolError(msg) => ("External Tool Error: ", msg.clone()),
        };
        let mut r = owned(prefix);
        push_str(&mut r, inner.as_str());
        r
    }
}

impl From<LexerError> for CompilerError {
    fn from(err: LexerError) -> (r: Self) {
        CompilerError::Lexer(err)
    }
}

impl vstd::std_specs::convert::FromSpecImpl<LexerError> for CompilerError {
    open spec fn obeys_from_spec() -> bool {
        true
    }

    open spec fn from_spec(err: LexerError) -> Self {
        CompilerError::Lexer(err)
    }
}

impl From<ParserError> for CompilerError {
    fn from(err: ParserError) -> (r: Self) {
        CompilerError::Parser(err)
    }
}

impl vstd::std_specs::convert::FromSpecImpl<ParserError> for CompilerError {
    open spec fn obeys_from_spec() -> bool {
        true
    }

    open spec fn from_spec(err: ParserError) -> Self {
        CompilerError::Parser(err)
    }
}

impl From<SemanticError> for CompilerError {
    fn from(err: SemanticError) -> (r: Self) {
        CompilerError::Semantic(err)
    }
}

impl vstd::std_specs::convert::FromSpecImpl<SemanticError> for CompilerError {
    open spec fn obeys_from_spec() -> bool {
        true
    }

    open spec fn from_spec(err: SemanticError) -> Self {
        CompilerError::Semantic(err)
    }
}

impl From<CodegenError> for CompilerError {
    fn from(err: CodegenError) -> (r: Self) {
        CompilerError::Codegen(err)
    }
}

impl vstd::std_specs::convert::FromSpecImpl<CodegenError> for CompilerError {
    open spec fn obeys_from_spec() -> bool {
        true
    }

    open spec fn from_spec(err: CodegenError) -> Self {
        CompilerError::Codegen(err)
    }
}

impl From<CodeEmitterError> for CompilerError {
    fn from(err: CodeEmitterError) -> (r: Self) {
        CompilerError::CodeEmitter(err)
    }
}

impl vstd::std_specs::convert::FromSpecImpl<CodeEmitterError> for CompilerError {
    open spec fn obeys_from_spec() -> bool {
        true
    }

    open spec fn from_spec(err: CodeEmitterError) -> Self {
        CompilerError::CodeEmitter(err)
    }
}

impl From<TackyError> for CompilerError {
    fn from(err: TackyError) -> (r: Self) {
        CompilerError::Tacky(err)
    }
}

impl vstd::std_specs::convert::FromSpecImpl<TackyError> for CompilerError {
    open spec fn obeys_from_spec() -> bool {
        true
    }

    open spec fn from_spec(err: TackyError) -> Self {
        CompilerError::Tacky(err)
    }
}

} // verus!
