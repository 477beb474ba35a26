//! The stages of the first-generation compiler as its driver runs them:
//! lexing, parsing, TACKY generation and instruction selection.

use vstd::prelude::*;
use crate::codegen::assembly_ir::{code_view, Assemble};
use crate::codegen::codegen::{handled, translated, TackyToAssemblyTranslator};
use crate::error::{CodegenError, CompilerError, ParserError, TackyError};
use crate::lexer::lexer::{lex_from, Lexer};
use crate::lexer::token::{byte_len, range_text, Token};
use crate::parser::c_ast::{function_view, program_view, Program};
use crate::parser::parser::{lemma_lexed_tokens_parsable, p_program, parsable, Parser};
use crate::tacky::gen_tacky::{name_readable, no_function_message, tf, AstToTackyTranslator};
use crate::tacky::tacky::{body_view, Program as TackyProgram};

verus! {

/// The first-generation compiler's stages.
pub struct CompilerDriver;

impl CompilerDriver {
    /// Lexes `source`. What comes out is what the parser accepts.
    pub fn lex(source: &str) -> (r: Result<Vec<Token>, CompilerError>)
        requires
            byte_len(source@) <= usize::MAX,
        ensures
            match (r, lex_from(source@, 0, 0).1) {
                (Ok(ts), Ok(())) => ts@ == lex_from(source@, 0, 0).0 && parsable(ts@, source@),
                (Err(e), Err(m)) => (e matches CompilerError::Lexer(le) && le.message@ == m),
                _ => false,
            },
    {
        let mut lexer = Lexer::new(source);
        match lexer.tokenize() {
            Ok(()) => {
                proof {
                    lemma_lexed_tokens_parsable(source@);
                }
                let tokens = lexer.into_tokens();
                assert(tokens@ =~= lex_from(source@, 0, 0).0);
                Ok(tokens)
            },
            Err(e) => Err(CompilerError::Lexer(e)),
        }
    }

    /// Parses the tokens of `source`.
    pub fn parse(tokens: Vec<Token>, source: &str) -> (r: Result<Program, ParserError>)
        requires
            parsable(tokens@, source@),
        ensures
            match (r, p_program(tokens@, source@, 0, Seq::empty())) {
                (Ok(p), Ok(sp)) => program_view(p) == sp,
                (Err(e), Err(m)) => e.message@ == m,
                _ => false,
            },
    {
        let mut parser = Parser::new(tokens, source);
        parser.parse()
    }

    /// Translates the first function of the program to TACKY, with ids from
    /// zero.
    pub fn translate_tacky(ast: Program, source: &str) -> (r: Result<TackyProgram, TackyError>)
        requires
            ast.functions@.len() > 0 ==> name_readable(source@, ast.functions@[0].name),
            ast.functions@.len() > 0 ==> tf(function_view(ast.functions@[0]), 0).1 <= usize::MAX,
        ensures
            ast.functions@.len() == 0 ==> (r matches Err(e) && e.message@ == no_function_message()),
            ast.functions@.len() > 0 ==> {
                let f = ast.functions@[0];
                match (r, tf(function_view(f), 0).0) {
                    (Ok(t), Ok(code)) => t.definition.name@ == range_text(
                        source@,
                        f.name.lexeme_range.start as int,
                        f.name.lexeme_range.end as int,
                    ) && body_view(t.definition.body@) == code,
                    (Err(e), Err(m)) => e.message@ == m,
                    _ => false,
                }
            },
    {
        let mut t = AstToTackyTranslator::new(source);
        t.translate_program(ast)
    }

    /// Selects instructions for the TACKY program, with stack slots from
    /// `-4` down.
    pub fn codegen(ast: TackyProgram) -> (r: Result<Assemble, CodegenError>)
        requires
            forall|k: int| 0 <= k < ast.definition.body@.len() ==> handled(#[trigger] ast.definition.body@[k]@),
            ast.definition.body@.len() < 0x0100_0000_0000_0000,
        ensures
            r matches Ok(a) && a.function.name@ == ast.definition.name@
                && code_view(a.function.instructions@) == translated(-4, body_view(ast.definition.body@)),
    {
        let mut codegen = TackyToAssemblyTranslator::new();
        codegen.translate(ast)
    }
}

} // verus!
