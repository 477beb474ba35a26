use ccompiler::analysis::analysis::SemanticAnalyzer;
use ccompiler::codegen::assembly_emitter::CodeEmitter;
use ccompiler::codegen::assembly_ir::{
    AssFunction, Assemble, BinaryOperator as AsmOp, Instruction as Ins, Operand, Reg,
    UnaryOperator as AsmUnary,
};
use ccompiler::codegen::codegen::{translatable, TackyToAssemblyTranslator};
use ccompiler::driver::CompilerDriver;
use ccompiler::error::{CodeEmitterError, CompilerError, SemanticError};
use ccompiler::lexer::lexer::Lexer;
use ccompiler::lexer::token::{Token, TokenType, Value};
use ccompiler::parser::c_ast::{
    BinaryOperator, Block, Declaration, Expr, Function, LiteralExpr, Program, Stmt,
};
use ccompiler::parser::parser::{tokens_parsable, Parser};
use ccompiler::tacky::gen_tacky::AstToTackyTranslator;
use ccompiler::tacky::tacky::{
    BinaryOperator as TOp, FunctionDefinition, Instruction as T, Program as TProgram,
    UnaryOperator as TUnary, Value as V,
};

fn tok(t: TokenType, start: usize, end: usize) -> Token {
    Token::new(t, start..end, None)
}

fn int_tok(start: usize, end: usize, v: i64) -> Token {
    Token::new(TokenType::LiteralInt, start..end, Some(Value::Int(v)))
}

fn lit(v: i64) -> Box<Expr> {
    Box::new(Expr::Literal(LiteralExpr::Integer(v)))
}

/// Concatenates the pieces into a source text and gives each its token
/// (integer literals carry their value), ending with `Eof`.
fn build(pieces: &[(TokenType, &str)]) -> (String, Vec<Token>) {
    let mut source = String::new();
    let mut tokens = Vec::new();
    for (t, text) in pieces {
        let start = source.len();
        source.push_str(text);
        let literal = if *t == TokenType::LiteralInt { Some(Value::Int(text.parse().unwrap())) } else { None };
        tokens.push(Token::new(t.clone(), start..source.len(), literal));
    }
    let n = source.len();
    tokens.push(tok(TokenType::Eof, n, n));
    (source, tokens)
}

fn lex(source: &str) -> Result<Vec<Token>, String> {
    let mut lexer = Lexer::new(source);
    match lexer.tokenize() {
        Ok(()) => Ok(lexer.tokens),
        Err(e) => Err(e.message),
    }
}

fn function_named(source: &str, name: &str, body: Vec<Block>) -> Function {
    let start = source.find(name).unwrap();
    Function { name: tok(TokenType::Identifier, start, start + name.len()), body }
}

fn translate(source: &str, body: Vec<Block>) -> Result<Vec<T>, String> {
    let program = Program { functions: vec![function_named(source, "main", body)] };
    let mut t = AstToTackyTranslator::new(source);
    match t.translate_program(program) {
        Ok(p) => {
            assert_eq!(p.definition.name, "main");
            Ok(p.definition.body)
        }
        Err(e) => Err(e.message),
    }
}

fn ret(value: Box<Expr>) -> Block {
    Block::Stmt(Stmt::Return { keyword: tok(TokenType::KeywordReturn, 0, 0), value: Some(value) })
}

#[test]
fn first_lexer_tokens_carry_byte_ranges() {
    let source = "int main(void) { return 2; }";
    let tokens = lex(source).unwrap();
    let expected = vec![
        tok(TokenType::KeywordInt, 0, 3),
        tok(TokenType::Identifier, 4, 8),
        tok(TokenType::LeftParen, 8, 9),
        tok(TokenType::KeywordVoid, 9, 13),
        tok(TokenType::RightParen, 13, 14),
        tok(TokenType::LeftBrace, 15, 16),
        tok(TokenType::KeywordReturn, 17, 23),
        int_tok(24, 25, 2),
        tok(TokenType::Semicolon, 25, 26),
        tok(TokenType::RightBrace, 27, 28),
        tok(TokenType::Eof, 27, 28),
    ];
    assert_eq!(tokens, expected);
    assert_eq!(tokens[1].get_lexeme(source), "main");
}

#[test]
fn first_lexer_eof_starts_at_last_scanned_character() {
    let tokens = lex("x \n").unwrap();
    assert_eq!(tokens, vec![tok(TokenType::Identifier, 0, 1), tok(TokenType::Eof, 2, 3)]);
}

#[test]
fn first_lexer_counts_bytes_of_wide_characters() {
    let source = "é1";
    let tokens = lex(source).unwrap();
    assert_eq!(tokens, vec![tok(TokenType::Identifier, 0, 2), int_tok(2, 3, 1), tok(TokenType::Eof, 2, 3)]);
    assert_eq!(tokens[0].get_lexeme(source), "é");
}

#[test]
fn first_lexer_errors() {
    assert_eq!(lex("12a"), Err("Identifier cannot start with a digit".to_string()));
    assert_eq!(lex("int @"), Err("Unexpected character: '@'".to_string()));
    assert_eq!(
        lex("99999999999999999999"),
        Err("Integer literal '99999999999999999999' is too large or invalid".to_string())
    );
    let mut lexer = Lexer::new("( @");
    assert!(lexer.tokenize().is_err());
    assert_eq!(lexer.tokens, vec![tok(TokenType::LeftParen, 0, 1)]);
}

#[test]
fn first_parser_reads_a_function() {
    let source = "int main(void) { return 2; }";
    let tokens = lex(source).unwrap();
    let mut parser = Parser::new(tokens, source);
    let program = parser.parse().unwrap();
    let expected = Program {
        functions: vec![Function {
            name: tok(TokenType::Identifier, 4, 8),
            body: vec![Block::Stmt(Stmt::Return {
                keyword: tok(TokenType::KeywordReturn, 17, 23),
                value: Some(Box::new(Expr::Literal(LiteralExpr::Integer(2)))),
            })],
        }],
    };
    assert_eq!(program, expected);
}

#[test]
fn first_parser_errors_name_the_token_found() {
    let cases = [
        ("int main(void) { return 2 }", "Expected ';' after return statement (found '}')"),
        ("int (void) { }", "Expected function name after 'int' (found '(')"),
        ("int main(void) { return ) ; }", "Expected an expression factor (integer, variable, unary, or grouping), but found ')'"),
        ("void", "Expected 'int' for function return type (found 'void')"),
    ];
    for (source, message) in cases {
        let tokens = lex(source).unwrap();
        let mut parser = Parser::new(tokens, source);
        assert_eq!(parser.parse().unwrap_err().message, message, "{}", source);
    }
}

#[test]
fn first_parser_climbs_precedence() {
    let (source, tokens) = build(&[
        (TokenType::KeywordInt, "int "),
        (TokenType::Identifier, "main"),
        (TokenType::LeftParen, "("),
        (TokenType::KeywordVoid, "void"),
        (TokenType::RightParen, ")"),
        (TokenType::LeftBrace, "{"),
        (TokenType::Identifier, "a"),
        (TokenType::Equal, "="),
        (TokenType::LiteralInt, "1"),
        (TokenType::Add, "+"),
        (TokenType::LiteralInt, "2"),
        (TokenType::Mul, "*"),
        (TokenType::LiteralInt, "3"),
        (TokenType::Semicolon, ";"),
        (TokenType::RightBrace, "}"),
    ]);
    let mut parser = Parser::new(tokens, &source);
    let program = parser.parse().unwrap();
    let expected_exp = Expr::Assignment {
        left: Box::new(Expr::Var { name: tok(TokenType::Identifier, 15, 16), unique_name: "a".to_string() }),
        right: Box::new(Expr::Binary {
            operator: BinaryOperator::Add,
            left: lit(1),
            right: Box::new(Expr::Binary { operator: BinaryOperator::Multiply, left: lit(2), right: lit(3) }),
        }),
    };
    assert_eq!(program.functions[0].body, vec![Block::Stmt(Stmt::Expression { exp: Box::new(expected_exp) })]);
}

#[test]
fn first_parser_reads_a_conditional_right_to_left() {
    let (source, tokens) = build(&[
        (TokenType::KeywordInt, "int "),
        (TokenType::Identifier, "main"),
        (TokenType::LeftParen, "("),
        (TokenType::KeywordVoid, "void"),
        (TokenType::RightParen, ")"),
        (TokenType::LeftBrace, "{"),
        (TokenType::KeywordReturn, "return "),
        (TokenType::LiteralInt, "1"),
        (TokenType::Question, "?"),
        (TokenType::LiteralInt, "2"),
        (TokenType::Colon, ":"),
        (TokenType::LiteralInt, "3"),
        (TokenType::Question, "?"),
        (TokenType::LiteralInt, "4"),
        (TokenType::Colon, ":"),
        (TokenType::LiteralInt, "5"),
        (TokenType::Semicolon, ";"),
        (TokenType::RightBrace, "}"),
    ]);
    let mut parser = Parser::new(tokens, &source);
    let program = parser.parse().unwrap();
    let expected = Expr::Condtional {
        condition: lit(1),
        left: lit(2),
        right: Box::new(Expr::Condtional { condition: lit(3), left: lit(4), right: lit(5) }),
    };
    match &program.functions[0].body[0] {
        Block::Stmt(Stmt::Return { value: Some(v), .. }) => assert_eq!(**v, expected),
        other => panic!("unexpected item {:?}", other),
    }
}

#[test]
fn binary_operator_precedence_values() {
    assert_eq!(BinaryOperator::Multiply.precedence(), 50);
    assert_eq!(BinaryOperator::Add.precedence(), 45);
    assert_eq!(BinaryOperator::Less.precedence(), 35);
    assert_eq!(BinaryOperator::EqualEqual.precedence(), 30);
    assert_eq!(BinaryOperator::And.precedence(), 10);
    assert_eq!(BinaryOperator::Or.precedence(), 5);
    assert_eq!(BinaryOperator::Equal.precedence(), 1);
}

fn var(name: Token, unique: &str) -> Box<Expr> {
    Box::new(Expr::Var { name, unique_name: unique.to_string() })
}

#[test]
fn analysis_renames_declarations_and_uses() {
    // int main(void){int a=5;a=a+1;return a;}
    let source = "int main(void){int a=5;a=a+1;return a;}";
    let a_decl = tok(TokenType::Identifier, 19, 20);
    let a_left = tok(TokenType::Identifier, 23, 24);
    let a_right = tok(TokenType::Identifier, 25, 26);
    let a_ret = tok(TokenType::Identifier, 36, 37);
    let body = vec![
        Block::Declaration(Declaration { name: a_decl.clone_token(), init: Some(lit(5)), unique_name: "a".to_string() }),
        Block::Stmt(Stmt::Expression {
            exp: Box::new(Expr::Assignment {
                left: var(a_left.clone_token(), "a"),
                right: Box::new(Expr::Binary { operator: BinaryOperator::Add, left: var(a_right.clone_token(), "a"), right: lit(1) }),
            }),
        }),
        Block::Stmt(Stmt::Return { keyword: tok(TokenType::KeywordReturn, 29, 35), value: Some(var(a_ret.clone_token(), "a")) }),
    ];
    let program = Program { functions: vec![function_named(source, "main", body)] };
    let mut analyzer = SemanticAnalyzer::new(source);
    let analyzed = analyzer.analyze(program).unwrap();
    assert_eq!(analyzer.next_id(), 1);
    let expected_body = vec![
        Block::Declaration(Declaration { name: a_decl, init: Some(lit(5)), unique_name: "v_0".to_string() }),
        Block::Stmt(Stmt::Expression {
            exp: Box::new(Expr::Assignment {
                left: var(a_left, "v_0"),
                right: Box::new(Expr::Binary { operator: BinaryOperator::Add, left: var(a_right, "v_0"), right: lit(1) }),
            }),
        }),
        Block::Stmt(Stmt::Return { keyword: tok(TokenType::KeywordReturn, 29, 35), value: Some(var(a_ret, "v_0")) }),
    ];
    assert_eq!(analyzed.functions[0].body, expected_body);

    let mut translator = AstToTackyTranslator::starting_at(source, analyzer.next_id());
    let tacky = translator.translate_program(analyzed).unwrap();
    assert_eq!(
        tacky,
        TProgram {
            definition: FunctionDefinition {
                name: "main".to_string(),
                body: vec![
                    T::Copy { src: V::Constant(5), dst: V::Var("v_0".to_string()) },
                    T::Binary {
                        op: TOp::Add,
                        src1: V::Var("v_0".to_string()),
                        src2: V::Constant(1),
                        dst: V::Var("tmp.1".to_string()),
                    },
                    T::Copy { src: V::Var("tmp.1".to_string()), dst: V::Var("v_0".to_string()) },
                    T::Return(V::Var("v_0".to_string())),
                    T::Return(V::Constant(0)),
                ],
            },
        }
    );
    assert_eq!(translator.next_id(), 2);
}

trait CloneToken {
    fn clone_token(&self) -> Token;
}

impl CloneToken for Token {
    fn clone_token(&self) -> Token {
        self.duplicate()
    }
}

#[test]
fn analysis_errors() {
    let source = "int main(void){int a;int a;}";
    let a1 = tok(TokenType::Identifier, 19, 20);
    let a2 = tok(TokenType::Identifier, 25, 26);
    let body = vec![
        Block::Declaration(Declaration { name: a1, init: None, unique_name: "a".to_string() }),
        Block::Declaration(Declaration { name: a2, init: None, unique_name: "a".to_string() }),
    ];
    let mut analyzer = SemanticAnalyzer::new(source);
    let r = analyzer.analyze(Program { functions: vec![function_named(source, "main", body)] });
    assert_eq!(r, Err(SemanticError::DuplicateDeclaration { name: "a".to_string() }));

    let source = "int main(void){return b;}";
    let b = tok(TokenType::Identifier, 22, 23);
    let body = vec![ret(var(b, "b"))];
    let mut analyzer = SemanticAnalyzer::new(source);
    let r = analyzer.analyze(Program { functions: vec![function_named(source, "main", body)] });
    assert_eq!(r, Err(SemanticError::UndeclaredVariable { name: "b".to_string() }));
}

#[test]
fn analysis_rejects_assignment_to_a_non_variable() {
    let source = "-a=1;int main(void){int a;}";
    let minus = tok(TokenType::Minus, 0, 1);
    let a_use = tok(TokenType::Identifier, 1, 2);
    let a_decl = tok(TokenType::Identifier, 24, 25);
    let body = vec![
        Block::Declaration(Declaration { name: a_decl, init: None, unique_name: "a".to_string() }),
        Block::Stmt(Stmt::Expression {
            exp: Box::new(Expr::Assignment {
                left: Box::new(Expr::Unary { operator: minus.clone_token(), right: var(a_use.clone_token(), "a") }),
                right: lit(1),
            }),
        }),
    ];
    let mut analyzer = SemanticAnalyzer::new(source);
    let r = analyzer.analyze(Program { functions: vec![function_named(source, "main", body)] });
    let analyzed_left = Expr::Unary { operator: minus, right: var(a_use, "v_0") };
    let expected = format!("Expression {:?} is not a valid LValue.", analyzed_left);
    assert_eq!(
        expected,
        "Expression Unary { operator: Token { token_type: Minus, lexeme_range: 0..1, literal: None }, right: Var { name: Token { token_type: Identifier, lexeme_range: 1..2, literal: None }, unique_name: \"v_0\" } } is not a valid LValue."
    );
    assert_eq!(r, Err(SemanticError::InvalidLvalue { description: expected }));

    let mut analyzer = SemanticAnalyzer::new("int main(void){}");
    let body = vec![Block::Stmt(Stmt::Expression { exp: Box::new(Expr::Assignment { left: lit(1), right: lit(2) }) })];
    let r = analyzer.analyze(Program { functions: vec![function_named("int main(void){}", "main", body)] });
    assert_eq!(
        r,
        Err(SemanticError::InvalidLvalue { description: "Expression Literal(Integer(1)) is not a valid LValue.".to_string() })
    );
}

#[test]
fn tacky_of_short_circuit_and() {
    let source = "int main(void)";
    let body = vec![ret(Box::new(Expr::Binary { operator: BinaryOperator::And, left: lit(1), right: lit(0) }))];
    let l = |s: &str| s.to_string();
    assert_eq!(
        translate(source, body),
        Ok(vec![
            T::JumpIfZero { condition: V::Constant(1), target: l("abel.1") },
            T::JumpIfZero { condition: V::Constant(0), target: l("abel.1") },
            T::Copy { src: V::Constant(1), dst: V::Var(l("tmp.0")) },
            T::Jump { target: l("abel.2") },
            T::Lable { name: l("abel.1") },
            T::Copy { src: V::Constant(0), dst: V::Var(l("tmp.0")) },
            T::Lable { name: l("abel.2") },
            T::Return(V::Var(l("tmp.0"))),
            T::Return(V::Constant(0)),
        ])
    );
}

#[test]
fn tacky_of_short_circuit_or_and_negation() {
    let source = "int main(void)";
    let minus = tok(TokenType::Minus, 0, 0);
    let body = vec![ret(Box::new(Expr::Binary {
        operator: BinaryOperator::Or,
        left: Box::new(Expr::Unary { operator: minus, right: lit(2) }),
        right: lit(0),
    }))];
    let l = |s: &str| s.to_string();
    assert_eq!(
        translate(source, body),
        Ok(vec![
            T::Unary { op: TUnary::Negate, src: V::Constant(2), dst: V::Var(l("tmp.1")) },
            T::JumpIfNotZero { condition: V::Var(l("tmp.1")), target: l("abel.2") },
            T::JumpIfNotZero { condition: V::Constant(0), target: l("abel.2") },
            T::Copy { src: V::Constant(0), dst: V::Var(l("tmp.0")) },
            T::Jump { target: l("abel.3") },
            T::Lable { name: l("abel.2") },
            T::Copy { src: V::Constant(1), dst: V::Var(l("tmp.0")) },
            T::Lable { name: l("abel.3") },
            T::Return(V::Var(l("tmp.0"))),
            T::Return(V::Constant(0)),
        ])
    );
}

#[test]
fn tacky_of_if_else_and_conditional() {
    let source = "int main(void)";
    let l = |s: &str| s.to_string();
    let body = vec![Block::Stmt(Stmt::If {
        condition: lit(1),
        then_branch: Box::new(Stmt::Return { keyword: tok(TokenType::KeywordReturn, 0, 0), value: Some(lit(2)) }),
        else_branch: Some(Box::new(Stmt::Return {
            keyword: tok(TokenType::KeywordReturn, 0, 0),
            value: Some(Box::new(Expr::Condtional { condition: lit(3), left: lit(4), right: lit(5) })),
        })),
    })];
    assert_eq!(
        translate(source, body),
        Ok(vec![
            T::JumpIfZero { condition: V::Constant(1), target: l("abel.0") },
            T::Return(V::Constant(2)),
            T::Jump { target: l("abel.1") },
            T::Lable { name: l("abel.0") },
            T::JumpIfZero { condition: V::Constant(3), target: l("abel.2") },
            T::Copy { src: V::Constant(4), dst: V::Var(l("tmp.4")) },
            T::Jump { target: l("abel.3") },
            T::Lable { name: l("abel.2") },
            T::Copy { src: V::Constant(5), dst: V::Var(l("tmp.4")) },
            T::Lable { name: l("abel.3") },
            T::Return(V::Var(l("tmp.4"))),
            T::Lable { name: l("abel.1") },
            T::Return(V::Constant(0)),
        ])
    );
}

#[test]
fn tacky_translation_errors() {
    let source = "int main(void)";
    let mut t = AstToTackyTranslator::new(source);
    assert_eq!(
        t.translate_program(Program { functions: vec![] }).unwrap_err().message,
        "AST Program must contain at least one function for this TACKY target."
    );
    let body = vec![Block::Stmt(Stmt::Return { keyword: tok(TokenType::KeywordReturn, 0, 0), value: None })];
    assert_eq!(translate(source, body), Err("AST Return statement must have a value for this TACKY target.".to_string()));
    let plus = tok(TokenType::Add, 0, 0);
    let body = vec![ret(Box::new(Expr::Unary { operator: plus, right: lit(1) }))];
    assert_eq!(translate(source, body), Err("Unsupported AST unary operator token: Add".to_string()));
    let body = vec![ret(Box::new(Expr::Binary { operator: BinaryOperator::Equal, left: lit(1), right: lit(2) }))];
    assert_eq!(translate(source, body), Err("Unsupported AST binary operator: Equal".to_string()));
    let body = vec![ret(Box::new(Expr::Assignment { left: lit(1), right: lit(2) }))];
    assert_eq!(translate(source, body), Err("Left-hand side of assignment must be a variable.".to_string()));
}

fn codegen(body: Vec<T>) -> Vec<Ins> {
    let mut t = TackyToAssemblyTranslator::new();
    let program = TProgram { definition: FunctionDefinition { name: "main".to_string(), body } };
    let out = t.translate(program).unwrap();
    assert_eq!(out.function.name, "main");
    out.function.instructions
}

#[test]
fn codegen_places_pseudo_registers_and_reserves_the_frame() {
    let tmp = || V::Var("tmp.0".to_string());
    let code = codegen(vec![
        T::Unary { op: TUnary::Negate, src: V::Constant(2), dst: tmp() },
        T::Return(tmp()),
        T::Return(V::Constant(0)),
    ]);
    assert_eq!(
        code,
        vec![
            Ins::AllocateStack(4),
            Ins::Mov { src: Operand::Imm(2), dst: Operand::Stack(-4) },
            Ins::Unary { op: AsmUnary::Neg, operand: Operand::Stack(-4) },
            Ins::Mov { src: Operand::Stack(-4), dst: Operand::Reg(Reg::AX) },
            Ins::Ret,
            Ins::Mov { src: Operand::Imm(0), dst: Operand::Reg(Reg::AX) },
            Ins::Ret,
        ]
    );
}

#[test]
fn codegen_orders_slots_by_name_and_fixes_memory_operands() {
    let v = |s: &str| V::Var(s.to_string());
    let code = codegen(vec![
        T::Binary { op: TOp::Add, src1: v("z"), src2: v("a"), dst: v("m") },
        T::Binary { op: TOp::Multiply, src1: v("m"), src2: v("a"), dst: v("m") },
        T::Return(v("m")),
    ]);
    assert_eq!(
        code,
        vec![
            Ins::AllocateStack(12),
            Ins::Mov { src: Operand::Stack(-12), dst: Operand::Reg(Reg::R10) },
            Ins::Mov { src: Operand::Reg(Reg::R10), dst: Operand::Stack(-8) },
            Ins::Mov { src: Operand::Stack(-4), dst: Operand::Reg(Reg::R10) },
            Ins::Binary { op: AsmOp::Add, left_operand: Operand::Reg(Reg::R10), right_operand: Operand::Stack(-8) },
            Ins::Mov { src: Operand::Stack(-8), dst: Operand::Reg(Reg::R10) },
            Ins::Mov { src: Operand::Reg(Reg::R10), dst: Operand::Stack(-8) },
            Ins::Mov { src: Operand::Stack(-8), dst: Operand::Reg(Reg::R11) },
            Ins::Binary { op: AsmOp::Mult, left_operand: Operand::Stack(-4), right_operand: Operand::Reg(Reg::R11) },
            Ins::Mov { src: Operand::Reg(Reg::R11), dst: Operand::Stack(-8) },
            Ins::Mov { src: Operand::Stack(-8), dst: Operand::Reg(Reg::AX) },
            Ins::Ret,
        ]
    );
}

#[test]
fn codegen_divides_through_registers() {
    let code = codegen(vec![
        T::Binary { op: TOp::Divide, src1: V::Constant(7), src2: V::Constant(2), dst: V::Var("q".to_string()) },
        T::Binary { op: TOp::Remainder, src1: V::Constant(7), src2: V::Var("q".to_string()), dst: V::Var("q".to_string()) },
    ]);
    assert_eq!(
        code,
        vec![
            Ins::AllocateStack(4),
            Ins::Mov { src: Operand::Imm(7), dst: Operand::Reg(Reg::AX) },
            Ins::Cdq,
            Ins::Mov { src: Operand::Imm(2), dst: Operand::Reg(Reg::R10) },
            Ins::Idiv(Operand::Reg(Reg::R10)),
            Ins::Mov { src: Operand::Reg(Reg::AX), dst: Operand::Stack(-4) },
            Ins::Mov { src: Operand::Imm(7), dst: Operand::Reg(Reg::AX) },
            Ins::Cdq,
            Ins::Idiv(Operand::Stack(-4)),
            Ins::Mov { src: Operand::Reg(Reg::DX), dst: Operand::Stack(-4) },
        ]
    );
}

#[test]
fn codegen_continues_from_the_translator_offsets() {
    let mut t = TackyToAssemblyTranslator::new();
    let first = TProgram {
        definition: FunctionDefinition { name: "f".to_string(), body: vec![T::Return(V::Var("x".to_string()))] },
    };
    t.translate(first).unwrap();
    let second = TProgram {
        definition: FunctionDefinition { name: "g".to_string(), body: vec![T::Return(V::Var("y".to_string()))] },
    };
    let out = t.translate(second).unwrap();
    assert_eq!(
        out.function.instructions,
        vec![
            Ins::AllocateStack(8),
            Ins::Mov { src: Operand::Stack(-8), dst: Operand::Reg(Reg::AX) },
            Ins::Ret,
        ]
    );
}

#[test]
fn emitter_writes_the_whole_file() {
    let program = Assemble {
        function: AssFunction {
            name: "main".to_string(),
            instructions: vec![
                Ins::AllocateStack(4),
                Ins::Mov { src: Operand::Imm(2), dst: Operand::Stack(-4) },
                Ins::Unary { op: AsmUnary::Neg, operand: Operand::Stack(-4) },
                Ins::Binary { op: AsmOp::Mult, left_operand: Operand::Imm(3), right_operand: Operand::Reg(Reg::R11) },
                Ins::Cdq,
                Ins::Idiv(Operand::Reg(Reg::R10)),
                Ins::Mov { src: Operand::Stack(-4), dst: Operand::Reg(Reg::AX) },
                Ins::Ret,
            ],
        },
    };
    let text = CodeEmitter::emit(&program, "prog.s").unwrap();
    let expected = "\t.file\t\"prog.s\"\n\t.text\n\n\t.globl\tmain\n\t.type\tmain, @function\nmain:\n\n\tpushq\t%rbp\n\tmovq\t%rsp, %rbp\n\tsubq\t$4, %rsp\n\tmovl\t$2, -4(%rbp)\n\tnegl\t-4(%rbp)\n\timull\t$3, %r11d\n\tcdq\n\tidivl\t%r10d\n\tmovl\t-4(%rbp), %eax\n\tmovq\t%rbp, %rsp\n\tpopq\t%rbp\n\tret\n\n\t.size\tmain, .-main\n\t.section\t.note.GNU-stack,\"\",@progbits\n";
    assert_eq!(text, expected);
}

#[test]
fn emitter_skips_an_empty_reservation_and_rejects_pseudo_registers() {
    let program = Assemble {
        function: AssFunction {
            name: "f".to_string(),
            instructions: vec![Ins::AllocateStack(0), Ins::Mov { src: Operand::Reg(Reg::DX), dst: Operand::Pseudo("x".to_string()) }],
        },
    };
    let r = CodeEmitter::emit(&program, "a.s");
    assert_eq!(
        r,
        Err(CompilerError::CodeEmitter(CodeEmitterError {
            message: "Internal error: Pseudoregister 'x' found in final Assembly AST. Pseudo-to-Stack pass failed?".to_string(),
        }))
    );
}

#[test]
fn first_generation_pipeline_end_to_end() {
    let source = "int main(void) { return 2; }";
    let tokens = lex(source).unwrap();
    let mut parser = Parser::new(tokens, source);
    let ast = parser.parse().unwrap();
    let mut analyzer = SemanticAnalyzer::new(source);
    let ast = analyzer.analyze(ast).unwrap();
    let mut translator = AstToTackyTranslator::starting_at(source, analyzer.next_id());
    let tacky = translator.translate_program(ast).unwrap();
    let mut codegen = TackyToAssemblyTranslator::new();
    let program = codegen.translate(tacky).unwrap();
    let text = CodeEmitter::emit(&program, "return_2.s").unwrap();
    let expected = "\t.file\t\"return_2.s\"\n\t.text\n\n\t.globl\tmain\n\t.type\tmain, @function\nmain:\n\n\tpushq\t%rbp\n\tmovq\t%rsp, %rbp\n\tmovl\t$2, %eax\n\tmovq\t%rbp, %rsp\n\tpopq\t%rbp\n\tret\n\tmovl\t$0, %eax\n\tmovq\t%rbp, %rsp\n\tpopq\t%rbp\n\tret\n\n\t.size\tmain, .-main\n\t.section\t.note.GNU-stack,\"\",@progbits\n";
    assert_eq!(text, expected);
}

#[test]
fn lexed_tokens_are_parsable() {
    for source in ["int main(void) { return 2; }", "é1 ;\n", "", "  ;;"] {
        let tokens = lex(source).unwrap();
        assert!(tokens_parsable(&tokens, source), "{:?}", source);
    }
    let source = "é1";
    assert!(!tokens_parsable(&vec![tok(TokenType::Identifier, 1, 2), tok(TokenType::Eof, 3, 3)], source));
    assert!(!tokens_parsable(&vec![tok(TokenType::Identifier, 0, 2)], source));
    assert!(!tokens_parsable(&vec![tok(TokenType::Eof, 3, 2)], source));
    assert!(tokens_parsable(&vec![tok(TokenType::Identifier, 0, 2), tok(TokenType::Eof, 2, 3)], source));
}

#[test]
fn driver_stages_compose() {
    let source = "int main(void) { return 3; }";
    let tokens = CompilerDriver::lex(source).unwrap();
    let ast = CompilerDriver::parse(tokens, source).unwrap();
    let tacky = CompilerDriver::translate_tacky(ast, source).unwrap();
    assert_eq!(tacky.definition.body, vec![T::Return(V::Constant(3)), T::Return(V::Constant(0))]);
    assert!(translatable(&tacky));
    let program = CompilerDriver::codegen(tacky).unwrap();
    assert_eq!(program.function.instructions[0], Ins::Mov { src: Operand::Imm(3), dst: Operand::Reg(Reg::AX) });
    assert_eq!(
        CompilerDriver::lex("int $"),
        Err(CompilerError::Lexer(ccompiler::error::LexerError { message: "Unexpected character: '$'".to_string() }))
    );
    let not_handled = TProgram {
        definition: FunctionDefinition {
            name: "main".to_string(),
            body: vec![T::Copy { src: V::Constant(1), dst: V::Var("x".to_string()) }],
        },
    };
    assert!(!translatable(&not_handled));
}

#[test]
fn first_lexer_looks_ahead_by_byte_offset() {
    // After the two-byte `é`, looking ahead reads the character whose index
    // is the byte offset: here the `x` two places on, not the space.
    assert_eq!(lex("é1 x\n"), Err("Identifier cannot start with a digit".to_string()));
    let tokens = lex("é1 ;\n").unwrap();
    assert_eq!(
        tokens,
        vec![
            tok(TokenType::Identifier, 0, 2),
            int_tok(2, 3, 1),
            tok(TokenType::Semicolon, 4, 5),
            tok(TokenType::Eof, 5, 6),
        ]
    );
}
