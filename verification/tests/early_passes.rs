use ccompiler::backend::ass_ast::{Instructions, Operand};
use ccompiler::backend::ass_gen::AssGen;
use ccompiler::frontend::c_ast::{BinaryOp, BlockItem, Declaration, Expression, FunDecl, Program, Statement};
use ccompiler::frontend::parser::Parser;
use ccompiler::frontend::validate::Validate;
use ccompiler::lexer::Lexer;
use ccompiler::UniqueNameGenerator;

/// The `i`-th function declaration of a program.
fn function_at(p: &Program, i: usize) -> &FunDecl {
    p.declarations
        .iter()
        .filter_map(|d| match d {
            Declaration::Fun(f) => Some(f),
            Declaration::Variable(_) => None,
        })
        .nth(i)
        .expect("no such function")
}


fn parse_code(code: &str) -> Program {
    let tokens = Lexer::new().lex(code).unwrap();
    Parser::new(tokens).parse().unwrap()
}

fn var(name: &str) -> Box<Expression> {
    Box::new(Expression::Var(name.to_string()))
}

#[test]
fn validate_renames_with_one_map() {
    let ast = parse_code("int main(void) { int a = 1; a = a + 2; return a; }");
    let mut g = UniqueNameGenerator::new();
    let out = Validate::new(&mut g).reslove_prgram(&ast).unwrap();
    let items = &function_at(&out, 0).body.as_ref().unwrap().0;
    assert_eq!(items.len(), 3);
    match &items[0] {
        BlockItem::D(Declaration::Variable(v)) => {
            assert_eq!(v.name, "a.0");
            assert_eq!(format!("{:?}", v.init), format!("{:?}", Some(Expression::Constant(1))));
        }
        other => panic!("expected a declaration, got {:?}", other),
    }
    let expected = Statement::Expression(Expression::Assignment {
        left: var("a.0"),
        right: Box::new(Expression::Binary { op: BinaryOp::Add, left: var("a.0"), right: Box::new(Expression::Constant(2)) }),
    });
    match &items[1] {
        BlockItem::S(s) => assert_eq!(format!("{:?}", s), format!("{:?}", expected)),
        other => panic!("expected a statement, got {:?}", other),
    }
    match &items[2] {
        BlockItem::S(s) => assert_eq!(format!("{:?}", s), format!("{:?}", Statement::Return(Expression::Var("a.0".to_string())))),
        other => panic!("expected a statement, got {:?}", other),
    }
}

#[test]
fn validate_keeps_the_map_across_functions() {
    let ast = parse_code("int f(void) { int a; return 0; } int main(void) { int a; return a; }");
    let mut g = UniqueNameGenerator::new();
    let r = Validate::new(&mut g).reslove_prgram(&ast);
    assert_eq!(r.unwrap_err(), "Duplicate variable declaration");
}

#[test]
fn validate_errors() {
    let mut g = UniqueNameGenerator::new();
    let ast = parse_code("int main(void) { return b; }");
    assert_eq!(Validate::new(&mut g).reslove_prgram(&ast).unwrap_err(), "Undeclared variable!");
    let ast = parse_code("int main(void) { int a; a + 1 = 2; return a; }");
    assert_eq!(Validate::new(&mut g).reslove_prgram(&ast).unwrap_err(), "Invalid lvaue!");
}

#[test]
fn first_assembly_moves_returned_constants() {
    let ast = parse_code("int main(void) { return 7; return 9; }");
    let out = AssGen::new().generate_ass_ast(ast).unwrap();
    assert_eq!(out.functions.len(), 1);
    assert_eq!(out.functions[0].name, "main");
    let text = format!("{:?}", out.functions[0].instructions);
    let expected = format!(
        "{:?}",
        vec![
            Instructions::Mov { src: Operand::Imm(7), dst: Operand::Register() },
            Instructions::Ret,
            Instructions::Mov { src: Operand::Imm(9), dst: Operand::Register() },
            Instructions::Ret,
        ]
    );
    assert_eq!(text, expected);
}

fn tokens_with_unnamed(index: usize, code: &str) -> Vec<ccompiler::lexer::Token> {
    let mut tokens = Lexer::new().lex(code).unwrap();
    assert_eq!(tokens[index].type_, ccompiler::lexer::TokenType::Identifier);
    tokens[index].value = None;
    tokens
}

#[test]
fn try_parse_refuses_an_unnamed_parameter() {
    // `int f(int a) ...`: token 4 is the parameter `a`.
    let tokens = tokens_with_unnamed(4, "int f(int a) { return a; }");
    assert!(Parser::new(tokens).try_parse().is_none());
}

#[test]
fn unnamed_declaration_is_a_syntax_error() {
    // `int main(void) { int x; ... }`: token 7 is the declared `x`.
    let tokens = tokens_with_unnamed(7, "int main(void) { int x; return 0; }");
    let err = Parser::new(tokens).parse().unwrap_err();
    assert_eq!(err, "Syntax Error: Expected a name for the identifier, but it was missing.");
}

#[test]
fn unnamed_variable_in_an_expression() {
    // `int main(void) { return x; }`: token 7 is `x`.
    let tokens = tokens_with_unnamed(7, "int main(void) { return x; }");
    let err = Parser::new(tokens.clone()).parse().unwrap_err();
    assert_eq!(err, "Internal Error: Identifier token is missing a name");
    match Parser::new(tokens).try_parse() {
        Some(Err(m)) => assert_eq!(m, err),
        other => panic!("expected the same error, got {:?}", other),
    }
}

#[test]
fn try_parse_agrees_with_parse() {
    let tokens = Lexer::new().lex("int f(int a, int b) { return a + b; }").unwrap();
    let direct = format!("{:?}", Parser::new(tokens.clone()).parse());
    let tried = format!("{:?}", Parser::new(tokens).try_parse().unwrap());
    assert_eq!(direct, tried);
}

#[test]
fn parse_errors_are_syntax_errors() {
    for code in [
        "int main(void) { return 1 }",
        "int main(void) { return ; }",
        "int 3;",
        "int main(void) { for (int f(void); ;) ; }",
        "int main(void) { return 99999999999999999999; }",
        "int main(void) { 1 +; }",
        "int main(int) { return 0; }",
        "",
    ] {
        let tokens = Lexer::new().lex(code).unwrap();
        match Parser::new(tokens).parse() {
            Ok(_) => assert_eq!(code, "", "{} should not parse", code),
            Err(m) => assert!(m.starts_with("Syntax Error: "), "{}: {}", code, m),
        }
    }
}

#[test]
fn unicode_white_space_separates_tokens() {
    let with_unicode = Lexer::new().lex("int\u{3000}main(void)\u{85}{ return\u{a0}0; }").unwrap();
    let with_ascii = Lexer::new().lex("int main(void) { return 0; }").unwrap();
    assert_eq!(with_unicode.len(), with_ascii.len());
    for (a, b) in with_unicode.iter().zip(with_ascii.iter()) {
        assert_eq!(a.type_, b.type_);
        assert_eq!(a.value, b.value);
    }
}
