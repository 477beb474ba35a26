use ccompiler::lexer::lexer::Lexer;
use ccompiler::lexer::token::{Token, TokenType};
use ccompiler::parser::{Expr, LiteralExpr, Parser, Stmt};

fn lex(source: &str) -> Vec<Token> {
    let mut lexer = Lexer::new(source);
    lexer.tokenize().unwrap();
    lexer.tokens
}

#[test]
fn earliest_parser_reads_functions() {
    let source = "int main(void) { return 2; } int f(void) { return 7; }";
    let tokens = lex(source);
    let functions = Parser::new(tokens, source).parse().unwrap();
    assert_eq!(functions.len(), 2);
    assert_eq!(functions[0].name.get_lexeme(source), "main");
    assert_eq!(functions[1].name.get_lexeme(source), "f");
    match &functions[1].body[..] {
        [Stmt::Return { keyword, value: Some(Expr::Literal(LiteralExpr::Integer(v))) }] => {
            assert_eq!(keyword.token_type, TokenType::KeywordReturn);
            assert_eq!(*v, 7);
        }
        other => panic!("expected one return, got {:?}", other),
    }
}

#[test]
fn earliest_parser_empty_program() {
    let source = "";
    let tokens = lex(source);
    assert!(Parser::new(tokens, source).parse().unwrap().is_empty());
}

#[test]
fn earliest_parser_errors() {
    let cases = [
        ("int main(void) { return 2 }", "Expected ';' after return statement (found '}' instead)"),
        ("int (void) { }", "Expected function name after 'int'"),
        ("int main(void) { return x; }", "Expected an integer literal"),
        ("int main() { return 1; }", "Expected 'void'  (found ')' instead)"),
        ("int main(void) { return 1; } void", "expected int (found 'void' instead)"),
    ];
    for (source, message) in cases {
        let tokens = lex(source);
        let err = Parser::new(tokens, source).parse().unwrap_err();
        assert_eq!(err.message, message, "{}", source);
    }
}
