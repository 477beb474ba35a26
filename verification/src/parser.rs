//! The first-generation front end: its syntax tree and its parser; and, in
//! this file, the earliest parser, for programs of functions
//! `int <name>(void) { return <integer>; }`.

pub mod c_ast;
pub mod parser;

use vstd::prelude::*;
use crate::error::ParserError;
use crate::lexer::token::{is_char_range, Token, TokenType, Value};
use crate::parser::parser::{at_end, check_at, lexeme_at, parsable, PResult};
use crate::text::{owned, push_str};

verus! {

/// A literal.
#[derive(Debug)]
pub enum LiteralExpr {
    Integer(i64),
}

/// An expression: only integer literals.
#[derive(Debug)]
pub enum Expr {
    Literal(LiteralExpr),
}

/// A statement: only `return <expr>;`.
#[derive(Debug)]
pub enum Stmt {
    Return { keyword: Token, value: Option<Expr> },
}

/// A function: its name token and its statements.
#[derive(Debug)]
pub struct Function {
    pub name: Token,
    pub body: Vec<Stmt>,
}

/// The mathematical content of a `Function`.
pub struct SFunc {
    pub name: Token,
    pub body: Seq<Stmt>,
}

pub open spec fn func_view(f: Function) -> SFunc {
    SFunc { name: f.name, body: f.body@ }
}

pub open spec fn funcs_view(v: Seq<Function>) -> Seq<SFunc> {
    v.map_values(|f: Function| func_view(f))
}

/// Reads a token of kind `t`, or fails with `message` and the text found.
pub open spec fn q_consume(ts: Seq<Token>, src: Seq<char>, pos: int, t: TokenType, message: Seq<char>) -> Result<int, Seq<char>> {
    if check_at(ts, pos, t) {
        Ok(pos + 1)
    } else {
        Err(message + " (found '"@ + lexeme_at(ts, src, pos) + "' instead)"@)
    }
}

/// Where parsing stops on an integer token that carries no value; `parse`
/// has no result for such tokens.
pub open spec fn literal_without_value() -> Seq<char> {
    "Internal Error: Literal token should have a value"@
}

/// An expression: an integer literal.
pub open spec fn q_expression(ts: Seq<Token>, pos: int) -> PResult<Expr> {
    if check_at(ts, pos, TokenType::LiteralInt) {
        match ts[pos].literal {
            Some(Value::Int(i)) => Ok((Expr::Literal(LiteralExpr::Integer(i)), pos + 1)),
            None => Err(literal_without_value()),
        }
    } else {
        Err("Expected an integer literal"@)
    }
}

/// A statement: `return <expr> ;`.
pub open spec fn q_statement(ts: Seq<Token>, src: Seq<char>, pos: int) -> PResult<Stmt> {
    match q_consume(ts, src, pos, TokenType::KeywordReturn, "Expected 'return' keyword"@) {
        Err(m) => Err(m),
        Ok(q) => match q_expression(ts, q) {
            Err(m) => Err(m),
            Ok((e, q2)) => match q_consume(ts, src, q2, TokenType::Semicolon, "Expected ';' after return statement"@) {
                Err(m) => Err(m),
                Ok(q3) => Ok((Stmt::Return { keyword: ts[pos], value: Some(e) }, q3)),
            },
        },
    }
}

/// A body: `{ <statement> }`.
pub open spec fn q_body(ts: Seq<Token>, src: Seq<char>, pos: int) -> PResult<Seq<Stmt>> {
    match q_consume(ts, src, pos, TokenType::LeftBrace, "Expected '{' to start function body"@) {
        Err(m) => Err(m),
        Ok(q) => match q_statement(ts, src, q) {
            Err(m) => Err(m),
            Ok((s, q2)) => match q_consume(ts, src, q2, TokenType::RightBrace, "Expected '}' to end function body"@) {
                Err(m) => Err(m),
                Ok(q3) => Ok((seq![s], q3)),
            },
        },
    }
}

/// A function: `int <name> ( void ) <body>`.
pub open spec fn q_function(ts: Seq<Token>, src: Seq<char>, pos: int) -> PResult<SFunc> {
    match q_consume(ts, src, pos, TokenType::KeywordInt, "expected int"@) {
        Err(m) => Err(m),
        Ok(q1) => if !check_at(ts, q1, TokenType::Identifier) {
            Err("Expected function name after 'int'"@)
        } else {
            match q_consume(ts, src, q1 + 1, TokenType::LeftParen, "Expected '(' after function name"@) {
                Err(m) => Err(m),
                Ok(q2) => match q_consume(ts, src, q2, TokenType::KeywordVoid, "Expected 'void' "@) {
                    Err(m) => Err(m),
                    Ok(q3) => match q_consume(ts, src, q3, TokenType::RightParen, "Expected ')' to end function parameters"@) {
                        Err(m) => Err(m),
                        Ok(q4) => match q_body(ts, src, q4) {
                            Err(m) => Err(m),
                            Ok((body, q5)) => Ok((SFunc { name: ts[q1], body }, q5)),
                        },
                    },
                },
            }
        },
    }
}

/// The functions from `pos` to `Eof`, after the functions `acc`.
pub open spec fn q_program(ts: Seq<Token>, src: Seq<char>, pos: int, acc: Seq<SFunc>) -> Result<Seq<SFunc>, Seq<char>>
    decreases ts.len() - pos,
{
    if at_end(ts, pos) {
        Ok(acc)
    } else {
        match q_function(ts, src, pos) {
            Err(m) => Err(m),
            Ok((f, q)) => if !(pos < q <= ts.len()) {
                Err(Seq::empty())
            } else {
                q_program(ts, src, q, acc.push(f))
            },
        }
    }
}

/// The parser: the tokens, the index of the next one, and the source text
/// the tokens' ranges point into.
pub struct Parser<'a> {
    tokens: Vec<Token>,
    current: usize,
    source: &'a str,
}

impl<'a> Parser<'a> {
    /// The tokens being parsed.
    pub closed spec fn token_seq(&self) -> Seq<Token> {
        self.tokens@
    }

    /// The source text.
    pub closed spec fn text(&self) -> Seq<char> {
        self.source@
    }

    /// The index of the next token.
    pub closed spec fn position(&self) -> int {
        self.current as int
    }

    closed spec fn inv(&self) -> bool {
        &&& parsable(self.tokens@, self.source@)
        &&& self.current < self.tokens@.len()
    }

    /// A parser at the first of `tokens`.
    pub fn new(tokens: Vec<Token>, source: &'a str) -> (r: Self)
        ensures
            r.token_seq() == tokens@,
            r.text() == source@,
            r.position() == 0,
    {
        Parser { tokens, current: 0, source }
    }

    /// Parses functions up to `Eof`. A program whose first token is neither
    /// `int` nor the end, and an integer token without a value, have no
    /// result here.
    pub fn parse(&mut self) -> (r: Result<Vec<Function>, ParserError>)
        requires
            parsable(old(self).token_seq(), old(self).text()),
            old(self).position() < old(self).token_seq().len(),
            old(self).position() == 0 ==> at_end(old(self).token_seq(), 0)
                || old(self).token_seq()[0].token_type == TokenType::KeywordInt,
            q_program(old(self).token_seq(), old(self).text(), old(self).position(), Seq::empty())
                != Err::<Seq<SFunc>, Seq<char>>(literal_without_value()),
        ensures
            final(self).token_seq() == old(self).token_seq(),
            final(self).text() == old(self).text(),
            match (r, q_program(old(self).token_seq(), old(self).text(), old(self).position(), Seq::empty())) {
                (Ok(v), Ok(sv)) => funcs_view(v@) == sv,
                (Err(e), Err(m)) => e.message@ == m,
                _ => false,
            },
    {
        let ghost ts = self.tokens@;
        let ghost src = self.source@;
        let ghost start = self.current as int;
        let mut functions: Vec<Function> = Vec::new();
        assert(funcs_view(functions@) =~= Seq::<SFunc>::empty());
        while !self.is_at_end()
            invariant
                self.inv(),
                self.tokens@ == ts,
                self.source@ == src,
                ts == old(self).token_seq(),
                src == old(self).text(),
                start == old(self).position(),
                start <= self.current,
                self.current == 0 ==> at_end(ts, 0) || ts[0].token_type == TokenType::KeywordInt,
                q_program(ts, src, start, Seq::empty()) != Err::<Seq<SFunc>, Seq<char>>(literal_without_value()),
                q_program(ts, src, start, Seq::empty()) == q_program(ts, src, self.current as int, funcs_view(functions@)),
            decreases ts.len() - self.current,
        {
            let f = self.parse_function()?;
            let ghost before = functions@;
            functions.push(f);
            proof {
                assert(funcs_view(functions@) =~= funcs_view(before).push(func_view(f)));
            }
        }
        Ok(functions)
    }

    fn parse_function(&mut self) -> (r: Result<Function, ParserError>)
        requires
            old(self).inv(),
            old(self).current > 0 || check_at(old(self).tokens@, 0, TokenType::KeywordInt),
            q_function(old(self).tokens@, old(self).source@, old(self).current as int)
                != Err::<(SFunc, int), Seq<char>>(literal_without_value()),
        ensures
            final(self).inv(),
            final(self).tokens@ == old(self).tokens@,
            final(self).source@ == old(self).source@,
            match (r, q_function(old(self).tokens@, old(self).source@, old(self).current as int)) {
                (Ok(f), Ok((sf, q))) => func_view(f) == sf && final(self).current == q && old(self).current < q,
                (Err(e), Err(m)) => e.message@ == m,
                _ => false,
            },
    {
        self.consume(TokenType::KeywordInt, "expected int")?;
        if self.match_token(TokenType::Identifier) {
            let identifier = self.tokens[self.current - 1].duplicate();
            self.consume(TokenType::LeftParen, "Expected '(' after function name")?;
            self.consume(TokenType::KeywordVoid, "Expected 'void' ")?;
            self.consume(TokenType::RightParen, "Expected ')' to end function parameters")?;
            let body = self.parse_body()?;
            Ok(Function { name: identifier, body })
        } else {
            Err(ParserError { message: owned("Expected function name after 'int'") })
        }
    }

    fn parse_body(&mut self) -> (r: Result<Vec<Stmt>, ParserError>)
        requires
            old(self).inv(),
            old(self).current > 0,
            q_body(old(self).tokens@, old(self).source@, old(self).current as int)
                != Err::<(Seq<Stmt>, int), Seq<char>>(literal_without_value()),
        ensures
            final(self).inv(),
            final(self).tokens@ == old(self).tokens@,
            final(self).source@ == old(self).source@,
            match (r, q_body(old(self).tokens@, old(self).source@, old(self).current as int)) {
                (Ok(v), Ok((sv, q))) => v@ == sv && final(self).current == q && old(self).current < q,
                (Err(e), Err(m)) => e.message@ == m,
                _ => false,
            },
    {
        let mut body: Vec<Stmt> = Vec::new();
        self.consume(TokenType::LeftBrace, "Expected '{' to start function body")?;
        let stmt = self.parse_statement()?;
        body.push(stmt);
        self.consume(TokenType::RightBrace, "Expected '}' to end function body")?;
        assert(body@ =~= seq![stmt]);
        Ok(body)
    }

    fn parse_statement(&mut self) -> (r: Result<Stmt, ParserError>)
        requires
            old(self).inv(),
            old(self).current > 0,
            q_statement(old(self).tokens@, old(self).source@, old(self).current as int)
                != Err::<(Stmt, int), Seq<char>>(literal_without_value()),
        ensures
            final(self).inv(),
            final(self).tokens@ == old(self).tokens@,
            final(self).source@ == old(self).source@,
            match (r, q_statement(old(self).tokens@, old(self).source@, old(self).current as int)) {
                (Ok(s), Ok((ss, q))) => s == ss && final(self).current == q && old(self).current < q,
                (Err(e), Err(m)) => e.message@ == m,
                _ => false,
            },
    {
        let k = self.consume(TokenType::KeywordReturn, "Expected 'return' keyword")?;
        let keyword = self.tokens[k].duplicate();
        let value = self.parse_expression()?;
        self.consume(TokenType::Semicolon, "Expected ';' after return statement")?;
        Ok(Stmt::Return { keyword, value: Some(value) })
    }

    fn parse_expression(&mut self) -> (r: Result<Expr, ParserError>)
        requires
            old(self).inv(),
            old(self).current > 0,
            q_expression(old(self).tokens@, old(self).current as int)
                != Err::<(Expr, int), Seq<char>>(literal_without_value()),
        ensures
            final(self).inv(),
            final(self).tokens@ == old(self).tokens@,
            final(self).source@ == old(self).source@,
            match (r, q_expression(old(self).tokens@, old(self).current as int)) {
                (Ok(e), Ok((se, q))) => e == se && final(self).current == q && old(self).current < q,
                (Err(e), Err(m)) => e.message@ == m,
                _ => false,
            },
    {
        let start = self.current;
        if self.match_token(TokenType::LiteralInt) {
            match self.tokens[start].literal {
                Some(Value::Int(i)) => Ok(Expr::Literal(LiteralExpr::Integer(i))),
                None => {
                    proof {
                        assert(false);
                    }
                    Err(ParserError { message: owned("Internal Error: Literal token should have a value") })
                },
            }
        } else {
            Err(ParserError { message: owned("Expected an integer literal") })
        }
    }

    fn match_token(&mut self, t: TokenType) -> (r: bool)
        requires
            old(self).inv(),
        ensures
            final(self).inv(),
            final(self).tokens@ == old(self).tokens@,
            final(self).source@ == old(self).source@,
            r == check_at(old(self).tokens@, old(self).current as int, t),
            final(self).current == if r { old(self).current + 1 } else { old(self).current as int },
    {
        if self.check(t) {
            self.advance();
            true
        } else {
            false
        }
    }

    /// Reads a token of kind `t` and gives its index, or fails with
    /// `message` and the text of the token found.
    fn consume(&mut self, t: TokenType, message: &str) -> (r: Result<usize, ParserError>)
        requires
            old(self).inv(),
            old(self).current > 0 || check_at(old(self).tokens@, old(self).current as int, t),
        ensures
            final(self).inv(),
            final(self).tokens@ == old(self).tokens@,
            final(self).source@ == old(self).source@,
            match (r, q_consume(old(self).tokens@, old(self).source@, old(self).current as int, t, message@)) {
                (Ok(i), Ok(q)) => i == old(self).current && final(self).current == q,
                (Err(e), Err(m)) => e.message@ == m,
                _ => false,
            },
    {
        if self.check(t) {
            let i = self.current;
            self.advance();
            Ok(i)
        } else {
            let found = self.lexeme();
            let mut text = owned(message);
            push_str(&mut text, " (found '");
            push_str(&mut text, found.as_str());
            push_str(&mut text, "' instead)");
            Err(ParserError { message: text })
        }
    }

    /// The text of the next token.
    fn lexeme(&self) -> (r: String)
        requires
            self.inv(),
        ensures
            r@ == lexeme_at(self.tokens@, self.source@, self.current as int),
    {
        let t = &self.tokens[self.current];
        assert(is_char_range(
            self.source@,
            self.tokens@[self.current as int].lexeme_range.start as int,
            self.tokens@[self.current as int].lexeme_range.end as int,
        ));
        t.get_lexeme(self.source)
    }

    fn check(&self, t: TokenType) -> (r: bool)
        requires
            self.inv(),
        ensures
            r == check_at(self.tokens@, self.current as int, t),
    {
        if self.is_at_end() {
            return false;
        }
        self.tokens[self.current].token_type == t
    }

    /// Moves past a token that is not the end.
    fn advance(&mut self)
        requires
            old(self).inv(),
            !at_end(old(self).tokens@, old(self).current as int),
        ensures
            final(self).inv(),
            final(self).tokens@ == old(self).tokens@,
            final(self).source@ == old(self).source@,
            final(self).current == old(self).current + 1,
    {
        let _n = self.tokens.len();
        self.current = self.current + 1;
    }

    fn is_at_end(&self) -> (r: bool)
        requires
            self.inv(),
        ensures
            r == at_end(self.tokens@, self.current as int),
    {
        self.tokens[self.current].token_type == TokenType::Eof
    }
}

} // verus!
