//! The parser: a recursive-descent parser that turns the lexer's tokens into
//! an abstract syntax tree. Binary operators are parsed by precedence
//! climbing (Pratt parsing).
//!
//! The grammar, and the result of parsing any token sequence, is stated by
//! the spec functions `p_*` below; each parsing method is proved to compute
//! exactly what its spec function says, error messages included.

use vstd::prelude::*;
use crate::frontend::c_ast::{
    decl_view, decls_view, expr_view, exprs_view, for_init_view, fun_decl_view, fun_decls_view, item_view,
    items_view, opt_expr_view, opt_str_view, stmt_view, strs_view, var_decl_view,
    BinaryOp, Block, BlockItem, Declaration, Expression, ForInit, FunDecl, Program, SBlockItem,
    SDeclaration, SExpression, SForInit, SFunDecl, SProgram, SStatement, SVarDecl, Statement,
    UnaryOp, VarDecl,
};
use crate::lexer::{Token, TokenType, TokenView, token_views, is_ascii_digit, lex_from, lex_spec, scan_at, plain};
use crate::text::{chars_of, owned, push_str};

verus! {

// ---------------------------------------------------------------------------
// Specification
// ---------------------------------------------------------------------------

/// A parse result: the parsed value and the index of the next token, or an
/// error message.
pub type PResult<T> = Result<(T, int), Seq<char>>;

/// The name std's `Debug` gives a token kind.
pub open spec fn kind_name(t: TokenType) -> Seq<char> {
    match t {
        TokenType::Identifier => "Identifier"@,
        TokenType::Number => "Number"@,
        TokenType::Int => "Int"@,
        TokenType::Void => "Void"@,
        TokenType::Return => "Return"@,
        TokenType::If => "If"@,
        TokenType::Else => "Else"@,
        TokenType::Do => "Do"@,
        TokenType::While => "While"@,
        TokenType::For => "For"@,
        TokenType::Break => "Break"@,
        TokenType::Continue => "Continue"@,
        TokenType::LeftParen => "LeftParen"@,
        TokenType::RightParen => "RightParen"@,
        TokenType::LeftBrace => "LeftBrace"@,
        TokenType::RightBrace => "RightBrace"@,
        TokenType::Semicolon => "Semicolon"@,
        TokenType::Comma => "Comma"@,
        TokenType::QuestionMark => "QuestionMark"@,
        TokenType::Colon => "Colon"@,
        TokenType::Assignment => "Assignment"@,
        TokenType::Complement => "Complement"@,
        TokenType::Negate => "Negate"@,
        TokenType::Bang => "Bang"@,
        TokenType::Add => "Add"@,
        TokenType::Mul => "Mul"@,
        TokenType::Div => "Div"@,
        TokenType::Remainder => "Remainder"@,
        TokenType::And => "And"@,
        TokenType::Or => "Or"@,
        TokenType::EqualEqual => "EqualEqual"@,
        TokenType::BangEqual => "BangEqual"@,
        TokenType::Less => "Less"@,
        TokenType::LessEqual => "LessEqual"@,
        TokenType::Greater => "Greater"@,
        TokenType::GreaterEqual => "GreaterEqual"@,
        TokenType::Eof => "Eof"@,
    }
}

/// Every identifier token carries its name as its value.
pub open spec fn identifiers_named(ts: Seq<TokenView>) -> bool {
    forall|i: int| 0 <= i < ts.len() && #[trigger] ts[i].type_ == TokenType::Identifier ==> ts[i].value is Some
}

/// Tokens the parser can take: identifiers carry their names, and the list
/// ends with its only `Eof`.
pub open spec fn well_formed_tokens(ts: Seq<TokenView>) -> bool {
    &&& identifiers_named(ts)
    &&& ts.len() >= 1
    &&& ts.last().type_ == TokenType::Eof
    &&& forall|k: int| 0 <= k < ts.len() - 1 ==> #[trigger] ts[k].type_ != TokenType::Eof
}

proof fn lemma_scan_at_token(s: Seq<char>, i: int)
    requires
        0 <= i < s.len(),
        scan_at(s, i) matches Ok((Some(t), _)),
    ensures
        scan_at(s, i) matches Ok((Some(t), _)) && t.type_ != TokenType::Eof
            && (t.type_ == TokenType::Identifier ==> t.value is Some),
{
}

proof fn lemma_lex_from_well_formed(s: Seq<char>, i: int)
    requires
        lex_from(s, i) is Ok,
    ensures
        well_formed_tokens(lex_from(s, i)->Ok_0),
    decreases s.len() - i,
{
    if i < 0 || i >= s.len() {
        let ts = lex_from(s, i)->Ok_0;
        assert(ts == seq![plain(Seq::empty(), TokenType::Eof)]);
    } else {
        let (tok, j) = scan_at(s, i)->Ok_0;
        lemma_lex_from_well_formed(s, j);
        let rest = lex_from(s, j)->Ok_0;
        match tok {
            Some(t) => {
                lemma_scan_at_token(s, i);
                let ts = seq![t] + rest;
                assert(ts.last() == rest.last());
                assert forall|k: int| 0 <= k < ts.len() - 1 implies #[trigger] ts[k].type_ != TokenType::Eof by {
                    if k > 0 {
                        assert(ts[k] == rest[k - 1]);
                    }
                }
                assert forall|k: int| 0 <= k < ts.len() && #[trigger] ts[k].type_ == TokenType::Identifier implies ts[k].value is Some by {
                    if k > 0 {
                        assert(ts[k] == rest[k - 1]);
                    }
                }
            },
            None => {},
        }
    }
}

/// Whatever the lexer produces, the parser can take: identifiers carry their
/// names, the tokens end with a single `Eof`, `parse` accepts them, and any
/// error it gives on them is a syntax error.
pub proof fn lemma_lexed_tokens_well_formed(s: Seq<char>)
    requires
        lex_spec(s) is Ok,
    ensures
        well_formed_tokens(lex_spec(s)->Ok_0),
        parse_spec(lex_spec(s)->Ok_0) != Err::<SProgram, Seq<char>>(unnamed_parameter()),
        parse_spec(lex_spec(s)->Ok_0) is Err ==> is_syntax_error(parse_spec(lex_spec(s)->Ok_0)->Err_0),
{
    lemma_lex_from_well_formed(s, 0);
    lemma_parse_errors_are_syntax_errors(lex_spec(s)->Ok_0);
}

/// Whether the token at `pos` exists and is of kind `t`.
pub open spec fn kind_is(ts: Seq<TokenView>, pos: int, t: TokenType) -> bool {
    0 <= pos < ts.len() && ts[pos].type_ == t
}

pub open spec fn expected_got_message(expected: TokenType, got: TokenType) -> Seq<char> {
    "Syntax Error: Expected token "@ + kind_name(expected) + ", but got "@ + kind_name(got) + "."@
}

pub open spec fn expected_ended_message(expected: TokenType) -> Seq<char> {
    "Syntax Error: Expected token "@ + kind_name(expected) + ", but the input stream ended."@
}

/// Consuming a token of kind `t` at `pos`: the index after it, or the error.
pub open spec fn p_consume(ts: Seq<TokenView>, pos: int, t: TokenType) -> Result<int, Seq<char>> {
    if 0 <= pos < ts.len() {
        if ts[pos].type_ == t {
            Ok(pos + 1)
        } else {
            Err(expected_got_message(t, ts[pos].type_))
        }
    } else {
        Err(expected_ended_message(t))
    }
}

/// The precedence of a token kind used as an infix operator.
pub open spec fn infix_precedence(t: TokenType) -> Option<i32> {
    match t {
        TokenType::Assignment => Some(10i32),
        TokenType::QuestionMark => Some(15i32),
        TokenType::Or => Some(20i32),
        TokenType::And => Some(30i32),
        TokenType::EqualEqual | TokenType::BangEqual => Some(40i32),
        TokenType::Greater | TokenType::GreaterEqual | TokenType::Less | TokenType::LessEqual => Some(50i32),
        TokenType::Add | TokenType::Negate => Some(60i32),
        TokenType::Mul | TokenType::Div | TokenType::Remainder => Some(70i32),
        _ => None,
    }
}

/// The precedence with which a prefix operator binds its operand.
pub open spec fn prefix_precedence(t: TokenType) -> Option<i32> {
    match t {
        TokenType::Negate | TokenType::Complement | TokenType::Bang => Some(80i32),
        _ => None,
    }
}

/// The binary operator a token kind stands for in infix position.
pub open spec fn binary_op_of(t: TokenType) -> Result<BinaryOp, Seq<char>> {
    match t {
        TokenType::Add => Ok(BinaryOp::Add),
        TokenType::Negate => Ok(BinaryOp::Subtract),
        TokenType::Mul => Ok(BinaryOp::Multiply),
        TokenType::Div => Ok(BinaryOp::Divide),
        TokenType::Remainder => Ok(BinaryOp::Remainder),
        TokenType::And => Ok(BinaryOp::And),
        TokenType::Or => Ok(BinaryOp::Or),
        TokenType::BangEqual => Ok(BinaryOp::BangEqual),
        TokenType::EqualEqual => Ok(BinaryOp::EqualEqual),
        TokenType::Greater => Ok(BinaryOp::Greater),
        TokenType::GreaterEqual => Ok(BinaryOp::GreaterEqual),
        TokenType::Less => Ok(BinaryOp::Less),
        TokenType::LessEqual => Ok(BinaryOp::LessEqual),
        _ => Err("Internal Error: Cannot convert "@ + kind_name(t) + " to a binary operator."@),
    }
}

/// The unary operator a token kind stands for in prefix position.
pub open spec fn unary_op_of(t: TokenType) -> Result<UnaryOp, Seq<char>> {
    match t {
        TokenType::Negate => Ok(UnaryOp::Negate),
        TokenType::Complement => Ok(UnaryOp::Complement),
        TokenType::Bang => Ok(UnaryOp::Not),
        _ => Err("Internal Error: Cannot convert "@ + kind_name(t) + " to a unary operator."@),
    }
}

pub open spec fn empty_int_message() -> Seq<char> {
    "cannot parse integer from empty string"@
}

pub open spec fn invalid_digit_message() -> Seq<char> {
    "invalid digit found in string"@
}

pub open spec fn pos_overflow_message() -> Seq<char> {
    "number too large to fit in target type"@
}

pub open spec fn neg_overflow_message() -> Seq<char> {
    "number too small to fit in target type"@
}

/// The value of a decimal digit character.
pub open spec fn digit_value(c: char) -> int {
    (c as u32) - ('0' as u32)
}

/// Reading the digits of `s` from `i` on into the running value `acc`, as std's
/// `i64` parsing does: the first non-digit, or the first step out of range, is
/// the error.
pub open spec fn accumulate_i64(s: Seq<char>, i: int, acc: int, negative: bool) -> Result<i64, Seq<char>>
    decreases s.len() - i,
{
    if i < 0 || i >= s.len() {
        Ok(acc as i64)
    } else if !is_ascii_digit(s[i]) {
        Err(invalid_digit_message())
    } else if negative {
        let v = acc * 10 - digit_value(s[i]);
        if v < i64::MIN {
            Err(neg_overflow_message())
        } else {
            accumulate_i64(s, i + 1, v, negative)
        }
    } else {
        let v = acc * 10 + digit_value(s[i]);
        if v > i64::MAX {
            Err(pos_overflow_message())
        } else {
            accumulate_i64(s, i + 1, v, negative)
        }
    }
}

/// std's `str::parse::<i64>`: an optional sign, then decimal digits.
pub open spec fn i64_from_text(s: Seq<char>) -> Result<i64, Seq<char>> {
    if s.len() == 0 {
        Err(empty_int_message())
    } else if (s[0] == '+' || s[0] == '-') && s.len() == 1 {
        Err(invalid_digit_message())
    } else if s[0] == '+' {
        accumulate_i64(s, 1, 0, false)
    } else if s[0] == '-' {
        accumulate_i64(s, 1, 0, true)
    } else {
        accumulate_i64(s, 0, 0, false)
    }
}

/// A position returned by a sub-parse that lies after `pos` and inside the tokens.
pub open spec fn advanced(ts: Seq<TokenView>, pos: int, q: int) -> bool {
    pos < q <= ts.len()
}

/// Where parsing stops on a parameter token that carries no name. `parse`
/// has no result for such tokens; `try_parse` answers `None` for them.
pub open spec fn unnamed_parameter() -> Seq<char> {
    "Internal Error: Parameter token is missing a name"@
}

pub open spec fn no_progress() -> Seq<char> {
    Seq::empty()
}

/// `<prefix>`: a number, a variable, a call, a parenthesized expression, or a
/// unary operator applied to an expression.
pub open spec fn p_prefix(ts: Seq<TokenView>, pos: int) -> PResult<SExpression>
    decreases ts.len() - pos, 1int,
{
    if pos < 0 || pos >= ts.len() {
        Err("Syntax Error: Expected an expression, but found end of input."@)
    } else {
        let tok = ts[pos];
        let t = tok.type_;
        if t == TokenType::Number {
            match i64_from_text(tok.lexeme) {
                Ok(v) => Ok((SExpression::Constant(v), pos + 1)),
                Err(m) => Err("Syntax Error: Invalid number format: "@ + m),
            }
        } else if t == TokenType::Identifier {
            match tok.value {
                None => Err("Internal Error: Identifier token is missing a name"@),
                Some(name) => if kind_is(ts, pos + 1, TokenType::LeftParen) {
                    match p_arguments(ts, pos + 2) {
                        Err(m) => Err(m),
                        Ok((args, q)) => if q < pos || q > ts.len() {
                            Err(no_progress())
                        } else {
                            match p_consume(ts, q, TokenType::RightParen) {
                                Err(m) => Err(m),
                                Ok(q2) => Ok((SExpression::FuncCall { name, args }, q2)),
                            }
                        },
                    }
                } else {
                    Ok((SExpression::Var(name), pos + 1))
                },
            }
        } else if t == TokenType::LeftParen {
            match p_exp(ts, pos + 1, 0) {
                Err(m) => Err(m),
                Ok((e, q)) => match p_consume(ts, q, TokenType::RightParen) {
                    Err(m) => Err(m),
                    Ok(q2) => Ok((e, q2)),
                },
            }
        } else if t == TokenType::Negate || t == TokenType::Complement || t == TokenType::Bang {
            match unary_op_of(t) {
                Err(m) => Err(m),
                Ok(op) => match p_exp(ts, pos + 1, prefix_precedence(t)->0) {
                    Err(m) => Err(m),
                    Ok((e, q)) => Ok((SExpression::Unary { op, exp: Box::new(e) }, q)),
                },
            }
        } else {
            Err("Syntax Error: Expected an expression prefix (like a number, variable, or '('), but found "@
                + kind_name(t) + "."@)
        }
    }
}

/// `<exp>` at least as tight as `min_prec`: a prefix, then infix operators.
pub open spec fn p_exp(ts: Seq<TokenView>, pos: int, min_prec: i32) -> PResult<SExpression>
    decreases ts.len() - pos, 2int,
{
    match p_prefix(ts, pos) {
        Err(m) => Err(m),
        Ok((left, q)) => if !advanced(ts, pos, q) {
            Err(no_progress())
        } else {
            p_exp_loop(ts, q, min_prec, left)
        },
    }
}

/// The infix loop of `p_exp`: extends `left` with operators at `pos` whose
/// precedence is at least `min_prec`.
pub open spec fn p_exp_loop(ts: Seq<TokenView>, pos: int, min_prec: i32, left: SExpression) -> PResult<SExpression>
    decreases ts.len() - pos, 0int,
{
    if pos < 0 || pos >= ts.len() {
        Ok((left, pos))
    } else {
        let t = ts[pos].type_;
        match infix_precedence(t) {
            None => Ok((left, pos)),
            Some(prec) => if prec < min_prec {
                Ok((left, pos))
            } else if t == TokenType::QuestionMark {
                match p_exp(ts, pos + 1, 0) {
                    Err(m) => Err(m),
                    Ok((then_e, q)) => match p_consume(ts, q, TokenType::Colon) {
                        Err(m) => Err(m),
                        Ok(q2) => if !advanced(ts, pos, q2) {
                            Err(no_progress())
                        } else {
                            match p_exp(ts, q2, prec) {
                                Err(m) => Err(m),
                                Ok((else_e, q3)) => if !advanced(ts, pos, q3) {
                                    Err(no_progress())
                                } else {
                                    p_exp_loop(ts, q3, min_prec, SExpression::Conditional {
                                        condition: Box::new(left),
                                        left: Box::new(then_e),
                                        right: Box::new(else_e),
                                    })
                                },
                            }
                        },
                    },
                }
            } else if t == TokenType::Assignment {
                match p_exp(ts, pos + 1, prec) {
                    Err(m) => Err(m),
                    Ok((right, q)) => if !advanced(ts, pos, q) {
                        Err(no_progress())
                    } else {
                        p_exp_loop(ts, q, min_prec, SExpression::Assignment {
                            left: Box::new(left),
                            right: Box::new(right),
                        })
                    },
                }
            } else {
                match binary_op_of(t) {
                    Err(m) => Err(m),
                    Ok(op) => match p_exp(ts, pos + 1, (prec + 1) as i32) {
                        Err(m) => Err(m),
                        Ok((right, q)) => if !advanced(ts, pos, q) {
                            Err(no_progress())
                        } else {
                            p_exp_loop(ts, q, min_prec, SExpression::Binary {
                                op,
                                left: Box::new(left),
                                right: Box::new(right),
                            })
                        },
                    },
                }
            },
        }
    }
}

/// `<argument-list>`: empty before `)`, else expressions separated by commas.
pub open spec fn p_arguments(ts: Seq<TokenView>, pos: int) -> PResult<Seq<SExpression>>
    decreases ts.len() - pos, 4int,
{
    if kind_is(ts, pos, TokenType::RightParen) {
        Ok((Seq::empty(), pos))
    } else {
        p_argument_list(ts, pos, Seq::empty())
    }
}

/// The loop of `p_arguments`, with the arguments read so far.
pub open spec fn p_argument_list(ts: Seq<TokenView>, pos: int, acc: Seq<SExpression>) -> PResult<Seq<SExpression>>
    decreases ts.len() - pos, 3int,
{
    match p_exp(ts, pos, 0) {
        Err(m) => Err(m),
        Ok((e, q)) => if !advanced(ts, pos, q) {
            Err(no_progress())
        } else if kind_is(ts, q, TokenType::Comma) {
            p_argument_list(ts, q + 1, acc.push(e))
        } else {
            Ok((acc.push(e), q))
        },
    }
}

/// `<var-decl-remainder>`: `["=" <exp>] ";"`, after `int <name>`.
pub open spec fn p_var_remainder(ts: Seq<TokenView>, pos: int, name: Seq<char>) -> PResult<SVarDecl>
    decreases ts.len() - pos, 3int,
{
    if kind_is(ts, pos, TokenType::Assignment) {
        match p_exp(ts, pos + 1, 0) {
            Err(m) => Err(m),
            Ok((e, q)) => match p_consume(ts, q, TokenType::Semicolon) {
                Err(m) => Err(m),
                Ok(q2) => Ok((SVarDecl { name, init: Some(e), storage_class: None }, q2)),
            },
        }
    } else {
        match p_consume(ts, pos, TokenType::Semicolon) {
            Err(m) => Err(m),
            Ok(q2) => Ok((SVarDecl { name, init: None, storage_class: None }, q2)),
        }
    }
}

/// The parameters after `(`: `void`, nothing, or `int <name> {, int <name>}`.
pub open spec fn p_params(ts: Seq<TokenView>, pos: int) -> PResult<Seq<Seq<char>>> {
    if kind_is(ts, pos, TokenType::Void) {
        Ok((Seq::empty(), pos + 1))
    } else if kind_is(ts, pos, TokenType::RightParen) {
        Ok((Seq::empty(), pos))
    } else {
        p_param_list(ts, pos, Seq::empty())
    }
}

/// One `int <name>` and the ones after it, with the names read so far.
pub open spec fn p_param_list(ts: Seq<TokenView>, pos: int, acc: Seq<Seq<char>>) -> PResult<Seq<Seq<char>>>
    decreases ts.len() - pos,
{
    match p_consume(ts, pos, TokenType::Int) {
        Err(m) => Err(m),
        Ok(q) => match p_consume(ts, q, TokenType::Identifier) {
            Err(m) => Err(m),
            Ok(q2) => match ts[q].value {
                None => Err(unnamed_parameter()),
                Some(n) => {
                    let names = acc.push(n);
                    if kind_is(ts, q2, TokenType::Comma) {
                        p_param_list(ts, q2 + 1, names)
                    } else {
                        Ok((names, q2))
                    }
                },
            },
        },
    }
}

/// `<func-decl-remainder>`: `"(" <params> ")" (";" | <block>)`, after `int <name>`.
pub open spec fn p_function_remainder(ts: Seq<TokenView>, pos: int, name: Seq<char>) -> PResult<SFunDecl>
    decreases ts.len() - pos, 0int,
{
    match p_consume(ts, pos, TokenType::LeftParen) {
        Err(m) => Err(m),
        Ok(q) => match p_params(ts, q) {
            Err(m) => Err(m),
            Ok((params, q2)) => match p_consume(ts, q2, TokenType::RightParen) {
                Err(m) => Err(m),
                Ok(q3) => if !advanced(ts, pos, q3) {
                    Err(no_progress())
                } else if kind_is(ts, q3, TokenType::Semicolon) {
                    Ok((SFunDecl { name, parameters: params, body: None, storage_class: None }, q3 + 1))
                } else {
                    match p_block(ts, q3) {
                        Err(m) => Err(m),
                        Ok((body, q4)) => Ok((SFunDecl {
                            name,
                            parameters: params,
                            body: Some(body),
                            storage_class: None,
                        }, q4)),
                    }
                },
            },
        },
    }
}

/// `<declaration>`: `"int" <identifier>` and a function or variable remainder.
pub open spec fn p_declaration(ts: Seq<TokenView>, pos: int) -> PResult<SDeclaration>
    decreases ts.len() - pos, 2int,
{
    match p_consume(ts, pos, TokenType::Int) {
        Err(m) => Err(m),
        Ok(q) => match p_consume(ts, q, TokenType::Identifier) {
            Err(m) => Err(m),
            Ok(q2) => match ts[q].value {
                None => Err("Syntax Error: Expected a name for the identifier, but it was missing."@),
                Some(name) => if kind_is(ts, q2, TokenType::LeftParen) {
                    match p_function_remainder(ts, q2, name) {
                        Err(m) => Err(m),
                        Ok((f, q3)) => Ok((SDeclaration::Fun(f), q3)),
                    }
                } else {
                    match p_var_remainder(ts, q2, name) {
                        Err(m) => Err(m),
                        Ok((v, q3)) => Ok((SDeclaration::Variable(v), q3)),
                    }
                },
            },
        },
    }
}

/// `<block>`: `"{" {<block-item>} "}"`.
pub open spec fn p_block(ts: Seq<TokenView>, pos: int) -> PResult<Seq<SBlockItem>>
    decreases ts.len() - pos, 1int,
{
    match p_consume(ts, pos, TokenType::LeftBrace) {
        Err(m) => Err(m),
        Ok(q) => p_block_items(ts, q, Seq::empty()),
    }
}

/// The items of a block up to and including its `}`, with the items read so far.
pub open spec fn p_block_items(ts: Seq<TokenView>, pos: int, acc: Seq<SBlockItem>) -> PResult<Seq<SBlockItem>>
    decreases ts.len() - pos, 5int,
{
    if kind_is(ts, pos, TokenType::RightBrace) {
        Ok((acc, pos + 1))
    } else {
        match p_block_item(ts, pos) {
            Err(m) => Err(m),
            Ok((item, q)) => if !advanced(ts, pos, q) {
                Err(no_progress())
            } else {
                p_block_items(ts, q, acc.push(item))
            },
        }
    }
}

/// `<block-item>`: a declaration when it starts with `int`, else a statement.
pub open spec fn p_block_item(ts: Seq<TokenView>, pos: int) -> PResult<SBlockItem>
    decreases ts.len() - pos, 4int,
{
    if kind_is(ts, pos, TokenType::Int) {
        match p_declaration(ts, pos) {
            Err(m) => Err(m),
            Ok((d, q)) => Ok((SBlockItem::D(d), q)),
        }
    } else {
        match p_statement(ts, pos) {
            Err(m) => Err(m),
            Ok((s, q)) => Ok((SBlockItem::S(s), q)),
        }
    }
}

/// `<for-init>`: a variable declaration, an empty `;`, or `<exp> ";"`.
pub open spec fn p_for_init(ts: Seq<TokenView>, pos: int) -> PResult<SForInit>
    decreases ts.len() - pos, 3int,
{
    if kind_is(ts, pos, TokenType::Int) {
        match p_declaration(ts, pos) {
            Err(m) => Err(m),
            Ok((SDeclaration::Variable(v), q)) => Ok((SForInit::InitDecl(v), q)),
            Ok((SDeclaration::Fun(_), _)) => Err(
                "Syntax Error: Function declaration is not allowed in a for-loop initializer."@,
            ),
        }
    } else if kind_is(ts, pos, TokenType::Semicolon) {
        Ok((SForInit::InitExp(None), pos + 1))
    } else {
        match p_exp(ts, pos, 0) {
            Err(m) => Err(m),
            Ok((e, q)) => match p_consume(ts, q, TokenType::Semicolon) {
                Err(m) => Err(m),
                Ok(q2) => Ok((SForInit::InitExp(Some(e)), q2)),
            },
        }
    }
}

/// The label that `break` and `continue` carry until loops are labeled.
pub open spec fn placeholder_label() -> Seq<char> {
    "fakelabel"@
}

/// `<statement>`.
pub open spec fn p_statement(ts: Seq<TokenView>, pos: int) -> PResult<SStatement>
    decreases ts.len() - pos, 3int,
{
    if kind_is(ts, pos, TokenType::Return) {
        match p_exp(ts, pos + 1, 0) {
            Err(m) => Err(m),
            Ok((e, q)) => match p_consume(ts, q, TokenType::Semicolon) {
                Err(m) => Err(m),
                Ok(q2) => Ok((SStatement::Return(e), q2)),
            },
        }
    } else if kind_is(ts, pos, TokenType::If) {
        match p_consume(ts, pos + 1, TokenType::LeftParen) {
            Err(m) => Err(m),
            Ok(q) => match p_exp(ts, q, 0) {
                Err(m) => Err(m),
                Ok((c, q2)) => match p_consume(ts, q2, TokenType::RightParen) {
                    Err(m) => Err(m),
                    Ok(q3) => if !advanced(ts, pos, q3) {
                        Err(no_progress())
                    } else {
                        match p_statement(ts, q3) {
                            Err(m) => Err(m),
                            Ok((then_s, q4)) => if !advanced(ts, pos, q4) {
                                Err(no_progress())
                            } else if kind_is(ts, q4, TokenType::Else) {
                                match p_statement(ts, q4 + 1) {
                                    Err(m) => Err(m),
                                    Ok((else_s, q5)) => Ok((SStatement::If {
                                        condition: c,
                                        then_stmt: Box::new(then_s),
                                        else_stmt: Some(Box::new(else_s)),
                                    }, q5)),
                                }
                            } else {
                                Ok((SStatement::If { condition: c, then_stmt: Box::new(then_s), else_stmt: None }, q4))
                            },
                        }
                    },
                },
            },
        }
    } else if kind_is(ts, pos, TokenType::LeftBrace) {
        match p_block(ts, pos) {
            Err(m) => Err(m),
            Ok((b, q)) => Ok((SStatement::Compound(b), q)),
        }
    } else if kind_is(ts, pos, TokenType::While) {
        match p_consume(ts, pos + 1, TokenType::LeftParen) {
            Err(m) => Err(m),
            Ok(q) => match p_exp(ts, q, 0) {
                Err(m) => Err(m),
                Ok((c, q2)) => match p_consume(ts, q2, TokenType::RightParen) {
                    Err(m) => Err(m),
                    Ok(q3) => if !advanced(ts, pos, q3) {
                        Err(no_progress())
                    } else {
                        match p_statement(ts, q3) {
                            Err(m) => Err(m),
                            Ok((body, q4)) => Ok((SStatement::While { condition: c, body: Box::new(body), label: None }, q4)),
                        }
                    },
                },
            },
        }
    } else if kind_is(ts, pos, TokenType::Do) {
        match p_statement(ts, pos + 1) {
            Err(m) => Err(m),
            Ok((body, q)) => match p_consume(ts, q, TokenType::While) {
                Err(m) => Err(m),
                Ok(q2) => match p_consume(ts, q2, TokenType::LeftParen) {
                    Err(m) => Err(m),
                    Ok(q3) => if !advanced(ts, pos, q3) {
                        Err(no_progress())
                    } else {
                        match p_exp(ts, q3, 0) {
                            Err(m) => Err(m),
                            Ok((c, q4)) => match p_consume(ts, q4, TokenType::RightParen) {
                                Err(m) => Err(m),
                                Ok(q5) => match p_consume(ts, q5, TokenType::Semicolon) {
                                    Err(m) => Err(m),
                                    Ok(q6) => Ok((SStatement::DoWhile { body: Box::new(body), condition: c, label: None }, q6)),
                                },
                            },
                        }
                    },
                },
            },
        }
    } else if kind_is(ts, pos, TokenType::For) {
        match p_consume(ts, pos + 1, TokenType::LeftParen) {
            Err(m) => Err(m),
            Ok(q) => match p_for_init(ts, q) {
                Err(m) => Err(m),
                Ok((init, q2)) => if !advanced(ts, pos, q2) {
                    Err(no_progress())
                } else {
                    match p_for_condition(ts, q2) {
                        Err(m) => Err(m),
                        Ok((cond, q3)) => if !advanced(ts, pos, q3) {
                            Err(no_progress())
                        } else {
                            match p_for_post(ts, q3) {
                                Err(m) => Err(m),
                                Ok((post, q4)) => if !advanced(ts, pos, q4) {
                                    Err(no_progress())
                                } else {
                                    match p_statement(ts, q4) {
                                        Err(m) => Err(m),
                                        Ok((body, q5)) => Ok((SStatement::For {
                                            init,
                                            condition: cond,
                                            post,
                                            body: Box::new(body),
                                            label: None,
                                        }, q5)),
                                    }
                                },
                            }
                        },
                    }
                },
            },
        }
    } else if kind_is(ts, pos, TokenType::Break) {
        match p_consume(ts, pos + 1, TokenType::Semicolon) {
            Err(m) => Err(m),
            Ok(q) => Ok((SStatement::Break(placeholder_label()), q)),
        }
    } else if kind_is(ts, pos, TokenType::Continue) {
        match p_consume(ts, pos + 1, TokenType::Semicolon) {
            Err(m) => Err(m),
            Ok(q) => Ok((SStatement::Continue(placeholder_label()), q)),
        }
    } else if kind_is(ts, pos, TokenType::Semicolon) {
        Ok((SStatement::Null, pos + 1))
    } else {
        match p_exp(ts, pos, 0) {
            Err(m) => Err(m),
            Ok((e, q)) => match p_consume(ts, q, TokenType::Semicolon) {
                Err(m) => Err(m),
                Ok(q2) => Ok((SStatement::Expression(e), q2)),
            },
        }
    }
}

/// The condition of a `for` loop: empty `;` or `<exp> ";"`.
pub open spec fn p_for_condition(ts: Seq<TokenView>, pos: int) -> PResult<Option<SExpression>>
    decreases ts.len() - pos, 3int,
{
    if kind_is(ts, pos, TokenType::Semicolon) {
        Ok((None, pos + 1))
    } else {
        match p_exp(ts, pos, 0) {
            Err(m) => Err(m),
            Ok((e, q)) => match p_consume(ts, q, TokenType::Semicolon) {
                Err(m) => Err(m),
                Ok(q2) => Ok((Some(e), q2)),
            },
        }
    }
}

/// The post-expression of a `for` loop: empty `)` or `<exp> ")"`.
pub open spec fn p_for_post(ts: Seq<TokenView>, pos: int) -> PResult<Option<SExpression>>
    decreases ts.len() - pos, 3int,
{
    if kind_is(ts, pos, TokenType::RightParen) {
        Ok((None, pos + 1))
    } else {
        match p_exp(ts, pos, 0) {
            Err(m) => Err(m),
            Ok((e, q)) => match p_consume(ts, q, TokenType::RightParen) {
                Err(m) => Err(m),
                Ok(q2) => Ok((Some(e), q2)),
            },
        }
    }
}

/// `<program>`: declarations of functions and variables up to `Eof`, with
/// those read so far.
pub open spec fn p_program(ts: Seq<TokenView>, pos: int, acc: Seq<SDeclaration>) -> Result<SProgram, Seq<char>>
    decreases ts.len() - pos,
{
    if kind_is(ts, pos, TokenType::Eof) {
        Ok(SProgram { declarations: acc })
    } else {
        match p_declaration(ts, pos) {
            Err(m) => Err(m),
            Ok((d, q)) => if !advanced(ts, pos, q) {
                Err(no_progress())
            } else {
                p_program(ts, q, acc.push(d))
            },
        }
    }
}

/// The parser's result on a token sequence.
pub open spec fn parse_spec(ts: Seq<TokenView>) -> Result<SProgram, Seq<char>> {
    p_program(ts, 0, Seq::empty())
}


// ---------------------------------------------------------------------------
// Implementation
// ---------------------------------------------------------------------------

/// The parser: the tokens, and the index of the next one to read.
#[derive(Debug)]
pub struct Parser {
    tokens: Vec<Token>,
    pos: usize,
}

fn kind_name_string(t: TokenType) -> (r: String)
    ensures
        r@ == kind_name(t),
{
    match t {
        TokenType::Identifier => owned("Identifier"),
        TokenType::Number => owned("Number"),
        TokenType::Int => owned("Int"),
        TokenType::Void => owned("Void"),
        TokenType::Return => owned("Return"),
        TokenType::If => owned("If"),
        TokenType::Else => owned("Else"),
        TokenType::Do => owned("Do"),
        TokenType::While => owned("While"),
        TokenType::For => owned("For"),
        TokenType::Break => owned("Break"),
        TokenType::Continue => owned("Continue"),
        TokenType::LeftParen => owned("LeftParen"),
        TokenType::RightParen => owned("RightParen"),
        TokenType::LeftBrace => owned("LeftBrace"),
        TokenType::RightBrace => owned("RightBrace"),
        TokenType::Semicolon => owned("Semicolon"),
        TokenType::Comma => owned("Comma"),
        TokenType::QuestionMark => owned("QuestionMark"),
        TokenType::Colon => owned("Colon"),
        TokenType::Assignment => owned("Assignment"),
        TokenType::Complement => owned("Complement"),
        TokenType::Negate => owned("Negate"),
        TokenType::Bang => owned("Bang"),
        TokenType::Add => owned("Add"),
        TokenType::Mul => owned("Mul"),
        TokenType::Div => owned("Div"),
        TokenType::Remainder => owned("Remainder"),
        TokenType::And => owned("And"),
        TokenType::Or => owned("Or"),
        TokenType::EqualEqual => owned("EqualEqual"),
        TokenType::BangEqual => owned("BangEqual"),
        TokenType::Less => owned("Less"),
        TokenType::LessEqual => owned("LessEqual"),
        TokenType::Greater => owned("Greater"),
        TokenType::GreaterEqual => owned("GreaterEqual"),
        TokenType::Eof => owned("Eof"),
    }
}

/// `prefix`, the kind's name, then `suffix`.
fn around_kind(prefix: &str, t: TokenType, suffix: &str) -> (r: String)
    ensures
        r@ == prefix@ + kind_name(t) + suffix@,
{
    let mut r = owned(prefix);
    let k = kind_name_string(t);
    push_str(&mut r, k.as_str());
    push_str(&mut r, suffix);
    r
}

fn get_infix_precedence(t: TokenType) -> (r: Option<i32>)
    ensures
        r == infix_precedence(t),
{
    match t {
        TokenType::Assignment => Some(10),
        TokenType::QuestionMark => Some(15),
        TokenType::Or => Some(20),
        TokenType::And => Some(30),
        TokenType::EqualEqual | TokenType::BangEqual => Some(40),
        TokenType::Greater | TokenType::GreaterEqual | TokenType::Less | TokenType::LessEqual => Some(50),
        TokenType::Add | TokenType::Negate => Some(60),
        TokenType::Mul | TokenType::Div | TokenType::Remainder => Some(70),
        _ => None,
    }
}

fn get_prefix_precedence(t: TokenType) -> (r: Option<i32>)
    ensures
        r == prefix_precedence(t),
{
    match t {
        TokenType::Negate | TokenType::Complement | TokenType::Bang => Some(80),
        _ => None,
    }
}

fn to_binary_op(t: TokenType) -> (r: Result<BinaryOp, String>)
    ensures
        match (r, binary_op_of(t)) {
            (Ok(a), Ok(b)) => a == b,
            (Err(m), Err(n)) => m@ == n,
            _ => false,
        },
{
    match t {
        TokenType::Add => Ok(BinaryOp::Add),
        TokenType::Negate => Ok(BinaryOp::Subtract),
        TokenType::Mul => Ok(BinaryOp::Multiply),
        TokenType::Div => Ok(BinaryOp::Divide),
        TokenType::Remainder => Ok(BinaryOp::Remainder),
        TokenType::And => Ok(BinaryOp::And),
        TokenType::Or => Ok(BinaryOp::Or),
        TokenType::BangEqual => Ok(BinaryOp::BangEqual),
        TokenType::EqualEqual => Ok(BinaryOp::EqualEqual),
        TokenType::Greater => Ok(BinaryOp::Greater),
        TokenType::GreaterEqual => Ok(BinaryOp::GreaterEqual),
        TokenType::Less => Ok(BinaryOp::Less),
        TokenType::LessEqual => Ok(BinaryOp::LessEqual),
        _ => Err(around_kind("Internal Error: Cannot convert ", t, " to a binary operator.")),
    }
}

fn to_unary_op(t: TokenType) -> (r: Result<UnaryOp, String>)
    ensures
        match (r, unary_op_of(t)) {
            (Ok(a), Ok(b)) => a == b,
            (Err(m), Err(n)) => m@ == n,
            _ => false,
        },
{
    match t {
        TokenType::Negate => Ok(UnaryOp::Negate),
        TokenType::Complement => Ok(UnaryOp::Complement),
        TokenType::Bang => Ok(UnaryOp::Not),
        _ => Err(around_kind("Internal Error: Cannot convert ", t, " to a unary operator.")),
    }
}

/// std's `str::parse::<i64>` on a token's text, with std's error messages.
pub fn parse_i64_text(text: &String) -> (r: Result<i64, String>)
    ensures
        match (r, i64_from_text(text@)) {
            (Ok(a), Ok(b)) => a == b,
            (Err(m), Err(n)) => m@ == n,
            _ => false,
        },
{
    let cs = chars_of(text.as_str());
    let n = cs.len();
    if n == 0 {
        return Err(owned("cannot parse integer from empty string"));
    }
    if (cs[0] == '+' || cs[0] == '-') && n == 1 {
        return Err(owned("invalid digit found in string"));
    }
    let negative = cs[0] == '-';
    let mut i: usize = if cs[0] == '+' || cs[0] == '-' { 1 } else { 0 };
    let mut acc: i64 = 0;
    let ghost start = i as int;
    while i < n
        invariant
            cs@ == text@,
            n == cs@.len(),
            n > 0,
            negative == (cs@[0] == '-'),
            i <= n,
            negative ==> acc <= 0,
            !negative ==> acc >= 0,
            i64_from_text(text@) == accumulate_i64(cs@, i as int, acc as int, negative),
        decreases n - i,
    {
        let c = cs[i];
        if !('0' <= c && c <= '9') {
            return Err(owned("invalid digit found in string"));
        }
        let d: i128 = (c as u32 - '0' as u32) as i128;
        proof {
            assert(d == digit_value(c));
        }
        if negative {
            let v: i128 = acc as i128 * 10 - d;
            if v < i64::MIN as i128 {
                return Err(owned("number too small to fit in target type"));
            }
            acc = v as i64;
        } else {
            let v: i128 = acc as i128 * 10 + d;
            if v > i64::MAX as i128 {
                return Err(owned("number too large to fit in target type"));
            }
            acc = v as i64;
        }
        i += 1;
    }
    Ok(acc)
}

impl Parser {
    /// The tokens being parsed.
    pub closed spec fn token_seq(&self) -> Seq<TokenView> {
        token_views(self.tokens@)
    }

    /// The index of the next token to read.
    pub closed spec fn position(&self) -> int {
        self.pos as int
    }

    closed spec fn inv(&self) -> bool {
        self.pos <= self.tokens@.len() <= usize::MAX
    }

    proof fn lemma_view_at(&self, i: int)
        requires
            0 <= i < self.tokens@.len(),
        ensures
            self.token_seq()[i] == self.tokens@[i]@,
            self.token_seq().len() == self.tokens@.len(),
    {
    }

    /// Creates a parser that reads `tokens` from the first one.
    pub fn new(tokens: Vec<Token>) -> (r: Self)
        ensures
            r.token_seq() == token_views(tokens@),
            r.position() == 0,
    {
        let _n = tokens.len();
        Parser { tokens, pos: 0 }
    }

    fn peek_kind(&self) -> (r: Option<TokenType>)
        requires
            self.inv(),
        ensures
            match r {
                Some(t) => 0 <= self.pos < self.token_seq().len() && self.pos < self.tokens@.len()
                    && self.token_seq()[self.pos as int].type_ == t,
                None => self.pos >= self.token_seq().len() && self.pos >= self.tokens@.len(),
            },
    {
        if self.pos < self.tokens.len() {
            proof { self.lemma_view_at(self.pos as int); }
            Some(self.tokens[self.pos].type_)
        } else {
            None
        }
    }

    fn check(&self, t: TokenType) -> (r: bool)
        requires
            self.inv(),
        ensures
            r == kind_is(self.token_seq(), self.pos as int, t),
    {
        match self.peek_kind() {
            Some(k) => k == t,
            None => false,
        }
    }

    fn match_token(&mut self, t: TokenType) -> (r: bool)
        requires
            old(self).inv(),
        ensures
            final(self).inv(),
            final(self).tokens@ == old(self).tokens@,
            r == kind_is(old(self).token_seq(), old(self).pos as int, t),
            final(self).pos == if r { old(self).pos + 1 } else { old(self).pos as int },
    {
        if self.check(t) {
            self.pos = self.pos + 1;
            true
        } else {
            false
        }
    }

    /// Consumes a token of kind `t`; on success returns its index.
    fn consume(&mut self, t: TokenType) -> (r: Result<usize, String>)
        requires
            old(self).inv(),
        ensures
            final(self).inv(),
            final(self).tokens@ == old(self).tokens@,
            match (r, p_consume(old(self).token_seq(), old(self).pos as int, t)) {
                (Ok(i), Ok(q)) => i == old(self).pos && final(self).pos == q,
                (Err(m), Err(n)) => m@ == n,
                _ => false,
            },
    {
        proof { if self.pos < self.tokens@.len() { self.lemma_view_at(self.pos as int); } }
        match self.peek_kind() {
            Some(k) => {
                if k == t {
                    let i = self.pos;
                    self.pos = self.pos + 1;
                    Ok(i)
                } else {
                    let mut m = around_kind("Syntax Error: Expected token ", t, ", but got ");
                    let got = kind_name_string(k);
                    push_str(&mut m, got.as_str());
                    push_str(&mut m, ".");
                    proof {
                        assert(m@ =~= expected_got_message(t, k));
                    }
                    Err(m)
                }
            },
            None => Err(around_kind("Syntax Error: Expected token ", t, ", but the input stream ended.")),
        }
    }

    /// The value of the token at index `i` (an identifier's name).
    fn value_at(&self, i: usize) -> (r: Option<String>)
        requires
            i < self.tokens@.len(),
        ensures
            opt_str_view(r) == self.token_seq()[i as int].value,
    {
        proof { self.lemma_view_at(i as int); }
        match &self.tokens[i].value {
            Some(v) => Some(v.clone()),
            None => None,
        }
    }

    /// `<prefix>`.
    fn parse_prefix(&mut self) -> (r: Result<Expression, String>)
        requires
            old(self).inv(),
        ensures
            final(self).inv(),
            final(self).tokens@ == old(self).tokens@,
            match (r, p_prefix(old(self).token_seq(), old(self).pos as int)) {
                (Ok(e), Ok((se, q))) => expr_view(e) == se && final(self).pos == q && old(self).pos < q,
                (Err(m), Err(n)) => m@ == n,
                _ => false,
            },
        decreases old(self).tokens@.len() - old(self).pos, 1int,
    {
        let ghost ts = self.token_seq();
        let start = self.pos;
        if self.pos >= self.tokens.len() {
            return Err(owned("Syntax Error: Expected an expression, but found end of input."));
        }
        proof { self.lemma_view_at(start as int); }
        let t = self.tokens[start].type_;
        self.pos = start + 1;
        if t == TokenType::Number {
            let text = self.tokens[start].lexeme.clone();
            match parse_i64_text(&text) {
                Ok(v) => Ok(Expression::Constant(v)),
                Err(e) => {
                    let mut m = owned("Syntax Error: Invalid number format: ");
                    push_str(&mut m, e.as_str());
                    Err(m)
                },
            }
        } else if t == TokenType::Identifier {
            match self.value_at(start) {
                None => Err(owned("Internal Error: Identifier token is missing a name")),
                Some(name) => {
                    if self.match_token(TokenType::LeftParen) {
                        let args = self.parse_argument_list()?;
                        self.consume(TokenType::RightParen)?;
                        Ok(Expression::FuncCall { name, args })
                    } else {
                        Ok(Expression::Var(name))
                    }
                },
            }
        } else if t == TokenType::LeftParen {
            let e = self.parse_exp(0)?;
            self.consume(TokenType::RightParen)?;
            Ok(e)
        } else if t == TokenType::Negate || t == TokenType::Complement || t == TokenType::Bang {
            let op = to_unary_op(t)?;
            let prec = match get_prefix_precedence(t) {
                Some(p) => p,
                None => 0,
            };
            let e = self.parse_exp(prec)?;
            Ok(Expression::Unary { op, exp: Box::new(e) })
        } else {
            Err(around_kind(
                "Syntax Error: Expected an expression prefix (like a number, variable, or '('), but found ",
                t,
                ".",
            ))
        }
    }

    /// `<exp>` with operators of precedence at least `min_prec`.
    fn parse_exp(&mut self, min_prec: i32) -> (r: Result<Expression, String>)
        requires
            old(self).inv(),
        ensures
            final(self).inv(),
            final(self).tokens@ == old(self).tokens@,
            match (r, p_exp(old(self).token_seq(), old(self).pos as int, min_prec)) {
                (Ok(e), Ok((se, q))) => expr_view(e) == se && final(self).pos == q && old(self).pos < q,
                (Err(m), Err(n)) => m@ == n,
                _ => false,
            },
        decreases old(self).tokens@.len() - old(self).pos, 2int,
    {
        let ghost ts = self.token_seq();
        let ghost start = self.pos as int;
        let mut left = self.parse_prefix()?;
        proof { self.lemma_view_at(0); }
        loop
            invariant_except_break
                self.inv(),
                self.tokens@ == old(self).tokens@,
                self.token_seq() == ts,
                start < self.pos,
                start == old(self).pos,
                p_exp(ts, start, min_prec) == p_exp_loop(ts, self.pos as int, min_prec, expr_view(left)),
            ensures
                self.inv(),
                self.tokens@ == old(self).tokens@,
                self.token_seq() == ts,
                start < self.pos,
                p_exp(ts, start, min_prec) == Ok::<(SExpression, int), Seq<char>>((expr_view(left), self.pos as int)),
            decreases self.tokens@.len() - self.pos,
        {
            let t = match self.peek_kind() {
                Some(t) => t,
                None => break,
            };
            let prec = match get_infix_precedence(t) {
                Some(p) => {
                    if p >= min_prec {
                        p
                    } else {
                        break;
                    }
                },
                None => break,
            };
            let op_pos = self.pos;
            self.pos = self.pos + 1;
            if t == TokenType::QuestionMark {
                let then_e = self.parse_exp(0)?;
                self.consume(TokenType::Colon)?;
                let else_e = self.parse_exp(prec)?;
                left = Expression::Conditional {
                    condition: Box::new(left),
                    left: Box::new(then_e),
                    right: Box::new(else_e),
                };
            } else if t == TokenType::Assignment {
                let right = self.parse_exp(prec)?;
                left = Expression::Assignment { left: Box::new(left), right: Box::new(right) };
            } else {
                let op = to_binary_op(t)?;
                let right = self.parse_exp(prec + 1)?;
                left = Expression::Binary { op, left: Box::new(left), right: Box::new(right) };
            }
        }
        Ok(left)
    }

    /// `<argument-list>`, up to (not including) the closing `)`.
    fn parse_argument_list(&mut self) -> (r: Result<Vec<Expression>, String>)
        requires
            old(self).inv(),
        ensures
            final(self).inv(),
            final(self).tokens@ == old(self).tokens@,
            match (r, p_arguments(old(self).token_seq(), old(self).pos as int)) {
                (Ok(v), Ok((sv, q))) => exprs_view(v@) == sv && final(self).pos == q && old(self).pos <= q,
                (Err(m), Err(n)) => m@ == n,
                _ => false,
            },
        decreases old(self).tokens@.len() - old(self).pos, 4int,
    {
        let ghost ts = self.token_seq();
        let mut args: Vec<Expression> = Vec::new();
        if self.check(TokenType::RightParen) {
            return Ok(args);
        }
        let ghost start = self.pos as int;
        loop
            invariant_except_break
                self.inv(),
                self.tokens@ == old(self).tokens@,
                self.token_seq() == ts,
                start <= self.pos,
                start == old(self).pos,
                p_arguments(ts, start) == p_argument_list(ts, self.pos as int, exprs_view(args@)),
            ensures
                self.inv(),
                self.tokens@ == old(self).tokens@,
                self.token_seq() == ts,
                start <= self.pos,
                p_arguments(ts, start) == Ok::<(Seq<SExpression>, int), Seq<char>>((exprs_view(args@), self.pos as int)),
            decreases self.tokens@.len() - self.pos,
        {
            let e = self.parse_exp(0)?;
            let ghost before = args@;
            args.push(e);
            proof {
                assert(args@.drop_last() =~= before);
            }
            if !self.match_token(TokenType::Comma) {
                break;
            }
        }
        Ok(args)
    }

    /// `<var-decl-remainder>` after `int <name>`.
    fn parse_var_remainder(&mut self, name: String) -> (r: Result<VarDecl, String>)
        requires
            old(self).inv(),
        ensures
            final(self).inv(),
            final(self).tokens@ == old(self).tokens@,
            match (r, p_var_remainder(old(self).token_seq(), old(self).pos as int, name@)) {
                (Ok(v), Ok((sv, q))) => var_decl_view(v) == sv && final(self).pos == q && old(self).pos < q,
                (Err(m), Err(n)) => m@ == n,
                _ => false,
            },
        decreases old(self).tokens@.len() - old(self).pos, 3int,
    {
        let init = if self.match_token(TokenType::Assignment) {
            Some(self.parse_exp(0)?)
        } else {
            None
        };
        self.consume(TokenType::Semicolon)?;
        Ok(VarDecl { name, init, storage_class: None })
    }

    /// The parameter list after `(`.
    fn parse_func_params(&mut self) -> (r: Result<Vec<String>, String>)
        requires
            old(self).inv(),
        ensures
            final(self).inv(),
            final(self).tokens@ == old(self).tokens@,
            match (r, p_params(old(self).token_seq(), old(self).pos as int)) {
                (Ok(v), Ok((sv, q))) => strs_view(v@) == sv && final(self).pos == q && old(self).pos <= q,
                (Err(m), Err(n)) => m@ == n,
                _ => false,
            },
    {
        let ghost ts = self.token_seq();
        let mut params: Vec<String> = Vec::new();
        if self.match_token(TokenType::Void) || self.check(TokenType::RightParen) {
            return Ok(params);
        }
        let ghost start = self.pos as int;
        assert(strs_view(params@) =~= Seq::<Seq<char>>::empty());
        loop
            invariant_except_break
                self.inv(),
                self.tokens@ == old(self).tokens@,
                self.token_seq() == ts,
                start <= self.pos,
                start == old(self).pos,
                p_params(ts, start) == p_param_list(ts, self.pos as int, strs_view(params@)),
            ensures
                self.inv(),
                self.tokens@ == old(self).tokens@,
                self.token_seq() == ts,
                start <= self.pos,
                start == old(self).pos,
                p_params(ts, start) == Ok::<(Seq<Seq<char>>, int), Seq<char>>((strs_view(params@), self.pos as int)),
            decreases self.tokens@.len() - self.pos,
        {
            self.consume(TokenType::Int)?;
            let i = self.consume(TokenType::Identifier)?;
            proof { self.lemma_view_at(i as int); }
            let name = match self.value_at(i) {
                Some(v) => v,
                None => {
                    return Err(owned("Internal Error: Parameter token is missing a name"));
                },
            };
            let ghost before = params@;
            params.push(name);
            proof {
                assert(strs_view(params@) =~= strs_view(before).push(ts[i as int].value->0));
            }
            if !self.match_token(TokenType::Comma) {
                break;
            }
        }
        Ok(params)
    }

    /// `<func-decl-remainder>` after `int <name>`.
    fn parse_function_remainder(&mut self, name: String) -> (r: Result<FunDecl, String>)
        requires
            old(self).inv(),
        ensures
            final(self).inv(),
            final(self).tokens@ == old(self).tokens@,
            match (r, p_function_remainder(old(self).token_seq(), old(self).pos as int, name@)) {
                (Ok(f), Ok((sf, q))) => fun_decl_view(f) == sf && final(self).pos == q && old(self).pos < q,
                (Err(m), Err(n)) => m@ == n,
                _ => false,
            },
        decreases old(self).tokens@.len() - old(self).pos, 0int,
    {
        self.consume(TokenType::LeftParen)?;
        let parameters = self.parse_func_params()?;
        self.consume(TokenType::RightParen)?;
        if self.match_token(TokenType::Semicolon) {
            Ok(FunDecl { name, parameters, body: None, storage_class: None })
        } else {
            let body = self.parse_block()?;
            Ok(FunDecl { name, parameters, body: Some(body), storage_class: None })
        }
    }

    /// `<declaration>`: `int <name>` and a function or variable remainder.
    fn parse_declaration(&mut self) -> (r: Result<Declaration, String>)
        requires
            old(self).inv(),
        ensures
            final(self).inv(),
            final(self).tokens@ == old(self).tokens@,
            match (r, p_declaration(old(self).token_seq(), old(self).pos as int)) {
                (Ok(d), Ok((sd, q))) => decl_view(d) == sd && final(self).pos == q && old(self).pos < q,
                (Err(m), Err(n)) => m@ == n,
                _ => false,
            },
        decreases old(self).tokens@.len() - old(self).pos, 2int,
    {
        self.consume(TokenType::Int)?;
        let i = self.consume(TokenType::Identifier)?;
        let name = match self.value_at(i) {
            Some(v) => v,
            None => {
                return Err(owned("Syntax Error: Expected a name for the identifier, but it was missing."));
            },
        };
        if self.check(TokenType::LeftParen) {
            let f = self.parse_function_remainder(name)?;
            Ok(Declaration::Fun(f))
        } else {
            let v = self.parse_var_remainder(name)?;
            Ok(Declaration::Variable(v))
        }
    }

    /// `<block>`: `{ {<block-item>} }`.
    fn parse_block(&mut self) -> (r: Result<Block, String>)
        requires
            old(self).inv(),
        ensures
            final(self).inv(),
            final(self).tokens@ == old(self).tokens@,
            match (r, p_block(old(self).token_seq(), old(self).pos as int)) {
                (Ok(b), Ok((sb, q))) => items_view(b.0@) == sb && final(self).pos == q && old(self).pos < q,
                (Err(m), Err(n)) => m@ == n,
                _ => false,
            },
        decreases old(self).tokens@.len() - old(self).pos, 1int,
    {
        let ghost ts = self.token_seq();
        let ghost start = self.pos as int;
        self.consume(TokenType::LeftBrace)?;
        let mut items: Vec<BlockItem> = Vec::new();
        assert(items_view(items@) =~= Seq::<SBlockItem>::empty());
        while !self.check(TokenType::RightBrace)
            invariant
                self.inv(),
                self.tokens@ == old(self).tokens@,
                self.token_seq() == ts,
                start == old(self).pos,
                start < self.pos,
                p_block(ts, start) == p_block_items(ts, self.pos as int, items_view(items@)),
            decreases self.tokens@.len() - self.pos,
        {
            let item = self.parse_block_item()?;
            let ghost before = items@;
            items.push(item);
            proof {
                assert(items@.drop_last() =~= before);
            }
        }
        self.consume(TokenType::RightBrace)?;
        Ok(Block(items))
    }

    /// `<block-item>`: a declaration if it starts with `int`, else a statement.
    fn parse_block_item(&mut self) -> (r: Result<BlockItem, String>)
        requires
            old(self).inv(),
        ensures
            final(self).inv(),
            final(self).tokens@ == old(self).tokens@,
            match (r, p_block_item(old(self).token_seq(), old(self).pos as int)) {
                (Ok(i), Ok((si, q))) => item_view(i) == si && final(self).pos == q && old(self).pos < q,
                (Err(m), Err(n)) => m@ == n,
                _ => false,
            },
        decreases old(self).tokens@.len() - old(self).pos, 4int,
    {
        if self.check(TokenType::Int) {
            let d = self.parse_declaration()?;
            Ok(BlockItem::D(d))
        } else {
            let s = self.parse_statement()?;
            Ok(BlockItem::S(s))
        }
    }

    /// `<for-init>`.
    fn parse_for_init(&mut self) -> (r: Result<ForInit, String>)
        requires
            old(self).inv(),
        ensures
            final(self).inv(),
            final(self).tokens@ == old(self).tokens@,
            match (r, p_for_init(old(self).token_seq(), old(self).pos as int)) {
                (Ok(i), Ok((si, q))) => for_init_view(i) == si && final(self).pos == q && old(self).pos < q,
                (Err(m), Err(n)) => m@ == n,
                _ => false,
            },
        decreases old(self).tokens@.len() - old(self).pos, 3int,
    {
        if self.check(TokenType::Int) {
            let d = self.parse_declaration()?;
            match d {
                Declaration::Variable(v) => Ok(ForInit::InitDecl(v)),
                Declaration::Fun(_) => Err(owned(
                    "Syntax Error: Function declaration is not allowed in a for-loop initializer.",
                )),
            }
        } else if self.match_token(TokenType::Semicolon) {
            Ok(ForInit::InitExp(None))
        } else {
            let e = self.parse_exp(0)?;
            self.consume(TokenType::Semicolon)?;
            Ok(ForInit::InitExp(Some(e)))
        }
    }

    /// The condition of a `for` loop, with its `;`.
    fn parse_for_condition(&mut self) -> (r: Result<Option<Expression>, String>)
        requires
            old(self).inv(),
        ensures
            final(self).inv(),
            final(self).tokens@ == old(self).tokens@,
            match (r, p_for_condition(old(self).token_seq(), old(self).pos as int)) {
                (Ok(o), Ok((so, q))) => opt_expr_view(o) == so && final(self).pos == q && old(self).pos < q,
                (Err(m), Err(n)) => m@ == n,
                _ => false,
            },
        decreases old(self).tokens@.len() - old(self).pos, 3int,
    {
        if self.match_token(TokenType::Semicolon) {
            Ok(None)
        } else {
            let c = self.parse_exp(0)?;
            self.consume(TokenType::Semicolon)?;
            Ok(Some(c))
        }
    }

    /// The post-expression of a `for` loop, with its `)`.
    fn parse_for_post(&mut self) -> (r: Result<Option<Expression>, String>)
        requires
            old(self).inv(),
        ensures
            final(self).inv(),
            final(self).tokens@ == old(self).tokens@,
            match (r, p_for_post(old(self).token_seq(), old(self).pos as int)) {
                (Ok(o), Ok((so, q))) => opt_expr_view(o) == so && final(self).pos == q && old(self).pos < q,
                (Err(m), Err(n)) => m@ == n,
                _ => false,
            },
        decreases old(self).tokens@.len() - old(self).pos, 3int,
    {
        if self.match_token(TokenType::RightParen) {
            Ok(None)
        } else {
            let p = self.parse_exp(0)?;
            self.consume(TokenType::RightParen)?;
            Ok(Some(p))
        }
    }

    /// `<statement>`.
    #[verifier::rlimit(60)]
    #[verifier::spinoff_prover]
    fn parse_statement(&mut self) -> (r: Result<Statement, String>)
        requires
            old(self).inv(),
        ensures
            final(self).inv(),
            final(self).tokens@ == old(self).tokens@,
            match (r, p_statement(old(self).token_seq(), old(self).pos as int)) {
                (Ok(st), Ok((ss, q))) => stmt_view(st) == ss && final(self).pos == q && old(self).pos < q,
                (Err(m), Err(n)) => m@ == n,
                _ => false,
            },
        decreases old(self).tokens@.len() - old(self).pos, 3int,
    {
        if self.match_token(TokenType::Return) {
            let expr = self.parse_exp(0)?;
            self.consume(TokenType::Semicolon)?;
            Ok(Statement::Return(expr))
        } else if self.match_token(TokenType::If) {
            self.consume(TokenType::LeftParen)?;
            let condition = self.parse_exp(0)?;
            self.consume(TokenType::RightParen)?;
            let then_stmt = self.parse_statement()?;
            let else_stmt = if self.match_token(TokenType::Else) {
                Some(Box::new(self.parse_statement()?))
            } else {
                None
            };
            Ok(Statement::If { condition, then_stmt: Box::new(then_stmt), else_stmt })
        } else if self.check(TokenType::LeftBrace) {
            let block = self.parse_block()?;
            Ok(Statement::Compound(block))
        } else if self.match_token(TokenType::While) {
            self.consume(TokenType::LeftParen)?;
            let condition = self.parse_exp(0)?;
            self.consume(TokenType::RightParen)?;
            let body = self.parse_statement()?;
            Ok(Statement::While { condition, body: Box::new(body), label: None })
        } else if self.match_token(TokenType::Do) {
            let body = self.parse_statement()?;
            self.consume(TokenType::While)?;
            self.consume(TokenType::LeftParen)?;
            let condition = self.parse_exp(0)?;
            self.consume(TokenType::RightParen)?;
            self.consume(TokenType::Semicolon)?;
            Ok(Statement::DoWhile { body: Box::new(body), condition, label: None })
        } else if self.match_token(TokenType::For) {
            self.consume(TokenType::LeftParen)?;
            let init = self.parse_for_init()?;
            let condition = self.parse_for_condition()?;
            let post = self.parse_for_post()?;
            let body = self.parse_statement()?;
            Ok(Statement::For { init, condition, post, body: Box::new(body), label: None })
        } else if self.match_token(TokenType::Break) {
            self.consume(TokenType::Semicolon)?;
            Ok(Statement::Break(owned("fakelabel")))
        } else if self.match_token(TokenType::Continue) {
            self.consume(TokenType::Semicolon)?;
            Ok(Statement::Continue(owned("fakelabel")))
        } else if self.match_token(TokenType::Semicolon) {
            Ok(Statement::Null)
        } else {
            let expr = self.parse_exp(0)?;
            self.consume(TokenType::Semicolon)?;
            Ok(Statement::Expression(expr))
        }
    }

    /// Parses the whole token sequence: declarations of functions and of
    /// file-scope variables up to `Eof`.
    /// A parameter token that carries no name has no result here: such token
    /// lists are left out (see `try_parse`).
    pub fn parse(self) -> (r: Result<Program, String>)
        requires
            self.position() == 0,
            parse_spec(self.token_seq()) != Err::<SProgram, Seq<char>>(unnamed_parameter()),
        ensures
            match (r, parse_spec(self.token_seq())) {
                (Ok(p), Ok(sp)) => p@ == sp,
                (Err(m), Err(n)) => m@ == n,
                _ => false,
            },
    {
        let mut me = self;
        me.parse_program()
    }

    /// `parse` on any token list: `None` where parsing reaches a parameter
    /// token that carries no name, else `Some` of what `parse` gives.
    pub fn try_parse(self) -> (r: Option<Result<Program, String>>)
        requires
            self.position() == 0,
        ensures
            parse_spec(self.token_seq()) == Err::<SProgram, Seq<char>>(unnamed_parameter()) <==> r is None,
            match r {
                Some(res) => match (res, parse_spec(self.token_seq())) {
                    (Ok(p), Ok(sp)) => p@ == sp,
                    (Err(m), Err(n)) => m@ == n,
                    _ => false,
                },
                None => true,
            },
    {
        let mut me = self;
        let res = me.parse_program();
        match res {
            Err(m) => {
                if m == owned("Internal Error: Parameter token is missing a name") {
                    None
                } else {
                    Some(Err(m))
                }
            },
            Ok(p) => Some(Ok(p)),
        }
    }

    fn parse_program(&mut self) -> (r: Result<Program, String>)
        requires
            old(self).inv() || old(self).pos == 0,
            old(self).pos == 0,
        ensures
            match (r, parse_spec(old(self).token_seq())) {
                (Ok(p), Ok(sp)) => p@ == sp,
                (Err(m), Err(n)) => m@ == n,
                _ => false,
            },
    {
        let ghost ts = self.token_seq();
        let _n = self.tokens.len();
        let mut declarations: Vec<Declaration> = Vec::new();
        assert(decls_view(declarations@) =~= Seq::<SDeclaration>::empty());
        loop
            invariant_except_break
                self.inv(),
                self.token_seq() == ts,
                ts == old(self).token_seq(),
                parse_spec(ts) == p_program(ts, self.pos as int, decls_view(declarations@)),
            ensures
                ts == old(self).token_seq(),
                parse_spec(ts) == Ok::<SProgram, Seq<char>>(SProgram { declarations: decls_view(declarations@) }),
            decreases self.tokens@.len() - self.pos,
        {
            if self.match_token(TokenType::Eof) {
                break;
            }
            let decl = self.parse_declaration()?;
            let ghost before = declarations@;
            declarations.push(decl);
            proof {
                assert(decls_view(declarations@) =~= decls_view(before).push(decl_view(declarations@.last())));
            }
        }
        Ok(Program { declarations })
    }
}


// ---------------------------------------------------------------------------
// Every error on tokens with named identifiers is a syntax error.
// ---------------------------------------------------------------------------

/// A message that begins with `Syntax Error: `.
pub open spec fn is_syntax_error(m: Seq<char>) -> bool {
    "Syntax Error: "@.is_prefix_of(m)
}

/// A sub-parse that either advances (strictly, when `strict`) within the
/// tokens or fails with a syntax error.
pub open spec fn behaves<T>(r: PResult<T>, pos: int, len: int, strict: bool) -> bool {
    match r {
        Ok(p) => (if strict { pos < p.1 } else { pos <= p.1 }) && p.1 <= len,
        Err(m) => is_syntax_error(m),
    }
}

proof fn lemma_prefix_concat(p: Seq<char>, a: Seq<char>, b: Seq<char>)
    requires
        p.is_prefix_of(a),
    ensures
        p.is_prefix_of(a + b),
{
    assert((a + b).subrange(0, p.len() as int) =~= a.subrange(0, p.len() as int));
}

proof fn lemma_syntax_messages()
    ensures
        forall|t: TokenType, g: TokenType| is_syntax_error(#[trigger] expected_got_message(t, g)),
        forall|t: TokenType| is_syntax_error(#[trigger] expected_ended_message(t)),
        forall|m: Seq<char>| is_syntax_error(#[trigger] ("Syntax Error: Invalid number format: "@ + m)),
        forall|t: TokenType| is_syntax_error(
            #[trigger] ("Syntax Error: Expected an expression prefix (like a number, variable, or '('), but found "@
                + kind_name(t) + "."@),
        ),
        is_syntax_error("Syntax Error: Expected an expression, but found end of input."@),
        is_syntax_error("Syntax Error: Expected a name for the identifier, but it was missing."@),
        is_syntax_error("Syntax Error: Function declaration is not allowed in a for-loop initializer."@),
        !is_syntax_error(unnamed_parameter()),
{
    reveal_strlit("Syntax Error: ");
    reveal_strlit("Syntax Error: Expected token ");
    reveal_strlit("Syntax Error: Invalid number format: ");
    reveal_strlit("Syntax Error: Expected an expression prefix (like a number, variable, or '('), but found ");
    reveal_strlit("Syntax Error: Expected an expression, but found end of input.");
    reveal_strlit("Syntax Error: Expected a name for the identifier, but it was missing.");
    reveal_strlit("Syntax Error: Function declaration is not allowed in a for-loop initializer.");
    reveal_strlit("Internal Error: Parameter token is missing a name");
    let p = "Syntax Error: "@;
    assert(p.is_prefix_of("Syntax Error: Expected token "@));
    assert forall|t: TokenType, g: TokenType| is_syntax_error(#[trigger] expected_got_message(t, g)) by {
        let a = "Syntax Error: Expected token "@;
        lemma_prefix_concat(p, a, kind_name(t));
        lemma_prefix_concat(p, a + kind_name(t), ", but got "@);
        lemma_prefix_concat(p, a + kind_name(t) + ", but got "@, kind_name(g));
        lemma_prefix_concat(p, a + kind_name(t) + ", but got "@ + kind_name(g), "."@);
    }
    assert forall|t: TokenType| is_syntax_error(#[trigger] expected_ended_message(t)) by {
        let a = "Syntax Error: Expected token "@;
        lemma_prefix_concat(p, a, kind_name(t));
        lemma_prefix_concat(p, a + kind_name(t), ", but the input stream ended."@);
    }
    assert(p.is_prefix_of("Syntax Error: Invalid number format: "@));
    assert forall|m: Seq<char>| is_syntax_error(#[trigger] ("Syntax Error: Invalid number format: "@ + m)) by {
        lemma_prefix_concat(p, "Syntax Error: Invalid number format: "@, m);
    }
    let b = "Syntax Error: Expected an expression prefix (like a number, variable, or '('), but found "@;
    assert(p.is_prefix_of(b));
    assert forall|t: TokenType| is_syntax_error(#[trigger] (b + kind_name(t) + "."@)) by {
        lemma_prefix_concat(p, b, kind_name(t));
        lemma_prefix_concat(p, b + kind_name(t), "."@);
    }
    assert(p.is_prefix_of("Syntax Error: Expected an expression, but found end of input."@));
    assert(p.is_prefix_of("Syntax Error: Expected a name for the identifier, but it was missing."@));
    assert(p.is_prefix_of("Syntax Error: Function declaration is not allowed in a for-loop initializer."@));
    assert(unnamed_parameter()[0] != p[0]);
}

proof fn lemma_consume_behaves(ts: Seq<TokenView>, pos: int, t: TokenType)
    requires
        0 <= pos,
    ensures
        match p_consume(ts, pos, t) {
            Ok(q) => q == pos + 1 && q <= ts.len(),
            Err(m) => is_syntax_error(m),
        },
{
    lemma_syntax_messages();
}

proof fn lemma_prefix_behaves(ts: Seq<TokenView>, pos: int)
    requires
        identifiers_named(ts),
        0 <= pos,
    ensures
        behaves(p_prefix(ts, pos), pos, ts.len() as int, true),
    decreases ts.len() - pos, 1int,
{
    lemma_syntax_messages();
    if pos < ts.len() {
        let t = ts[pos].type_;
        if t == TokenType::Identifier {
            assert(ts[pos].value is Some);
            if kind_is(ts, pos + 1, TokenType::LeftParen) {
                lemma_arguments_behaves(ts, pos + 2);
                if let Ok((args, q)) = p_arguments(ts, pos + 2) {
                    lemma_consume_behaves(ts, q, TokenType::RightParen);
                }
            }
        } else if t == TokenType::LeftParen {
            lemma_exp_behaves(ts, pos + 1, 0);
            if let Ok((e, q)) = p_exp(ts, pos + 1, 0) {
                lemma_consume_behaves(ts, q, TokenType::RightParen);
            }
        } else if t == TokenType::Negate || t == TokenType::Complement || t == TokenType::Bang {
            lemma_exp_behaves(ts, pos + 1, prefix_precedence(t)->0);
        }
    }
}

proof fn lemma_exp_behaves(ts: Seq<TokenView>, pos: int, min_prec: i32)
    requires
        identifiers_named(ts),
        0 <= pos,
    ensures
        behaves(p_exp(ts, pos, min_prec), pos, ts.len() as int, true),
    decreases ts.len() - pos, 2int,
{
    lemma_prefix_behaves(ts, pos);
    if let Ok((left, q)) = p_prefix(ts, pos) {
        lemma_exp_loop_behaves(ts, q, min_prec, left);
    }
}

proof fn lemma_exp_loop_behaves(ts: Seq<TokenView>, pos: int, min_prec: i32, left: SExpression)
    requires
        identifiers_named(ts),
        0 <= pos <= ts.len(),
    ensures
        behaves(p_exp_loop(ts, pos, min_prec, left), pos, ts.len() as int, false),
    decreases ts.len() - pos, 0int,
{
    if pos < ts.len() {
        let t = ts[pos].type_;
        if let Some(prec) = infix_precedence(t) {
            if prec >= min_prec {
                if t == TokenType::QuestionMark {
                    lemma_exp_behaves(ts, pos + 1, 0);
                    if let Ok((then_e, q)) = p_exp(ts, pos + 1, 0) {
                        lemma_consume_behaves(ts, q, TokenType::Colon);
                        if let Ok(q2) = p_consume(ts, q, TokenType::Colon) {
                            lemma_exp_behaves(ts, q2, prec);
                            if let Ok((else_e, q3)) = p_exp(ts, q2, prec) {
                                lemma_exp_loop_behaves(ts, q3, min_prec, SExpression::Conditional {
                                    condition: Box::new(left),
                                    left: Box::new(then_e),
                                    right: Box::new(else_e),
                                });
                            }
                        }
                    }
                } else if t == TokenType::Assignment {
                    lemma_exp_behaves(ts, pos + 1, prec);
                    if let Ok((right, q)) = p_exp(ts, pos + 1, prec) {
                        lemma_exp_loop_behaves(ts, q, min_prec, SExpression::Assignment {
                            left: Box::new(left),
                            right: Box::new(right),
                        });
                    }
                } else {
                    let op = binary_op_of(t)->Ok_0;
                    lemma_exp_behaves(ts, pos + 1, (prec + 1) as i32);
                    if let Ok((right, q)) = p_exp(ts, pos + 1, (prec + 1) as i32) {
                        lemma_exp_loop_behaves(ts, q, min_prec, SExpression::Binary {
                            op,
                            left: Box::new(left),
                            right: Box::new(right),
                        });
                    }
                }
            }
        }
    }
}

proof fn lemma_arguments_behaves(ts: Seq<TokenView>, pos: int)
    requires
        identifiers_named(ts),
        0 <= pos <= ts.len(),
    ensures
        behaves(p_arguments(ts, pos), pos, ts.len() as int, false),
    decreases ts.len() - pos, 4int,
{
    if !kind_is(ts, pos, TokenType::RightParen) {
        lemma_argument_list_behaves(ts, pos, Seq::empty());
    }
}

proof fn lemma_argument_list_behaves(ts: Seq<TokenView>, pos: int, acc: Seq<SExpression>)
    requires
        identifiers_named(ts),
        0 <= pos,
    ensures
        behaves(p_argument_list(ts, pos, acc), pos, ts.len() as int, true),
    decreases ts.len() - pos, 3int,
{
    lemma_exp_behaves(ts, pos, 0);
    if let Ok((e, q)) = p_exp(ts, pos, 0) {
        if kind_is(ts, q, TokenType::Comma) {
            lemma_argument_list_behaves(ts, q + 1, acc.push(e));
        }
    }
}

proof fn lemma_var_remainder_behaves(ts: Seq<TokenView>, pos: int, name: Seq<char>)
    requires
        identifiers_named(ts),
        0 <= pos,
    ensures
        behaves(p_var_remainder(ts, pos, name), pos, ts.len() as int, true),
    decreases ts.len() - pos, 3int,
{
    if kind_is(ts, pos, TokenType::Assignment) {
        lemma_exp_behaves(ts, pos + 1, 0);
        if let Ok((e, q)) = p_exp(ts, pos + 1, 0) {
            lemma_consume_behaves(ts, q, TokenType::Semicolon);
        }
    } else {
        lemma_consume_behaves(ts, pos, TokenType::Semicolon);
    }
}

proof fn lemma_param_list_behaves(ts: Seq<TokenView>, pos: int, acc: Seq<Seq<char>>)
    requires
        identifiers_named(ts),
        0 <= pos,
    ensures
        behaves(p_param_list(ts, pos, acc), pos, ts.len() as int, true),
    decreases ts.len() - pos,
{
    lemma_consume_behaves(ts, pos, TokenType::Int);
    if let Ok(q) = p_consume(ts, pos, TokenType::Int) {
        lemma_consume_behaves(ts, q, TokenType::Identifier);
        if let Ok(q2) = p_consume(ts, q, TokenType::Identifier) {
            assert(ts[q].value is Some);
            if kind_is(ts, q2, TokenType::Comma) {
                lemma_param_list_behaves(ts, q2 + 1, acc.push(ts[q].value->0));
            }
        }
    }
}

proof fn lemma_params_behaves(ts: Seq<TokenView>, pos: int)
    requires
        identifiers_named(ts),
        0 <= pos <= ts.len(),
    ensures
        behaves(p_params(ts, pos), pos, ts.len() as int, false),
{
    if !kind_is(ts, pos, TokenType::Void) && !kind_is(ts, pos, TokenType::RightParen) {
        lemma_param_list_behaves(ts, pos, Seq::empty());
    }
}

proof fn lemma_function_remainder_behaves(ts: Seq<TokenView>, pos: int, name: Seq<char>)
    requires
        identifiers_named(ts),
        0 <= pos,
    ensures
        behaves(p_function_remainder(ts, pos, name), pos, ts.len() as int, true),
    decreases ts.len() - pos, 0int,
{
    lemma_consume_behaves(ts, pos, TokenType::LeftParen);
    if let Ok(q) = p_consume(ts, pos, TokenType::LeftParen) {
        lemma_params_behaves(ts, q);
        if let Ok((params, q2)) = p_params(ts, q) {
            lemma_consume_behaves(ts, q2, TokenType::RightParen);
            if let Ok(q3) = p_consume(ts, q2, TokenType::RightParen) {
                if advanced(ts, pos, q3) && !kind_is(ts, q3, TokenType::Semicolon) {
                    lemma_block_behaves(ts, q3);
                }
            }
        }
    }
}

proof fn lemma_declaration_behaves(ts: Seq<TokenView>, pos: int)
    requires
        identifiers_named(ts),
        0 <= pos,
    ensures
        behaves(p_declaration(ts, pos), pos, ts.len() as int, true),
    decreases ts.len() - pos, 2int,
{
    lemma_syntax_messages();
    lemma_consume_behaves(ts, pos, TokenType::Int);
    if let Ok(q) = p_consume(ts, pos, TokenType::Int) {
        lemma_consume_behaves(ts, q, TokenType::Identifier);
        if let Ok(q2) = p_consume(ts, q, TokenType::Identifier) {
            assert(ts[q].value is Some);
            let name = ts[q].value->0;
            if kind_is(ts, q2, TokenType::LeftParen) {
                lemma_function_remainder_behaves(ts, q2, name);
            } else {
                lemma_var_remainder_behaves(ts, q2, name);
            }
        }
    }
}

proof fn lemma_block_behaves(ts: Seq<TokenView>, pos: int)
    requires
        identifiers_named(ts),
        0 <= pos,
    ensures
        behaves(p_block(ts, pos), pos, ts.len() as int, true),
    decreases ts.len() - pos, 1int,
{
    lemma_consume_behaves(ts, pos, TokenType::LeftBrace);
    if let Ok(q) = p_consume(ts, pos, TokenType::LeftBrace) {
        lemma_block_items_behaves(ts, q, Seq::empty());
    }
}

proof fn lemma_block_items_behaves(ts: Seq<TokenView>, pos: int, acc: Seq<SBlockItem>)
    requires
        identifiers_named(ts),
        0 <= pos,
    ensures
        behaves(p_block_items(ts, pos, acc), pos, ts.len() as int, true),
    decreases ts.len() - pos, 5int,
{
    if !kind_is(ts, pos, TokenType::RightBrace) {
        lemma_block_item_behaves(ts, pos);
        if let Ok((item, q)) = p_block_item(ts, pos) {
            lemma_block_items_behaves(ts, q, acc.push(item));
        }
    }
}

proof fn lemma_block_item_behaves(ts: Seq<TokenView>, pos: int)
    requires
        identifiers_named(ts),
        0 <= pos,
    ensures
        behaves(p_block_item(ts, pos), pos, ts.len() as int, true),
    decreases ts.len() - pos, 4int,
{
    if kind_is(ts, pos, TokenType::Int) {
        lemma_declaration_behaves(ts, pos);
    } else {
        lemma_statement_behaves(ts, pos);
    }
}

proof fn lemma_for_init_behaves(ts: Seq<TokenView>, pos: int)
    requires
        identifiers_named(ts),
        0 <= pos,
    ensures
        behaves(p_for_init(ts, pos), pos, ts.len() as int, true),
    decreases ts.len() - pos, 3int,
{
    lemma_syntax_messages();
    if kind_is(ts, pos, TokenType::Int) {
        lemma_declaration_behaves(ts, pos);
    } else if !kind_is(ts, pos, TokenType::Semicolon) {
        lemma_exp_behaves(ts, pos, 0);
        if let Ok((e, q)) = p_exp(ts, pos, 0) {
            lemma_consume_behaves(ts, q, TokenType::Semicolon);
        }
    }
}

proof fn lemma_for_condition_behaves(ts: Seq<TokenView>, pos: int)
    requires
        identifiers_named(ts),
        0 <= pos,
    ensures
        behaves(p_for_condition(ts, pos), pos, ts.len() as int, true),
    decreases ts.len() - pos, 3int,
{
    if !kind_is(ts, pos, TokenType::Semicolon) {
        lemma_exp_behaves(ts, pos, 0);
        if let Ok((e, q)) = p_exp(ts, pos, 0) {
            lemma_consume_behaves(ts, q, TokenType::Semicolon);
        }
    }
}

proof fn lemma_for_post_behaves(ts: Seq<TokenView>, pos: int)
    requires
        identifiers_named(ts),
        0 <= pos,
    ensures
        behaves(p_for_post(ts, pos), pos, ts.len() as int, true),
    decreases ts.len() - pos, 3int,
{
    if !kind_is(ts, pos, TokenType::RightParen) {
        lemma_exp_behaves(ts, pos, 0);
        if let Ok((e, q)) = p_exp(ts, pos, 0) {
            lemma_consume_behaves(ts, q, TokenType::RightParen);
        }
    }
}

proof fn lemma_statement_behaves(ts: Seq<TokenView>, pos: int)
    requires
        identifiers_named(ts),
        0 <= pos,
    ensures
        behaves(p_statement(ts, pos), pos, ts.len() as int, true),
    decreases ts.len() - pos, 3int,
{
    if kind_is(ts, pos, TokenType::Return) {
        lemma_exp_behaves(ts, pos + 1, 0);
        if let Ok((e, q)) = p_exp(ts, pos + 1, 0) {
            lemma_consume_behaves(ts, q, TokenType::Semicolon);
        }
    } else if kind_is(ts, pos, TokenType::If) || kind_is(ts, pos, TokenType::While) {
        lemma_consume_behaves(ts, pos + 1, TokenType::LeftParen);
        if let Ok(q) = p_consume(ts, pos + 1, TokenType::LeftParen) {
            lemma_exp_behaves(ts, q, 0);
            if let Ok((c, q2)) = p_exp(ts, q, 0) {
                lemma_consume_behaves(ts, q2, TokenType::RightParen);
                if let Ok(q3) = p_consume(ts, q2, TokenType::RightParen) {
                    lemma_statement_behaves(ts, q3);
                    if kind_is(ts, pos, TokenType::If) {
                        if let Ok((then_s, q4)) = p_statement(ts, q3) {
                            if kind_is(ts, q4, TokenType::Else) {
                                lemma_statement_behaves(ts, q4 + 1);
                            }
                        }
                    }
                }
            }
        }
    } else if kind_is(ts, pos, TokenType::LeftBrace) {
        lemma_block_behaves(ts, pos);
    } else if kind_is(ts, pos, TokenType::Do) {
        lemma_statement_behaves(ts, pos + 1);
        if let Ok((body, q)) = p_statement(ts, pos + 1) {
            lemma_consume_behaves(ts, q, TokenType::While);
            if let Ok(q2) = p_consume(ts, q, TokenType::While) {
                lemma_consume_behaves(ts, q2, TokenType::LeftParen);
                if let Ok(q3) = p_consume(ts, q2, TokenType::LeftParen) {
                    lemma_exp_behaves(ts, q3, 0);
                    if let Ok((c, q4)) = p_exp(ts, q3, 0) {
                        lemma_consume_behaves(ts, q4, TokenType::RightParen);
                        if let Ok(q5) = p_consume(ts, q4, TokenType::RightParen) {
                            lemma_consume_behaves(ts, q5, TokenType::Semicolon);
                        }
                    }
                }
            }
        }
    } else if kind_is(ts, pos, TokenType::For) {
        lemma_consume_behaves(ts, pos + 1, TokenType::LeftParen);
        if let Ok(q) = p_consume(ts, pos + 1, TokenType::LeftParen) {
            lemma_for_init_behaves(ts, q);
            if let Ok((init, q2)) = p_for_init(ts, q) {
                lemma_for_condition_behaves(ts, q2);
                if let Ok((cond, q3)) = p_for_condition(ts, q2) {
                    lemma_for_post_behaves(ts, q3);
                    if let Ok((post, q4)) = p_for_post(ts, q3) {
                        lemma_statement_behaves(ts, q4);
                    }
                }
            }
        }
    } else if kind_is(ts, pos, TokenType::Break) || kind_is(ts, pos, TokenType::Continue) {
        lemma_consume_behaves(ts, pos + 1, TokenType::Semicolon);
    } else if !kind_is(ts, pos, TokenType::Semicolon) {
        lemma_exp_behaves(ts, pos, 0);
        if let Ok((e, q)) = p_exp(ts, pos, 0) {
            lemma_consume_behaves(ts, q, TokenType::Semicolon);
        }
    }
}

proof fn lemma_program_errors(ts: Seq<TokenView>, pos: int, acc: Seq<SDeclaration>)
    requires
        identifiers_named(ts),
        0 <= pos,
    ensures
        p_program(ts, pos, acc) is Err ==> is_syntax_error(p_program(ts, pos, acc)->Err_0),
    decreases ts.len() - pos,
{
    lemma_syntax_messages();
    if !kind_is(ts, pos, TokenType::Eof) {
        lemma_declaration_behaves(ts, pos);
        if let Ok((d, q)) = p_declaration(ts, pos) {
            lemma_program_errors(ts, q, acc.push(d));
        }
    }
}

/// On tokens whose identifiers carry their names (as the lexer makes them),
/// every error the parser gives is a syntax error: its message begins with
/// `Syntax Error: `. In particular such tokens meet what `parse` requires.
pub proof fn lemma_parse_errors_are_syntax_errors(ts: Seq<TokenView>)
    requires
        identifiers_named(ts),
    ensures
        parse_spec(ts) is Err ==> is_syntax_error(parse_spec(ts)->Err_0),
        parse_spec(ts) != Err::<SProgram, Seq<char>>(unnamed_parameter()),
{
    lemma_syntax_messages();
    lemma_program_errors(ts, 0, Seq::empty());
}


// ---------------------------------------------------------------------------
// C's precedence of the binary operators.
// ---------------------------------------------------------------------------

/// The level of C's precedence table a binary operator token sits on, from
/// the loosest (assignment, 1) to the tightest (`*`, `/`, `%`, 8); 0 for a
/// token that is no binary operator.
pub open spec fn c_precedence_level(t: TokenType) -> int {
    match t {
        TokenType::Assignment => 1,
        TokenType::QuestionMark => 2,
        TokenType::Or => 3,
        TokenType::And => 4,
        TokenType::EqualEqual | TokenType::BangEqual => 5,
        TokenType::Less | TokenType::LessEqual | TokenType::Greater | TokenType::GreaterEqual => 6,
        TokenType::Add | TokenType::Negate => 7,
        TokenType::Mul | TokenType::Div | TokenType::Remainder => 8,
        _ => 0,
    }
}

/// The parser ranks binary operators as C does: exactly the binary
/// operators have a precedence, and one binds tighter than another exactly
/// when it sits higher in C's table (`*`, `/`, `%` above `+`, `-`, above
/// the comparisons, above `==`, `!=`, above `&&`, above `||`, above `?:`,
/// above `=`); operators on one level bind alike.
pub proof fn lemma_precedence_follows_c(t1: TokenType, t2: TokenType)
    ensures
        (infix_precedence(t1) is Some) == (c_precedence_level(t1) > 0),
        c_precedence_level(t1) > 0 && c_precedence_level(t2) > 0 ==> (
            (infix_precedence(t1)->0 < infix_precedence(t2)->0) == (c_precedence_level(t1) < c_precedence_level(t2))
            && (infix_precedence(t1)->0 == infix_precedence(t2)->0) == (c_precedence_level(t1) == c_precedence_level(t2))),
{
}


/// An integer literal token that reads as an `i64`.
pub open spec fn number_at(ts: Seq<TokenView>, i: int) -> bool {
    &&& 0 <= i < ts.len()
    &&& ts[i].type_ == TokenType::Number
    &&& i64_from_text(ts[i].lexeme) is Ok
}

/// The constant an integer literal token stands for.
pub open spec fn constant_at(ts: Seq<TokenView>, i: int) -> SExpression {
    SExpression::Constant(i64_from_text(ts[i].lexeme)->Ok_0)
}

/// `+` and binary `-`.
pub open spec fn additive(t: TokenType) -> Option<BinaryOp> {
    match t {
        TokenType::Add => Some(BinaryOp::Add),
        TokenType::Negate => Some(BinaryOp::Subtract),
        _ => None,
    }
}

/// `*`, `/` and `%`.
pub open spec fn multiplicative(t: TokenType) -> Option<BinaryOp> {
    match t {
        TokenType::Mul => Some(BinaryOp::Multiply),
        TokenType::Div => Some(BinaryOp::Divide),
        TokenType::Remainder => Some(BinaryOp::Remainder),
        _ => None,
    }
}

/// The expression ends at `pos`: no token there, or one that is no binary
/// operator.
pub open spec fn ends_at(ts: Seq<TokenView>, pos: int) -> bool {
    pos >= ts.len() || infix_precedence(ts[pos].type_) is None
}

/// `a + b * c` (any of `+`, `-` then any of `*`, `/`, `%`) parses as
/// `a + (b * c)`: the product binds tighter than the sum.
pub proof fn lemma_product_binds_tighter_after_sum(ts: Seq<TokenView>)
    requires
        number_at(ts, 0),
        additive(ts[1].type_) is Some,
        number_at(ts, 2),
        multiplicative(ts[3].type_) is Some,
        number_at(ts, 4),
        ends_at(ts, 5),
    ensures
        p_exp(ts, 0, 0) == Ok::<(SExpression, int), Seq<char>>((SExpression::Binary {
            op: additive(ts[1].type_)->0,
            left: Box::new(constant_at(ts, 0)),
            right: Box::new(SExpression::Binary {
                op: multiplicative(ts[3].type_)->0,
                left: Box::new(constant_at(ts, 2)),
                right: Box::new(constant_at(ts, 4)),
            }),
        }, 5)),
{
    let a = constant_at(ts, 0);
    let b = constant_at(ts, 2);
    let c = constant_at(ts, 4);
    let bc = SExpression::Binary { op: multiplicative(ts[3].type_)->0, left: Box::new(b), right: Box::new(c) };
    let abc = SExpression::Binary { op: additive(ts[1].type_)->0, left: Box::new(a), right: Box::new(bc) };
    assert(p_prefix(ts, 0) == Ok::<(SExpression, int), Seq<char>>((a, 1)));
    assert(p_prefix(ts, 2) == Ok::<(SExpression, int), Seq<char>>((b, 3)));
    assert(p_prefix(ts, 4) == Ok::<(SExpression, int), Seq<char>>((c, 5)));
    assert(p_exp_loop(ts, 5, 71, c) == Ok::<(SExpression, int), Seq<char>>((c, 5)));
    assert(p_exp(ts, 4, 71) == Ok::<(SExpression, int), Seq<char>>((c, 5)));
    assert(p_exp_loop(ts, 5, 61, bc) == Ok::<(SExpression, int), Seq<char>>((bc, 5)));
    assert(p_exp_loop(ts, 3, 61, b) == Ok::<(SExpression, int), Seq<char>>((bc, 5)));
    assert(p_exp(ts, 2, 61) == Ok::<(SExpression, int), Seq<char>>((bc, 5)));
    assert(p_exp_loop(ts, 5, 0, abc) == Ok::<(SExpression, int), Seq<char>>((abc, 5)));
    assert(p_exp_loop(ts, 1, 0, a) == Ok::<(SExpression, int), Seq<char>>((abc, 5)));
}

/// `a * b + c` (any of `*`, `/`, `%` then any of `+`, `-`) parses as
/// `(a * b) + c`.
pub proof fn lemma_product_binds_tighter_before_sum(ts: Seq<TokenView>)
    requires
        number_at(ts, 0),
        multiplicative(ts[1].type_) is Some,
        number_at(ts, 2),
        additive(ts[3].type_) is Some,
        number_at(ts, 4),
        ends_at(ts, 5),
    ensures
        p_exp(ts, 0, 0) == Ok::<(SExpression, int), Seq<char>>((SExpression::Binary {
            op: additive(ts[3].type_)->0,
            left: Box::new(SExpression::Binary {
                op: multiplicative(ts[1].type_)->0,
                left: Box::new(constant_at(ts, 0)),
                right: Box::new(constant_at(ts, 2)),
            }),
            right: Box::new(constant_at(ts, 4)),
        }, 5)),
{
    let a = constant_at(ts, 0);
    let b = constant_at(ts, 2);
    let c = constant_at(ts, 4);
    let ab = SExpression::Binary { op: multiplicative(ts[1].type_)->0, left: Box::new(a), right: Box::new(b) };
    let abc = SExpression::Binary { op: additive(ts[3].type_)->0, left: Box::new(ab), right: Box::new(c) };
    assert(p_prefix(ts, 0) == Ok::<(SExpression, int), Seq<char>>((a, 1)));
    assert(p_prefix(ts, 2) == Ok::<(SExpression, int), Seq<char>>((b, 3)));
    assert(p_prefix(ts, 4) == Ok::<(SExpression, int), Seq<char>>((c, 5)));
    assert(p_exp_loop(ts, 3, 71, b) == Ok::<(SExpression, int), Seq<char>>((b, 3)));
    assert(p_exp(ts, 2, 71) == Ok::<(SExpression, int), Seq<char>>((b, 3)));
    assert(p_exp_loop(ts, 5, 61, c) == Ok::<(SExpression, int), Seq<char>>((c, 5)));
    assert(p_exp(ts, 4, 61) == Ok::<(SExpression, int), Seq<char>>((c, 5)));
    assert(p_exp_loop(ts, 5, 0, abc) == Ok::<(SExpression, int), Seq<char>>((abc, 5)));
    assert(p_exp_loop(ts, 3, 0, ab) == Ok::<(SExpression, int), Seq<char>>((abc, 5)));
    assert(p_exp_loop(ts, 1, 0, a) == Ok::<(SExpression, int), Seq<char>>((abc, 5)));
}

} // verus!
