//! The first-generation parser: functions `int <name>(void) { ... }` whose
//! bodies hold declarations and statements, with expressions parsed by
//! precedence climbing.

use vstd::prelude::*;
use crate::error::ParserError;
use crate::lexer::lexer::{lemma_offset_bounds, lemma_runs_end, lex_from, offset, opt_token, scan_step};
use crate::lexer::token::{
    boundary_index, byte_len, is_char_range, lemma_boundary_of_prefix, range_text, Token, TokenType, Value,
};
use crate::parser::c_ast::{
    block_view, blocks_view, expr_view, function_view, precedence_of, program_view, stmt_view,
    BinaryOperator, Block, Declaration, Expr, Function, LiteralExpr, Program, SBlock, SDeclaration,
    SExpr, SFunction, SProgram, SStmt, Stmt,
};
use crate::lexer::token::{lemma_boundary_index, lemma_byte_len_prefix_increasing};
use crate::text::{chars_of, owned, push_str};

verus! {

/// A parse result: the value and the position after it, or a message.
pub type PResult<T> = Result<(T, int), Seq<char>>;

/// The tokens end with `Eof` and every token's range lies on character
/// boundaries of the source (as the lexer makes them).
pub open spec fn parsable(ts: Seq<Token>, src: Seq<char>) -> bool {
    &&& ts.len() > 0
    &&& ts.last().token_type == TokenType::Eof
    &&& forall|i: int| 0 <= i < ts.len() ==> is_char_range(
        src,
        #[trigger] ts[i].lexeme_range.start as int,
        ts[i].lexeme_range.end as int,
    )
}

/// The parser has reached `Eof` (or run out of tokens).
pub open spec fn at_end(ts: Seq<Token>, pos: int) -> bool {
    pos < 0 || pos >= ts.len() || ts[pos].token_type == TokenType::Eof
}

/// The token at `pos` has kind `t` and is not the end.
pub open spec fn check_at(ts: Seq<Token>, pos: int, t: TokenType) -> bool {
    !at_end(ts, pos) && ts[pos].token_type == t
}

/// The text of the token at `pos`.
pub open spec fn lexeme_at(ts: Seq<Token>, src: Seq<char>, pos: int) -> Seq<char> {
    range_text(src, ts[pos].lexeme_range.start as int, ts[pos].lexeme_range.end as int)
}

/// The message of a failed `consume`.
pub open spec fn consume_message(ts: Seq<Token>, src: Seq<char>, pos: int, message: Seq<char>) -> Seq<char> {
    message + " (found '"@ + lexeme_at(ts, src, pos) + "')"@
}

/// Reads a token of kind `t`, or fails with `message`.
pub open spec fn p_consume(ts: Seq<Token>, src: Seq<char>, pos: int, t: TokenType, message: Seq<char>) -> Result<int, Seq<char>> {
    if check_at(ts, pos, t) {
        Ok(pos + 1)
    } else {
        Err(consume_message(ts, src, pos, message))
    }
}

/// The operator a token kind starts, if any.
pub open spec fn operator_of(t: TokenType) -> Option<BinaryOperator> {
    match t {
        TokenType::Add => Some(BinaryOperator::Add),
        TokenType::Minus => Some(BinaryOperator::Subtract),
        TokenType::Mul => Some(BinaryOperator::Multiply),
        TokenType::Div => Some(BinaryOperator::Divide),
        TokenType::Remainder => Some(BinaryOperator::Remainder),
        TokenType::And => Some(BinaryOperator::And),
        TokenType::Or => Some(BinaryOperator::Or),
        TokenType::EqualEqual => Some(BinaryOperator::EqualEqual),
        TokenType::BangEqual => Some(BinaryOperator::BangEqual),
        TokenType::Less => Some(BinaryOperator::Less),
        TokenType::LessEqual => Some(BinaryOperator::LessEqual),
        TokenType::Greater => Some(BinaryOperator::Greater),
        TokenType::GreaterEqual => Some(BinaryOperator::GreaterEqual),
        TokenType::Equal => Some(BinaryOperator::Equal),
        TokenType::Question => Some(BinaryOperator::Question),
        _ => None,
    }
}

pub open spec fn factor_message(ts: Seq<Token>, src: Seq<char>, pos: int) -> Seq<char> {
    "Expected an expression factor (integer, variable, unary, or grouping), but found '"@
        + lexeme_at(ts, src, pos) + "'"@
}

/// A sub-parse moved forward and stayed inside the tokens.
pub open spec fn advanced(ts: Seq<Token>, pos: int, q: int) -> bool {
    pos < q <= ts.len()
}

/// A factor: a literal, a unary operator applied to a factor, a
/// parenthesized expression or a variable.
pub open spec fn p_factor(ts: Seq<Token>, src: Seq<char>, pos: int) -> PResult<SExpr>
    decreases ts.len() - pos, 1int,
{
    if check_at(ts, pos, TokenType::LiteralInt) {
        match ts[pos].literal {
            Some(Value::Int(i)) => Ok((SExpr::Literal(LiteralExpr::Integer(i)), pos + 1)),
            None => Err("Internal error: LiteralInt token missing value"@),
        }
    } else if check_at(ts, pos, TokenType::Minus) || check_at(ts, pos, TokenType::BitwiseNot) || check_at(
        ts,
        pos,
        TokenType::Bang,
    ) {
        match p_factor(ts, src, pos + 1) {
            Err(m) => Err(m),
            Ok((e, q)) => Ok((SExpr::Unary { operator: ts[pos], right: Box::new(e) }, q)),
        }
    } else if check_at(ts, pos, TokenType::LeftParen) {
        match p_prec(ts, src, pos + 1, 0) {
            Err(m) => Err(m),
            Ok((e, q)) => if !advanced(ts, pos, q) {
                Err(Seq::empty())
            } else {
                match p_consume(ts, src, q, TokenType::RightParen, "Expected ')' after expression in parentheses"@) {
                    Err(m) => Err(m),
                    Ok(q2) => Ok((SExpr::Grouping { expression: Box::new(e) }, q2)),
                }
            },
        }
    } else if check_at(ts, pos, TokenType::Identifier) {
        Ok((SExpr::Var { name: ts[pos], unique_name: lexeme_at(ts, src, pos) }, pos + 1))
    } else {
        Err(factor_message(ts, src, pos))
    }
}

/// An expression whose operators bind at least as strongly as `min`.
pub open spec fn p_prec(ts: Seq<Token>, src: Seq<char>, pos: int, min: u8) -> PResult<SExpr>
    decreases ts.len() - pos, 2int,
{
    match p_factor(ts, src, pos) {
        Err(m) => Err(m),
        Ok((left, q)) => if !advanced(ts, pos, q) {
            Err(Seq::empty())
        } else {
            p_prec_loop(ts, src, q, min, left)
        },
    }
}

/// The operator loop of `p_prec`: extends `left` with the operators at
/// `pos` that bind at least as strongly as `min`.
pub open spec fn p_prec_loop(ts: Seq<Token>, src: Seq<char>, pos: int, min: u8, left: SExpr) -> PResult<SExpr>
    decreases ts.len() - pos, 0int,
{
    if pos < 0 || pos >= ts.len() {
        Ok((left, pos))
    } else {
        match operator_of(ts[pos].token_type) {
            None => Ok((left, pos)),
            Some(op) => if precedence_of(op) < min {
                Ok((left, pos))
            } else if op == BinaryOperator::Question {
                match p_prec(ts, src, pos + 1, 0) {
                    Err(m) => Err(m),
                    Ok((then_e, q)) => if !advanced(ts, pos, q) {
                        Err(Seq::empty())
                    } else {
                        match p_consume(ts, src, q, TokenType::Colon, "Expected ':' in ternary operator"@) {
                            Err(m) => Err(m),
                            Ok(q2) => match p_prec(ts, src, q2, precedence_of(op)) {
                                Err(m) => Err(m),
                                Ok((else_e, q3)) => if !advanced(ts, pos, q3) {
                                    Err(Seq::empty())
                                } else {
                                    p_prec_loop(ts, src, q3, min, SExpr::Condtional {
                                        condition: Box::new(left),
                                        left: Box::new(then_e),
                                        right: Box::new(else_e),
                                    })
                                },
                            },
                        }
                    },
                }
            } else {
                let next = if op == BinaryOperator::Equal { precedence_of(op) } else { (precedence_of(op) + 1) as u8 };
                match p_prec(ts, src, pos + 1, next) {
                    Err(m) => Err(m),
                    Ok((right, q)) => if !advanced(ts, pos, q) {
                        Err(Seq::empty())
                    } else if op == BinaryOperator::Equal {
                        p_prec_loop(ts, src, q, min, SExpr::Assignment { left: Box::new(left), right: Box::new(right) })
                    } else {
                        p_prec_loop(ts, src, q, min, SExpr::Binary {
                            operator: op,
                            left: Box::new(left),
                            right: Box::new(right),
                        })
                    },
                }
            },
        }
    }
}

/// The rest of `return [e];`, the keyword being at `pos`.
pub open spec fn p_return(ts: Seq<Token>, src: Seq<char>, pos: int) -> PResult<SStmt> {
    let value: PResult<Option<SExpr>> = if check_at(ts, pos + 1, TokenType::Semicolon) {
        Ok((None, pos + 1))
    } else {
        match p_prec(ts, src, pos + 1, 0) {
            Err(m) => Err(m),
            Ok((e, q)) => Ok((Some(e), q)),
        }
    };
    match value {
        Err(m) => Err(m),
        Ok((v, q)) => match p_consume(ts, src, q, TokenType::Semicolon, "Expected ';' after return statement"@) {
            Err(m) => Err(m),
            Ok(q2) => Ok((SStmt::Return { keyword: ts[pos], value: v }, q2)),
        },
    }
}

/// A statement: `return [e];`, `;`, `if (e) s [else s]` or `e;`.
pub open spec fn p_statement(ts: Seq<Token>, src: Seq<char>, pos: int) -> PResult<SStmt>
    decreases ts.len() - pos, 3int,
{
    if check_at(ts, pos, TokenType::KeywordReturn) {
        p_return(ts, src, pos)
    } else if check_at(ts, pos, TokenType::Semicolon) {
        Ok((SStmt::Null, pos + 1))
    } else if check_at(ts, pos, TokenType::KeywordIf) {
        match p_consume(ts, src, pos + 1, TokenType::LeftParen, "Expected '(' after if"@) {
            Err(m) => Err(m),
            Ok(q) => match p_prec(ts, src, q, 0) {
                Err(m) => Err(m),
                Ok((c, q2)) => match p_consume(ts, src, q2, TokenType::RightParen, "Expected ')' after if condition"@) {
                    Err(m) => Err(m),
                    Ok(q3) => if !advanced(ts, pos, q3) {
                        Err(Seq::empty())
                    } else {
                        match p_statement(ts, src, q3) {
                            Err(m) => Err(m),
                            Ok((then_s, q4)) => if !advanced(ts, pos, q4) {
                                Err(Seq::empty())
                            } else if check_at(ts, q4, TokenType::KeywordElse) {
                                match p_statement(ts, src, q4 + 1) {
                                    Err(m) => Err(m),
                                    Ok((else_s, q5)) => Ok((SStmt::If {
                                        condition: c,
                                        then_branch: Box::new(then_s),
                                        else_branch: Some(Box::new(else_s)),
                                    }, q5)),
                                }
                            } else {
                                Ok((SStmt::If { condition: c, then_branch: Box::new(then_s), else_branch: None }, q4))
                            },
                        }
                    },
                },
            },
        }
    } else {
        match p_prec(ts, src, pos, 0) {
            Err(m) => Err(m),
            Ok((e, q)) => match p_consume(ts, src, q, TokenType::Semicolon, "Expected ';' after expression statement"@) {
                Err(m) => Err(m),
                Ok(q2) => Ok((SStmt::Expression { exp: e }, q2)),
            },
        }
    }
}

/// A body item: `int <name> [= e];` or a statement.
pub open spec fn p_block(ts: Seq<Token>, src: Seq<char>, pos: int) -> PResult<SBlock>
    decreases ts.len() - pos, 4int,
{
    if check_at(ts, pos, TokenType::KeywordInt) {
        match p_consume(ts, src, pos + 1, TokenType::Identifier, "Expected variable name after 'int'"@) {
            Err(m) => Err(m),
            Ok(q) => {
                let init: PResult<Option<SExpr>> = if check_at(ts, q, TokenType::Equal) {
                    match p_prec(ts, src, q + 1, 0) {
                        Err(m) => Err(m),
                        Ok((e, q2)) => Ok((Some(e), q2)),
                    }
                } else {
                    Ok((None, q))
                };
                match init {
                    Err(m) => Err(m),
                    Ok((i, q2)) => match p_consume(ts, src, q2, TokenType::Semicolon, "Expected ';' after variable declaration"@) {
                        Err(m) => Err(m),
                        Ok(q3) => Ok((SBlock::Declaration(SDeclaration {
                            name: ts[pos + 1],
                            init: i,
                            unique_name: lexeme_at(ts, src, pos + 1),
                        }), q3)),
                    },
                }
            },
        }
    } else {
        match p_statement(ts, src, pos) {
            Err(m) => Err(m),
            Ok((s, q)) => Ok((SBlock::Stmt(s), q)),
        }
    }
}

/// The items of a body up to its `}` (or the end), after the items `acc`.
pub open spec fn p_items(ts: Seq<Token>, src: Seq<char>, pos: int, acc: Seq<SBlock>) -> PResult<Seq<SBlock>>
    decreases ts.len() - pos, 5int,
{
    if check_at(ts, pos, TokenType::RightBrace) || at_end(ts, pos) {
        Ok((acc, pos))
    } else {
        match p_block(ts, src, pos) {
            Err(m) => Err(m),
            Ok((b, q)) => if !advanced(ts, pos, q) {
                Err(Seq::empty())
            } else {
                p_items(ts, src, q, acc.push(b))
            },
        }
    }
}

/// A function: `int <name> ( void ) { <items> }`.
pub open spec fn p_function(ts: Seq<Token>, src: Seq<char>, pos: int) -> PResult<SFunction> {
    match p_consume(ts, src, pos, TokenType::KeywordInt, "Expected 'int' for function return type"@) {
        Err(m) => Err(m),
        Ok(q1) => match p_consume(ts, src, q1, TokenType::Identifier, "Expected function name after 'int'"@) {
            Err(m) => Err(m),
            Ok(q2) => match p_consume(ts, src, q2, TokenType::LeftParen, "Expected '(' after function name"@) {
                Err(m) => Err(m),
                Ok(q3) => match p_consume(
                    ts,
                    src,
                    q3,
                    TokenType::KeywordVoid,
                    "Expected 'void' as parameter (currently only void is supported)"@,
                ) {
                    Err(m) => Err(m),
                    Ok(q4) => match p_consume(ts, src, q4, TokenType::RightParen, "Expected ')' to end function parameters"@) {
                        Err(m) => Err(m),
                        Ok(q5) => match p_consume(ts, src, q5, TokenType::LeftBrace, "Expected '{' to start function body"@) {
                            Err(m) => Err(m),
                            Ok(q6) => match p_items(ts, src, q6, Seq::empty()) {
                                Err(m) => Err(m),
                                Ok((body, q7)) => match p_consume(ts, src, q7, TokenType::RightBrace, "Expected '}' to end function body"@) {
                                    Err(m) => Err(m),
                                    Ok(q8) => Ok((SFunction { name: ts[q1], body }, q8)),
                                },
                            },
                        },
                    },
                },
            },
        },
    }
}

/// The functions from `pos` to the end, after the functions `acc`.
pub open spec fn p_program(ts: Seq<Token>, src: Seq<char>, pos: int, acc: Seq<SFunction>) -> Result<SProgram, Seq<char>>
    decreases ts.len() - pos,
{
    if at_end(ts, pos) {
        Ok(SProgram { functions: acc })
    } else {
        match p_function(ts, src, pos) {
            Err(m) => Err(m),
            Ok((f, q)) => if !advanced(ts, pos, q) {
                Err(Seq::empty())
            } else {
                p_program(ts, src, q, acc.push(f))
            },
        }
    }
}

/// What the first-generation lexer produces from the start of a text, when
/// it succeeds, is what the parser accepts: it ends with `Eof` and every
/// token's range falls on character boundaries of the text.
pub proof fn lemma_lexed_tokens_parsable(s: Seq<char>)
    requires
        byte_len(s) <= usize::MAX,
        lex_from(s, 0, 0).1 is Ok,
    ensures
        parsable(lex_from(s, 0, 0).0, s),
{
    assert(s.take(0) =~= Seq::<char>::empty());
    lemma_lex_from_parsable(s, 0, 0);
}

proof fn lemma_lex_from_parsable(s: Seq<char>, k: int, j: int)
    requires
        byte_len(s) <= usize::MAX,
        0 <= j <= k <= s.len(),
        lex_from(s, k, offset(s, j) as int).1 is Ok,
    ensures
        parsable(lex_from(s, k, offset(s, j) as int).0, s),
    decreases s.len() - k,
{
    lemma_offset_bounds(s, j);
    lemma_offset_bounds(s, k);
    lemma_boundary_of_prefix(s, j);
    lemma_boundary_of_prefix(s, k);
    if j < k {
        crate::lexer::token::lemma_byte_len_prefix_increasing(s, j, k);
    }
    if k < s.len() {
        let st = scan_step(s, k);
        lemma_runs_end(s, k + 1);
        let k2 = st->Ok_0.1;
        assert(k < k2 <= s.len());
        lemma_offset_bounds(s, k2);
        lemma_boundary_of_prefix(s, k2);
        crate::lexer::token::lemma_byte_len_prefix_increasing(s, k, k2);
        lemma_lex_from_parsable(s, k2, k);
        let rest = lex_from(s, k2, offset(s, k) as int).0;
        let all = lex_from(s, k, offset(s, j) as int).0;
        assert(all == opt_token(st->Ok_0.0) + rest);
        assert forall|i: int| 0 <= i < all.len() implies is_char_range(
            s,
            #[trigger] all[i].lexeme_range.start as int,
            all[i].lexeme_range.end as int,
        ) by {
            if i < opt_token(st->Ok_0.0).len() {
            } else {
                assert(all[i] == rest[i - opt_token(st->Ok_0.0).len()]);
            }
        }
    }
}

/// The byte offsets at which the characters of `cs` start, and its length
/// in bytes.
fn boundary_offsets(cs: &Vec<char>) -> (r: Vec<usize>)
    requires
        byte_len(cs@) <= usize::MAX,
    ensures
        r@.len() == cs@.len() + 1,
        forall|k: int| 0 <= k <= cs@.len() ==> #[trigger] r@[k] == offset(cs@, k),
{
    let mut r: Vec<usize> = Vec::new();
    let mut pos: usize = 0;
    let mut k: usize = 0;
    proof {
        assert(cs@.take(0) =~= Seq::<char>::empty());
    }
    r.push(0);
    while k < cs.len()
        invariant
            k <= cs@.len(),
            byte_len(cs@) <= usize::MAX,
            pos == offset(cs@, k as int),
            r@.len() == k + 1,
            forall|j: int| 0 <= j <= k ==> #[trigger] r@[j] == offset(cs@, j),
        decreases cs@.len() - k,
    {
        proof {
            lemma_offset_bounds(cs@, k as int + 1);
            assert(cs@.take(k + 1).drop_last() =~= cs@.take(k as int));
            assert(cs@.take(k + 1).last() == cs@[k as int]);
        }
        let c = cs[k];
        let w: usize = if (c as u32) < 0x80 {
            1
        } else if (c as u32) < 0x800 {
            2
        } else if (c as u32) < 0x10000 {
            3
        } else {
            4
        };
        pos = pos + w;
        k = k + 1;
        r.push(pos);
    }
    r
}

/// Whether `b` is one of the offsets.
fn is_offset(offs: &Vec<usize>, b: usize) -> (r: bool)
    ensures
        r == exists|k: int| 0 <= k < offs@.len() && offs@[k] == b,
{
    let mut k: usize = 0;
    while k < offs.len()
        invariant
            k <= offs@.len(),
            forall|j: int| 0 <= j < k ==> offs@[j] != b,
        decreases offs@.len() - k,
    {
        if offs[k] == b {
            return true;
        }
        k += 1;
    }
    false
}

/// Whether the tokens are what the parser accepts: they end with `Eof` and
/// every range falls on character boundaries of the source.
pub fn tokens_parsable(tokens: &Vec<Token>, source: &str) -> (r: bool)
    requires
        byte_len(source@) <= usize::MAX,
    ensures
        r == parsable(tokens@, source@),
{
    let ghost s = source@;
    if tokens.len() == 0 {
        return false;
    }
    if tokens[tokens.len() - 1].token_type != TokenType::Eof {
        return false;
    }
    let cs = chars_of(source);
    let offs = boundary_offsets(&cs);
    proof {
        assert forall|b: int| #[trigger] boundary_index(s, b) is Some <==> exists|k: int| 0 <= k < offs@.len() && offs@[k] == b by {
            if boundary_index(s, b) is Some {
                lemma_boundary_index(s, b);
                let k = boundary_index(s, b)->0 as int;
                assert(offs@[k] == offset(s, k));
            }
            if exists|k: int| 0 <= k < offs@.len() && offs@[k] == b {
                let k = choose|k: int| 0 <= k < offs@.len() && offs@[k] == b;
                assert(offs@[k] == offset(s, k));
                lemma_boundary_of_prefix(s, k);
            }
        }
    }
    let mut i: usize = 0;
    while i < tokens.len()
        invariant
            i <= tokens@.len(),
            s == source@,
            forall|j: int| 0 <= j < i ==> is_char_range(
                s,
                #[trigger] tokens@[j].lexeme_range.start as int,
                tokens@[j].lexeme_range.end as int,
            ),
            forall|b: int| #[trigger] boundary_index(s, b) is Some <==> exists|k: int| 0 <= k < offs@.len() && offs@[k] == b,
        decreases tokens@.len() - i,
    {
        let start = tokens[i].lexeme_range.start;
        let end = tokens[i].lexeme_range.end;
        if !(start <= end && is_offset(&offs, start) && is_offset(&offs, end)) {
            proof {
                assert(boundary_index(s, start as int) is Some <==> exists|k: int| 0 <= k < offs@.len() && offs@[k] == start);
                assert(boundary_index(s, end as int) is Some <==> exists|k: int| 0 <= k < offs@.len() && offs@[k] == end);
            }
            return false;
        }
        proof {
            assert(boundary_index(s, start as int) is Some <==> exists|k: int| 0 <= k < offs@.len() && offs@[k] == start);
            assert(boundary_index(s, end as int) is Some <==> exists|k: int| 0 <= k < offs@.len() && offs@[k] == end);
        }
        i += 1;
    }
    true
}

/// The views of a list of functions.
pub open spec fn functions_view(v: Seq<Function>) -> Seq<SFunction> {
    v.map_values(|f: Function| function_view(f))
}

/// A parser over a token vector and the source text its ranges point into.
pub struct Parser<'a> {
    tokens: Vec<Token>,
    current: usize,
    source: &'a str,
}

impl<'a> Parser<'a> {
    /// The tokens being parsed.
    pub closed spec fn token_seq(&self) -> Seq<Token> {
        self.tokens@
    }

    /// The source text.
    pub closed spec fn text(&self) -> Seq<char> {
        self.source@
    }

    /// The index of the next token.
    pub closed spec fn position(&self) -> int {
        self.current as int
    }

    closed spec fn inv(&self) -> bool {
        &&& parsable(self.tokens@, self.source@)
        &&& self.current < self.tokens@.len()
    }

    /// A parser at the first of `tokens`.
    pub fn new(tokens: Vec<Token>, source: &'a str) -> (r: Self)
        ensures
            r.token_seq() == tokens@,
            r.text() == source@,
            r.position() == 0,
    {
        Parser { tokens, current: 0, source }
    }

    /// Parses functions up to `Eof`.
    pub fn parse(&mut self) -> (r: Result<Program, ParserError>)
        requires
            parsable(old(self).token_seq(), old(self).text()),
            old(self).position() < old(self).token_seq().len(),
        ensures
            final(self).token_seq() == old(self).token_seq(),
            final(self).text() == old(self).text(),
            final(self).position() < final(self).token_seq().len(),
            match (r, p_program(old(self).token_seq(), old(self).text(), old(self).position(), Seq::empty())) {
                (Ok(p), Ok(sp)) => program_view(p) == sp,
                (Err(e), Err(m)) => e.message@ == m,
                _ => false,
            },
    {
        let ghost ts = self.tokens@;
        let ghost src = self.source@;
        let ghost start = self.current as int;
        let mut functions: Vec<Function> = Vec::new();
        assert(functions_view(functions@) =~= Seq::<SFunction>::empty());
        while !self.is_at_end()
            invariant
                self.inv(),
                self.tokens@ == ts,
                self.source@ == src,
                ts == old(self).token_seq(),
                src == old(self).text(),
                start == old(self).position(),
                p_program(ts, src, start, Seq::empty()) == p_program(ts, src, self.current as int, functions_view(functions@)),
            decreases ts.len() - self.current,
        {
            let f = self.parse_function()?;
            let ghost before = functions@;
            functions.push(f);
            proof {
                assert(functions_view(functions@) =~= functions_view(before).push(function_view(f)));
            }
        }
        proof {
            assert(program_view(Program { functions }).functions =~= functions_view(functions@));
        }
        Ok(Program { functions })
    }

    fn parse_function(&mut self) -> (r: Result<Function, ParserError>)
        requires
            old(self).inv(),
        ensures
            final(self).inv(),
            final(self).tokens@ == old(self).tokens@,
            final(self).source@ == old(self).source@,
            match (r, p_function(old(self).tokens@, old(self).source@, old(self).current as int)) {
                (Ok(f), Ok((sf, q))) => function_view(f) == sf && final(self).current == q && old(self).current < q,
                (Err(e), Err(m)) => e.message@ == m,
                _ => false,
            },
    {
        let ghost ts = self.tokens@;
        let ghost src = self.source@;
        self.consume(TokenType::KeywordInt, "Expected 'int' for function return type")?;
        let name_index = self.consume(TokenType::Identifier, "Expected function name after 'int'")?;
        let identifier_token = self.tokens[name_index].duplicate();
        self.consume(TokenType::LeftParen, "Expected '(' after function name")?;
        self.consume(TokenType::KeywordVoid, "Expected 'void' as parameter (currently only void is supported)")?;
        self.consume(TokenType::RightParen, "Expected ')' to end function parameters")?;
        let body = self.parse_body()?;
        Ok(Function { name: identifier_token, body })
    }

    fn parse_body(&mut self) -> (r: Result<Vec<Block>, ParserError>)
        requires
            old(self).inv(),
        ensures
            final(self).inv(),
            final(self).tokens@ == old(self).tokens@,
            final(self).source@ == old(self).source@,
            ({
                let ts = old(self).tokens@;
                let src = old(self).source@;
                let pos = old(self).current as int;
                let spec_r = match p_consume(ts, src, pos, TokenType::LeftBrace, "Expected '{' to start function body"@) {
                    Err(m) => Err(m),
                    Ok(q6) => match p_items(ts, src, q6, Seq::empty()) {
                        Err(m) => Err(m),
                        Ok((body, q7)) => match p_consume(ts, src, q7, TokenType::RightBrace, "Expected '}' to end function body"@) {
                            Err(m) => Err(m),
                            Ok(q8) => Ok((body, q8)),
                        },
                    },
                };
                match (r, spec_r) {
                    (Ok(b), Ok((sb, q))) => blocks_view(b@) == sb && final(self).current == q && old(self).current < q,
                    (Err(e), Err(m)) => e.message@ == m,
                    _ => false,
                }
            }),
    {
        let ghost ts = self.tokens@;
        let ghost src = self.source@;
        self.consume(TokenType::LeftBrace, "Expected '{' to start function body")?;
        let ghost q6 = self.current as int;
        let mut body: Vec<Block> = Vec::new();
        assert(blocks_view(body@) =~= Seq::<SBlock>::empty());
        while !self.check(TokenType::RightBrace) && !self.is_at_end()
            invariant
                self.inv(),
                self.tokens@ == ts,
                self.source@ == src,
                q6 <= self.current,
                ts == old(self).tokens@,
                src == old(self).source@,
                old(self).current < q6,
                p_consume(ts, src, old(self).current as int, TokenType::LeftBrace, "Expected '{' to start function body"@)
                    == Ok::<int, Seq<char>>(q6),
                p_items(ts, src, q6, Seq::empty()) == p_items(ts, src, self.current as int, blocks_view(body@)),
            decreases ts.len() - self.current,
        {
            let ghost pos_before = self.current as int;
            let b = match self.parse_block() {
                Ok(b) => b,
                Err(e) => {
                    proof {
                        assert(p_items(ts, src, pos_before, blocks_view(body@)) == Err::<(Seq<SBlock>, int), Seq<char>>(e.message@));
                    }
                    return Err(e);
                },
            };
            let ghost before = body@;
            body.push(b);
            proof {
                assert(blocks_view(body@) =~= blocks_view(before).push(block_view(b)));
            }
        }
        self.consume(TokenType::RightBrace, "Expected '}' to end function body")?;
        Ok(body)
    }

    fn parse_block(&mut self) -> (r: Result<Block, ParserError>)
        requires
            old(self).inv(),
        ensures
            final(self).inv(),
            final(self).tokens@ == old(self).tokens@,
            final(self).source@ == old(self).source@,
            match (r, p_block(old(self).tokens@, old(self).source@, old(self).current as int)) {
                (Ok(b), Ok((sb, q))) => block_view(b) == sb && final(self).current == q && old(self).current < q,
                (Err(e), Err(m)) => e.message@ == m,
                _ => false,
            },
    {
        if self.check(TokenType::KeywordInt) {
            self.advance();
            let name_index = self.consume(TokenType::Identifier, "Expected variable name after 'int'")?;
            let name_token = self.tokens[name_index].duplicate();
            let init = if self.match_token(TokenType::Equal) {
                Some(self.parse_expression()?)
            } else {
                None
            };
            self.consume(TokenType::Semicolon, "Expected ';' after variable declaration")?;
            let name = name_token.get_lexeme(self.source);
            let init = match init {
                Some(e) => Some(Box::new(e)),
                None => None,
            };
            Ok(Block::Declaration(Declaration { name: name_token, init, unique_name: name }))
        } else {
            let s = self.parse_statement()?;
            Ok(Block::Stmt(s))
        }
    }

    fn parse_statement(&mut self) -> (r: Result<Stmt, ParserError>)
        requires
            old(self).inv(),
        ensures
            final(self).inv(),
            final(self).tokens@ == old(self).tokens@,
            final(self).source@ == old(self).source@,
            match (r, p_statement(old(self).tokens@, old(self).source@, old(self).current as int)) {
                (Ok(s), Ok((ss, q))) => stmt_view(s) == ss && final(self).current == q && old(self).current < q,
                (Err(e), Err(m)) => e.message@ == m,
                _ => false,
            },
        decreases old(self).tokens@.len() - old(self).current, 3int,
    {
        let ghost ts = self.tokens@;
        let ghost src = self.source@;
        let start = self.current;
        if self.match_token(TokenType::KeywordReturn) {
            self.parse_return_statement()
        } else if self.match_token(TokenType::Semicolon) {
            Ok(Stmt::Null)
        } else if self.match_token(TokenType::KeywordIf) {
            self.consume(TokenType::LeftParen, "Expected '(' after if")?;
            let condition = self.parse_expression()?;
            self.consume(TokenType::RightParen, "Expected ')' after if condition")?;
            let then_branch = self.parse_statement()?;
            let else_branch = if self.match_token(TokenType::KeywordElse) {
                Some(Box::new(self.parse_statement()?))
            } else {
                None
            };
            Ok(Stmt::If { condition: Box::new(condition), then_branch: Box::new(then_branch), else_branch })
        } else {
            let expr = self.parse_expression()?;
            self.consume(TokenType::Semicolon, "Expected ';' after expression statement")?;
            Ok(Stmt::Expression { exp: Box::new(expr) })
        }
    }

    /// The rest of a `return` statement, its keyword just read.
    fn parse_return_statement(&mut self) -> (r: Result<Stmt, ParserError>)
        requires
            old(self).inv(),
            old(self).current >= 1,
            check_at(old(self).tokens@, old(self).current - 1, TokenType::KeywordReturn),
        ensures
            final(self).inv(),
            final(self).tokens@ == old(self).tokens@,
            final(self).source@ == old(self).source@,
            match (r, p_return(old(self).tokens@, old(self).source@, old(self).current - 1)) {
                (Ok(s), Ok((ss, q))) => stmt_view(s) == ss && final(self).current == q && old(self).current <= q,
                (Err(e), Err(m)) => e.message@ == m,
                _ => false,
            },
    {
        let keyword = self.tokens[self.current - 1].duplicate();
        let value = if self.check(TokenType::Semicolon) {
            None
        } else {
            Some(self.parse_expression()?)
        };
        self.consume(TokenType::Semicolon, "Expected ';' after return statement")?;
        let value = match value {
            Some(e) => Some(Box::new(e)),
            None => None,
        };
        Ok(Stmt::Return { keyword, value })
    }

    fn parse_expression(&mut self) -> (r: Result<Expr, ParserError>)
        requires
            old(self).inv(),
        ensures
            final(self).inv(),
            final(self).tokens@ == old(self).tokens@,
            final(self).source@ == old(self).source@,
            match (r, p_prec(old(self).tokens@, old(self).source@, old(self).current as int, 0)) {
                (Ok(e), Ok((se, q))) => expr_view(e) == se && final(self).current == q && old(self).current < q,
                (Err(e), Err(m)) => e.message@ == m,
                _ => false,
            },
        decreases old(self).tokens@.len() - old(self).current, 2int, 1int,
    {
        self.parse_precedence(0)
    }

    fn parse_precedence(&mut self, min_precedence: u8) -> (r: Result<Expr, ParserError>)
        requires
            old(self).inv(),
        ensures
            final(self).inv(),
            final(self).tokens@ == old(self).tokens@,
            final(self).source@ == old(self).source@,
            match (r, p_prec(old(self).tokens@, old(self).source@, old(self).current as int, min_precedence)) {
                (Ok(e), Ok((se, q))) => expr_view(e) == se && final(self).current == q && old(self).current < q,
                (Err(e), Err(m)) => e.message@ == m,
                _ => false,
            },
        decreases old(self).tokens@.len() - old(self).current, 2int, 0int,
    {
        let ghost ts = self.tokens@;
        let ghost src = self.source@;
        let ghost start = self.current as int;
        let mut left = self.parse_factor()?;
        loop
            invariant_except_break
                self.inv(),
                self.tokens@ == ts,
                self.source@ == src,
                ts == old(self).tokens@,
                src == old(self).source@,
                start == old(self).current,
                start < self.current,
                p_prec(ts, src, start, min_precedence) == p_prec_loop(ts, src, self.current as int, min_precedence, expr_view(left)),
            ensures
                self.inv(),
                self.tokens@ == ts,
                self.source@ == src,
                start < self.current,
                p_prec(ts, src, start, min_precedence) == Ok::<(SExpr, int), Seq<char>>((expr_view(left), self.current as int)),
            decreases ts.len() - self.current,
        {
            let t = self.tokens[self.current].token_type;
            let op = match get_operator_info(t) {
                Some(op) => op,
                None => break,
            };
            let precedence = op.precedence();
            if precedence < min_precedence {
                break;
            }
            let op_pos = self.current;
            self.advance();
            if op == BinaryOperator::Question {
                let then_expr = self.parse_precedence(0)?;
                self.consume(TokenType::Colon, "Expected ':' in ternary operator")?;
                let else_expr = self.parse_precedence(precedence)?;
                left = Expr::Condtional {
                    condition: Box::new(left),
                    left: Box::new(then_expr),
                    right: Box::new(else_expr),
                };
            } else {
                let next_min_precedence = if op == BinaryOperator::Equal { precedence } else { precedence + 1 };
                let right = self.parse_precedence(next_min_precedence)?;
                if op == BinaryOperator::Equal {
                    left = Expr::Assignment { left: Box::new(left), right: Box::new(right) };
                } else {
                    left = Expr::Binary { operator: op, left: Box::new(left), right: Box::new(right) };
                }
            }
        }
        Ok(left)
    }

    fn parse_factor(&mut self) -> (r: Result<Expr, ParserError>)
        requires
            old(self).inv(),
        ensures
            final(self).inv(),
            final(self).tokens@ == old(self).tokens@,
            final(self).source@ == old(self).source@,
            match (r, p_factor(old(self).tokens@, old(self).source@, old(self).current as int)) {
                (Ok(e), Ok((se, q))) => expr_view(e) == se && final(self).current == q && old(self).current < q,
                (Err(e), Err(m)) => e.message@ == m,
                _ => false,
            },
        decreases old(self).tokens@.len() - old(self).current, 1int,
    {
        let start = self.current;
        if self.match_token(TokenType::LiteralInt) {
            match self.tokens[start].literal {
                Some(Value::Int(i)) => Ok(Expr::Literal(LiteralExpr::Integer(i))),
                None => Err(ParserError { message: owned("Internal error: LiteralInt token missing value") }),
            }
        } else if self.match_token(TokenType::Minus) || self.match_token(TokenType::BitwiseNot) || self.match_token(
            TokenType::Bang,
        ) {
            let operator_token = self.tokens[start].duplicate();
            let right_expr = self.parse_factor()?;
            Ok(Expr::Unary { operator: operator_token, right: Box::new(right_expr) })
        } else if self.match_token(TokenType::LeftParen) {
            let inner_expr = self.parse_expression()?;
            self.consume(TokenType::RightParen, "Expected ')' after expression in parentheses")?;
            Ok(Expr::Grouping { expression: Box::new(inner_expr) })
        } else if self.match_token(TokenType::Identifier) {
            let identifier = self.tokens[start].duplicate();
            let name = identifier.get_lexeme(self.source);
            Ok(Expr::Var { name: identifier, unique_name: name })
        } else {
            let mut message = owned("Expected an expression factor (integer, variable, unary, or grouping), but found '");
            let found = self.lexeme();
            push_str(&mut message, found.as_str());
            push_str(&mut message, "'");
            Err(ParserError { message })
        }
    }

    /// Reads a token of kind `t` and gives its index, or fails with
    /// `message` and the text of the token found.
    fn consume(&mut self, t: TokenType, message: &str) -> (r: Result<usize, ParserError>)
        requires
            old(self).inv(),
        ensures
            final(self).inv(),
            final(self).tokens@ == old(self).tokens@,
            final(self).source@ == old(self).source@,
            match (r, p_consume(old(self).tokens@, old(self).source@, old(self).current as int, t, message@)) {
                (Ok(i), Ok(q)) => i == old(self).current && final(self).current == q,
                (Err(e), Err(m)) => e.message@ == m,
                _ => false,
            },
    {
        if self.check(t) {
            let i = self.current;
            self.advance();
            Ok(i)
        } else {
            let current_token_lexeme = self.lexeme();
            let mut text = owned(message);
            push_str(&mut text, " (found '");
            push_str(&mut text, current_token_lexeme.as_str());
            push_str(&mut text, "')");
            Err(ParserError { message: text })
        }
    }

    /// The text of the next token.
    fn lexeme(&self) -> (r: String)
        requires
            self.inv(),
        ensures
            r@ == lexeme_at(self.tokens@, self.source@, self.current as int),
    {
        let t = &self.tokens[self.current];
        assert(is_char_range(self.source@, self.tokens@[self.current as int].lexeme_range.start as int, self.tokens@[self.current as int].lexeme_range.end as int));
        t.get_lexeme(self.source)
    }

    fn match_token(&mut self, t: TokenType) -> (r: bool)
        requires
            old(self).inv(),
        ensures
            final(self).inv(),
            final(self).tokens@ == old(self).tokens@,
            final(self).source@ == old(self).source@,
            r == check_at(old(self).tokens@, old(self).current as int, t),
            final(self).current == if r { old(self).current + 1 } else { old(self).current as int },
    {
        if self.check(t) {
            self.advance();
            true
        } else {
            false
        }
    }

    fn check(&self, t: TokenType) -> (r: bool)
        requires
            self.inv(),
        ensures
            r == check_at(self.tokens@, self.current as int, t),
    {
        if self.is_at_end() {
            return false;
        }
        self.tokens[self.current].token_type == t
    }

    /// Moves past a token that is not the end.
    fn advance(&mut self)
        requires
            old(self).inv(),
            !at_end(old(self).tokens@, old(self).current as int),
        ensures
            final(self).inv(),
            final(self).tokens@ == old(self).tokens@,
            final(self).source@ == old(self).source@,
            final(self).current == old(self).current + 1,
    {
        let n = self.tokens.len();
        self.current = self.current + 1;
    }

    fn is_at_end(&self) -> (r: bool)
        requires
            self.inv(),
        ensures
            r == at_end(self.tokens@, self.current as int),
    {
        self.tokens[self.current].token_type == TokenType::Eof
    }
}

/// The operator a token kind starts, if any.
fn get_operator_info(t: TokenType) -> (r: Option<BinaryOperator>)
    ensures
        r == operator_of(t),
{
    match t {
        TokenType::Add => Some(BinaryOperator::Add),
        TokenType::Minus => Some(BinaryOperator::Subtract),
        TokenType::Mul => Some(BinaryOperator::Multiply),
        TokenType::Div => Some(BinaryOperator::Divide),
        TokenType::Remainder => Some(BinaryOperator::Remainder),
        TokenType::And => Some(BinaryOperator::And),
        TokenType::Or => Some(BinaryOperator::Or),
        TokenType::EqualEqual => Some(BinaryOperator::EqualEqual),
        TokenType::BangEqual => Some(BinaryOperator::BangEqual),
        TokenType::Less => Some(BinaryOperator::Less),
        TokenType::LessEqual => Some(BinaryOperator::LessEqual),
        TokenType::Greater => Some(BinaryOperator::Greater),
        TokenType::GreaterEqual => Some(BinaryOperator::GreaterEqual),
        TokenType::Equal => Some(BinaryOperator::Equal),
        TokenType::Question => Some(BinaryOperator::Question),
        _ => None,
    }
}

} // verus!
