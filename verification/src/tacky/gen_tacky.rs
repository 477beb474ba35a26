//! First-generation TACKY generation: the syntax tree of one function
//! becomes a list of three-address instructions.
//!
//! Temporaries are named `tmp.<id>` and labels `abel.<id>`, with ids drawn
//! from one counter in the order the translation asks for them; `&&`, `||`
//! and `?:` are short-circuited through labels, and every function ends with
//! `return 0`.

use vstd::prelude::*;
use crate::common_ids::{generate_translator_label_name, generate_translator_temp_name, numbered};
use crate::error::TackyError;
use crate::lexer::token::{is_char_range, range_text, Token, TokenType};
use crate::parser::c_ast::{
    block_view, expr_view, function_view, stmt_view, BinaryOperator, Block,
    Expr, Function, LiteralExpr, Program, SBlock, SExpr, SFunction, SStmt, Stmt,
};
use crate::tacky::tacky::{
    body_view, BinaryOperator as TBinary, FunctionDefinition, Instruction, Program as TackyProgram,
    SInstruction, SValue, UnaryOperator as TUnary, Value,
};
use crate::text::{owned, push_str};

verus! {

/// The name of the temporary with id `id`.
pub open spec fn temp_name(id: nat) -> Seq<char> {
    numbered("tmp."@, id)
}

/// The name of the label with id `id`.
pub open spec fn label_name(id: nat) -> Seq<char> {
    numbered("abel."@, id)
}

/// The name of a token kind, as `Debug` writes it.
pub open spec fn token_type_name(t: TokenType) -> Seq<char> {
    match t {
        TokenType::KeywordInt => "KeywordInt"@,
        TokenType::KeywordReturn => "KeywordReturn"@,
        TokenType::KeywordVoid => "KeywordVoid"@,
        TokenType::KeywordIf => "KeywordIf"@,
        TokenType::KeywordElse => "KeywordElse"@,
        TokenType::Identifier => "Identifier"@,
        TokenType::LeftParen => "LeftParen"@,
        TokenType::RightParen => "RightParen"@,
        TokenType::LeftBrace => "LeftBrace"@,
        TokenType::RightBrace => "RightBrace"@,
        TokenType::Comma => "Comma"@,
        TokenType::Semicolon => "Semicolon"@,
        TokenType::LiteralInt => "LiteralInt"@,
        TokenType::BitwiseNot => "BitwiseNot"@,
        TokenType::Minus => "Minus"@,
        TokenType::Decrement => "Decrement"@,
        TokenType::Add => "Add"@,
        TokenType::Mul => "Mul"@,
        TokenType::Div => "Div"@,
        TokenType::Remainder => "Remainder"@,
        TokenType::Bang => "Bang"@,
        TokenType::And => "And"@,
        TokenType::Or => "Or"@,
        TokenType::EqualEqual => "EqualEqual"@,
        TokenType::BangEqual => "BangEqual"@,
        TokenType::Less => "Less"@,
        TokenType::LessEqual => "LessEqual"@,
        TokenType::Greater => "Greater"@,
        TokenType::GreaterEqual => "GreaterEqual"@,
        TokenType::Equal => "Equal"@,
        TokenType::Question => "Question"@,
        TokenType::Colon => "Colon"@,
        TokenType::Eof => "Eof"@,
    }
}

/// The TACKY operator of a unary operator token.
pub open spec fn unary_of(t: TokenType) -> Option<TUnary> {
    match t {
        TokenType::Minus => Some(TUnary::Negate),
        TokenType::BitwiseNot => Some(TUnary::Complement),
        TokenType::Bang => Some(TUnary::Bang),
        _ => None,
    }
}

/// The TACKY operator of an arithmetic or comparison operator.
pub open spec fn binary_of(op: BinaryOperator) -> Option<TBinary> {
    match op {
        BinaryOperator::Add => Some(TBinary::Add),
        BinaryOperator::Multiply => Some(TBinary::Multiply),
        BinaryOperator::Divide => Some(TBinary::Divide),
        BinaryOperator::Subtract => Some(TBinary::Subtract),
        BinaryOperator::Remainder => Some(TBinary::Remainder),
        BinaryOperator::EqualEqual => Some(TBinary::EqualEqual),
        BinaryOperator::Less => Some(TBinary::Less),
        BinaryOperator::LessEqual => Some(TBinary::LessEqual),
        BinaryOperator::Greater => Some(TBinary::Greater),
        BinaryOperator::GreaterEqual => Some(TBinary::GreaterEqual),
        BinaryOperator::BangEqual => Some(TBinary::BangEqual),
        _ => None,
    }
}

/// The name of an operator that has no TACKY form, as `Debug` writes it.
pub open spec fn operator_name(op: BinaryOperator) -> Seq<char> {
    match op {
        BinaryOperator::And => "And"@,
        BinaryOperator::Or => "Or"@,
        BinaryOperator::Equal => "Equal"@,
        _ => "Question"@,
    }
}

/// The translation of an expression with the id counter at `id`: the
/// instructions and the value that holds the result, or the message of the
/// first error; and the counter afterwards.
#[verifier::opaque]
pub open spec fn te(e: SExpr, id: nat) -> (Result<(Seq<SInstruction>, SValue), Seq<char>>, nat)
    decreases e,
{
    match e {
        SExpr::Literal(LiteralExpr::Integer(i)) => (Ok((Seq::empty(), SValue::Constant(i))), id),
        SExpr::Unary { operator, right } => {
            let p = te(*right, id);
            match p.0 {
                Err(m) => (Err(m), p.1),
                Ok((code, v)) => match unary_of(operator.token_type) {
                    None => (Err("Unsupported AST unary operator token: "@ + token_type_name(operator.token_type)), p.1),
                    Some(op) => {
                        let dst = SValue::Var(temp_name(p.1));
                        (Ok((code.push(SInstruction::Unary { op, src: v, dst }), dst)), p.1 + 1)
                    },
                },
            }
        },
        SExpr::Grouping { expression } => te(*expression, id),
        SExpr::Binary { operator, left, right } => {
            let res = SValue::Var(temp_name(id));
            let pl = te(*left, id + 1);
            match pl.0 {
                Err(m) => (Err(m), pl.1),
                Ok((lc, lv)) => if operator == BinaryOperator::And || operator == BinaryOperator::Or {
                    let jump_label = label_name(pl.1);
                    let end_label = label_name(pl.1 + 1);
                    let pr = te(*right, pl.1 + 2);
                    match pr.0 {
                        Err(m) => (Err(m), pr.1),
                        Ok((rc, rv)) => if operator == BinaryOperator::And {
                            (Ok((lc.push(SInstruction::JumpIfZero { condition: lv, target: jump_label }) + rc + seq![
                                SInstruction::JumpIfZero { condition: rv, target: jump_label },
                                SInstruction::Copy { src: SValue::Constant(1), dst: res },
                                SInstruction::Jump { target: end_label },
                                SInstruction::Lable { name: jump_label },
                                SInstruction::Copy { src: SValue::Constant(0), dst: res },
                                SInstruction::Lable { name: end_label },
                            ], res)), pr.1)
                        } else {
                            (Ok((lc.push(SInstruction::JumpIfNotZero { condition: lv, target: jump_label }) + rc + seq![
                                SInstruction::JumpIfNotZero { condition: rv, target: jump_label },
                                SInstruction::Copy { src: SValue::Constant(0), dst: res },
                                SInstruction::Jump { target: end_label },
                                SInstruction::Lable { name: jump_label },
                                SInstruction::Copy { src: SValue::Constant(1), dst: res },
                                SInstruction::Lable { name: end_label },
                            ], res)), pr.1)
                        },
                    }
                } else {
                    let pr = te(*right, pl.1);
                    match pr.0 {
                        Err(m) => (Err(m), pr.1),
                        Ok((rc, rv)) => match binary_of(operator) {
                            None => (Err("Unsupported AST binary operator: "@ + operator_name(operator)), pr.1),
                            Some(op) => (Ok(((lc + rc).push(SInstruction::Binary { op, src1: lv, src2: rv, dst: res }), res)), pr.1),
                        },
                    }
                },
            }
        },
        SExpr::Var { name, unique_name } => (Ok((Seq::empty(), SValue::Var(unique_name))), id),
        SExpr::Assignment { left, right } => {
            let p = te(*right, id);
            match p.0 {
                Err(m) => (Err(m), p.1),
                Ok((code, v)) => match *left {
                    SExpr::Var { name, unique_name } => (
                        Ok((code.push(SInstruction::Copy { src: v, dst: SValue::Var(unique_name) }), SValue::Var(unique_name))),
                        p.1,
                    ),
                    _ => (Err("Left-hand side of assignment must be a variable."@), p.1),
                },
            }
        },
        SExpr::Condtional { condition, left, right } => {
            let pc = te(*condition, id);
            match pc.0 {
                Err(m) => (Err(m), pc.1),
                Ok((cc, cv)) => {
                    let false_label = label_name(pc.1);
                    let end_label = label_name(pc.1 + 1);
                    let pl = te(*left, pc.1 + 2);
                    match pl.0 {
                        Err(m) => (Err(m), pl.1),
                        Ok((lc, lv)) => {
                            let result = SValue::Var(temp_name(pl.1));
                            let pr = te(*right, pl.1 + 1);
                            match pr.0 {
                                Err(m) => (Err(m), pr.1),
                                Ok((rc, rv)) => (Ok((
                                    cc.push(SInstruction::JumpIfZero { condition: cv, target: false_label }) + lc + seq![
                                        SInstruction::Copy { src: lv, dst: result },
                                        SInstruction::Jump { target: end_label },
                                        SInstruction::Lable { name: false_label },
                                    ] + rc + seq![
                                        SInstruction::Copy { src: rv, dst: result },
                                        SInstruction::Lable { name: end_label },
                                    ],
                                    result,
                                )), pr.1),
                            }
                        },
                    }
                },
            }
        },
    }
}

/// The translation of a statement: the instructions or the first error's
/// message, and the counter afterwards.
#[verifier::opaque]
pub open spec fn ts(s: SStmt, id: nat) -> (Result<Seq<SInstruction>, Seq<char>>, nat)
    decreases s,
{
    match s {
        SStmt::Return { keyword, value } => match value {
            None => (Err("AST Return statement must have a value for this TACKY target."@), id),
            Some(e) => {
                let p = te(e, id);
                match p.0 {
                    Err(m) => (Err(m), p.1),
                    Ok((code, v)) => (Ok(code.push(SInstruction::Return(v))), p.1),
                }
            },
        },
        SStmt::Expression { exp } => {
            let p = te(exp, id);
            match p.0 {
                Err(m) => (Err(m), p.1),
                Ok((code, v)) => (Ok(code), p.1),
            }
        },
        SStmt::Null => (Ok(Seq::empty()), id),
        SStmt::If { condition, then_branch, else_branch } => {
            let pc = te(condition, id);
            match pc.0 {
                Err(m) => (Err(m), pc.1),
                Ok((cc, cv)) => {
                    let else_label = label_name(pc.1);
                    let end_label = label_name(pc.1 + 1);
                    let pt = ts(*then_branch, pc.1 + 2);
                    match pt.0 {
                        Err(m) => (Err(m), pt.1),
                        Ok(tc) => {
                            let head = cc.push(SInstruction::JumpIfZero { condition: cv, target: else_label }) + tc + seq![
                                SInstruction::Jump { target: end_label },
                                SInstruction::Lable { name: else_label },
                            ];
                            match else_branch {
                                None => (Ok(head.push(SInstruction::Lable { name: end_label })), pt.1),
                                Some(b) => {
                                    let pe = ts(*b, pt.1);
                                    match pe.0 {
                                        Err(m) => (Err(m), pe.1),
                                        Ok(ec) => (Ok((head + ec).push(SInstruction::Lable { name: end_label })), pe.1),
                                    }
                                },
                            }
                        },
                    }
                },
            }
        },
    }
}

/// The translation of one body item.
pub open spec fn tb(b: SBlock, id: nat) -> (Result<Seq<SInstruction>, Seq<char>>, nat) {
    match b {
        SBlock::Stmt(s) => ts(s, id),
        SBlock::Declaration(d) => match d.init {
            None => (Ok(Seq::empty()), id),
            Some(e) => {
                let p = te(e, id);
                match p.0 {
                    Err(m) => (Err(m), p.1),
                    Ok((code, v)) => (Ok(code.push(SInstruction::Copy { src: v, dst: SValue::Var(d.unique_name) })), p.1),
                }
            },
        },
    }
}

/// The translation of a list of body items, in order.
pub open spec fn tbs(s: Seq<SBlock>, id: nat) -> (Result<Seq<SInstruction>, Seq<char>>, nat)
    decreases s.len(),
{
    if s.len() == 0 {
        (Ok(Seq::empty()), id)
    } else {
        let p = tbs(s.drop_last(), id);
        match p.0 {
            Err(m) => (Err(m), p.1),
            Ok(code) => {
                let q = tb(s.last(), p.1);
                match q.0 {
                    Err(m) => (Err(m), q.1),
                    Ok(more) => (Ok(code + more), q.1),
                }
            },
        }
    }
}

/// The body of a translated function: its items, then `return 0`.
pub open spec fn tf(f: SFunction, id: nat) -> (Result<Seq<SInstruction>, Seq<char>>, nat) {
    let p = tbs(f.body, id);
    match p.0 {
        Err(m) => (Err(m), p.1),
        Ok(code) => (Ok(code.push(SInstruction::Return(SValue::Constant(0)))), p.1),
    }
}

/// The message for a program without functions.
pub open spec fn no_function_message() -> Seq<char> {
    "AST Program must contain at least one function for this TACKY target."@
}

/// The token's range falls on character boundaries of `src` (the
/// translation reads the text of one token only: the function's name).
pub open spec fn name_readable(src: Seq<char>, t: Token) -> bool {
    is_char_range(src, t.lexeme_range.start as int, t.lexeme_range.end as int)
}

proof fn lemma_te_grows(e: SExpr, id: nat)
    ensures
        te(e, id).1 >= id,
    decreases e,
{
    reveal(te);
    match e {
        SExpr::Unary { right, .. } => lemma_te_grows(*right, id),
        SExpr::Grouping { expression } => lemma_te_grows(*expression, id),
        SExpr::Binary { left, right, operator } => {
            lemma_te_grows(*left, id + 1);
            let pl = te(*left, id + 1);
            lemma_te_grows(*right, pl.1 + 2);
            lemma_te_grows(*right, pl.1);
        },
        SExpr::Assignment { right, .. } => lemma_te_grows(*right, id),
        SExpr::Condtional { condition, left, right } => {
            lemma_te_grows(*condition, id);
            let pc = te(*condition, id);
            lemma_te_grows(*left, pc.1 + 2);
            let pl = te(*left, pc.1 + 2);
            lemma_te_grows(*right, pl.1 + 1);
        },
        _ => {},
    }
}

proof fn lemma_ts_grows(s: SStmt, id: nat)
    ensures
        ts(s, id).1 >= id,
    decreases s,
{
    reveal(ts);
    match s {
        SStmt::Return { value, .. } => {
            if let Some(e) = value {
                lemma_te_grows(e, id);
            }
        },
        SStmt::Expression { exp } => lemma_te_grows(exp, id),
        SStmt::If { condition, then_branch, else_branch } => {
            lemma_te_grows(condition, id);
            let pc = te(condition, id);
            lemma_ts_grows(*then_branch, pc.1 + 2);
            let pt = ts(*then_branch, pc.1 + 2);
            if let Some(b) = else_branch {
                lemma_ts_grows(*b, pt.1);
            }
        },
        _ => {},
    }
}

proof fn lemma_tbs_grows(s: Seq<SBlock>, id: nat)
    ensures
        tbs(s, id).1 >= id,
    decreases s.len(),
{
    if s.len() > 0 {
        lemma_tbs_grows(s.drop_last(), id);
        let p = tbs(s.drop_last(), id);
        match s.last() {
            SBlock::Stmt(st) => lemma_ts_grows(st, p.1),
            SBlock::Declaration(d) => {
                if let Some(e) = d.init {
                    lemma_te_grows(e, p.1);
                }
            },
        }
    }
}

/// The name `Debug` gives a token kind.
pub(crate) fn token_type_text(t: TokenType) -> (r: String)
    ensures
        r@ == token_type_name(t),
{
    match t {
        TokenType::KeywordInt => owned("KeywordInt"),
        TokenType::KeywordReturn => owned("KeywordReturn"),
        TokenType::KeywordVoid => owned("KeywordVoid"),
        TokenType::KeywordIf => owned("KeywordIf"),
        TokenType::KeywordElse => owned("KeywordElse"),
        TokenType::Identifier => owned("Identifier"),
        TokenType::LeftParen => owned("LeftParen"),
        TokenType::RightParen => owned("RightParen"),
        TokenType::LeftBrace => owned("LeftBrace"),
        TokenType::RightBrace => owned("RightBrace"),
        TokenType::Comma => owned("Comma"),
        TokenType::Semicolon => owned("Semicolon"),
        TokenType::LiteralInt => owned("LiteralInt"),
        TokenType::BitwiseNot => owned("BitwiseNot"),
        TokenType::Minus => owned("Minus"),
        TokenType::Decrement => owned("Decrement"),
        TokenType::Add => owned("Add"),
        TokenType::Mul => owned("Mul"),
        TokenType::Div => owned("Div"),
        TokenType::Remainder => owned("Remainder"),
        TokenType::Bang => owned("Bang"),
        TokenType::And => owned("And"),
        TokenType::Or => owned("Or"),
        TokenType::EqualEqual => owned("EqualEqual"),
        TokenType::BangEqual => owned("BangEqual"),
        TokenType::Less => owned("Less"),
        TokenType::LessEqual => owned("LessEqual"),
        TokenType::Greater => owned("Greater"),
        TokenType::GreaterEqual => owned("GreaterEqual"),
        TokenType::Equal => owned("Equal"),
        TokenType::Question => owned("Question"),
        TokenType::Colon => owned("Colon"),
        TokenType::Eof => owned("Eof"),
    }
}

/// An error with the message `prefix` followed by `name`.
fn error_with(prefix: &str, name: String) -> (r: TackyError)
    ensures
        r.message@ == prefix@ + name@,
{
    let mut message = owned(prefix);
    push_str(&mut message, name.as_str());
    TackyError { message }
}

/// Translates the first-generation syntax tree of a program to TACKY,
/// drawing temporary and label ids from its own counter.
pub struct AstToTackyTranslator<'a> {
    next_id: usize,
    source: &'a str,
}

impl<'a> AstToTackyTranslator<'a> {
    /// The id the next temporary or label will get.
    pub closed spec fn next(&self) -> nat {
        self.next_id as nat
    }

    /// The source text the tokens point into.
    pub closed spec fn text(&self) -> Seq<char> {
        self.source@
    }

    /// A translator over `source` whose ids start at zero.
    pub fn new(source: &'a str) -> (r: Self)
        ensures
            r.next() == 0,
            r.text() == source@,
    {
        AstToTackyTranslator { next_id: 0, source }
    }

    /// A translator over `source` whose ids start at `first_id` (so that it
    /// can continue a counter that earlier passes used).
    pub fn starting_at(source: &'a str, first_id: usize) -> (r: Self)
        ensures
            r.next() == first_id,
            r.text() == source@,
    {
        AstToTackyTranslator { next_id: first_id, source }
    }

    /// The id the next temporary or label will get.
    pub fn next_id(&self) -> (r: usize)
        ensures
            r == self.next(),
    {
        self.next_id
    }

    fn next_temp(&mut self) -> (r: String)
        requires
            old(self).next_id < usize::MAX,
        ensures
            r@ == temp_name(old(self).next()),
            final(self).next() == old(self).next() + 1,
            final(self).text() == old(self).text(),
    {
        let r = generate_translator_temp_name(self.next_id);
        self.next_id = self.next_id + 1;
        r
    }

    fn next_label(&mut self) -> (r: String)
        requires
            old(self).next_id < usize::MAX,
        ensures
            r@ == label_name(old(self).next()),
            final(self).next() == old(self).next() + 1,
            final(self).text() == old(self).text(),
    {
        let r = generate_translator_label_name(self.next_id);
        self.next_id = self.next_id + 1;
        r
    }

    /// Translates the program's first function (a program needs one).
    pub fn translate_program(&mut self, ast_program: Program) -> (r: Result<TackyProgram, TackyError>)
        requires
            ast_program.functions@.len() > 0 ==> name_readable(old(self).text(), ast_program.functions@[0].name),
            ast_program.functions@.len() > 0 ==> tf(function_view(ast_program.functions@[0]), old(self).next()).1 <= usize::MAX,
        ensures
            final(self).text() == old(self).text(),
            ast_program.functions@.len() == 0 ==> (r matches Err(e) && e.message@ == no_function_message()
                && final(self).next() == old(self).next()),
            ast_program.functions@.len() > 0 ==> {
                let f = ast_program.functions@[0];
                let p = tf(function_view(f), old(self).next());
                &&& final(self).next() == p.1
                &&& match (r, p.0) {
                    (Ok(t), Ok(code)) => t.definition.name@ == range_text(
                        old(self).text(),
                        f.name.lexeme_range.start as int,
                        f.name.lexeme_range.end as int,
                    ) && body_view(t.definition.body@) == code,
                    (Err(e), Err(m)) => e.message@ == m,
                    _ => false,
                }
            },
    {
        if ast_program.functions.len() == 0 {
            return Err(TackyError { message: owned("AST Program must contain at least one function for this TACKY target.") });
        }
        let mut functions = ast_program.functions;
        let ast_function = functions.swap_remove(0);
        let tacky_function = self.translate_function(ast_function)?;
        Ok(TackyProgram { definition: tacky_function })
    }

    /// Translates one function: its items, then `return 0`.
    #[verifier::spinoff_prover]
    #[verifier::rlimit(50)]
    fn translate_function(&mut self, ast_function: Function) -> (r: Result<FunctionDefinition, TackyError>)
        requires
            name_readable(old(self).text(), ast_function.name),
            tf(function_view(ast_function), old(self).next()).1 <= usize::MAX,
        ensures
            final(self).text() == old(self).text(),
            final(self).next() == tf(function_view(ast_function), old(self).next()).1,
            match (r, tf(function_view(ast_function), old(self).next()).0) {
                (Ok(t), Ok(code)) => t.name@ == range_text(
                    old(self).text(),
                    ast_function.name.lexeme_range.start as int,
                    ast_function.name.lexeme_range.end as int,
                ) && body_view(t.body@) == code,
                (Err(e), Err(m)) => e.message@ == m,
                _ => false,
            },
    {
        let function_name = ast_function.name.get_lexeme(self.source);
        let ghost items = function_view(ast_function).body;
        let ghost id0 = self.next();
        let mut tacky_body: Vec<Instruction> = Vec::new();
        let mut body = ast_function.body;
        let n = body.len();
        let ghost all = body@;
        proof {
            lemma_tbs_grows(items, id0);
            assert(items.take(0) =~= Seq::<SBlock>::empty());
            assert(body@.subrange(0, n as int) =~= body@);
        }
        let mut k: usize = 0;
        while k < n
            invariant
                k <= n,
                n == all.len(),
                body@ == all.subrange(k as int, n as int),
                items.len() == n,
                forall|j: int| 0 <= j < n ==> #[trigger] items[j] == block_view(all[j]),
                self.text() == old(self).text(),
                tbs(items.take(k as int), id0).0 is Ok,
                body_view(tacky_body@) == tbs(items.take(k as int), id0).0->Ok_0,
                self.next() == tbs(items.take(k as int), id0).1,
                tbs(items, id0).1 <= usize::MAX,
                tf(function_view(ast_function), id0).1 == tbs(items, id0).1,
                items == function_view(ast_function).body,
                id0 == old(self).next(),
            decreases n - k,
        {
            let item = body.remove(0);
            let ghost pre = items.take(k + 1);
            proof {
                assert(item == all[k as int]);
                assert(pre.drop_last() =~= items.take(k as int));
                assert(pre.last() == block_view(item));
                lemma_tbs_prefix_bound(items, k as int + 1, id0);
            }
            let mut code = match self.translate_function_blockitem(item) {
                Ok(c) => c,
                Err(e) => {
                    proof {
                        assert(tbs(pre, id0).0 == Err::<Seq<SInstruction>, Seq<char>>(e.message@));
                        assert(tbs(pre, id0).1 == self.next());
                        lemma_tbs_error_stays(items, k as int + 1, id0);
                    }
                    return Err(e);
                },
            };
            let ghost before = tacky_body@;
            let ghost added = code@;
            tacky_body.append(&mut code);
            assert(body_view(tacky_body@) =~= body_view(before) + body_view(added));
            k = k + 1;
        }
        assert(items.take(n as int) =~= items);
        tacky_body.push(Instruction::Return(Value::Constant(0)));
        proof {
            let ghost b = tbs(items, id0).0->Ok_0;
            assert(body_view(tacky_body@) =~= b.push(SInstruction::Return(SValue::Constant(0))));
        }
        Ok(FunctionDefinition { name: function_name, body: tacky_body })
    }

    fn translate_function_blockitem(&mut self, ast_function: Block) -> (r: Result<Vec<Instruction>, TackyError>)
        requires
            tb(block_view(ast_function), old(self).next()).1 <= usize::MAX,
        ensures
            final(self).text() == old(self).text(),
            final(self).next() == tb(block_view(ast_function), old(self).next()).1,
            match (r, tb(block_view(ast_function), old(self).next()).0) {
                (Ok(code), Ok(sc)) => body_view(code@) == sc,
                (Err(e), Err(m)) => e.message@ == m,
                _ => false,
            },
    {
        match ast_function {
            Block::Stmt(ast_stmt) => self.translate_stmt(ast_stmt),
            Block::Declaration(decl) => {
                let mut instructions: Vec<Instruction> = Vec::new();
                match decl.init {
                    Some(init_expr) => {
                        let (mut init_instructions, init_value) = self.translate_expr(*init_expr)?;
                        instructions.append(&mut init_instructions);
                        instructions.push(Instruction::Copy { src: init_value, dst: Value::Var(decl.unique_name) });
                    },
                    None => {},
                }
                assert(body_view(instructions@) =~= tb(block_view(Block::Declaration(decl)), old(self).next()).0->Ok_0);
                Ok(instructions)
            },
        }
    }

    fn translate_stmt(&mut self, ast_stmt: Stmt) -> (r: Result<Vec<Instruction>, TackyError>)
        requires
            ts(stmt_view(ast_stmt), old(self).next()).1 <= usize::MAX,
        ensures
            final(self).text() == old(self).text(),
            final(self).next() == ts(stmt_view(ast_stmt), old(self).next()).1,
            match (r, ts(stmt_view(ast_stmt), old(self).next()).0) {
                (Ok(code), Ok(sc)) => body_view(code@) == sc,
                (Err(e), Err(m)) => e.message@ == m,
                _ => false,
            },
        decreases ast_stmt,
    {
        let ghost sv = stmt_view(ast_stmt);
        let ghost id0 = self.next();
        proof {
            reveal(ts);
        }
        let mut instructions: Vec<Instruction> = Vec::new();
        match ast_stmt {
            Stmt::Return { keyword, value } => {
                let expr = match value {
                    Some(e) => e,
                    None => {
                        return Err(TackyError {
                            message: owned("AST Return statement must have a value for this TACKY target."),
                        });
                    },
                };
                let (mut expr_instructions, result_value) = self.translate_expr(*expr)?;
                instructions.append(&mut expr_instructions);
                instructions.push(Instruction::Return(result_value));
            },
            Stmt::Expression { exp } => {
                let (mut expr_instructions, _result_value) = self.translate_expr(*exp)?;
                instructions.append(&mut expr_instructions);
            },
            Stmt::Null => {},
            Stmt::If { condition, then_branch, else_branch } => {
                proof {
                    lemma_te_grows(expr_view(*condition), id0);
                    let pc = te(expr_view(*condition), id0);
                    lemma_ts_grows(stmt_view(*then_branch), pc.1 + 2);
                    let pt = ts(stmt_view(*then_branch), pc.1 + 2);
                    if else_branch is Some {
                        lemma_ts_grows(stmt_view(*else_branch->0), pt.1);
                    }
                    assert(pc.1 <= ts(sv, id0).1);
                    assert(pc.0 is Ok ==> pt.1 <= ts(sv, id0).1);
                }
                let (mut cond_instructions, cond_value) = self.translate_expr(*condition)?;
                instructions.append(&mut cond_instructions);
                let else_label_name = self.next_label();
                let end_label_name = self.next_label();
                instructions.push(Instruction::JumpIfZero { condition: cond_value, target: else_label_name.clone() });
                let mut then_instructions = self.translate_stmt(*then_branch)?;
                instructions.append(&mut then_instructions);
                instructions.push(Instruction::Jump { target: end_label_name.clone() });
                instructions.push(Instruction::Lable { name: else_label_name });
                match else_branch {
                    Some(else_branch) => {
                        let mut else_instructions = self.translate_stmt(*else_branch)?;
                        instructions.append(&mut else_instructions);
                    },
                    None => {},
                }
                instructions.push(Instruction::Lable { name: end_label_name });
            },
        }
        Ok(instructions)
    }

    /// Translates an expression: the instructions that compute it, and the
    /// value that holds its result.
    fn translate_expr(&mut self, ast_expr: Expr) -> (r: Result<(Vec<Instruction>, Value), TackyError>)
        requires
            te(expr_view(ast_expr), old(self).next()).1 <= usize::MAX,
        ensures
            final(self).text() == old(self).text(),
            final(self).next() == te(expr_view(ast_expr), old(self).next()).1,
            match (r, te(expr_view(ast_expr), old(self).next()).0) {
                (Ok((code, v)), Ok((sc, sv))) => body_view(code@) == sc && v@ == sv,
                (Err(e), Err(m)) => e.message@ == m,
                _ => false,
            },
        decreases ast_expr,
    {
        let ghost id0 = self.next();
        let ghost ev = expr_view(ast_expr);
        proof {
            reveal(te);
        }
        let mut instructions: Vec<Instruction> = Vec::new();
        let result_value: Value;
        match ast_expr {
            Expr::Literal(LiteralExpr::Integer(i)) => {
                result_value = Value::Constant(i);
            },
            Expr::Unary { operator, right } => {
                proof {
                    lemma_te_grows(expr_view(*right), id0);
                }
                let (mut right_instructions, right_value) = self.translate_expr(*right)?;
                instructions.append(&mut right_instructions);
                let tacky_op = match operator.token_type {
                    TokenType::Minus => TUnary::Negate,
                    TokenType::BitwiseNot => TUnary::Complement,
                    TokenType::Bang => TUnary::Bang,
                    _ => {
                        return Err(error_with("Unsupported AST unary operator token: ", token_type_text(operator.token_type)));
                    },
                };
                let temp_var_name = self.next_temp();
                let dest_value = Value::Var(temp_var_name);
                instructions.push(Instruction::Unary { op: tacky_op, src: right_value, dst: dest_value.duplicate() });
                result_value = dest_value;
            },
            Expr::Grouping { expression } => {
                return self.translate_expr(*expression);
            },
            Expr::Binary { operator, left, right } => {
                proof {
                    lemma_te_grows(expr_view(*left), id0 + 1);
                    let pl = te(expr_view(*left), id0 + 1);
                    lemma_te_grows(expr_view(*right), pl.1 + 2);
                    lemma_te_grows(expr_view(*right), pl.1);
                }
                let result_var_name = self.next_temp();
                let result_temp_value = Value::Var(result_var_name);
                if operator == BinaryOperator::And || operator == BinaryOperator::Or {
                    let (mut left_instructions, left_value) = self.translate_expr(*left)?;
                    let ghost lc = body_view(left_instructions@);
                    instructions.append(&mut left_instructions);
                    let jump_label_name = self.next_label();
                    let end_label_name = self.next_label();
                    let and = operator == BinaryOperator::And;
                    if and {
                        instructions.push(Instruction::JumpIfZero { condition: left_value, target: jump_label_name.clone() });
                    } else {
                        instructions.push(Instruction::JumpIfNotZero { condition: left_value, target: jump_label_name.clone() });
                    }
                    let (mut right_instructions, right_value) = self.translate_expr(*right)?;
                    let ghost mid = body_view(instructions@);
                    let ghost rc = body_view(right_instructions@);
                    instructions.append(&mut right_instructions);
                    assert(body_view(instructions@) =~= mid + rc);
                    if and {
                        instructions.push(Instruction::JumpIfZero { condition: right_value, target: jump_label_name.clone() });
                    } else {
                        instructions.push(Instruction::JumpIfNotZero { condition: right_value, target: jump_label_name.clone() });
                    }
                    instructions.push(Instruction::Copy {
                        src: Value::Constant(if and { 1 } else { 0 }),
                        dst: result_temp_value.duplicate(),
                    });
                    instructions.push(Instruction::Jump { target: end_label_name.clone() });
                    instructions.push(Instruction::Lable { name: jump_label_name });
                    instructions.push(Instruction::Copy {
                        src: Value::Constant(if and { 0 } else { 1 }),
                        dst: result_temp_value.duplicate(),
                    });
                    instructions.push(Instruction::Lable { name: end_label_name });
                    assert(body_view(instructions@) =~= te(ev, id0).0->Ok_0.0);
                    result_value = result_temp_value;
                } else {
                    let (mut left_instructions, left_value) = self.translate_expr(*left)?;
                    let (mut right_instructions, right_value) = self.translate_expr(*right)?;
                    let ghost lc = body_view(left_instructions@);
                    let ghost rc = body_view(right_instructions@);
                    instructions.append(&mut left_instructions);
                    instructions.append(&mut right_instructions);
                    assert(body_view(instructions@) =~= lc + rc);
                    let tacky_op = match operator {
                        BinaryOperator::Add => TBinary::Add,
                        BinaryOperator::Multiply => TBinary::Multiply,
                        BinaryOperator::Divide => TBinary::Divide,
                        BinaryOperator::Subtract => TBinary::Subtract,
                        BinaryOperator::Remainder => TBinary::Remainder,
                        BinaryOperator::EqualEqual => TBinary::EqualEqual,
                        BinaryOperator::Less => TBinary::Less,
                        BinaryOperator::LessEqual => TBinary::LessEqual,
                        BinaryOperator::Greater => TBinary::Greater,
                        BinaryOperator::GreaterEqual => TBinary::GreaterEqual,
                        BinaryOperator::BangEqual => TBinary::BangEqual,
                        BinaryOperator::Equal => {
                            return Err(error_with("Unsupported AST binary operator: ", owned("Equal")));
                        },
                        _ => {
                            return Err(error_with("Unsupported AST binary operator: ", owned("Question")));
                        },
                    };
                    instructions.push(Instruction::Binary {
                        op: tacky_op,
                        src1: left_value,
                        src2: right_value,
                        dst: result_temp_value.duplicate(),
                    });
                    assert(body_view(instructions@) =~= te(ev, id0).0->Ok_0.0);
                    result_value = result_temp_value;
                }
            },
            Expr::Var { name, unique_name } => {
                result_value = Value::Var(unique_name);
            },
            Expr::Assignment { left, right } => {
                proof {
                    lemma_te_grows(expr_view(*right), id0);
                }
                let (mut right_instructions, right_value) = self.translate_expr(*right)?;
                instructions.append(&mut right_instructions);
                match *left {
                    Expr::Var { name, unique_name } => {
                        let dest_value = Value::Var(unique_name);
                        instructions.push(Instruction::Copy { src: right_value, dst: dest_value.duplicate() });
                        result_value = dest_value;
                    },
                    _ => {
                        assert(!(expr_view(*left) is Var));
                        return Err(TackyError { message: owned("Left-hand side of assignment must be a variable.") });
                    },
                }
            },
            Expr::Condtional { condition, left, right } => {
                proof {
                    lemma_te_grows(expr_view(*condition), id0);
                    let pc = te(expr_view(*condition), id0);
                    lemma_te_grows(expr_view(*left), pc.1 + 2);
                    let pl = te(expr_view(*left), pc.1 + 2);
                    lemma_te_grows(expr_view(*right), pl.1 + 1);
                }
                let (mut cond_instructions, cond_value) = self.translate_expr(*condition)?;
                instructions.append(&mut cond_instructions);
                let false_label_name = self.next_label();
                let end_label_name = self.next_label();
                instructions.push(Instruction::JumpIfZero { condition: cond_value, target: false_label_name.clone() });
                let (mut left_instructions, left_value) = self.translate_expr(*left)?;
                instructions.append(&mut left_instructions);
                let result_temp = self.next_temp();
                instructions.push(Instruction::Copy { src: left_value, dst: Value::Var(result_temp.clone()) });
                instructions.push(Instruction::Jump { target: end_label_name.clone() });
                instructions.push(Instruction::Lable { name: false_label_name });
                let (mut right_instructions, right_value) = self.translate_expr(*right)?;
                instructions.append(&mut right_instructions);
                instructions.push(Instruction::Copy { src: right_value, dst: Value::Var(result_temp.clone()) });
                instructions.push(Instruction::Lable { name: end_label_name });
                result_value = Value::Var(result_temp);
            },
        }
        Ok((instructions, result_value))
    }
}

proof fn lemma_tbs_error_stays(s: Seq<SBlock>, k: int, id: nat)
    requires
        0 <= k <= s.len(),
        tbs(s.take(k), id).0 is Err,
    ensures
        tbs(s, id) == tbs(s.take(k), id),
    decreases s.len() - k,
{
    if k == s.len() {
        assert(s.take(k) =~= s);
    } else {
        let pre = s.take(k + 1);
        assert(pre.drop_last() =~= s.take(k));
        lemma_tbs_error_stays(s, k + 1, id);
    }
}

proof fn lemma_tbs_prefix_bound(s: Seq<SBlock>, k: int, id: nat)
    requires
        0 <= k <= s.len(),
    ensures
        tbs(s.take(k), id).1 <= tbs(s, id).1,
    decreases s.len() - k,
{
    if k < s.len() {
        lemma_tbs_prefix_bound(s, k + 1, id);
        let pre = s.take(k + 1);
        assert(pre.drop_last() =~= s.take(k));
        let p = tbs(s.take(k), id);
        match pre.last() {
            SBlock::Stmt(st) => lemma_ts_grows(st, p.1),
            SBlock::Declaration(d) => {
                if let Some(e) = d.init {
                    lemma_te_grows(e, p.1);
                }
            },
        }
    } else {
        assert(s.take(k) =~= s);
    }
}

} // verus!
