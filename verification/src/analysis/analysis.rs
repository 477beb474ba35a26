//! Semantic analysis of the first-generation syntax tree: every declared
//! variable gets a fresh name `v_<id>`, every use is resolved to the name of
//! the innermost declaration in scope, and assignments must assign to a
//! variable.
//!
//! Each function body is one scope; a name may be declared once per scope.
//! A declaration is in scope in its own initializer.

use vstd::prelude::*;
use crate::common_ids::{generate_analysis_variable_name, numbered};
use crate::error::SemanticError;
use crate::lexer::token::{is_char_range, range_text, Token, Value};
use crate::parser::c_ast::{
    block_view, blocks_view, expr_view, function_view, program_view, stmt_view, BinaryOperator, Block,
    Declaration, Expr, Function, LiteralExpr, Program, SBlock, SDeclaration, SExpr, SFunction,
    SProgram, SStmt, Stmt,
};
use crate::tacky::gen_tacky::{token_type_name, token_type_text};
use crate::text::{int_decimal, nat_digits, owned, push_i64_decimal, push_str, push_u64_decimal};

verus! {

/// The errors of the analysis, over plain values.
pub enum SemError {
    Duplicate(Seq<char>),
    Undeclared(Seq<char>),
    InvalidLvalue(Seq<char>),
    Internal(Seq<char>),
}

/// `e` is the error `s`.
pub open spec fn error_matches(e: SemanticError, s: SemError) -> bool {
    match (e, s) {
        (SemanticError::DuplicateDeclaration { name }, SemError::Duplicate(n)) => name@ == n,
        (SemanticError::UndeclaredVariable { name }, SemError::Undeclared(n)) => name@ == n,
        (SemanticError::InvalidLvalue { description }, SemError::InvalidLvalue(d)) => description@ == d,
        (SemanticError::Internal(m), SemError::Internal(n)) => m@ == n,
        _ => false,
    }
}

// ---------------------------------------------------------------------------
// The `Debug` text of an expression (for the invalid-lvalue message)
// ---------------------------------------------------------------------------

pub open spec fn literal_debug(l: Option<Value>) -> Seq<char> {
    match l {
        None => "None"@,
        Some(Value::Int(v)) => "Some(Int("@ + int_decimal(v as int) + "))"@,
    }
}

pub open spec fn token_debug(t: Token) -> Seq<char> {
    "Token { token_type: "@ + token_type_name(t.token_type) + ", lexeme_range: "@ + nat_digits(
        t.lexeme_range.start as nat,
    ) + ".."@ + nat_digits(t.lexeme_range.end as nat) + ", literal: "@ + literal_debug(t.literal) + " }"@
}

pub open spec fn operator_debug(op: BinaryOperator) -> Seq<char> {
    match op {
        BinaryOperator::Add => "Add"@,
        BinaryOperator::Subtract => "Subtract"@,
        BinaryOperator::Multiply => "Multiply"@,
        BinaryOperator::Divide => "Divide"@,
        BinaryOperator::Remainder => "Remainder"@,
        BinaryOperator::And => "And"@,
        BinaryOperator::Or => "Or"@,
        BinaryOperator::EqualEqual => "EqualEqual"@,
        BinaryOperator::BangEqual => "BangEqual"@,
        BinaryOperator::Less => "Less"@,
        BinaryOperator::LessEqual => "LessEqual"@,
        BinaryOperator::Greater => "Greater"@,
        BinaryOperator::GreaterEqual => "GreaterEqual"@,
        BinaryOperator::Equal => "Equal"@,
        BinaryOperator::Question => "Question"@,
    }
}

/// The `Debug` text of an expression whose variable names need no escaping
/// (the analysis only shows expressions it has already renamed, whose names
/// are `v_<id>`).
pub open spec fn expr_debug(e: SExpr) -> Seq<char>
    decreases e,
{
    match e {
        SExpr::Literal(LiteralExpr::Integer(i)) => "Literal(Integer("@ + int_decimal(i as int) + "))"@,
        SExpr::Unary { operator, right } => "Unary { operator: "@ + token_debug(operator) + ", right: "@
            + expr_debug(*right) + " }"@,
        SExpr::Grouping { expression } => "Grouping { expression: "@ + expr_debug(*expression) + " }"@,
        SExpr::Binary { operator, left, right } => "Binary { operator: "@ + operator_debug(operator)
            + ", left: "@ + expr_debug(*left) + ", right: "@ + expr_debug(*right) + " }"@,
        SExpr::Var { name, unique_name } => "Var { name: "@ + token_debug(name) + ", unique_name: \""@
            + unique_name + "\" }"@,
        SExpr::Assignment { left, right } => "Assignment { left: "@ + expr_debug(*left) + ", right: "@
            + expr_debug(*right) + " }"@,
        SExpr::Condtional { condition, left, right } => "Condtional { condition: "@ + expr_debug(*condition)
            + ", left: "@ + expr_debug(*left) + ", right: "@ + expr_debug(*right) + " }"@,
    }
}

pub open spec fn lvalue_message(left: SExpr) -> Seq<char> {
    "Expression "@ + expr_debug(left) + " is not a valid LValue."@
}

// ---------------------------------------------------------------------------
// The analysis over plain values
// ---------------------------------------------------------------------------

/// The name `user` resolves to: its name in the innermost scope declaring it.
pub open spec fn lookup(scopes: Seq<Map<Seq<char>, Seq<char>>>, user: Seq<char>) -> Option<Seq<char>>
    decreases scopes.len(),
{
    if scopes.len() == 0 {
        None
    } else if scopes.last().contains_key(user) {
        Some(scopes.last()[user])
    } else {
        lookup(scopes.drop_last(), user)
    }
}

/// The text of a token in `src`.
pub open spec fn token_text(src: Seq<char>, t: Token) -> Seq<char> {
    range_text(src, t.lexeme_range.start as int, t.lexeme_range.end as int)
}

/// The token lies on character boundaries of `src`.
pub open spec fn readable(src: Seq<char>, t: Token) -> bool {
    is_char_range(src, t.lexeme_range.start as int, t.lexeme_range.end as int)
}

/// Every variable token of the expression is readable.
pub open spec fn expr_readable(src: Seq<char>, e: SExpr) -> bool
    decreases e,
{
    match e {
        SExpr::Literal(_) => true,
        SExpr::Unary { right, .. } => expr_readable(src, *right),
        SExpr::Grouping { expression } => expr_readable(src, *expression),
        SExpr::Binary { left, right, .. } => expr_readable(src, *left) && expr_readable(src, *right),
        SExpr::Var { name, .. } => readable(src, name),
        SExpr::Assignment { left, right } => expr_readable(src, *left) && expr_readable(src, *right),
        SExpr::Condtional { condition, left, right } => expr_readable(src, *condition) && expr_readable(src, *left)
            && expr_readable(src, *right),
    }
}

pub open spec fn opt_readable(src: Seq<char>, e: Option<SExpr>) -> bool {
    match e {
        Some(x) => expr_readable(src, x),
        None => true,
    }
}

pub open spec fn stmt_readable(src: Seq<char>, s: SStmt) -> bool
    decreases s,
{
    match s {
        SStmt::Return { value, .. } => opt_readable(src, value),
        SStmt::Expression { exp } => expr_readable(src, exp),
        SStmt::Null => true,
        SStmt::If { condition, then_branch, else_branch } => expr_readable(src, condition) && stmt_readable(
            src,
            *then_branch,
        ) && match else_branch {
            Some(b) => stmt_readable(src, *b),
            None => true,
        },
    }
}

pub open spec fn block_readable(src: Seq<char>, b: SBlock) -> bool {
    match b {
        SBlock::Stmt(s) => stmt_readable(src, s),
        SBlock::Declaration(d) => readable(src, d.name) && opt_readable(src, d.init),
    }
}

/// Every name the analysis reads lies on character boundaries of `src`.
pub open spec fn program_readable(src: Seq<char>, p: SProgram) -> bool {
    forall|i: int, j: int| 0 <= i < p.functions.len() && 0 <= j < p.functions[i].body.len()
        ==> block_readable(src, #[trigger] p.functions[i].body[j])
}

/// The analysis of an expression in scopes `sc`.
pub open spec fn ae(e: SExpr, src: Seq<char>, sc: Seq<Map<Seq<char>, Seq<char>>>) -> Result<SExpr, SemError>
    decreases e,
{
    match e {
        SExpr::Literal(l) => Ok(SExpr::Literal(l)),
        SExpr::Unary { operator, right } => match ae(*right, src, sc) {
            Err(m) => Err(m),
            Ok(r) => Ok(SExpr::Unary { operator, right: Box::new(r) }),
        },
        SExpr::Grouping { expression } => match ae(*expression, src, sc) {
            Err(m) => Err(m),
            Ok(x) => Ok(SExpr::Grouping { expression: Box::new(x) }),
        },
        SExpr::Binary { operator, left, right } => match ae(*left, src, sc) {
            Err(m) => Err(m),
            Ok(l) => match ae(*right, src, sc) {
                Err(m) => Err(m),
                Ok(r) => Ok(SExpr::Binary { operator, left: Box::new(l), right: Box::new(r) }),
            },
        },
        SExpr::Var { name, unique_name } => match lookup(sc, token_text(src, name)) {
            Some(u) => Ok(SExpr::Var { name, unique_name: u }),
            None => Err(SemError::Undeclared(token_text(src, name))),
        },
        SExpr::Assignment { left, right } => match ae(*right, src, sc) {
            Err(m) => Err(m),
            Ok(r) => match ae(*left, src, sc) {
                Err(m) => Err(m),
                Ok(l) => if l is Var {
                    Ok(SExpr::Assignment { left: Box::new(l), right: Box::new(r) })
                } else {
                    Err(SemError::InvalidLvalue(lvalue_message(l)))
                },
            },
        },
        SExpr::Condtional { condition, left, right } => match ae(*condition, src, sc) {
            Err(m) => Err(m),
            Ok(c) => match ae(*left, src, sc) {
                Err(m) => Err(m),
                Ok(l) => match ae(*right, src, sc) {
                    Err(m) => Err(m),
                    Ok(r) => Ok(SExpr::Condtional { condition: Box::new(c), left: Box::new(l), right: Box::new(r) }),
                },
            },
        },
    }
}

pub open spec fn aopt(e: Option<SExpr>, src: Seq<char>, sc: Seq<Map<Seq<char>, Seq<char>>>) -> Result<Option<SExpr>, SemError> {
    match e {
        None => Ok(None),
        Some(x) => match ae(x, src, sc) {
            Err(m) => Err(m),
            Ok(y) => Ok(Some(y)),
        },
    }
}

/// The analysis of a statement.
pub open spec fn ast(s: SStmt, src: Seq<char>, sc: Seq<Map<Seq<char>, Seq<char>>>) -> Result<SStmt, SemError>
    decreases s,
{
    match s {
        SStmt::Return { keyword, value } => match aopt(value, src, sc) {
            Err(m) => Err(m),
            Ok(v) => Ok(SStmt::Return { keyword, value: v }),
        },
        SStmt::Expression { exp } => match ae(exp, src, sc) {
            Err(m) => Err(m),
            Ok(x) => Ok(SStmt::Expression { exp: x }),
        },
        SStmt::Null => Ok(SStmt::Null),
        SStmt::If { condition, then_branch, else_branch } => match ae(condition, src, sc) {
            Err(m) => Err(m),
            Ok(c) => match ast(*then_branch, src, sc) {
                Err(m) => Err(m),
                Ok(t) => match else_branch {
                    None => Ok(SStmt::If { condition: c, then_branch: Box::new(t), else_branch: None }),
                    Some(b) => match ast(*b, src, sc) {
                        Err(m) => Err(m),
                        Ok(e) => Ok(SStmt::If { condition: c, then_branch: Box::new(t), else_branch: Some(Box::new(e)) }),
                    },
                },
            },
        },
    }
}

/// The analysis of one body item with the id counter at `id`: the item or
/// the error, and the scopes and counter afterwards.
pub open spec fn ablock(b: SBlock, src: Seq<char>, sc: Seq<Map<Seq<char>, Seq<char>>>, id: nat)
    -> (Result<SBlock, SemError>, Seq<Map<Seq<char>, Seq<char>>>, nat)
{
    match b {
        SBlock::Stmt(s) => match ast(s, src, sc) {
            Err(m) => (Err(m), sc, id),
            Ok(x) => (Ok(SBlock::Stmt(x)), sc, id),
        },
        SBlock::Declaration(d) => {
            let user = token_text(src, d.name);
            if sc.len() == 0 {
                (Err(SemError::Internal("No current scope active for declaration."@)), sc, id)
            } else if sc.last().contains_key(user) {
                (Err(SemError::Duplicate(user)), sc, id)
            } else {
                let unique = numbered("v_"@, id);
                let sc2 = sc.update(sc.len() - 1, sc.last().insert(user, unique));
                match aopt(d.init, src, sc2) {
                    Err(m) => (Err(m), sc2, id + 1),
                    Ok(i) => (Ok(SBlock::Declaration(SDeclaration { name: d.name, init: i, unique_name: unique })), sc2, id + 1),
                }
            }
        },
    }
}

/// The analysis of the items of a body, in order.
pub open spec fn aitems(s: Seq<SBlock>, src: Seq<char>, sc: Seq<Map<Seq<char>, Seq<char>>>, id: nat)
    -> (Result<Seq<SBlock>, SemError>, Seq<Map<Seq<char>, Seq<char>>>, nat)
    decreases s.len(),
{
    if s.len() == 0 {
        (Ok(Seq::empty()), sc, id)
    } else {
        let p = aitems(s.drop_last(), src, sc, id);
        match p.0 {
            Err(m) => (Err(m), p.1, p.2),
            Ok(done) => {
                let q = ablock(s.last(), src, p.1, p.2);
                match q.0 {
                    Err(m) => (Err(m), q.1, q.2),
                    Ok(b) => (Ok(done.push(b)), q.1, q.2),
                }
            },
        }
    }
}

/// The analysis of a function: its body in a new scope.
pub open spec fn afunc(f: SFunction, src: Seq<char>, sc: Seq<Map<Seq<char>, Seq<char>>>, id: nat)
    -> (Result<SFunction, SemError>, Seq<Map<Seq<char>, Seq<char>>>, nat)
{
    let p = aitems(f.body, src, sc.push(Map::empty()), id);
    match p.0 {
        Err(m) => (Err(m), p.1, p.2),
        Ok(body) => (Ok(SFunction { name: f.name, body }), p.1.drop_last(), p.2),
    }
}

/// The analysis of a list of functions, in order.
pub open spec fn afuncs(fs: Seq<SFunction>, src: Seq<char>, sc: Seq<Map<Seq<char>, Seq<char>>>, id: nat)
    -> (Result<Seq<SFunction>, SemError>, Seq<Map<Seq<char>, Seq<char>>>, nat)
    decreases fs.len(),
{
    if fs.len() == 0 {
        (Ok(Seq::empty()), sc, id)
    } else {
        let p = afuncs(fs.drop_last(), src, sc, id);
        match p.0 {
            Err(m) => (Err(m), p.1, p.2),
            Ok(done) => {
                let q = afunc(fs.last(), src, p.1, p.2);
                match q.0 {
                    Err(m) => (Err(m), q.1, q.2),
                    Ok(f) => (Ok(done.push(f)), q.1, q.2),
                }
            },
        }
    }
}

proof fn lemma_aitems_grows(s: Seq<SBlock>, src: Seq<char>, sc: Seq<Map<Seq<char>, Seq<char>>>, id: nat)
    ensures
        aitems(s, src, sc, id).2 >= id,
        aitems(s, src, sc, id).1.len() == sc.len(),
    decreases s.len(),
{
    if s.len() > 0 {
        lemma_aitems_grows(s.drop_last(), src, sc, id);
    }
}

proof fn lemma_aitems_prefix(s: Seq<SBlock>, k: int, src: Seq<char>, sc: Seq<Map<Seq<char>, Seq<char>>>, id: nat)
    requires
        0 <= k <= s.len(),
    ensures
        aitems(s.take(k), src, sc, id).2 <= aitems(s, src, sc, id).2,
        aitems(s.take(k), src, sc, id).0 is Err ==> aitems(s, src, sc, id) == aitems(s.take(k), src, sc, id),
    decreases s.len() - k,
{
    if k < s.len() {
        lemma_aitems_prefix(s, k + 1, src, sc, id);
        assert(s.take(k + 1).drop_last() =~= s.take(k));
    } else {
        assert(s.take(k) =~= s);
    }
}

proof fn lemma_afuncs_prefix(fs: Seq<SFunction>, k: int, src: Seq<char>, sc: Seq<Map<Seq<char>, Seq<char>>>, id: nat)
    requires
        0 <= k <= fs.len(),
    ensures
        afuncs(fs.take(k), src, sc, id).2 <= afuncs(fs, src, sc, id).2,
        afuncs(fs.take(k), src, sc, id).0 is Err ==> afuncs(fs, src, sc, id) == afuncs(fs.take(k), src, sc, id),
    decreases fs.len() - k,
{
    if k < fs.len() {
        lemma_afuncs_prefix(fs, k + 1, src, sc, id);
        let pre = fs.take(k + 1);
        assert(pre.drop_last() =~= fs.take(k));
        let p = afuncs(fs.take(k), src, sc, id);
        lemma_aitems_grows(pre.last().body, src, p.1.push(Map::empty()), p.2);
    } else {
        assert(fs.take(k) =~= fs);
    }
}

/// The map of a scope's (user name, unique name) pairs; a later pair for a
/// name replaces an earlier one.
pub open spec fn scope_map(s: Seq<(String, String)>) -> Map<Seq<char>, Seq<char>>
    decreases s.len(),
{
    if s.len() == 0 {
        Map::empty()
    } else {
        scope_map(s.drop_last()).insert(s.last().0@, s.last().1@)
    }
}

pub open spec fn scopes_view(v: Seq<Vec<(String, String)>>) -> Seq<Map<Seq<char>, Seq<char>>> {
    v.map_values(|x: Vec<(String, String)>| scope_map(x@))
}

/// The unique name recorded for `user` in a scope.
fn scope_get(scope: &Vec<(String, String)>, user: &String) -> (r: Option<String>)
    ensures
        match r {
            Some(u) => scope_map(scope@).contains_key(user@) && scope_map(scope@)[user@] == u@,
            None => !scope_map(scope@).contains_key(user@),
        },
{
    let ghost s = scope@;
    let mut k: usize = scope.len();
    assert(s.take(s.len() as int) =~= s);
    while k > 0
        invariant
            k <= s.len(),
            s == scope@,
            scope_map(s).contains_key(user@) == scope_map(s.take(k as int)).contains_key(user@),
            scope_map(s.take(k as int)).contains_key(user@) ==> scope_map(s)[user@] == scope_map(s.take(k as int))[user@],
        decreases k,
    {
        let ghost pre = s.take(k as int);
        assert(pre.drop_last() =~= s.take(k - 1));
        assert(pre.last() == scope@[k - 1]);
        if scope[k - 1].0 == *user {
            return Some(scope[k - 1].1.clone());
        }
        k -= 1;
    }
    None
}

fn literal_debug_text(l: Option<Value>) -> (r: String)
    ensures
        r@ == literal_debug(l),
{
    match l {
        None => owned("None"),
        Some(Value::Int(v)) => {
            let mut s = owned("Some(Int(");
            push_i64_decimal(&mut s, v);
            push_str(&mut s, "))");
            s
        },
    }
}

fn token_debug_text(t: &Token) -> (r: String)
    ensures
        r@ == token_debug(*t),
{
    let mut s = owned("Token { token_type: ");
    let name = token_type_text(t.token_type);
    push_str(&mut s, name.as_str());
    push_str(&mut s, ", lexeme_range: ");
    push_u64_decimal(&mut s, t.lexeme_range.start as u64);
    push_str(&mut s, "..");
    push_u64_decimal(&mut s, t.lexeme_range.end as u64);
    push_str(&mut s, ", literal: ");
    let lit = literal_debug_text(t.literal);
    push_str(&mut s, lit.as_str());
    push_str(&mut s, " }");
    s
}

fn operator_debug_text(op: BinaryOperator) -> (r: String)
    ensures
        r@ == operator_debug(op),
{
    match op {
        BinaryOperator::Add => owned("Add"),
        BinaryOperator::Subtract => owned("Subtract"),
        BinaryOperator::Multiply => owned("Multiply"),
        BinaryOperator::Divide => owned("Divide"),
        BinaryOperator::Remainder => owned("Remainder"),
        BinaryOperator::And => owned("And"),
        BinaryOperator::Or => owned("Or"),
        BinaryOperator::EqualEqual => owned("EqualEqual"),
        BinaryOperator::BangEqual => owned("BangEqual"),
        BinaryOperator::Less => owned("Less"),
        BinaryOperator::LessEqual => owned("LessEqual"),
        BinaryOperator::Greater => owned("Greater"),
        BinaryOperator::GreaterEqual => owned("GreaterEqual"),
        BinaryOperator::Equal => owned("Equal"),
        BinaryOperator::Question => owned("Question"),
    }
}

/// Appends the `Debug` text of an expression.
fn push_expr_debug(out: &mut String, e: &Expr)
    ensures
        final(out)@ == old(out)@ + expr_debug(expr_view(*e)),
    decreases e,
{
    match e {
        Expr::Literal(LiteralExpr::Integer(i)) => {
            push_str(out, "Literal(Integer(");
            push_i64_decimal(out, *i);
            push_str(out, "))");
        },
        Expr::Unary { operator, right } => {
            push_str(out, "Unary { operator: ");
            let t = token_debug_text(operator);
            push_str(out, t.as_str());
            push_str(out, ", right: ");
            push_expr_debug(out, right);
            push_str(out, " }");
        },
        Expr::Grouping { expression } => {
            push_str(out, "Grouping { expression: ");
            push_expr_debug(out, expression);
            push_str(out, " }");
        },
        Expr::Binary { operator, left, right } => {
            push_str(out, "Binary { operator: ");
            let o = operator_debug_text(*operator);
            push_str(out, o.as_str());
            push_str(out, ", left: ");
            push_expr_debug(out, left);
            push_str(out, ", right: ");
            push_expr_debug(out, right);
            push_str(out, " }");
        },
        Expr::Var { name, unique_name } => {
            push_str(out, "Var { name: ");
            let t = token_debug_text(name);
            push_str(out, t.as_str());
            push_str(out, ", unique_name: \"");
            push_str(out, unique_name.as_str());
            push_str(out, "\" }");
        },
        Expr::Assignment { left, right } => {
            push_str(out, "Assignment { left: ");
            push_expr_debug(out, left);
            push_str(out, ", right: ");
            push_expr_debug(out, right);
            push_str(out, " }");
        },
        Expr::Condtional { condition, left, right } => {
            push_str(out, "Condtional { condition: ");
            push_expr_debug(out, condition);
            push_str(out, ", left: ");
            push_expr_debug(out, left);
            push_str(out, ", right: ");
            push_expr_debug(out, right);
            push_str(out, " }");
        },
    }
    assert(final(out)@ =~= old(out)@ + expr_debug(expr_view(*e)));
}

/// Resolves the variables of first-generation programs, naming each
/// declared variable `v_<id>` with ids from its own counter.
pub struct SemanticAnalyzer<'a> {
    source: &'a str,
    scopes: Vec<Vec<(String, String)>>,
    next_id: usize,
}

impl<'a> SemanticAnalyzer<'a> {
    /// The source text the tokens point into.
    pub closed spec fn text(&self) -> Seq<char> {
        self.source@
    }

    /// The open scopes, outermost first.
    pub closed spec fn scopes(&self) -> Seq<Map<Seq<char>, Seq<char>>> {
        scopes_view(self.scopes@)
    }

    /// The id the next declared variable will get.
    pub closed spec fn next(&self) -> nat {
        self.next_id as nat
    }

    /// An analyzer over `source` with no open scope, whose ids start at zero.
    pub fn new(source: &'a str) -> (r: Self)
        ensures
            r.text() == source@,
            r.scopes() == Seq::<Map<Seq<char>, Seq<char>>>::empty(),
            r.next() == 0,
    {
        let r = SemanticAnalyzer { source, scopes: Vec::new(), next_id: 0 };
        assert(r.scopes() =~= Seq::<Map<Seq<char>, Seq<char>>>::empty());
        r
    }

    /// An analyzer over `source` with no open scope, whose ids start at
    /// `first_id` (so that it can continue a counter that earlier passes used).
    pub fn starting_at(source: &'a str, first_id: usize) -> (r: Self)
        ensures
            r.text() == source@,
            r.scopes() == Seq::<Map<Seq<char>, Seq<char>>>::empty(),
            r.next() == first_id,
    {
        let r = SemanticAnalyzer { source, scopes: Vec::new(), next_id: first_id };
        assert(r.scopes() =~= Seq::<Map<Seq<char>, Seq<char>>>::empty());
        r
    }

    /// The id the next declared variable will get.
    pub fn next_id(&self) -> (r: usize)
        ensures
            r == self.next(),
    {
        self.next_id
    }

    fn enter_scope(&mut self)
        ensures
            final(self).scopes() == old(self).scopes().push(Map::empty()),
            final(self).text() == old(self).text(),
            final(self).next() == old(self).next(),
    {
        let ghost before = self.scopes@;
        self.scopes.push(Vec::new());
        proof {
            assert(scope_map(Seq::<(String, String)>::empty()) =~= Map::<Seq<char>, Seq<char>>::empty());
            assert(self.scopes() =~= scopes_view(before).push(Map::empty()));
        }
    }

    fn leave_scope(&mut self)
        ensures
            final(self).scopes() == if old(self).scopes().len() > 0 {
                old(self).scopes().drop_last()
            } else {
                old(self).scopes()
            },
            final(self).text() == old(self).text(),
            final(self).next() == old(self).next(),
    {
        let ghost before = self.scopes@;
        if self.scopes.len() > 0 {
            self.scopes.pop();
            proof {
                assert(self.scopes() =~= scopes_view(before).drop_last());
            }
        }
    }

    /// The unique name `user_name` resolves to in the open scopes.
    fn lookup_variable(&self, user_name: &String) -> (r: Option<String>)
        ensures
            match r {
                Some(u) => lookup(self.scopes(), user_name@) == Some(u@),
                None => lookup(self.scopes(), user_name@) is None,
            },
    {
        let ghost sv = self.scopes();
        let mut k: usize = self.scopes.len();
        assert(sv.take(sv.len() as int) =~= sv);
        while k > 0
            invariant
                k <= self.scopes@.len(),
                sv == self.scopes(),
                lookup(sv, user_name@) == lookup(sv.take(k as int), user_name@),
            decreases k,
        {
            let ghost pre = sv.take(k as int);
            assert(pre.drop_last() =~= sv.take(k - 1));
            assert(pre.last() == scope_map(self.scopes@[k - 1]@));
            match scope_get(&self.scopes[k - 1], user_name) {
                Some(u) => {
                    return Some(u);
                },
                None => {},
            }
            k -= 1;
        }
        assert(sv.take(0) =~= Seq::<Map<Seq<char>, Seq<char>>>::empty());
        None
    }

    /// Analyzes every function of the program in order.
    pub fn analyze(&mut self, program: Program) -> (r: Result<Program, SemanticError>)
        requires
            program_readable(old(self).text(), program_view(program)),
            afuncs(program_view(program).functions, old(self).text(), old(self).scopes(), old(self).next()).2 <= usize::MAX,
        ensures
            final(self).text() == old(self).text(),
            ({
                let p = afuncs(program_view(program).functions, old(self).text(), old(self).scopes(), old(self).next());
                &&& final(self).scopes() == p.1
                &&& final(self).next() == p.2
                &&& match (r, p.0) {
                    (Ok(q), Ok(fs)) => program_view(q).functions == fs,
                    (Err(e), Err(m)) => error_matches(e, m),
                    _ => false,
                }
            }),
    {
        let ghost fs = program_view(program).functions;
        let ghost src = self.text();
        let ghost sc0 = self.scopes();
        let ghost id0 = self.next();
        let mut functions = program.functions;
        let n = functions.len();
        let ghost all = functions@;
        let mut analyzed_functions: Vec<Function> = Vec::new();
        let mut k: usize = 0;
        proof {
            assert(fs.take(0) =~= Seq::<SFunction>::empty());
            assert(functions@.subrange(0, n as int) =~= functions@);
        }
        while k < n
            invariant
                k <= n,
                n == all.len(),
                functions@ == all.subrange(k as int, n as int),
                fs.len() == n,
                forall|j: int| 0 <= j < n ==> #[trigger] fs[j] == function_view(all[j]),
                fs == program_view(program).functions,
                src == old(self).text(),
                self.text() == src,
                sc0 == old(self).scopes(),
                id0 == old(self).next(),
                program_readable(src, program_view(program)),
                afuncs(fs, src, sc0, id0).2 <= usize::MAX,
                afuncs(fs.take(k as int), src, sc0, id0).0 is Ok,
                analyzed_functions@.map_values(|f: Function| function_view(f)) == afuncs(fs.take(k as int), src, sc0, id0).0->Ok_0,
                self.scopes() == afuncs(fs.take(k as int), src, sc0, id0).1,
                self.next() == afuncs(fs.take(k as int), src, sc0, id0).2,
            decreases n - k,
        {
            let func = functions.remove(0);
            let ghost pre = fs.take(k + 1);
            proof {
                assert(func == all[k as int]);
                assert(pre.drop_last() =~= fs.take(k as int));
                assert(pre.last() == function_view(func));
                lemma_afuncs_prefix(fs, k as int + 1, src, sc0, id0);
                assert forall|j: int| 0 <= j < function_view(func).body.len() implies block_readable(
                    src,
                    #[trigger] function_view(func).body[j],
                ) by {
                    assert(fs[k as int].body[j] == function_view(func).body[j]);
                }
            }
            match self.analyze_function(func) {
                Ok(f) => {
                    let ghost before = analyzed_functions@;
                    analyzed_functions.push(f);
                    proof {
                        assert(analyzed_functions@.map_values(|f: Function| function_view(f))
                            =~= before.map_values(|f: Function| function_view(f)).push(function_view(f)));
                    }
                },
                Err(e) => {
                    proof {
                        lemma_afuncs_prefix(fs, k as int + 1, src, sc0, id0);
                    }
                    return Err(e);
                },
            }
            k += 1;
        }
        proof {
            assert(fs.take(n as int) =~= fs);
        }
        let r = Program { functions: analyzed_functions };
        proof {
            assert(program_view(r).functions =~= analyzed_functions@.map_values(|f: Function| function_view(f)));
        }
        Ok(r)
    }

    fn analyze_function(&mut self, function: Function) -> (r: Result<Function, SemanticError>)
        requires
            forall|j: int| 0 <= j < function_view(function).body.len() ==> block_readable(
                old(self).text(),
                #[trigger] function_view(function).body[j],
            ),
            afunc(function_view(function), old(self).text(), old(self).scopes(), old(self).next()).2 <= usize::MAX,
        ensures
            final(self).text() == old(self).text(),
            ({
                let p = afunc(function_view(function), old(self).text(), old(self).scopes(), old(self).next());
                &&& final(self).scopes() == p.1
                &&& final(self).next() == p.2
                &&& match (r, p.0) {
                    (Ok(f), Ok(sf)) => function_view(f) == sf,
                    (Err(e), Err(m)) => error_matches(e, m),
                    _ => false,
                }
            }),
    {
        let ghost items = function_view(function).body;
        proof {
            assert forall|j: int| 0 <= j < function.body@.len() implies block_readable(
                old(self).text(),
                #[trigger] block_view(function.body@[j]),
            ) by {
                assert(function_view(function).body[j] == block_view(function.body@[j]));
            }
        }
        self.enter_scope();
        let name = function.name;
        let analyzed_body_items = self.analyze_block_items_list(function.body)?;
        proof {
            lemma_aitems_grows(items, old(self).text(), old(self).scopes().push(Map::empty()), old(self).next());
        }
        self.leave_scope();
        let r = Function { name, body: analyzed_body_items };
        proof {
            assert(function_view(r).body =~= analyzed_body_items@.map_values(|b: Block| block_view(b)));
        }
        Ok(r)
    }

    /// Analyzes a list of items in the open scopes, in order.
    fn analyze_block_items_list(&mut self, items: Vec<Block>) -> (r: Result<Vec<Block>, SemanticError>)
        requires
            forall|j: int| 0 <= j < items@.len() ==> block_readable(old(self).text(), #[trigger] block_view(items@[j])),
            aitems(blocks_view(items@), old(self).text(), old(self).scopes(), old(self).next()).2 <= usize::MAX,
        ensures
            final(self).text() == old(self).text(),
            ({
                let p = aitems(blocks_view(items@), old(self).text(), old(self).scopes(), old(self).next());
                &&& final(self).scopes() == p.1
                &&& final(self).next() == p.2
                &&& match (r, p.0) {
                    (Ok(v), Ok(sv)) => v@.map_values(|b: Block| block_view(b)) == sv,
                    (Err(e), Err(m)) => error_matches(e, m),
                    _ => false,
                }
            }),
    {
        let ghost sitems = blocks_view(items@);
        let ghost src = self.text();
        let ghost id0 = self.next();
        let ghost sc1 = self.scopes();
        let mut body = items;
        let n = body.len();
        let ghost all = body@;
        let mut analyzed_items: Vec<Block> = Vec::new();
        let mut k: usize = 0;
        proof {
            assert(sitems.take(0) =~= Seq::<SBlock>::empty());
            assert(body@.subrange(0, n as int) =~= body@);
        }
        while k < n
            invariant
                k <= n,
                n == all.len(),
                body@ == all.subrange(k as int, n as int),
                sitems.len() == n,
                sitems == blocks_view(items@),
                forall|j: int| 0 <= j < n ==> #[trigger] sitems[j] == block_view(all[j]),
                forall|j: int| 0 <= j < n ==> block_readable(src, #[trigger] block_view(all[j])),
                src == old(self).text(),
                self.text() == src,
                id0 == old(self).next(),
                sc1 == old(self).scopes(),
                aitems(sitems, src, sc1, id0).2 <= usize::MAX,
                aitems(sitems.take(k as int), src, sc1, id0).0 is Ok,
                analyzed_items@.map_values(|b: Block| block_view(b)) == aitems(sitems.take(k as int), src, sc1, id0).0->Ok_0,
                self.scopes() == aitems(sitems.take(k as int), src, sc1, id0).1,
                self.next() == aitems(sitems.take(k as int), src, sc1, id0).2,
            decreases n - k,
        {
            let item = body.remove(0);
            let ghost pre = sitems.take(k + 1);
            proof {
                assert(item == all[k as int]);
                assert(pre.drop_last() =~= sitems.take(k as int));
                assert(pre.last() == block_view(item));
                lemma_aitems_prefix(sitems, k as int + 1, src, sc1, id0);
            }
            match self.analyze_block_item(item) {
                Ok(b) => {
                    let ghost before = analyzed_items@;
                    analyzed_items.push(b);
                    proof {
                        assert(analyzed_items@.map_values(|b: Block| block_view(b))
                            =~= before.map_values(|b: Block| block_view(b)).push(block_view(b)));
                    }
                },
                Err(e) => {
                    proof {
                        lemma_aitems_prefix(sitems, k as int + 1, src, sc1, id0);
                    }
                    return Err(e);
                },
            }
            k += 1;
        }
        proof {
            assert(sitems.take(n as int) =~= sitems);
        }
        Ok(analyzed_items)
    }

    fn analyze_block_item(&mut self, block_item_enum: Block) -> (r: Result<Block, SemanticError>)
        requires
            block_readable(old(self).text(), block_view(block_item_enum)),
            ablock(block_view(block_item_enum), old(self).text(), old(self).scopes(), old(self).next()).2 <= usize::MAX,
        ensures
            final(self).text() == old(self).text(),
            ({
                let p = ablock(block_view(block_item_enum), old(self).text(), old(self).scopes(), old(self).next());
                &&& final(self).scopes() == p.1
                &&& final(self).next() == p.2
                &&& match (r, p.0) {
                    (Ok(b), Ok(sb)) => block_view(b) == sb,
                    (Err(e), Err(m)) => error_matches(e, m),
                    _ => false,
                }
            }),
    {
        match block_item_enum {
            Block::Declaration(decl) => {
                let analyzed_decl = self.analyze_declaration(decl)?;
                Ok(Block::Declaration(analyzed_decl))
            },
            Block::Stmt(stmt) => {
                let analyzed_stmt = self.analyze_statement(stmt)?;
                Ok(Block::Stmt(analyzed_stmt))
            },
        }
    }

    fn analyze_declaration(&mut self, declaration: Declaration) -> (r: Result<Declaration, SemanticError>)
        requires
            block_readable(old(self).text(), SBlock::Declaration(declaration_view_of(declaration))),
            ablock(SBlock::Declaration(declaration_view_of(declaration)), old(self).text(), old(self).scopes(), old(self).next()).2 <= usize::MAX,
        ensures
            final(self).text() == old(self).text(),
            ({
                let p = ablock(SBlock::Declaration(declaration_view_of(declaration)), old(self).text(), old(self).scopes(), old(self).next());
                &&& final(self).scopes() == p.1
                &&& final(self).next() == p.2
                &&& match (r, p.0) {
                    (Ok(d), Ok(sb)) => SBlock::Declaration(declaration_view_of(d)) == sb,
                    (Err(e), Err(m)) => error_matches(e, m),
                    _ => false,
                }
            }),
    {
        let user_name = declaration.name.get_lexeme(self.source);
        let n = self.scopes.len();
        if n == 0 {
            return Err(SemanticError::Internal(owned("No current scope active for declaration.")));
        }
        let ghost before = self.scopes@;
        proof {
            assert(self.scopes().last() == scope_map(self.scopes@[n - 1]@));
        }
        if scope_get(&self.scopes[n - 1], &user_name).is_some() {
            return Err(SemanticError::DuplicateDeclaration { name: user_name });
        }
        let unique_name = generate_analysis_variable_name(self.next_id);
        self.next_id = self.next_id + 1;
        let mut current_scope = self.scopes.pop().unwrap();
        let ghost top = current_scope@;
        current_scope.push((user_name, unique_name.clone()));
        let ghost top2 = current_scope@;
        proof {
            assert(top2.drop_last() =~= top);
            assert(scope_map(top2) == scope_map(top).insert(token_text(self.source@, declaration.name), unique_name@));
        }
        self.scopes.push(current_scope);
        proof {
            assert(self.scopes@ =~= before.update(n - 1, self.scopes@[n - 1]));
            assert(before[n - 1]@ == top);
            assert(self.scopes() =~= scopes_view(before).update(n - 1, scopes_view(before).last().insert(
                token_text(self.source@, declaration.name),
                unique_name@,
            )));
        }
        let analyzed_init = match declaration.init {
            Some(init_expr) => {
                let analyzed_expr = self.analyze_expression(*init_expr)?;
                Some(Box::new(analyzed_expr))
            },
            None => None,
        };
        Ok(Declaration { name: declaration.name, unique_name, init: analyzed_init })
    }

    fn analyze_statement(&self, statement: Stmt) -> (r: Result<Stmt, SemanticError>)
        requires
            stmt_readable(self.text(), stmt_view(statement)),
        ensures
            match (r, ast(stmt_view(statement), self.text(), self.scopes())) {
                (Ok(s), Ok(ss)) => stmt_view(s) == ss,
                (Err(e), Err(m)) => error_matches(e, m),
                _ => false,
            },
        decreases statement, 0int,
    {
        match statement {
            Stmt::Return { keyword, value } => {
                let analyzed_value = match value {
                    Some(return_expr) => {
                        let analyzed_expr = self.analyze_expression(*return_expr)?;
                        Some(Box::new(analyzed_expr))
                    },
                    None => None,
                };
                Ok(Stmt::Return { keyword, value: analyzed_value })
            },
            Stmt::Expression { exp } => {
                let analyzed_exp = self.analyze_expression(*exp)?;
                Ok(Stmt::Expression { exp: Box::new(analyzed_exp) })
            },
            Stmt::Null => Ok(Stmt::Null),
            Stmt::If { condition, then_branch, else_branch } => {
                let analyzed_condition = self.analyze_expression(*condition)?;
                let analyzed_then_branch = self.analyze_statement_scoped(*then_branch)?;
                let analyzed_else_branch = match else_branch {
                    Some(else_stmt) => Some(Box::new(self.analyze_statement_scoped(*else_stmt)?)),
                    None => None,
                };
                Ok(Stmt::If {
                    condition: Box::new(analyzed_condition),
                    then_branch: Box::new(analyzed_then_branch),
                    else_branch: analyzed_else_branch,
                })
            },
        }
    }

    /// A branch of an `if` (a single statement: it opens no scope of its own).
    fn analyze_statement_scoped(&self, statement: Stmt) -> (r: Result<Stmt, SemanticError>)
        requires
            stmt_readable(self.text(), stmt_view(statement)),
        ensures
            match (r, ast(stmt_view(statement), self.text(), self.scopes())) {
                (Ok(s), Ok(ss)) => stmt_view(s) == ss,
                (Err(e), Err(m)) => error_matches(e, m),
                _ => false,
            },
        decreases statement, 1int,
    {
        self.analyze_statement(statement)
    }

    fn analyze_expression(&self, expression: Expr) -> (r: Result<Expr, SemanticError>)
        requires
            expr_readable(self.text(), expr_view(expression)),
        ensures
            match (r, ae(expr_view(expression), self.text(), self.scopes())) {
                (Ok(e), Ok(se)) => expr_view(e) == se,
                (Err(e), Err(m)) => error_matches(e, m),
                _ => false,
            },
        decreases expression,
    {
        match expression {
            Expr::Literal(lit) => Ok(Expr::Literal(lit)),
            Expr::Unary { operator, right } => {
                let analyzed_right = self.analyze_expression(*right)?;
                Ok(Expr::Unary { operator, right: Box::new(analyzed_right) })
            },
            Expr::Grouping { expression } => {
                let analyzed_expression = self.analyze_expression(*expression)?;
                Ok(Expr::Grouping { expression: Box::new(analyzed_expression) })
            },
            Expr::Binary { operator, left, right } => {
                let analyzed_left = self.analyze_expression(*left)?;
                let analyzed_right = self.analyze_expression(*right)?;
                Ok(Expr::Binary { operator, left: Box::new(analyzed_left), right: Box::new(analyzed_right) })
            },
            Expr::Var { name, unique_name: _old_unique_name } => {
                let user_name = name.get_lexeme(self.source);
                match self.lookup_variable(&user_name) {
                    Some(found_unique_name) => Ok(Expr::Var { name, unique_name: found_unique_name }),
                    None => Err(SemanticError::UndeclaredVariable { name: user_name }),
                }
            },
            Expr::Assignment { left, right } => {
                let analyzed_right = self.analyze_expression(*right)?;
                let analyzed_left = self.analyze_expression(*left)?;
                match &analyzed_left {
                    Expr::Var { .. } => {},
                    _ => {
                        let mut description = owned("Expression ");
                        push_expr_debug(&mut description, &analyzed_left);
                        push_str(&mut description, " is not a valid LValue.");
                        return Err(SemanticError::InvalidLvalue { description });
                    },
                }
                Ok(Expr::Assignment { left: Box::new(analyzed_left), right: Box::new(analyzed_right) })
            },
            Expr::Condtional { condition, left, right } => {
                let analyzed_condition = self.analyze_expression(*condition)?;
                let analyzed_left = self.analyze_expression(*left)?;
                let analyzed_right = self.analyze_expression(*right)?;
                Ok(Expr::Condtional {
                    condition: Box::new(analyzed_condition),
                    left: Box::new(analyzed_left),
                    right: Box::new(analyzed_right),
                })
            },
        }
    }
}

/// The view of a declaration.
pub open spec fn declaration_view_of(d: Declaration) -> SDeclaration {
    crate::parser::c_ast::declaration_view(d)
}

} // verus!
