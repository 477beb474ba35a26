//! The abstract syntax tree of the C subset, and its mathematical view.

use vstd::prelude::*;

verus! {

/// A whole program: its file-scope declarations of functions and
/// variables, in order.
#[derive(Debug)]
pub struct Program {
    pub declarations: Vec<Declaration>,
}

/// One item of a block.
#[derive(Debug)]
pub enum BlockItem {
    S(Statement),
    D(Declaration),
}

/// A declaration of a function or of a variable.
#[derive(Debug)]
pub enum Declaration {
    Fun(FunDecl),
    Variable(VarDecl),
}

/// A function declaration; `body` is present for a definition.
#[derive(Debug)]
pub struct FunDecl {
    pub name: String,
    pub parameters: Vec<String>,
    pub body: Option<Block>,
    pub storage_class: Option<StorageClass>,
}

/// A variable declaration with an optional initializer.
#[derive(Debug)]
pub struct VarDecl {
    pub name: String,
    pub init: Option<Expression>,
    pub storage_class: Option<StorageClass>,
}

/// A storage-class specifier.
#[derive(Debug, Clone, Copy, PartialEq, Eq, Structural)]
pub enum StorageClass {
    Static,
    Extern,
}

/// A block: a brace-enclosed list of items.
#[derive(Debug)]
pub struct Block(pub Vec<BlockItem>);

/// The initializer clause of a `for` loop.
#[derive(Debug)]
pub enum ForInit {
    InitDecl(VarDecl),
    InitExp(Option<Expression>),
}

/// A statement. Loops carry the label that loop labeling gives them;
/// `break` and `continue` carry the label of the loop they leave.
#[derive(Debug)]
pub enum Statement {
    Return(Expression),
    Expression(Expression),
    Null,
    If {
        condition: Expression,
        then_stmt: Box<Statement>,
        else_stmt: Option<Box<Statement>>,
    },
    Compound(Block),
    Break(String),
    Continue(String),
    While {
        condition: Expression,
        body: Box<Statement>,
        label: Option<String>,
    },
    DoWhile {
        body: Box<Statement>,
        condition: Expression,
        label: Option<String>,
    },
    For {
        init: ForInit,
        condition: Option<Expression>,
        post: Option<Expression>,
        body: Box<Statement>,
        label: Option<String>,
    },
}

/// An expression.
#[derive(Debug)]
pub enum Expression {
    Constant(i64),
    Unary {
        op: UnaryOp,
        exp: Box<Expression>,
    },
    Binary {
        op: BinaryOp,
        left: Box<Expression>,
        right: Box<Expression>,
    },
    Var(String),
    Assignment {
        left: Box<Expression>,
        right: Box<Expression>,
    },
    Conditional {
        condition: Box<Expression>,
        left: Box<Expression>,
        right: Box<Expression>,
    },
    FuncCall {
        name: String,
        args: Vec<Expression>,
    },
}

/// Unary operators.
#[derive(Debug, Clone, Copy, PartialEq, Eq, Structural)]
pub enum UnaryOp {
    Complement,
    Negate,
    Not,
}

/// Binary operators.
#[derive(Debug, Clone, Copy, PartialEq, Eq, Structural)]
pub enum BinaryOp {
    Add,
    Subtract,
    Multiply,
    Divide,
    Remainder,
    And,
    Or,
    EqualEqual,
    BangEqual,
    LessEqual,
    GreaterEqual,
    Less,
    Greater,
}

// ---------------------------------------------------------------------------
// What the operators mean in C.
// ---------------------------------------------------------------------------

/// C's `/` on integers: the quotient truncated toward zero.
pub open spec fn trunc_div(a: int, b: int) -> int {
    let q = (if a < 0 { -a } else { a }) / (if b < 0 { -b } else { b });
    if (a < 0) != (b < 0) { -q } else { q }
}

/// C's `%` on integers: what is left after the truncated quotient, so that
/// `(a / b) * b + a % b == a`.
pub open spec fn trunc_rem(a: int, b: int) -> int {
    a - b * trunc_div(a, b)
}

/// 1 for true, 0 for false, as C's comparisons give.
pub open spec fn truth(b: bool) -> int {
    if b { 1 } else { 0 }
}

/// The value of `op a` in C (no overflow): `~a` is `-a - 1` in two's
/// complement, `-a`, and `!a` is 1 exactly when `a` is 0.
pub open spec fn c_unary_value(op: UnaryOp, a: int) -> int {
    match op {
        UnaryOp::Complement => -a - 1,
        UnaryOp::Negate => -a,
        UnaryOp::Not => truth(a == 0),
    }
}

/// The value of `a op b` in C for a binary operator that is not `&&` or
/// `||` (no overflow; `b != 0` for `/` and `%`).
pub open spec fn c_binary_value(op: BinaryOp, a: int, b: int) -> int {
    match op {
        BinaryOp::Add => a + b,
        BinaryOp::Subtract => a - b,
        BinaryOp::Multiply => a * b,
        BinaryOp::Divide => trunc_div(a, b),
        BinaryOp::Remainder => trunc_rem(a, b),
        BinaryOp::EqualEqual => truth(a == b),
        BinaryOp::BangEqual => truth(a != b),
        BinaryOp::LessEqual => truth(a <= b),
        BinaryOp::GreaterEqual => truth(a >= b),
        BinaryOp::Less => truth(a < b),
        BinaryOp::Greater => truth(a > b),
        BinaryOp::And => truth(a != 0 && b != 0),
        BinaryOp::Or => truth(a != 0 || b != 0),
    }
}

// ---------------------------------------------------------------------------
// The mathematical view: the same tree with names as character sequences.
// ---------------------------------------------------------------------------

pub struct SProgram {
    pub declarations: Seq<SDeclaration>,
}

pub enum SBlockItem {
    S(SStatement),
    D(SDeclaration),
}

pub enum SDeclaration {
    Fun(SFunDecl),
    Variable(SVarDecl),
}

pub struct SFunDecl {
    pub name: Seq<char>,
    pub parameters: Seq<Seq<char>>,
    pub body: Option<Seq<SBlockItem>>,
    pub storage_class: Option<StorageClass>,
}

pub struct SVarDecl {
    pub name: Seq<char>,
    pub init: Option<SExpression>,
    pub storage_class: Option<StorageClass>,
}

pub enum SForInit {
    InitDecl(SVarDecl),
    InitExp(Option<SExpression>),
}

pub enum SStatement {
    Return(SExpression),
    Expression(SExpression),
    Null,
    If { condition: SExpression, then_stmt: Box<SStatement>, else_stmt: Option<Box<SStatement>> },
    Compound(Seq<SBlockItem>),
    Break(Seq<char>),
    Continue(Seq<char>),
    While { condition: SExpression, body: Box<SStatement>, label: Option<Seq<char>> },
    DoWhile { body: Box<SStatement>, condition: SExpression, label: Option<Seq<char>> },
    For {
        init: SForInit,
        condition: Option<SExpression>,
        post: Option<SExpression>,
        body: Box<SStatement>,
        label: Option<Seq<char>>,
    },
}

pub enum SExpression {
    Constant(i64),
    Unary { op: UnaryOp, exp: Box<SExpression> },
    Binary { op: BinaryOp, left: Box<SExpression>, right: Box<SExpression> },
    Var(Seq<char>),
    Assignment { left: Box<SExpression>, right: Box<SExpression> },
    Conditional { condition: Box<SExpression>, left: Box<SExpression>, right: Box<SExpression> },
    FuncCall { name: Seq<char>, args: Seq<SExpression> },
}

/// The view of an optional string.
pub open spec fn opt_str_view(o: Option<String>) -> Option<Seq<char>> {
    match o {
        Some(s) => Some(s@),
        None => None,
    }
}

/// The views of a list of strings.
pub open spec fn strs_view(v: Seq<String>) -> Seq<Seq<char>> {
    v.map_values(|s: String| s@)
}

pub open spec fn expr_view(e: Expression) -> SExpression
    decreases e, 0int,
{
    match e {
        Expression::Constant(i) => SExpression::Constant(i),
        Expression::Unary { op, exp } => SExpression::Unary { op, exp: Box::new(expr_view(*exp)) },
        Expression::Binary { op, left, right } => SExpression::Binary {
            op,
            left: Box::new(expr_view(*left)),
            right: Box::new(expr_view(*right)),
        },
        Expression::Var(n) => SExpression::Var(n@),
        Expression::Assignment { left, right } => SExpression::Assignment {
            left: Box::new(expr_view(*left)),
            right: Box::new(expr_view(*right)),
        },
        Expression::Conditional { condition, left, right } => SExpression::Conditional {
            condition: Box::new(expr_view(*condition)),
            left: Box::new(expr_view(*left)),
            right: Box::new(expr_view(*right)),
        },
        Expression::FuncCall { name, args } => SExpression::FuncCall { name: name@, args: exprs_view(args@) },
    }
}

pub open spec fn exprs_view(s: Seq<Expression>) -> Seq<SExpression>
    decreases s, 1int,
{
    if s.len() == 0 {
        Seq::empty()
    } else {
        exprs_view(s.drop_last()).push(expr_view(s.last()))
    }
}


pub open spec fn opt_expr_view(o: Option<Expression>) -> Option<SExpression> {
    match o {
        Some(e) => Some(expr_view(e)),
        None => None,
    }
}

pub open spec fn var_decl_view(v: VarDecl) -> SVarDecl {
    SVarDecl { name: v.name@, init: opt_expr_view(v.init), storage_class: v.storage_class }
}

pub open spec fn for_init_view(f: ForInit) -> SForInit {
    match f {
        ForInit::InitDecl(v) => SForInit::InitDecl(var_decl_view(v)),
        ForInit::InitExp(o) => SForInit::InitExp(opt_expr_view(o)),
    }
}

pub open spec fn stmt_view(s: Statement) -> SStatement
    decreases s, 0int,
{
    match s {
        Statement::Return(e) => SStatement::Return(expr_view(e)),
        Statement::Expression(e) => SStatement::Expression(expr_view(e)),
        Statement::Null => SStatement::Null,
        Statement::If { condition, then_stmt, else_stmt } => SStatement::If {
            condition: expr_view(condition),
            then_stmt: Box::new(stmt_view(*then_stmt)),
            else_stmt: match else_stmt {
                Some(e) => Some(Box::new(stmt_view(*e))),
                None => None,
            },
        },
        Statement::Compound(b) => SStatement::Compound(items_view(b.0@)),
        Statement::Break(l) => SStatement::Break(l@),
        Statement::Continue(l) => SStatement::Continue(l@),
        Statement::While { condition, body, label } => SStatement::While {
            condition: expr_view(condition),
            body: Box::new(stmt_view(*body)),
            label: opt_str_view(label),
        },
        Statement::DoWhile { body, condition, label } => SStatement::DoWhile {
            body: Box::new(stmt_view(*body)),
            condition: expr_view(condition),
            label: opt_str_view(label),
        },
        Statement::For { init, condition, post, body, label } => SStatement::For {
            init: for_init_view(init),
            condition: opt_expr_view(condition),
            post: opt_expr_view(post),
            body: Box::new(stmt_view(*body)),
            label: opt_str_view(label),
        },
    }
}

pub open spec fn items_view(s: Seq<BlockItem>) -> Seq<SBlockItem>
    decreases s, 1int,
{
    if s.len() == 0 {
        Seq::empty()
    } else {
        items_view(s.drop_last()).push(item_view(s.last()))
    }
}

pub open spec fn item_view(i: BlockItem) -> SBlockItem
    decreases i, 0int,
{
    match i {
        BlockItem::S(s) => SBlockItem::S(stmt_view(s)),
        BlockItem::D(Declaration::Variable(v)) => SBlockItem::D(SDeclaration::Variable(var_decl_view(v))),
        BlockItem::D(Declaration::Fun(f)) => SBlockItem::D(SDeclaration::Fun(fun_decl_view(f))),
    }
}

pub open spec fn fun_decl_view(f: FunDecl) -> SFunDecl
    decreases f, 0int,
{
    SFunDecl {
        name: f.name@,
        parameters: strs_view(f.parameters@),
        body: match f.body {
            Some(b) => Some(items_view(b.0@)),
            None => None,
        },
        storage_class: f.storage_class,
    }
}

pub open spec fn decl_view(d: Declaration) -> SDeclaration {
    match d {
        Declaration::Variable(v) => SDeclaration::Variable(var_decl_view(v)),
        Declaration::Fun(f) => SDeclaration::Fun(fun_decl_view(f)),
    }
}

pub open spec fn decls_view(s: Seq<Declaration>) -> Seq<SDeclaration> {
    s.map_values(|d: Declaration| decl_view(d))
}

/// The function declarations among `ds`, in order.
pub open spec fn fun_decls_of(ds: Seq<SDeclaration>) -> Seq<SFunDecl>
    decreases ds.len(),
{
    if ds.len() == 0 {
        Seq::empty()
    } else {
        match ds.last() {
            SDeclaration::Fun(f) => fun_decls_of(ds.drop_last()).push(f),
            SDeclaration::Variable(_) => fun_decls_of(ds.drop_last()),
        }
    }
}

/// The functions of a prefix of `ds` are a prefix of the functions of `ds`.
pub proof fn lemma_fun_decls_of_prefix(ds: Seq<SDeclaration>, k: int)
    requires
        0 <= k <= ds.len(),
    ensures
        fun_decls_of(ds.take(k)).is_prefix_of(fun_decls_of(ds)),
    decreases ds.len() - k,
{
    if k < ds.len() {
        lemma_fun_decls_of_prefix(ds, k + 1);
        let pre = ds.take(k + 1);
        assert(pre.drop_last() =~= ds.take(k));
    } else {
        assert(ds.take(k) =~= ds);
    }
}

pub open spec fn fun_decls_view(s: Seq<FunDecl>) -> Seq<SFunDecl> {
    s.map_values(|f: FunDecl| fun_decl_view(f))
}

/// The view of a list of expressions is the list of their views.
pub proof fn lemma_exprs_view(s: Seq<Expression>)
    ensures
        exprs_view(s).len() == s.len(),
        forall|k: int| 0 <= k < s.len() ==> #[trigger] exprs_view(s)[k] == expr_view(s[k]),
    decreases s.len(),
{
    if s.len() > 0 {
        lemma_exprs_view(s.drop_last());
    }
}

/// The view of a list of block items is the list of their views.
pub proof fn lemma_items_view(s: Seq<BlockItem>)
    ensures
        items_view(s).len() == s.len(),
        forall|k: int| 0 <= k < s.len() ==> #[trigger] items_view(s)[k] == item_view(s[k]),
    decreases s.len(),
{
    if s.len() > 0 {
        lemma_items_view(s.drop_last());
    }
}

impl View for Program {
    type V = SProgram;

    open spec fn view(&self) -> SProgram {
        SProgram { declarations: decls_view(self.declarations@) }
    }
}


// ---------------------------------------------------------------------------
// Deep copies: each copy has the same view as the original.
// ---------------------------------------------------------------------------

/// A copy of a list of strings.
pub fn copy_strings(v: &Vec<String>) -> (r: Vec<String>)
    ensures
        strs_view(r@) == strs_view(v@),
{
    let mut r: Vec<String> = Vec::new();
    let mut k: usize = 0;
    while k < v.len()
        invariant
            k <= v@.len(),
            r@ == v@.take(k as int),
        decreases v@.len() - k,
    {
        r.push(v[k].clone());
        assert(r@ =~= v@.take(k + 1));
        k += 1;
    }
    assert(v@.take(v@.len() as int) =~= v@);
    r
}

/// A copy of an expression.
#[verifier::loop_isolation(false)]
pub fn copy_expression(e: &Expression) -> (r: Expression)
    ensures
        expr_view(r) == expr_view(*e),
    decreases e,
{
    match e {
        Expression::Constant(i) => Expression::Constant(*i),
        Expression::Unary { op, exp } => Expression::Unary { op: *op, exp: Box::new(copy_expression(exp)) },
        Expression::Binary { op, left, right } => Expression::Binary {
            op: *op,
            left: Box::new(copy_expression(left)),
            right: Box::new(copy_expression(right)),
        },
        Expression::Var(n) => Expression::Var(n.clone()),
        Expression::Assignment { left, right } => Expression::Assignment {
            left: Box::new(copy_expression(left)),
            right: Box::new(copy_expression(right)),
        },
        Expression::Conditional { condition, left, right } => Expression::Conditional {
            condition: Box::new(copy_expression(condition)),
            left: Box::new(copy_expression(left)),
            right: Box::new(copy_expression(right)),
        },
        Expression::FuncCall { name, args } => {
            let mut r: Vec<Expression> = Vec::new();
            let mut k: usize = 0;
            proof {
                lemma_exprs_view(args@);
            }
            while k < args.len()
                invariant
                    k <= args@.len(),
                    exprs_view(args@).len() == args@.len(),
                    forall|j: int| 0 <= j < args@.len() ==> #[trigger] exprs_view(args@)[j] == expr_view(args@[j]),
                    exprs_view(r@) == exprs_view(args@).take(k as int),
                decreases args@.len() - k,
            {
                proof {
                    assert(decreases_to!(*e => args@[k as int]));
                }
                let x = copy_expression(&args[k]);
                let ghost before = r@;
                r.push(x);
                proof {
                    assert(r@.drop_last() =~= before);
                    assert(exprs_view(r@) =~= exprs_view(args@).take(k + 1));
                }
                k += 1;
            }
            assert(exprs_view(args@).take(args@.len() as int) =~= exprs_view(args@));
            Expression::FuncCall { name: name.clone(), args: r }
        },
    }
}

/// A copy of an optional expression.
pub fn copy_opt_expression(o: &Option<Expression>) -> (r: Option<Expression>)
    ensures
        opt_expr_view(r) == opt_expr_view(*o),
{
    match o {
        Some(e) => Some(copy_expression(e)),
        None => None,
    }
}

/// A copy of a variable declaration.
pub fn copy_var_decl(v: &VarDecl) -> (r: VarDecl)
    ensures
        var_decl_view(r) == var_decl_view(*v),
{
    VarDecl { name: v.name.clone(), init: copy_opt_expression(&v.init), storage_class: v.storage_class }
}

/// A copy of the initializer clause of a `for` loop.
pub fn copy_for_init(i: &ForInit) -> (r: ForInit)
    ensures
        for_init_view(r) == for_init_view(*i),
{
    match i {
        ForInit::InitDecl(v) => ForInit::InitDecl(copy_var_decl(v)),
        ForInit::InitExp(o) => ForInit::InitExp(copy_opt_expression(o)),
    }
}

fn copy_opt_string(o: &Option<String>) -> (r: Option<String>)
    ensures
        opt_str_view(r) == opt_str_view(*o),
{
    match o {
        Some(s) => Some(s.clone()),
        None => None,
    }
}

/// A copy of a statement.
pub fn copy_statement(s: &Statement) -> (r: Statement)
    ensures
        stmt_view(r) == stmt_view(*s),
    decreases s, 2int,
{
    match s {
        Statement::Return(e) => Statement::Return(copy_expression(e)),
        Statement::Expression(e) => Statement::Expression(copy_expression(e)),
        Statement::Null => Statement::Null,
        Statement::If { condition, then_stmt, else_stmt } => Statement::If {
            condition: copy_expression(condition),
            then_stmt: Box::new(copy_statement(then_stmt)),
            else_stmt: match else_stmt {
                Some(es) => Some(Box::new(copy_statement(es))),
                None => None,
            },
        },
        Statement::Compound(b) => Statement::Compound(Block(copy_items(&b.0))),
        Statement::Break(l) => Statement::Break(l.clone()),
        Statement::Continue(l) => Statement::Continue(l.clone()),
        Statement::While { condition, body, label } => Statement::While {
            condition: copy_expression(condition),
            body: Box::new(copy_statement(body)),
            label: copy_opt_string(label),
        },
        Statement::DoWhile { body, condition, label } => Statement::DoWhile {
            body: Box::new(copy_statement(body)),
            condition: copy_expression(condition),
            label: copy_opt_string(label),
        },
        Statement::For { init, condition, post, body, label } => Statement::For {
            init: copy_for_init(init),
            condition: copy_opt_expression(condition),
            post: copy_opt_expression(post),
            body: Box::new(copy_statement(body)),
            label: copy_opt_string(label),
        },
    }
}

/// A copy of a list of block items.
pub fn copy_items(items: &Vec<BlockItem>) -> (r: Vec<BlockItem>)
    ensures
        items_view(r@) == items_view(items@),
    decreases items, 1int,
{
    let mut r: Vec<BlockItem> = Vec::new();
    let mut k: usize = 0;
    proof {
        lemma_items_view(items@);
    }
    while k < items.len()
        invariant
            k <= items@.len(),
            items_view(items@).len() == items@.len(),
            forall|j: int| 0 <= j < items@.len() ==> #[trigger] items_view(items@)[j] == item_view(items@[j]),
            items_view(r@) == items_view(items@).take(k as int),
        decreases items@.len() - k,
    {
        proof {
            assert(decreases_to!(items => items@[k as int]));
        }
        let x = copy_block_item(&items[k]);
        let ghost before = r@;
        r.push(x);
        proof {
            assert(r@.drop_last() =~= before);
            assert(items_view(r@) =~= items_view(items@).take(k + 1));
        }
        k += 1;
    }
    assert(items_view(items@).take(items@.len() as int) =~= items_view(items@));
    r
}

/// A copy of a block item.
pub fn copy_block_item(i: &BlockItem) -> (r: BlockItem)
    ensures
        item_view(r) == item_view(*i),
    decreases i, 0int,
{
    match i {
        BlockItem::S(s) => BlockItem::S(copy_statement(s)),
        BlockItem::D(Declaration::Variable(v)) => BlockItem::D(Declaration::Variable(copy_var_decl(v))),
        BlockItem::D(Declaration::Fun(f)) => BlockItem::D(Declaration::Fun(copy_fun_decl(f))),
    }
}

/// A copy of a function declaration.
pub fn copy_fun_decl(f: &FunDecl) -> (r: FunDecl)
    ensures
        fun_decl_view(r) == fun_decl_view(*f),
    decreases f, 0int,
{
    FunDecl {
        name: f.name.clone(),
        parameters: copy_strings(&f.parameters),
        body: match &f.body {
            Some(b) => Some(Block(copy_items(&b.0))),
            None => None,
        },
        storage_class: f.storage_class,
    }
}

/// A copy of a declaration.
pub fn copy_declaration(d: &Declaration) -> (r: Declaration)
    ensures
        decl_view(r) == decl_view(*d),
{
    match d {
        Declaration::Variable(v) => Declaration::Variable(copy_var_decl(v)),
        Declaration::Fun(f) => Declaration::Fun(copy_fun_decl(f)),
    }
}

} // verus!
