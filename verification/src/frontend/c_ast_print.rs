//! The indented text form of the syntax tree.

use vstd::prelude::*;
use crate::common::{pad, AstNode, PrettyPrinter};
use crate::frontend::c_ast::{
    decls_view, expr_view, exprs_view, fun_decl_view, item_view, items_view, lemma_exprs_view, lemma_items_view,
    stmt_view, strs_view, var_decl_view, for_init_view, decl_view, BinaryOp, Block, BlockItem,
    Declaration, Expression, ForInit, FunDecl, Program, SBlockItem, SDeclaration, SExpression,
    SForInit, SFunDecl, SProgram, SStatement, SVarDecl, Statement, StorageClass, UnaryOp, VarDecl,
};
use crate::text::{int_decimal, owned, push_i64_decimal, push_str};

verus! {

/// The symbol of a unary operator.
pub open spec fn unop_symbol(op: UnaryOp) -> Seq<char> {
    match op {
        UnaryOp::Complement => "~"@,
        UnaryOp::Negate => "-"@,
        UnaryOp::Not => "!"@,
    }
}

/// The symbol of a binary operator.
pub open spec fn binop_symbol(op: BinaryOp) -> Seq<char> {
    match op {
        BinaryOp::Add => "+"@,
        BinaryOp::Subtract => "-"@,
        BinaryOp::Multiply => "*"@,
        BinaryOp::Divide => "/"@,
        BinaryOp::Remainder => "%"@,
        BinaryOp::And => "&&"@,
        BinaryOp::Or => "||"@,
        BinaryOp::BangEqual => "!="@,
        BinaryOp::EqualEqual => "=="@,
        BinaryOp::Greater => ">"@,
        BinaryOp::GreaterEqual => ">="@,
        BinaryOp::Less => "<"@,
        BinaryOp::LessEqual => "<="@,
    }
}

impl UnaryOp {
    /// The operator's symbol.
    pub fn symbol(&self) -> (r: &'static str)
        ensures
            r@ == unop_symbol(*self),
    {
        match self {
            UnaryOp::Complement => "~",
            UnaryOp::Negate => "-",
            UnaryOp::Not => "!",
        }
    }
}

impl BinaryOp {
    /// The operator's symbol.
    pub fn symbol(&self) -> (r: &'static str)
        ensures
            r@ == binop_symbol(*self),
    {
        match self {
            BinaryOp::Add => "+",
            BinaryOp::Subtract => "-",
            BinaryOp::Multiply => "*",
            BinaryOp::Divide => "/",
            BinaryOp::Remainder => "%",
            BinaryOp::And => "&&",
            BinaryOp::Or => "||",
            BinaryOp::BangEqual => "!=",
            BinaryOp::EqualEqual => "==",
            BinaryOp::Greater => ">",
            BinaryOp::GreaterEqual => ">=",
            BinaryOp::Less => "<",
            BinaryOp::LessEqual => "<=",
        }
    }
}

/// The storage class as printed after a name.
pub open spec fn storage_text(sc: Option<StorageClass>) -> Seq<char> {
    match sc {
        Some(StorageClass::Static) => ", storage: static"@,
        Some(StorageClass::Extern) => ", storage: extern"@,
        None => Seq::empty(),
    }
}

/// A loop label as printed.
pub open spec fn label_text(l: Option<Seq<char>>) -> Seq<char> {
    match l {
        Some(s) => s,
        None => "unlabeled"@,
    }
}

/// Names separated by `, `.
pub open spec fn join_names(ps: Seq<Seq<char>>) -> Seq<char>
    decreases ps.len(),
{
    if ps.len() == 0 {
        Seq::empty()
    } else if ps.len() == 1 {
        ps[0]
    } else {
        join_names(ps.drop_last()) + ", "@ + ps.last()
    }
}

/// The parameter list as printed: `void` when there is none.
pub open spec fn params_text(ps: Seq<Seq<char>>) -> Seq<char> {
    if ps.len() == 0 {
        "void"@
    } else {
        join_names(ps)
    }
}

/// A line at a level.
pub open spec fn line(l: nat, t: Seq<char>) -> Seq<char> {
    pad(l) + t
}

/// The lines of an expression printed at level `l`.
pub open spec fn expr_lines(l: nat, e: SExpression) -> Seq<Seq<char>>
    decreases e, 0int,
{
    match e {
        SExpression::Constant(v) => seq![line(l, "Constant("@ + int_decimal(v as int) + ")"@)],
        SExpression::Unary { op, exp } => seq![line(l, "Unary(op: '"@ + unop_symbol(op) + "')"@)]
            + expr_lines(l + 1, *exp),
        SExpression::Binary { op, left, right } => seq![line(l, "Binary(op: '"@ + binop_symbol(op) + "')"@)]
            + expr_lines(l + 1, *left) + expr_lines(l + 1, *right),
        SExpression::Var(n) => seq![line(l, "Var(name: \""@ + n + "\")"@)],
        SExpression::Assignment { left, right } => seq![line(l, "Assignment(op: '=')"@)]
            + expr_lines(l + 1, *left) + expr_lines(l + 1, *right),
        SExpression::Conditional { condition, left, right } => seq![
            line(l, "Conditional(op: '? :')"@),
            line(l + 1, "Condition"@),
        ] + expr_lines(l + 2, *condition) + seq![line(l + 1, "Then"@)] + expr_lines(l + 2, *left)
            + seq![line(l + 1, "Else"@)] + expr_lines(l + 2, *right),
        SExpression::FuncCall { name, args } => seq![
            line(l, "FunctionCall(name: \""@ + name + "\")"@),
            line(l + 1, "Arguments"@),
        ] + if args.len() == 0 {
            seq![line(l + 2, "NoArguments"@)]
        } else {
            args_lines(l + 2, args)
        },
    }
}

/// The lines of expressions printed one after the other.
pub open spec fn args_lines(l: nat, args: Seq<SExpression>) -> Seq<Seq<char>>
    decreases args, 1int,
{
    if args.len() == 0 {
        Seq::empty()
    } else {
        args_lines(l, args.drop_last()) + expr_lines(l, args.last())
    }
}

/// The levels printing an expression may add.
pub open spec fn expr_depth(e: SExpression) -> nat
    decreases e, 0int,
{
    match e {
        SExpression::Unary { exp, .. } => 3 + expr_depth(*exp),
        SExpression::Binary { left, right, .. } => 3 + expr_depth(*left) + expr_depth(*right),
        SExpression::Assignment { left, right } => 3 + expr_depth(*left) + expr_depth(*right),
        SExpression::Conditional { condition, left, right } => 3 + expr_depth(*condition) + expr_depth(*left)
            + expr_depth(*right),
        SExpression::FuncCall { args, .. } => 3 + args_depth(args),
        _ => 3,
    }
}

pub open spec fn args_depth(args: Seq<SExpression>) -> nat
    decreases args, 1int,
{
    if args.len() == 0 {
        0
    } else {
        args_depth(args.drop_last()) + expr_depth(args.last())
    }
}

/// The lines of an optional expression, or of its placeholder.
pub open spec fn opt_expr_lines(l: nat, o: Option<SExpression>, empty: Seq<char>) -> Seq<Seq<char>> {
    match o {
        Some(e) => expr_lines(l, e),
        None => seq![line(l, empty)],
    }
}

pub open spec fn opt_depth(o: Option<SExpression>) -> nat {
    match o {
        Some(e) => expr_depth(e),
        None => 0,
    }
}

/// The lines of a variable declaration.
pub open spec fn var_decl_lines(l: nat, v: SVarDecl) -> Seq<Seq<char>> {
    match v.init {
        Some(e) => seq![line(l, "VarDeclaration(name: \""@ + v.name + "\""@ + storage_text(v.storage_class) + ", with init)"@)]
            + expr_lines(l + 1, e),
        None => seq![line(l, "VarDeclaration(name: \""@ + v.name + "\""@ + storage_text(v.storage_class) + ")"@)],
    }
}

/// The lines of a `for` initializer.
pub open spec fn for_init_lines(l: nat, i: SForInit) -> Seq<Seq<char>> {
    match i {
        SForInit::InitDecl(d) => seq![line(l, "ForInitDecl"@)] + var_decl_lines(l + 1, d),
        SForInit::InitExp(o) => seq![line(l, "ForInitExp"@)] + opt_expr_lines(l + 1, o, "EmptyInit"@),
    }
}

pub open spec fn for_init_depth(i: SForInit) -> nat {
    match i {
        SForInit::InitDecl(d) => 4 + opt_depth(d.init),
        SForInit::InitExp(o) => 3 + opt_depth(o),
    }
}

/// The header line of a function declaration or definition.
pub open spec fn fun_header(f: SFunDecl) -> Seq<char> {
    (if f.body is Some { "FunctionDefinition(name: \""@ } else { "FunctionDeclaration(name: \""@ }) + f.name
        + "\", params: ["@ + params_text(f.parameters) + "]"@ + storage_text(f.storage_class) + ")"@
}

/// The lines of a statement.
pub open spec fn stmt_lines(l: nat, s: SStatement) -> Seq<Seq<char>>
    decreases s, 0int,
{
    match s {
        SStatement::Return(e) => seq![line(l, "Return"@)] + expr_lines(l + 1, e),
        SStatement::Expression(e) => seq![line(l, "ExpressionStatement"@)] + expr_lines(l + 1, e),
        SStatement::Null => seq![line(l, "NullStatement(;)"@)],
        SStatement::If { condition, then_stmt, else_stmt } => seq![line(l, "IfStatement"@), line(l + 1, "Condition"@)]
            + expr_lines(l + 2, condition) + seq![line(l + 1, "Then"@)] + stmt_lines(l + 2, *then_stmt)
            + match else_stmt {
            Some(es) => seq![line(l + 1, "Else"@)] + stmt_lines(l + 2, *es),
            None => Seq::empty(),
        },
        SStatement::Compound(items) => seq![line(l, "CompoundStatement"@), line(l + 1, "Block"@)]
            + items_lines(l + 2, items),
        SStatement::Break(label) => seq![line(l, "BreakStatement(->"@ + label + ")"@)],
        SStatement::Continue(label) => seq![line(l, "ContinueStatement(->"@ + label + ")"@)],
        SStatement::While { condition, body, label } => seq![
            line(l, "WhileStatement(label:"@ + label_text(label) + ")"@),
            line(l + 1, "Condition"@),
        ] + expr_lines(l + 2, condition) + seq![line(l + 1, "Body"@)] + stmt_lines(l + 2, *body),
        SStatement::DoWhile { body, condition, label } => seq![
            line(l, "DoWhileStatement(label:"@ + label_text(label) + ")"@),
            line(l + 1, "Body"@),
        ] + stmt_lines(l + 2, *body) + seq![line(l + 1, "Condition"@)] + expr_lines(l + 2, condition),
        SStatement::For { init, condition, post, body, label } => seq![
            line(l, "ForStatement(label:"@ + label_text(label) + ")"@),
            line(l + 1, "Init"@),
        ] + for_init_lines(l + 2, init) + seq![line(l + 1, "Condition"@)]
            + opt_expr_lines(l + 2, condition, "EmptyCondition"@) + seq![line(l + 1, "Post-Expression"@)]
            + opt_expr_lines(l + 2, post, "EmptyPostExpression"@) + seq![line(l + 1, "Body"@)]
            + stmt_lines(l + 2, *body),
    }
}

/// The lines of block items.
pub open spec fn items_lines(l: nat, items: Seq<SBlockItem>) -> Seq<Seq<char>>
    decreases items, 1int,
{
    if items.len() == 0 {
        Seq::empty()
    } else {
        items_lines(l, items.drop_last()) + item_lines(l, items.last())
    }
}

/// The lines of one block item.
pub open spec fn item_lines(l: nat, item: SBlockItem) -> Seq<Seq<char>>
    decreases item, 0int,
{
    match item {
        SBlockItem::S(s) => stmt_lines(l, s),
        SBlockItem::D(SDeclaration::Variable(v)) => var_decl_lines(l, v),
        SBlockItem::D(SDeclaration::Fun(f)) => fun_lines(l, f),
    }
}

/// The lines of a function declaration or definition.
pub open spec fn fun_lines(l: nat, f: SFunDecl) -> Seq<Seq<char>>
    decreases f, 0int,
{
    match f.body {
        Some(items) => seq![line(l, fun_header(f)), line(l + 1, "Block"@)] + items_lines(l + 2, items),
        None => seq![line(l, fun_header(f))],
    }
}

pub open spec fn stmt_depth(s: SStatement) -> nat
    decreases s, 0int,
{
    match s {
        SStatement::Return(e) => 3 + expr_depth(e),
        SStatement::Expression(e) => 3 + expr_depth(e),
        SStatement::If { condition, then_stmt, else_stmt } => 3 + expr_depth(condition) + stmt_depth(*then_stmt)
            + match else_stmt {
            Some(es) => stmt_depth(*es),
            None => 0,
        },
        SStatement::Compound(items) => 3 + items_depth(items),
        SStatement::While { condition, body, .. } => 3 + expr_depth(condition) + stmt_depth(*body),
        SStatement::DoWhile { body, condition, .. } => 3 + expr_depth(condition) + stmt_depth(*body),
        SStatement::For { init, condition, post, body, .. } => 3 + for_init_depth(init) + opt_depth(condition)
            + opt_depth(post) + stmt_depth(*body),
        _ => 3,
    }
}

pub open spec fn items_depth(items: Seq<SBlockItem>) -> nat
    decreases items, 1int,
{
    if items.len() == 0 {
        0
    } else {
        items_depth(items.drop_last()) + item_depth(items.last())
    }
}

pub open spec fn item_depth(item: SBlockItem) -> nat
    decreases item, 0int,
{
    match item {
        SBlockItem::S(s) => stmt_depth(s),
        SBlockItem::D(SDeclaration::Variable(v)) => 3 + opt_depth(v.init),
        SBlockItem::D(SDeclaration::Fun(f)) => fun_depth(f),
    }
}

pub open spec fn fun_depth(f: SFunDecl) -> nat
    decreases f, 0int,
{
    match f.body {
        Some(items) => 3 + items_depth(items),
        None => 3,
    }
}

/// The lines of a program.
pub open spec fn program_lines(l: nat, p: SProgram) -> Seq<Seq<char>> {
    seq![line(l, "Program"@)] + decls_lines(l + 1, p.declarations)
}

/// The lines of file-scope declarations, in order.
pub open spec fn decls_lines(l: nat, ds: Seq<SDeclaration>) -> Seq<Seq<char>>
    decreases ds.len(),
{
    if ds.len() == 0 {
        Seq::empty()
    } else {
        decls_lines(l, ds.drop_last()) + item_lines(l, SBlockItem::D(ds.last()))
    }
}

pub open spec fn decls_depth(ds: Seq<SDeclaration>) -> nat
    decreases ds.len(),
{
    if ds.len() == 0 {
        0
    } else {
        decls_depth(ds.drop_last()) + item_depth(SBlockItem::D(ds.last()))
    }
}

// ---------------------------------------------------------------------------
// Implementation
// ---------------------------------------------------------------------------

/// Prints one line at the current level.
fn put(printer: &mut PrettyPrinter, text: &str)
    ensures
        final(printer).printed() == old(printer).printed().push(line(old(printer).level(), text@)),
        final(printer).level() == old(printer).level(),
{
    printer.writeln(text);
}

/// Prints one line made of pieces at the current level.
fn put_string(printer: &mut PrettyPrinter, text: String)
    ensures
        final(printer).printed() == old(printer).printed().push(line(old(printer).level(), text@)),
        final(printer).level() == old(printer).level(),
{
    printer.writeln(text.as_str());
}

fn storage_str(sc: Option<StorageClass>) -> (r: &'static str)
    ensures
        r@ == storage_text(sc),
{
    match sc {
        Some(StorageClass::Static) => ", storage: static",
        Some(StorageClass::Extern) => ", storage: extern",
        None => {
            proof {
                reveal_strlit("");
            }
            ""
        },
    }
}

fn join_params(ps: &Vec<String>) -> (r: String)
    ensures
        r@ == params_text(strs_view(ps@)),
{
    if ps.len() == 0 {
        return owned("void");
    }
    let ghost sps = strs_view(ps@);
    let mut r = ps[0].clone();
    let mut k: usize = 1;
    assert(sps.take(1).drop_last() =~= Seq::<Seq<char>>::empty());
    assert(join_names(sps.take(1)) == sps[0]);
    while k < ps.len()
        invariant
            1 <= k <= ps@.len(),
            sps == strs_view(ps@),
            r@ == join_names(sps.take(k as int)),
        decreases ps@.len() - k,
    {
        push_str(&mut r, ", ");
        push_str(&mut r, ps[k].as_str());
        assert(sps.take(k + 1).drop_last() =~= sps.take(k as int));
        k += 1;
    }
    assert(sps.take(ps@.len() as int) =~= sps);
    r
}

/// Prints an expression.
fn print_expression(e: &Expression, printer: &mut PrettyPrinter)
    requires
        old(printer).level() + expr_depth(expr_view(*e)) <= usize::MAX,
    ensures
        final(printer).level() == old(printer).level(),
        final(printer).printed() == old(printer).printed() + expr_lines(old(printer).level(), expr_view(*e)),
    decreases e, 1int,
{
    let ghost l = printer.level();
    let ghost before = printer.printed();
    match e {
        Expression::Constant(value) => {
            let mut t = owned("Constant(");
            push_i64_decimal(&mut t, *value);
            push_str(&mut t, ")");
            put_string(printer, t);
        },
        Expression::Unary { op, exp } => {
            let mut t = owned("Unary(op: '");
            push_str(&mut t, op.symbol());
            push_str(&mut t, "')");
            put_string(printer, t);
            printer.indent();
            print_expression(exp, printer);
            printer.unindent();
        },
        Expression::Binary { op, left, right } => {
            let mut t = owned("Binary(op: '");
            push_str(&mut t, op.symbol());
            push_str(&mut t, "')");
            put_string(printer, t);
            printer.indent();
            print_expression(left, printer);
            print_expression(right, printer);
            printer.unindent();
        },
        Expression::Var(n) => {
            let mut t = owned("Var(name: \"");
            push_str(&mut t, n.as_str());
            push_str(&mut t, "\")");
            put_string(printer, t);
        },
        Expression::Assignment { left, right } => {
            put(printer, "Assignment(op: '=')");
            printer.indent();
            print_expression(left, printer);
            print_expression(right, printer);
            printer.unindent();
        },
        Expression::Conditional { condition, left, right } => {
            put(printer, "Conditional(op: '? :')");
            printer.indent();
            put(printer, "Condition");
            printer.indent();
            print_expression(condition, printer);
            printer.unindent();
            put(printer, "Then");
            printer.indent();
            print_expression(left, printer);
            printer.unindent();
            put(printer, "Else");
            printer.indent();
            print_expression(right, printer);
            printer.unindent();
            printer.unindent();
        },
        Expression::FuncCall { name, args } => {
            let mut t = owned("FunctionCall(name: \"");
            push_str(&mut t, name.as_str());
            push_str(&mut t, "\")");
            put_string(printer, t);
            printer.indent();
            put(printer, "Arguments");
            printer.indent();
            if args.len() == 0 {
                put(printer, "NoArguments");
                proof {
                    assert(exprs_view(args@) =~= Seq::<SExpression>::empty());
                }
            } else {
                print_arguments(e, printer);
            }
            printer.unindent();
            printer.unindent();
        },
    }
    assert(printer.printed() =~= before + expr_lines(l, expr_view(*e)));
}

/// Prints the arguments of the call `e`, one after the other.
fn print_arguments(e: &Expression, printer: &mut PrettyPrinter)
    requires
        e matches Expression::FuncCall { args, .. } && old(printer).level() + args_depth(exprs_view(args@)) <= usize::MAX,
    ensures
        final(printer).level() == old(printer).level(),
        e matches Expression::FuncCall { args, .. } && final(printer).printed() == old(printer).printed()
            + args_lines(old(printer).level(), exprs_view(args@)),
    decreases e, 0int,
{
    let args = match e {
        Expression::FuncCall { args, .. } => args,
        _ => {
            return;
        },
    };
    let ghost l = printer.level();
    let ghost before = printer.printed();
    let ghost sargs = exprs_view(args@);
    let mut k: usize = 0;
    proof {
        lemma_exprs_view(args@);
        assert(sargs.take(0) =~= Seq::<SExpression>::empty());
    }
    while k < args.len()
        invariant
            k <= args@.len(),
            e matches Expression::FuncCall { args: a, .. } && a == args,
            sargs == exprs_view(args@),
            sargs.len() == args@.len(),
            forall|j: int| 0 <= j < args@.len() ==> #[trigger] sargs[j] == expr_view(args@[j]),
            printer.level() == l,
            l + args_depth(sargs) <= usize::MAX,
            printer.printed() == before + args_lines(l, sargs.take(k as int)),
        decreases args@.len() - k,
    {
        let ghost pre = sargs.take(k + 1);
        assert(pre.drop_last() =~= sargs.take(k as int));
        assert(pre.last() == expr_view(args@[k as int]));
        proof {
            lemma_args_depth_prefix(sargs, k + 1);
            assert(decreases_to!(*e => args@[k as int]));
        }
        print_expression(&args[k], printer);
        assert(printer.printed() =~= before + args_lines(l, pre));
        k += 1;
    }
    assert(sargs.take(args@.len() as int) =~= sargs);
}

proof fn lemma_args_depth_prefix(s: Seq<SExpression>, i: int)
    requires
        0 < i <= s.len(),
    ensures
        expr_depth(s[i - 1]) <= args_depth(s),
        args_depth(s.take(i)) == args_depth(s.take(i - 1)) + expr_depth(s[i - 1]),
    decreases s.len(),
{
    assert(s.take(i).drop_last() =~= s.take(i - 1));
    if i < s.len() {
        lemma_args_depth_prefix(s.drop_last(), i);
        assert(s.drop_last()[i - 1] == s[i - 1]);
    }
}

proof fn lemma_items_depth_prefix(s: Seq<SBlockItem>, i: int)
    requires
        0 < i <= s.len(),
    ensures
        item_depth(s[i - 1]) <= items_depth(s),
    decreases s.len(),
{
    if i < s.len() {
        lemma_items_depth_prefix(s.drop_last(), i);
        assert(s.drop_last()[i - 1] == s[i - 1]);
    }
}

proof fn lemma_decls_depth_prefix(s: Seq<SDeclaration>, i: int)
    requires
        0 < i <= s.len(),
    ensures
        item_depth(SBlockItem::D(s[i - 1])) <= decls_depth(s),
    decreases s.len(),
{
    if i < s.len() {
        lemma_decls_depth_prefix(s.drop_last(), i);
        assert(s.drop_last()[i - 1] == s[i - 1]);
    }
}

fn print_opt_expression(o: &Option<Expression>, empty: &str, printer: &mut PrettyPrinter)
    requires
        old(printer).level() + opt_depth(match *o { Some(e) => Some(expr_view(e)), None => None }) <= usize::MAX,
    ensures
        final(printer).level() == old(printer).level(),
        final(printer).printed() == old(printer).printed() + opt_expr_lines(
            old(printer).level(),
            match *o { Some(e) => Some(expr_view(e)), None => None },
            empty@,
        ),
{
    let ghost before = printer.printed();
    match o {
        Some(e) => print_expression(e, printer),
        None => {
            put(printer, empty);
            assert(printer.printed() =~= before + seq![line(old(printer).level(), empty@)]);
        },
    }
}

/// Prints a variable declaration.
fn print_var_decl(v: &VarDecl, printer: &mut PrettyPrinter)
    requires
        old(printer).level() + 3 + opt_depth(var_decl_view(*v).init) <= usize::MAX,
    ensures
        final(printer).level() == old(printer).level(),
        final(printer).printed() == old(printer).printed() + var_decl_lines(old(printer).level(), var_decl_view(*v)),
{
    let ghost l = printer.level();
    let ghost before = printer.printed();
    let mut t = owned("VarDeclaration(name: \"");
    push_str(&mut t, v.name.as_str());
    push_str(&mut t, "\"");
    push_str(&mut t, storage_str(v.storage_class));
    match &v.init {
        Some(init_expr) => {
            push_str(&mut t, ", with init)");
            put_string(printer, t);
            printer.indent();
            print_expression(init_expr, printer);
            printer.unindent();
        },
        None => {
            push_str(&mut t, ")");
            put_string(printer, t);
        },
    }
    assert(printer.printed() =~= before + var_decl_lines(l, var_decl_view(*v)));
}

fn print_for_init(i: &ForInit, printer: &mut PrettyPrinter)
    requires
        old(printer).level() + for_init_depth(for_init_view(*i)) <= usize::MAX,
    ensures
        final(printer).level() == old(printer).level(),
        final(printer).printed() == old(printer).printed() + for_init_lines(old(printer).level(), for_init_view(*i)),
{
    let ghost l = printer.level();
    let ghost before = printer.printed();
    match i {
        ForInit::InitDecl(decl) => {
            put(printer, "ForInitDecl");
            printer.indent();
            print_var_decl(decl, printer);
            printer.unindent();
        },
        ForInit::InitExp(opt_expr) => {
            put(printer, "ForInitExp");
            printer.indent();
            print_opt_expression(opt_expr, "EmptyInit", printer);
            printer.unindent();
        },
    }
    assert(printer.printed() =~= before + for_init_lines(l, for_init_view(*i)));
}

fn label_str(label: &Option<String>) -> (r: String)
    ensures
        r@ == label_text(match *label { Some(s) => Some(s@), None => None }),
{
    match label {
        Some(s) => s.clone(),
        None => owned("unlabeled"),
    }
}

/// Prints a statement.
#[verifier::spinoff_prover]
#[verifier::rlimit(80)]
fn print_statement(s: &Statement, printer: &mut PrettyPrinter)
    requires
        old(printer).level() + stmt_depth(stmt_view(*s)) <= usize::MAX,
    ensures
        final(printer).level() == old(printer).level(),
        final(printer).printed() == old(printer).printed() + stmt_lines(old(printer).level(), stmt_view(*s)),
    decreases s, 2int,
{
    let ghost l = printer.level();
    let ghost before = printer.printed();
    match s {
        Statement::Return(expr) => {
            put(printer, "Return");
            printer.indent();
            print_expression(expr, printer);
            printer.unindent();
        },
        Statement::Expression(e) => {
            put(printer, "ExpressionStatement");
            printer.indent();
            print_expression(e, printer);
            printer.unindent();
        },
        Statement::Null => {
            put(printer, "NullStatement(;)");
        },
        Statement::If { condition, then_stmt, else_stmt } => {
            put(printer, "IfStatement");
            printer.indent();
            put(printer, "Condition");
            printer.indent();
            print_expression(condition, printer);
            printer.unindent();
            put(printer, "Then");
            printer.indent();
            print_statement(then_stmt, printer);
            printer.unindent();
            match else_stmt {
                Some(else_s) => {
                    put(printer, "Else");
                    printer.indent();
                    print_statement(else_s, printer);
                    printer.unindent();
                },
                None => {},
            }
            printer.unindent();
        },
        Statement::Compound(b) => {
            put(printer, "CompoundStatement");
            printer.indent();
            print_block(b, printer);
            printer.unindent();
        },
        Statement::Break(label) => {
            let mut t = owned("BreakStatement(->");
            push_str(&mut t, label.as_str());
            push_str(&mut t, ")");
            put_string(printer, t);
        },
        Statement::Continue(label) => {
            let mut t = owned("ContinueStatement(->");
            push_str(&mut t, label.as_str());
            push_str(&mut t, ")");
            put_string(printer, t);
        },
        Statement::While { condition, body, label } => {
            let mut t = owned("WhileStatement(label:");
            push_str(&mut t, label_str(label).as_str());
            push_str(&mut t, ")");
            put_string(printer, t);
            printer.indent();
            put(printer, "Condition");
            printer.indent();
            print_expression(condition, printer);
            printer.unindent();
            put(printer, "Body");
            printer.indent();
            print_statement(body, printer);
            printer.unindent();
            printer.unindent();
        },
        Statement::DoWhile { body, condition, label } => {
            let mut t = owned("DoWhileStatement(label:");
            push_str(&mut t, label_str(label).as_str());
            push_str(&mut t, ")");
            put_string(printer, t);
            printer.indent();
            put(printer, "Body");
            printer.indent();
            print_statement(body, printer);
            printer.unindent();
            put(printer, "Condition");
            printer.indent();
            print_expression(condition, printer);
            printer.unindent();
            printer.unindent();
        },
        Statement::For { init, condition, post, body, label } => {
            let mut t = owned("ForStatement(label:");
            push_str(&mut t, label_str(label).as_str());
            push_str(&mut t, ")");
            put_string(printer, t);
            printer.indent();
            put(printer, "Init");
            printer.indent();
            print_for_init(init, printer);
            printer.unindent();
            put(printer, "Condition");
            printer.indent();
            print_opt_expression(condition, "EmptyCondition", printer);
            printer.unindent();
            put(printer, "Post-Expression");
            printer.indent();
            print_opt_expression(post, "EmptyPostExpression", printer);
            printer.unindent();
            put(printer, "Body");
            printer.indent();
            print_statement(body, printer);
            printer.unindent();
            printer.unindent();
        },
    }
    assert(printer.printed() =~= before + stmt_lines(l, stmt_view(*s)));
}

/// Prints a block: `Block`, then its items one level deeper.
fn print_block(b: &Block, printer: &mut PrettyPrinter)
    requires
        old(printer).level() + 2 + items_depth(items_view(b.0@)) <= usize::MAX,
    ensures
        final(printer).level() == old(printer).level(),
        final(printer).printed() == old(printer).printed() + seq![line(old(printer).level(), "Block"@)]
            + items_lines((old(printer).level() + 1) as nat, items_view(b.0@)),
    decreases b, 4int,
{
    let ghost before = printer.printed();
    put(printer, "Block");
    printer.indent();
    print_items(b, printer);
    printer.unindent();
}

/// Prints the items of a block at the current level.
fn print_items(b: &Block, printer: &mut PrettyPrinter)
    requires
        old(printer).level() + items_depth(items_view(b.0@)) <= usize::MAX,
    ensures
        final(printer).level() == old(printer).level(),
        final(printer).printed() == old(printer).printed() + items_lines(old(printer).level(), items_view(b.0@)),
    decreases b, 3int,
{
    let items = &b.0;
    let ghost l = printer.level();
    let ghost before = printer.printed();
    let ghost sitems = items_view(items@);
    let mut k: usize = 0;
    proof {
        lemma_items_view(items@);
        assert(sitems.take(0) =~= Seq::<SBlockItem>::empty());
    }
    while k < items.len()
        invariant
            k <= items@.len(),
            items == &b.0,
            sitems == items_view(items@),
            sitems.len() == items@.len(),
            forall|j: int| 0 <= j < items@.len() ==> #[trigger] sitems[j] == item_view(items@[j]),
            printer.level() == l,
            l + items_depth(sitems) <= usize::MAX,
            printer.printed() == before + items_lines(l, sitems.take(k as int)),
        decreases items@.len() - k,
    {
        let ghost pre = sitems.take(k + 1);
        assert(pre.drop_last() =~= sitems.take(k as int));
        assert(pre.last() == item_view(items@[k as int]));
        proof {
            lemma_items_depth_prefix(sitems, k + 1);
            assert(decreases_to!(b => items@[k as int]));
        }
        print_block_item(&items[k], printer);
        assert(printer.printed() =~= before + items_lines(l, pre));
        k += 1;
    }
    assert(sitems.take(items@.len() as int) =~= sitems);
}

/// Prints one block item.
fn print_block_item(item: &BlockItem, printer: &mut PrettyPrinter)
    requires
        old(printer).level() + item_depth(item_view(*item)) <= usize::MAX,
    ensures
        final(printer).level() == old(printer).level(),
        final(printer).printed() == old(printer).printed() + item_lines(old(printer).level(), item_view(*item)),
    decreases item, 2int,
{
    match item {
        BlockItem::S(s) => print_statement(s, printer),
        BlockItem::D(Declaration::Variable(v)) => print_var_decl(v, printer),
        BlockItem::D(Declaration::Fun(f)) => print_fun_decl(f, printer),
    }
}

/// Prints a function declaration or definition.
fn print_fun_decl(f: &FunDecl, printer: &mut PrettyPrinter)
    requires
        old(printer).level() + fun_depth(fun_decl_view(*f)) <= usize::MAX,
    ensures
        final(printer).level() == old(printer).level(),
        final(printer).printed() == old(printer).printed() + fun_lines(old(printer).level(), fun_decl_view(*f)),
    decreases f, 1int,
{
    let ghost l = printer.level();
    let ghost before = printer.printed();
    let params_str = join_params(&f.parameters);
    let mut t = match &f.body {
        Some(_) => owned("FunctionDefinition(name: \""),
        None => owned("FunctionDeclaration(name: \""),
    };
    push_str(&mut t, f.name.as_str());
    push_str(&mut t, "\", params: [");
    push_str(&mut t, params_str.as_str());
    push_str(&mut t, "]");
    push_str(&mut t, storage_str(f.storage_class));
    push_str(&mut t, ")");
    put_string(printer, t);
    match &f.body {
        Some(body) => {
            printer.indent();
            print_block(body, printer);
            printer.unindent();
        },
        None => {},
    }
    assert(printer.printed() =~= before + fun_lines(l, fun_decl_view(*f)));
}

impl AstNode for Expression {
    open spec fn print_depth(&self) -> nat {
        expr_depth(expr_view(*self))
    }

    fn pretty_print(&self, printer: &mut PrettyPrinter)
        ensures
            final(printer).level() == old(printer).level(),
            final(printer).printed() == old(printer).printed() + expr_lines(old(printer).level(), expr_view(*self)),
    {
        print_expression(self, printer);
    }
}

impl AstNode for Statement {
    open spec fn print_depth(&self) -> nat {
        stmt_depth(stmt_view(*self))
    }

    fn pretty_print(&self, printer: &mut PrettyPrinter)
        ensures
            final(printer).level() == old(printer).level(),
            final(printer).printed() == old(printer).printed() + stmt_lines(old(printer).level(), stmt_view(*self)),
    {
        print_statement(self, printer);
    }
}

impl AstNode for Block {
    open spec fn print_depth(&self) -> nat {
        2 + items_depth(items_view(self.0@))
    }

    fn pretty_print(&self, printer: &mut PrettyPrinter)
        ensures
            final(printer).level() == old(printer).level(),
            final(printer).printed() == old(printer).printed() + seq![line(old(printer).level(), "Block"@)]
                + items_lines((old(printer).level() + 1) as nat, items_view(self.0@)),
    {
        print_block(self, printer);
    }
}

impl AstNode for BlockItem {
    open spec fn print_depth(&self) -> nat {
        item_depth(item_view(*self))
    }

    fn pretty_print(&self, printer: &mut PrettyPrinter)
        ensures
            final(printer).level() == old(printer).level(),
            final(printer).printed() == old(printer).printed() + item_lines(old(printer).level(), item_view(*self)),
    {
        print_block_item(self, printer);
    }
}

impl AstNode for ForInit {
    open spec fn print_depth(&self) -> nat {
        for_init_depth(for_init_view(*self))
    }

    fn pretty_print(&self, printer: &mut PrettyPrinter)
        ensures
            final(printer).level() == old(printer).level(),
            final(printer).printed() == old(printer).printed() + for_init_lines(old(printer).level(), for_init_view(*self)),
    {
        print_for_init(self, printer);
    }
}

impl AstNode for VarDecl {
    open spec fn print_depth(&self) -> nat {
        3 + opt_depth(var_decl_view(*self).init)
    }

    fn pretty_print(&self, printer: &mut PrettyPrinter)
        ensures
            final(printer).level() == old(printer).level(),
            final(printer).printed() == old(printer).printed() + var_decl_lines(old(printer).level(), var_decl_view(*self)),
    {
        print_var_decl(self, printer);
    }
}

impl AstNode for FunDecl {
    open spec fn print_depth(&self) -> nat {
        fun_depth(fun_decl_view(*self))
    }

    fn pretty_print(&self, printer: &mut PrettyPrinter)
        ensures
            final(printer).level() == old(printer).level(),
            final(printer).printed() == old(printer).printed() + fun_lines(old(printer).level(), fun_decl_view(*self)),
    {
        print_fun_decl(self, printer);
    }
}

impl AstNode for Declaration {
    open spec fn print_depth(&self) -> nat {
        item_depth(SBlockItem::D(decl_view(*self)))
    }

    fn pretty_print(&self, printer: &mut PrettyPrinter)
        ensures
            final(printer).level() == old(printer).level(),
            final(printer).printed() == old(printer).printed() + item_lines(old(printer).level(), SBlockItem::D(decl_view(*self))),
    {
        match self {
            Declaration::Fun(fun_decl) => print_fun_decl(fun_decl, printer),
            Declaration::Variable(var_decl) => print_var_decl(var_decl, printer),
        }
    }
}

impl AstNode for Program {
    open spec fn print_depth(&self) -> nat {
        1 + decls_depth(self@.declarations)
    }

    fn pretty_print(&self, printer: &mut PrettyPrinter)
        ensures
            final(printer).level() == old(printer).level(),
            final(printer).printed() == old(printer).printed() + program_lines(old(printer).level(), self@),
    {
        let ghost l = printer.level();
        let ghost before = printer.printed();
        let ghost fs = self@.declarations;
        put(printer, "Program");
        printer.indent();
        let ghost mid = printer.printed();
        let mut k: usize = 0;
        assert(fs.take(0) =~= Seq::<SDeclaration>::empty());
        while k < self.declarations.len()
            invariant
                k <= self.declarations@.len(),
                fs == self@.declarations,
                fs == decls_view(self.declarations@),
                printer.level() == l + 1,
                l + 1 + decls_depth(fs) <= usize::MAX,
                printer.printed() == mid + decls_lines(l + 1, fs.take(k as int)),
            decreases self.declarations@.len() - k,
        {
            let ghost pre = fs.take(k + 1);
            assert(pre.drop_last() =~= fs.take(k as int));
            assert(pre.last() == decl_view(self.declarations@[k as int]));
            proof {
                lemma_decls_depth_prefix(fs, k + 1);
            }
            self.declarations[k].pretty_print(printer);
            assert(printer.printed() =~= mid + decls_lines(l + 1, pre));
            k += 1;
        }
        assert(fs.take(fs.len() as int) =~= fs);
        printer.unindent();
        assert(printer.printed() =~= before + program_lines(l, self@));
    }
}

} // verus!
