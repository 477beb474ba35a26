//! Identifier resolution.
//!
//! Each use of a name is tied to its declaration, scope by scope: a block,
//! a function (its parameters and the top level of its body share one scope)
//! and a `for` loop each open a scope. Local variables and parameters get a
//! unique name `name.<n>` from the shared counter; functions and file-scope
//! variables keep their name and have linkage.
//! Duplicate declarations in one scope, undeclared names, calls of variables,
//! assignments to non-variables and nested function definitions are errors.

use vstd::prelude::*;
use crate::frontend::c_ast::{
    copy_var_decl, decl_view, decls_view,
    expr_view, exprs_view, for_init_view, lemma_exprs_view, lemma_items_view, fun_decl_view, fun_decls_view, item_view, items_view,
    opt_expr_view, stmt_view, strs_view, var_decl_view, Block, BlockItem, Declaration,
    Expression, ForInit, FunDecl, Program, SBlockItem, SDeclaration, SExpression, SForInit,
    SFunDecl, SProgram, SStatement, SVarDecl, Statement, VarDecl,
};
use crate::name_gen::{qualified_name, UniqueNameGenerator};
use crate::text::{owned, push_str};

verus! {

/// What the resolver knows of a name in a scope.
#[derive(Debug, Clone)]
pub struct IdentifierInfo {
    /// Functions have linkage; local variables and parameters do not.
    has_linkage: bool,
    /// The name that replaces the source name.
    mangled_name: String,
}

/// The mathematical content of an `IdentifierInfo`.
pub struct SIdentInfo {
    pub has_linkage: bool,
    pub mangled_name: Seq<char>,
}

impl View for IdentifierInfo {
    type V = SIdentInfo;

    closed spec fn view(&self) -> SIdentInfo {
        SIdentInfo { has_linkage: self.has_linkage, mangled_name: self.mangled_name@ }
    }
}

/// A scope: the names declared in it, in order of declaration.
pub type SScope = Seq<(Seq<char>, SIdentInfo)>;

/// The resolver's state: the scopes (innermost last) and the name counter.
pub struct RState {
    pub env: Seq<SScope>,
    pub count: nat,
}

/// A resolution result: the resolved value and the state after it.
pub type RResult<T> = Result<(T, RState), Seq<char>>;

/// What `scope` says of `name`.
pub open spec fn lookup_scope(scope: SScope, name: Seq<char>) -> Option<SIdentInfo>
    decreases scope.len(),
{
    if scope.len() == 0 {
        None
    } else if scope[0].0 == name {
        Some(scope[0].1)
    } else {
        lookup_scope(scope.drop_first(), name)
    }
}

/// What the innermost scope that declares `name` says of it.
pub open spec fn lookup_all(env: Seq<SScope>, name: Seq<char>) -> Option<SIdentInfo>
    decreases env.len(),
{
    if env.len() == 0 {
        None
    } else {
        match lookup_scope(env.last(), name) {
            Some(i) => Some(i),
            None => lookup_all(env.drop_last(), name),
        }
    }
}

/// Whether the innermost scope declares `name`.
pub open spec fn in_current_scope(env: Seq<SScope>, name: Seq<char>) -> bool {
    env.len() > 0 && lookup_scope(env.last(), name) is Some
}

/// Declares `name` in the innermost scope (no effect when there is none).
pub open spec fn declare(env: Seq<SScope>, name: Seq<char>, info: SIdentInfo) -> Seq<SScope> {
    if env.len() == 0 {
        env
    } else {
        env.update(env.len() - 1, env.last().push((name, info)))
    }
}

/// The state with one more, empty, scope.
pub open spec fn push_scope(st: RState) -> RState {
    RState { env: st.env.push(Seq::empty()), count: st.count }
}

/// The state without its innermost scope.
pub open spec fn pop_scope(st: RState) -> RState {
    RState { env: if st.env.len() == 0 { st.env } else { st.env.drop_last() }, count: st.count }
}

/// `'name'` inside a message.
pub open spec fn quoted(prefix: Seq<char>, name: Seq<char>, suffix: Seq<char>) -> Seq<char> {
    prefix + name + suffix
}

/// Resolving an expression: names are looked up, nothing is declared.
pub open spec fn r_expr(env: Seq<SScope>, e: SExpression) -> Result<SExpression, Seq<char>>
    decreases e, 0int,
{
    match e {
        SExpression::Assignment { left, right } => {
            if !(*left is Var) {
                Err("Semantic Error: Expression is not assignable (not a valid l-value)."@)
            } else {
                match r_expr(env, *left) {
                    Err(m) => Err(m),
                    Ok(l) => match r_expr(env, *right) {
                        Err(m) => Err(m),
                        Ok(r) => Ok(SExpression::Assignment { left: Box::new(l), right: Box::new(r) }),
                    },
                }
            }
        },
        SExpression::Var(id) => match lookup_all(env, id) {
            Some(info) => Ok(SExpression::Var(info.mangled_name)),
            None => Err(quoted("Semantic Error: Use of undeclared identifier '"@, id, "'."@)),
        },
        SExpression::FuncCall { name, args } => match lookup_all(env, name) {
            Some(info) => if !info.has_linkage {
                Err(quoted("Semantic Error: Called object '"@, name, "' is not a function."@))
            } else {
                match r_exprs(env, args) {
                    Err(m) => Err(m),
                    Ok(a) => Ok(SExpression::FuncCall { name: info.mangled_name, args: a }),
                }
            },
            None => Err(quoted("Semantic Error: Call to undeclared function '"@, name, "'."@)),
        },
        SExpression::Binary { op, left, right } => match r_expr(env, *left) {
            Err(m) => Err(m),
            Ok(l) => match r_expr(env, *right) {
                Err(m) => Err(m),
                Ok(r) => Ok(SExpression::Binary { op, left: Box::new(l), right: Box::new(r) }),
            },
        },
        SExpression::Unary { op, exp } => match r_expr(env, *exp) {
            Err(m) => Err(m),
            Ok(x) => Ok(SExpression::Unary { op, exp: Box::new(x) }),
        },
        SExpression::Conditional { condition, left, right } => match r_expr(env, *condition) {
            Err(m) => Err(m),
            Ok(c) => match r_expr(env, *left) {
                Err(m) => Err(m),
                Ok(l) => match r_expr(env, *right) {
                    Err(m) => Err(m),
                    Ok(r) => Ok(SExpression::Conditional { condition: Box::new(c), left: Box::new(l), right: Box::new(r) }),
                },
            },
        },
        SExpression::Constant(i) => Ok(SExpression::Constant(i)),
    }
}

/// Resolving a list of expressions, in order.
pub open spec fn r_exprs(env: Seq<SScope>, es: Seq<SExpression>) -> Result<Seq<SExpression>, Seq<char>>
    decreases es, 1int,
{
    if es.len() == 0 {
        Ok(Seq::empty())
    } else {
        match r_exprs(env, es.drop_last()) {
            Err(m) => Err(m),
            Ok(done) => match r_expr(env, es.last()) {
                Err(m) => Err(m),
                Ok(x) => Ok(done.push(x)),
            },
        }
    }
}

pub open spec fn r_opt_expr(env: Seq<SScope>, o: Option<SExpression>) -> Result<Option<SExpression>, Seq<char>> {
    match o {
        None => Ok(None),
        Some(e) => match r_expr(env, e) {
            Err(m) => Err(m),
            Ok(x) => Ok(Some(x)),
        },
    }
}

/// Resolving a variable declaration: the name must be new to the innermost
/// scope; it is renamed and declared before its initializer is resolved.
pub open spec fn r_var_decl(st: RState, v: SVarDecl) -> RResult<SVarDecl> {
    if in_current_scope(st.env, v.name) {
        Err(quoted("Semantic Error: Duplicate declaration of variable '"@, v.name, "' in the same scope."@))
    } else {
        let m = qualified_name(v.name, st.count);
        let env2 = declare(st.env, v.name, SIdentInfo { has_linkage: false, mangled_name: m });
        match r_opt_expr(env2, v.init) {
            Err(e) => Err(e),
            Ok(init) => Ok((SVarDecl { name: m, init, storage_class: v.storage_class }, RState { env: env2, count: st.count + 1 })),
        }
    }
}

pub open spec fn r_for_init(st: RState, i: SForInit) -> RResult<SForInit> {
    match i {
        SForInit::InitDecl(d) => match r_var_decl(st, d) {
            Err(m) => Err(m),
            Ok((d2, st2)) => Ok((SForInit::InitDecl(d2), st2)),
        },
        SForInit::InitExp(o) => match r_opt_expr(st.env, o) {
            Err(m) => Err(m),
            Ok(o2) => Ok((SForInit::InitExp(o2), st)),
        },
    }
}

/// Resolving a statement.
pub open spec fn r_stmt(st: RState, s: SStatement) -> RResult<SStatement>
    decreases s, 0int,
{
    match s {
        SStatement::Expression(e) => match r_expr(st.env, e) {
            Err(m) => Err(m),
            Ok(x) => Ok((SStatement::Expression(x), st)),
        },
        SStatement::Return(e) => match r_expr(st.env, e) {
            Err(m) => Err(m),
            Ok(x) => Ok((SStatement::Return(x), st)),
        },
        SStatement::If { condition, then_stmt, else_stmt } => match r_expr(st.env, condition) {
            Err(m) => Err(m),
            Ok(c) => match r_stmt(st, *then_stmt) {
                Err(m) => Err(m),
                Ok((t, st2)) => match else_stmt {
                    None => Ok((SStatement::If { condition: c, then_stmt: Box::new(t), else_stmt: None }, st2)),
                    Some(es) => match r_stmt(st2, *es) {
                        Err(m) => Err(m),
                        Ok((e2, st3)) => Ok((SStatement::If {
                            condition: c,
                            then_stmt: Box::new(t),
                            else_stmt: Some(Box::new(e2)),
                        }, st3)),
                    },
                },
            },
        },
        SStatement::Compound(items) => match r_items(push_scope(st), items) {
            Err(m) => Err(m),
            Ok((b, st2)) => Ok((SStatement::Compound(b), pop_scope(st2))),
        },
        SStatement::While { condition, body, label } => match r_expr(st.env, condition) {
            Err(m) => Err(m),
            Ok(c) => match r_stmt(st, *body) {
                Err(m) => Err(m),
                Ok((b, st2)) => Ok((SStatement::While { condition: c, body: Box::new(b), label: None }, st2)),
            },
        },
        SStatement::DoWhile { body, condition, label } => match r_stmt(st, *body) {
            Err(m) => Err(m),
            Ok((b, st2)) => match r_expr(st2.env, condition) {
                Err(m) => Err(m),
                Ok(c) => Ok((SStatement::DoWhile { body: Box::new(b), condition: c, label: None }, st2)),
            },
        },
        SStatement::For { init, condition, post, body, label } => {
            let st1 = push_scope(st);
            match r_for_init(st1, init) {
                Err(m) => Err(m),
                Ok((i2, st2)) => match r_opt_expr(st2.env, condition) {
                    Err(m) => Err(m),
                    Ok(c) => match r_opt_expr(st2.env, post) {
                        Err(m) => Err(m),
                        Ok(p) => match r_stmt(st2, *body) {
                            Err(m) => Err(m),
                            Ok((b, st3)) => Ok((SStatement::For {
                                init: i2,
                                condition: c,
                                post: p,
                                body: Box::new(b),
                                label: None,
                            }, pop_scope(st3))),
                        },
                    },
                },
            }
        },
        SStatement::Null => Ok((SStatement::Null, st)),
        SStatement::Break(n) => Ok((SStatement::Break(n), st)),
        SStatement::Continue(n) => Ok((SStatement::Continue(n), st)),
    }
}

/// Resolving block items in order, in the current scope.
pub open spec fn r_items(st: RState, items: Seq<SBlockItem>) -> RResult<Seq<SBlockItem>>
    decreases items, 1int,
{
    if items.len() == 0 {
        Ok((Seq::empty(), st))
    } else {
        match r_items(st, items.drop_last()) {
            Err(m) => Err(m),
            Ok((done, st2)) => match r_item(st2, items.last()) {
                Err(m) => Err(m),
                Ok((x, st3)) => Ok((done.push(x), st3)),
            },
        }
    }
}

pub open spec fn r_item(st: RState, item: SBlockItem) -> RResult<SBlockItem>
    decreases item, 0int,
{
    match item {
        SBlockItem::S(s) => match r_stmt(st, s) {
            Err(m) => Err(m),
            Ok((s2, st2)) => Ok((SBlockItem::S(s2), st2)),
        },
        SBlockItem::D(SDeclaration::Variable(v)) => match r_var_decl(st, v) {
            Err(m) => Err(m),
            Ok((v2, st2)) => Ok((SBlockItem::D(SDeclaration::Variable(v2)), st2)),
        },
        SBlockItem::D(SDeclaration::Fun(f)) => if f.body is Some {
            Err(quoted("Semantic Error: Nested function definitions are not allowed (function '"@, f.name, "')."@))
        } else {
            match r_fun_decl(st, f) {
                Err(m) => Err(m),
                Ok((f2, st2)) => Ok((SBlockItem::D(SDeclaration::Fun(f2)), st2)),
            }
        },
    }
}

/// Resolving the parameters of function `fname`, in order, into the
/// innermost scope.
pub open spec fn r_params(st: RState, fname: Seq<char>, ps: Seq<Seq<char>>) -> RResult<Seq<Seq<char>>>
    decreases ps.len(),
{
    if ps.len() == 0 {
        Ok((Seq::empty(), st))
    } else {
        match r_params(st, fname, ps.drop_last()) {
            Err(m) => Err(m),
            Ok((done, st2)) => {
                let p = ps.last();
                if in_current_scope(st2.env, p) {
                    Err("Semantic Error: Duplicate parameter name '"@ + p + "' in function '"@ + fname + "'."@)
                } else {
                    let m = qualified_name(p, st2.count);
                    Ok((done.push(m), RState {
                        env: declare(st2.env, p, SIdentInfo { has_linkage: false, mangled_name: m }),
                        count: st2.count + 1,
                    }))
                }
            },
        }
    }
}

/// Resolving a function declaration or definition.
pub open spec fn r_fun_decl(st: RState, f: SFunDecl) -> RResult<SFunDecl>
    decreases f, 0int,
{
    let existing = if st.env.len() > 0 { lookup_scope(st.env.last(), f.name) } else { None };
    if existing is Some && !existing->0.has_linkage {
        Err(quoted("Semantic Error: Redeclaration of '"@, f.name, "' as a different kind of symbol."@))
    } else {
        let env1 = if existing is Some {
            st.env
        } else {
            declare(st.env, f.name, SIdentInfo { has_linkage: true, mangled_name: f.name })
        };
        let st1 = push_scope(RState { env: env1, count: st.count });
        match r_params(st1, f.name, f.parameters) {
            Err(m) => Err(m),
            Ok((ps, st2)) => match f.body {
                None => Ok((SFunDecl { name: f.name, parameters: ps, body: None, storage_class: f.storage_class }, pop_scope(st2))),
                Some(items) => match r_items(st2, items) {
                    Err(m) => Err(m),
                    Ok((b, st3)) => Ok((SFunDecl {
                        name: f.name,
                        parameters: ps,
                        body: Some(b),
                        storage_class: f.storage_class,
                    }, pop_scope(st3))),
                },
            },
        }
    }
}

/// Resolving a file-scope declaration: a function as above; a variable has
/// linkage, keeps its name, and is declared in the global scope.
pub open spec fn r_file_decl(st: RState, d: SDeclaration) -> RResult<SDeclaration> {
    match d {
        SDeclaration::Fun(f) => match r_fun_decl(st, f) {
            Err(m) => Err(m),
            Ok((f2, st2)) => Ok((SDeclaration::Fun(f2), st2)),
        },
        SDeclaration::Variable(v) => Ok((SDeclaration::Variable(v), RState {
            env: declare(st.env, v.name, SIdentInfo { has_linkage: true, mangled_name: v.name }),
            count: st.count,
        })),
    }
}

/// Resolving the file-scope declarations of a program, in order, in the
/// global scope.
pub open spec fn r_functions(st: RState, ds: Seq<SDeclaration>) -> RResult<Seq<SDeclaration>>
    decreases ds.len(),
{
    if ds.len() == 0 {
        Ok((Seq::empty(), st))
    } else {
        match r_functions(st, ds.drop_last()) {
            Err(m) => Err(m),
            Ok((done, st2)) => match r_file_decl(st2, ds.last()) {
                Err(m) => Err(m),
                Ok((d, st3)) => Ok((done.push(d), st3)),
            },
        }
    }
}

/// Resolving a program: a global scope is opened for it and closed after it.
pub open spec fn r_program(st: RState, p: SProgram) -> RResult<SProgram> {
    match r_functions(push_scope(st), p.declarations) {
        Err(m) => Err(m),
        Ok((ds, st2)) => Ok((SProgram { declarations: ds }, pop_scope(st2))),
    }
}

/// `after` has the scopes of `before`, but for what the innermost one
/// gained.
pub open spec fn same_outer_scopes(before: Seq<SScope>, after: Seq<SScope>) -> bool {
    &&& after.len() == before.len()
    &&& forall|j: int| 0 <= j < before.len() - 1 ==> #[trigger] after[j] == before[j]
}

proof fn lemma_declare_outer(env: Seq<SScope>, name: Seq<char>, info: SIdentInfo)
    ensures
        same_outer_scopes(env, declare(env, name, info)),
{
}

proof fn lemma_params_outer(st: RState, fname: Seq<char>, ps: Seq<Seq<char>>)
    requires
        r_params(st, fname, ps) is Ok,
    ensures
        same_outer_scopes(st.env, r_params(st, fname, ps)->Ok_0.1.env),
    decreases ps.len(),
{
    if ps.len() > 0 {
        lemma_params_outer(st, fname, ps.drop_last());
        let st2 = r_params(st, fname, ps.drop_last())->Ok_0.1;
        lemma_declare_outer(st2.env, ps.last(), SIdentInfo {
            has_linkage: false,
            mangled_name: qualified_name(ps.last(), st2.count),
        });
    }
}

proof fn lemma_stmt_keeps_scopes(st: RState, s: SStatement)
    requires
        r_stmt(st, s) is Ok,
    ensures
        r_stmt(st, s)->Ok_0.1.env == st.env,
    decreases s, 0int,
{
    match s {
        SStatement::If { condition, then_stmt, else_stmt } => {
            lemma_stmt_keeps_scopes(st, *then_stmt);
            let st2 = r_stmt(st, *then_stmt)->Ok_0.1;
            if let Some(es) = else_stmt {
                lemma_stmt_keeps_scopes(st2, *es);
            }
        },
        SStatement::Compound(items) => {
            lemma_items_outer(push_scope(st), items);
            let st2 = r_items(push_scope(st), items)->Ok_0.1;
            assert(st2.env.drop_last() =~= st.env);
        },
        SStatement::While { condition, body, label } => {
            lemma_stmt_keeps_scopes(st, *body);
        },
        SStatement::DoWhile { body, condition, label } => {
            lemma_stmt_keeps_scopes(st, *body);
        },
        SStatement::For { init, condition, post, body, label } => {
            let st1 = push_scope(st);
            let st2 = r_for_init(st1, init)->Ok_0.1;
            match init {
                SForInit::InitDecl(d) => {
                    let m = qualified_name(d.name, st1.count);
                    lemma_declare_outer(st1.env, d.name, SIdentInfo { has_linkage: false, mangled_name: m });
                },
                SForInit::InitExp(o) => {},
            }
            lemma_stmt_keeps_scopes(st2, *body);
            assert(st2.env.drop_last() =~= st.env);
        },
        _ => {},
    }
}

proof fn lemma_items_outer(st: RState, items: Seq<SBlockItem>)
    requires
        r_items(st, items) is Ok,
    ensures
        same_outer_scopes(st.env, r_items(st, items)->Ok_0.1.env),
    decreases items, 1int,
{
    if items.len() > 0 {
        lemma_items_outer(st, items.drop_last());
        let st2 = r_items(st, items.drop_last())->Ok_0.1;
        lemma_item_outer(st2, items.last());
    }
}

proof fn lemma_item_outer(st: RState, item: SBlockItem)
    requires
        r_item(st, item) is Ok,
    ensures
        same_outer_scopes(st.env, r_item(st, item)->Ok_0.1.env),
    decreases item, 0int,
{
    match item {
        SBlockItem::S(s) => {
            lemma_stmt_keeps_scopes(st, s);
        },
        SBlockItem::D(SDeclaration::Variable(v)) => {
            let m = qualified_name(v.name, st.count);
            lemma_declare_outer(st.env, v.name, SIdentInfo { has_linkage: false, mangled_name: m });
        },
        SBlockItem::D(SDeclaration::Fun(f)) => {
            lemma_fun_decl_outer(st, f);
        },
    }
}

proof fn lemma_fun_decl_outer(st: RState, f: SFunDecl)
    requires
        r_fun_decl(st, f) is Ok,
    ensures
        same_outer_scopes(st.env, r_fun_decl(st, f)->Ok_0.1.env),
    decreases f, 0int,
{
    let existing = if st.env.len() > 0 { lookup_scope(st.env.last(), f.name) } else { None };
    let env1 = if existing is Some {
        st.env
    } else {
        declare(st.env, f.name, SIdentInfo { has_linkage: true, mangled_name: f.name })
    };
    lemma_declare_outer(st.env, f.name, SIdentInfo { has_linkage: true, mangled_name: f.name });
    let st1 = push_scope(RState { env: env1, count: st.count });
    lemma_params_outer(st1, f.name, f.parameters);
    let st2 = r_params(st1, f.name, f.parameters)->Ok_0.1;
    match f.body {
        None => {
            assert(st2.env.drop_last() =~= env1);
        },
        Some(items) => {
            lemma_items_outer(st2, items);
            let st3 = r_items(st2, items)->Ok_0.1;
            assert(st3.env.drop_last() =~= env1);
        },
    }
}

/// Resolving a statement leaves the scopes as they were: what a block or a
/// `for` loop declares ends with it, so after the statement a name resolves
/// exactly as it did before.
pub proof fn lemma_statement_keeps_scopes(st: RState, s: SStatement, name: Seq<char>)
    requires
        r_stmt(st, s) is Ok,
    ensures
        r_stmt(st, s)->Ok_0.1.env == st.env,
        r_expr(r_stmt(st, s)->Ok_0.1.env, SExpression::Var(name)) == r_expr(st.env, SExpression::Var(name)),
{
    lemma_stmt_keeps_scopes(st, s);
}

// ---------------------------------------------------------------------------
// How many names resolution asks of the counter (an upper bound).
// ---------------------------------------------------------------------------

pub open spec fn need_stmt(s: SStatement) -> nat
    decreases s, 0int,
{
    match s {
        SStatement::If { then_stmt, else_stmt, .. } => need_stmt(*then_stmt) + match else_stmt {
            Some(e) => need_stmt(*e),
            None => 0,
        },
        SStatement::Compound(items) => need_items(items),
        SStatement::While { body, .. } => need_stmt(*body),
        SStatement::DoWhile { body, .. } => need_stmt(*body),
        SStatement::For { init, body, .. } => (if init is InitDecl { 1nat } else { 0nat }) + need_stmt(*body),
        _ => 0,
    }
}

pub open spec fn need_items(items: Seq<SBlockItem>) -> nat
    decreases items, 1int,
{
    if items.len() == 0 {
        0
    } else {
        need_items(items.drop_last()) + need_item(items.last())
    }
}

pub open spec fn need_item(item: SBlockItem) -> nat
    decreases item, 0int,
{
    match item {
        SBlockItem::S(s) => need_stmt(s),
        SBlockItem::D(SDeclaration::Variable(_)) => 1,
        SBlockItem::D(SDeclaration::Fun(f)) => need_fun(f),
    }
}

pub open spec fn need_fun(f: SFunDecl) -> nat
    decreases f, 0int,
{
    f.parameters.len() + match f.body {
        Some(items) => need_items(items),
        None => 0,
    }
}

pub open spec fn need_functions(ds: Seq<SDeclaration>) -> nat
    decreases ds.len(),
{
    if ds.len() == 0 {
        0
    } else {
        need_functions(ds.drop_last()) + match ds.last() {
            SDeclaration::Fun(f) => need_fun(f),
            SDeclaration::Variable(_) => 0,
        }
    }
}


/// A prefix of a list of items asks no more names than the whole list.
pub proof fn lemma_need_items_prefix(items: Seq<SBlockItem>, i: int)
    requires
        0 <= i <= items.len(),
    ensures
        need_items(items.take(i)) <= need_items(items),
    decreases items.len(),
{
    if i < items.len() {
        lemma_need_items_prefix(items.drop_last(), i);
        assert(items.drop_last().take(i) =~= items.take(i));
    } else {
        assert(items.take(i) =~= items);
    }
}

/// A prefix of a list of functions asks no more names than the whole list.
pub proof fn lemma_need_functions_prefix(fs: Seq<SDeclaration>, i: int)
    requires
        0 <= i <= fs.len(),
    ensures
        need_functions(fs.take(i)) <= need_functions(fs),
    decreases fs.len(),
{
    if i < fs.len() {
        lemma_need_functions_prefix(fs.drop_last(), i);
        assert(fs.drop_last().take(i) =~= fs.take(i));
    } else {
        assert(fs.take(i) =~= fs);
    }
}

/// Once resolving a prefix of a list of expressions fails, resolving the
/// whole list fails with the same message.
pub proof fn lemma_r_exprs_prefix_err(env: Seq<SScope>, s: Seq<SExpression>, k: int)
    requires
        0 <= k <= s.len(),
        r_exprs(env, s.take(k)) is Err,
    ensures
        r_exprs(env, s) == r_exprs(env, s.take(k)),
    decreases s.len(),
{
    if k == s.len() {
        assert(s.take(k) =~= s);
    } else {
        assert(s.drop_last().take(k) =~= s.take(k));
        lemma_r_exprs_prefix_err(env, s.drop_last(), k);
    }
}

/// Once resolving a prefix of a list of items fails, resolving the whole list
/// fails with the same message.
pub proof fn lemma_r_items_prefix_err(st: RState, s: Seq<SBlockItem>, k: int)
    requires
        0 <= k <= s.len(),
        r_items(st, s.take(k)) is Err,
    ensures
        r_items(st, s) == r_items(st, s.take(k)),
    decreases s.len(),
{
    if k == s.len() {
        assert(s.take(k) =~= s);
    } else {
        assert(s.drop_last().take(k) =~= s.take(k));
        lemma_r_items_prefix_err(st, s.drop_last(), k);
    }
}

/// Once resolving a prefix of a list of parameters fails, resolving the whole
/// list fails with the same message.
pub proof fn lemma_r_params_prefix_err(st: RState, fname: Seq<char>, s: Seq<Seq<char>>, k: int)
    requires
        0 <= k <= s.len(),
        r_params(st, fname, s.take(k)) is Err,
    ensures
        r_params(st, fname, s) == r_params(st, fname, s.take(k)),
    decreases s.len(),
{
    if k == s.len() {
        assert(s.take(k) =~= s);
    } else {
        assert(s.drop_last().take(k) =~= s.take(k));
        lemma_r_params_prefix_err(st, fname, s.drop_last(), k);
    }
}

/// Once resolving a prefix of a list of functions fails, resolving the whole
/// list fails with the same message.
pub proof fn lemma_r_functions_prefix_err(st: RState, s: Seq<SDeclaration>, k: int)
    requires
        0 <= k <= s.len(),
        r_functions(st, s.take(k)) is Err,
    ensures
        r_functions(st, s) == r_functions(st, s.take(k)),
    decreases s.len(),
{
    if k == s.len() {
        assert(s.take(k) =~= s);
    } else {
        assert(s.drop_last().take(k) =~= s.take(k));
        lemma_r_functions_prefix_err(st, s.drop_last(), k);
    }
}

// ---------------------------------------------------------------------------
// Implementation
// ---------------------------------------------------------------------------

/// The views of a scope's entries.
pub open spec fn scope_view(v: Seq<(String, IdentifierInfo)>) -> SScope {
    v.map_values(|p: (String, IdentifierInfo)| (p.0@, p.1@))
}

/// The views of the scopes.
pub open spec fn env_view(v: Seq<Vec<(String, IdentifierInfo)>>) -> Seq<SScope> {
    v.map_values(|s: Vec<(String, IdentifierInfo)>| scope_view(s@))
}

pub open spec fn opt_info_view(o: Option<IdentifierInfo>) -> Option<SIdentInfo> {
    match o {
        Some(i) => Some(i@),
        None => None,
    }
}

/// The identifier resolver: a stack of scopes (innermost last) and the shared
/// name counter.
#[derive(Debug)]
pub struct IdentifierResolver<'a> {
    env_stack: Vec<Vec<(String, IdentifierInfo)>>,
    name_generator: &'a mut UniqueNameGenerator,
}

fn message_with(prefix: &str, name: &String, suffix: &str) -> (r: String)
    ensures
        r@ == quoted(prefix@, name@, suffix@),
{
    let mut r = owned(prefix);
    push_str(&mut r, name.as_str());
    push_str(&mut r, suffix);
    r
}

fn find_in_scope(scope: &Vec<(String, IdentifierInfo)>, name: &String) -> (r: Option<IdentifierInfo>)
    ensures
        opt_info_view(r) == lookup_scope(scope_view(scope@), name@),
{
    let mut k: usize = 0;
    assert(scope_view(scope@).skip(0) =~= scope_view(scope@));
    while k < scope.len()
        invariant
            k <= scope@.len(),
            lookup_scope(scope_view(scope@), name@) == lookup_scope(scope_view(scope@).skip(k as int), name@),
        decreases scope@.len() - k,
    {
        let ghost rest = scope_view(scope@).skip(k as int);
        assert(rest[0] == (scope@[k as int].0@, scope@[k as int].1@));
        if scope[k].0 == *name {
            return Some(scope[k].1.duplicate());
        }
        assert(rest.drop_first() =~= scope_view(scope@).skip(k + 1));
        k += 1;
    }
    None
}

impl IdentifierInfo {
    fn duplicate(&self) -> (r: IdentifierInfo)
        ensures
            r@ == self@,
    {
        IdentifierInfo { has_linkage: self.has_linkage, mangled_name: self.mangled_name.clone() }
    }

    /// Whether the name has linkage.
    fn linked(&self) -> (r: bool)
        ensures
            r == self@.has_linkage,
    {
        self.has_linkage
    }

    /// The name that replaces the source name.
    fn mangled(&self) -> (r: String)
        ensures
            r@ == self@.mangled_name,
    {
        self.mangled_name.clone()
    }
}

impl<'a> IdentifierResolver<'a> {
    /// The borrowed counter.
    pub closed spec fn generator(&self) -> &'a mut UniqueNameGenerator {
        self.name_generator
    }

    /// The resolver's scopes and counter.
    pub closed spec fn state(&self) -> RState {
        RState { env: env_view(self.env_stack@), count: self.name_generator.count() }
    }

    /// A resolver with no scopes, using the counter `name_generator`.
    pub fn new(name_generator: &'a mut UniqueNameGenerator) -> (r: Self)
        ensures
            *final(name_generator) == *final(r.generator()),
            r.state() == (RState { env: Seq::empty(), count: old(name_generator).count() }),
    {
        let r = IdentifierResolver { env_stack: Vec::new(), name_generator };
        proof {
            assert(env_view(r.env_stack@) =~= Seq::<SScope>::empty());
        }
        r
    }

    /// Looks `name` up from the innermost scope outwards; also says whether it
    /// was found in the innermost scope.
    fn find_identifier_in_all_scopes(&self, name: &String) -> (r: (Option<IdentifierInfo>, bool))
        ensures
            opt_info_view(r.0) == lookup_all(self.state().env, name@),
            r.1 == in_current_scope(self.state().env, name@),
    {
        let ghost env = self.state().env;
        let mut k: usize = self.env_stack.len();
        assert(env.take(k as int) =~= env);
        while k > 0
            invariant
                k <= self.env_stack@.len(),
                env == env_view(self.env_stack@),
                lookup_all(env, name@) == lookup_all(env.take(k as int), name@),
                forall|j: int| k <= j < env.len() ==> #[trigger] lookup_scope(env[j], name@) is None,
            decreases k,
        {
            let ghost pre = env.take(k as int);
            assert(pre.last() == scope_view(self.env_stack@[k - 1]@));
            let found = find_in_scope(&self.env_stack[k - 1], name);
            if found.is_some() {
                proof {
                    if k < self.env_stack.len() {
                        assert(lookup_scope(env[env.len() - 1], name@) is None);
                    }
                }
                return (found, k == self.env_stack.len());
            }
            assert(pre.drop_last() =~= env.take(k - 1));
            k -= 1;
        }
        (None, false)
    }

    /// Looks `name` up in the innermost scope only.
    fn find_identifier_in_current_scope(&self, name: &String) -> (r: Option<IdentifierInfo>)
        ensures
            opt_info_view(r) == if self.state().env.len() > 0 {
                lookup_scope(self.state().env.last(), name@)
            } else {
                None
            },
    {
        let n = self.env_stack.len();
        if n == 0 {
            None
        } else {
            find_in_scope(&self.env_stack[n - 1], name)
        }
    }

    /// Whether the innermost scope declares `name`.
    fn is_identifier_in_current_scope(&self, name: &String) -> (r: bool)
        ensures
            r == in_current_scope(self.state().env, name@),
    {
        self.find_identifier_in_current_scope(name).is_some()
    }

    /// Declares `name` in the innermost scope.
    fn insert_identifier(&mut self, name: String, info: IdentifierInfo)
        ensures
            *final(final(self).generator()) == *final(old(self).generator()),
            final(self).state() == (RState {
                env: declare(old(self).state().env, name@, info@),
                count: old(self).state().count,
            }),
    {
        let ghost old_env = self.state().env;
        match self.env_stack.pop() {
            Some(mut top) => {
                let ghost old_top = top@;
                top.push((name, info));
                self.env_stack.push(top);
                proof {
                    assert(scope_view(top@) =~= scope_view(old_top).push((name@, info@)));
                    assert(env_view(self.env_stack@) =~= declare(old_env, name@, info@));
                }
            },
            None => {
                proof {
                    assert(env_view(self.env_stack@) =~= old_env);
                }
            },
        }
    }

    fn push_env(&mut self)
        ensures
            *final(final(self).generator()) == *final(old(self).generator()),
            final(self).state() == push_scope(old(self).state()),
    {
        let ghost old_env = self.state().env;
        self.env_stack.push(Vec::new());
        proof {
            assert(scope_view(Seq::<(String, IdentifierInfo)>::empty()) =~= Seq::<(Seq<char>, SIdentInfo)>::empty());
            assert(env_view(self.env_stack@) =~= old_env.push(Seq::empty()));
        }
    }

    fn pop_env(&mut self)
        ensures
            *final(final(self).generator()) == *final(old(self).generator()),
            final(self).state() == pop_scope(old(self).state()),
    {
        let ghost old_env = self.state().env;
        let _ = self.env_stack.pop();
        proof {
            assert(env_view(self.env_stack@) =~= if old_env.len() == 0 { old_env } else { old_env.drop_last() });
        }
    }

    /// Resolves an expression.
    #[verifier::loop_isolation(false)]
    fn resolve_expression(&self, e: &Expression) -> (r: Result<Expression, String>)
        ensures
            match (r, r_expr(self.state().env, expr_view(*e))) {
                (Ok(x), Ok(sx)) => expr_view(x) == sx,
                (Err(m), Err(n)) => m@ == n,
                _ => false,
            },
        decreases e,
    {
        match e {
            Expression::Assignment { left, right } => {
                match **left {
                    Expression::Var(_) => {},
                    _ => {
                        return Err(owned("Semantic Error: Expression is not assignable (not a valid l-value)."));
                    },
                }
                let new_l = self.resolve_expression(left)?;
                let new_r = self.resolve_expression(right)?;
                Ok(Expression::Assignment { left: Box::new(new_l), right: Box::new(new_r) })
            },
            Expression::Var(id) => {
                let (info, _) = self.find_identifier_in_all_scopes(id);
                match info {
                    Some(item) => Ok(Expression::Var(item.mangled())),
                    None => Err(message_with("Semantic Error: Use of undeclared identifier '", id, "'.")),
                }
            },
            Expression::FuncCall { name, args } => {
                let (info, _) = self.find_identifier_in_all_scopes(name);
                match info {
                    Some(item) => {
                        if !item.linked() {
                            return Err(message_with("Semantic Error: Called object '", name, "' is not a function."));
                        }
                        let new_name = item.mangled();
                        let mut new_args: Vec<Expression> = Vec::new();
                        let mut k: usize = 0;
                        proof {
                            lemma_exprs_view(args@);
                            assert(exprs_view(args@).take(0) =~= Seq::<SExpression>::empty());
                        }
                        while k < args.len()
                            invariant
                                k <= args@.len(),
                                exprs_view(args@).len() == args@.len(),
                                forall|j: int| 0 <= j < args@.len() ==> #[trigger] exprs_view(args@)[j] == expr_view(args@[j]),
                                r_exprs(self.state().env, exprs_view(args@).take(k as int))
                                    == Ok::<Seq<SExpression>, Seq<char>>(exprs_view(new_args@)),
                            decreases args@.len() - k,
                        {
                            let ghost pre = exprs_view(args@).take(k + 1);
                            assert(pre.drop_last() =~= exprs_view(args@).take(k as int));
                            assert(pre.last() == expr_view(args@[k as int]));
                            proof {
                                assert(decreases_to!(*e => args@[k as int]));
                            }
                            let x = match self.resolve_expression(&args[k]) {
                                Ok(x) => x,
                                Err(m) => {
                                    proof {
                                        lemma_r_exprs_prefix_err(self.state().env, exprs_view(args@), k + 1);
                                        assert(exprs_view(args@).take(args@.len() as int) =~= exprs_view(args@));
                                    }
                                    return Err(m);
                                },
                            };
                            let ghost before = new_args@;
                            new_args.push(x);
                            proof {
                                assert(new_args@.drop_last() =~= before);
                            }
                            k += 1;
                        }
                        proof {
                            assert(exprs_view(args@).take(args@.len() as int) =~= exprs_view(args@));
                        }
                        Ok(Expression::FuncCall { name: new_name, args: new_args })
                    },
                    None => Err(message_with("Semantic Error: Call to undeclared function '", name, "'.")),
                }
            },
            Expression::Binary { op, left, right } => {
                let new_l = self.resolve_expression(left)?;
                let new_r = self.resolve_expression(right)?;
                Ok(Expression::Binary { op: *op, left: Box::new(new_l), right: Box::new(new_r) })
            },
            Expression::Unary { op, exp } => {
                let new_e = self.resolve_expression(exp)?;
                Ok(Expression::Unary { op: *op, exp: Box::new(new_e) })
            },
            Expression::Conditional { condition, left, right } => {
                let new_c = self.resolve_expression(condition)?;
                let new_l = self.resolve_expression(left)?;
                let new_r = self.resolve_expression(right)?;
                Ok(Expression::Conditional { condition: Box::new(new_c), left: Box::new(new_l), right: Box::new(new_r) })
            },
            Expression::Constant(i) => Ok(Expression::Constant(*i)),
        }
    }

    fn resolve_opt_expression(&self, o: &Option<Expression>) -> (r: Result<Option<Expression>, String>)
        ensures
            match (r, r_opt_expr(self.state().env, opt_expr_view(*o))) {
                (Ok(x), Ok(sx)) => opt_expr_view(x) == sx,
                (Err(m), Err(n)) => m@ == n,
                _ => false,
            },
    {
        match o {
            Some(e) => Ok(Some(self.resolve_expression(e)?)),
            None => Ok(None),
        }
    }

    /// Resolves a variable declaration in the innermost scope.
    fn resolve_variable_declaration(&mut self, v: &VarDecl) -> (r: Result<VarDecl, String>)
        requires
            old(self).state().count + 1 <= u32::MAX,
        ensures
            *final(final(self).generator()) == *final(old(self).generator()),
            match (r, r_var_decl(old(self).state(), var_decl_view(*v))) {
                (Ok(x), Ok((sx, st))) => var_decl_view(x) == sx && final(self).state() == st
                    && st.count == old(self).state().count + 1,
                (Err(m), Err(n)) => m@ == n,
                _ => false,
            },
    {
        if self.is_identifier_in_current_scope(&v.name) {
            return Err(message_with("Semantic Error: Duplicate declaration of variable '", &v.name, "' in the same scope."));
        }
        let mangled_name = self.name_generator.new_variable_name(v.name.clone());
        self.insert_identifier(v.name.clone(), IdentifierInfo { has_linkage: false, mangled_name: mangled_name.clone() });
        let new_init = self.resolve_opt_expression(&v.init)?;
        Ok(VarDecl { name: mangled_name, init: new_init, storage_class: v.storage_class })
    }

    /// Resolves the initializer clause of a `for` loop.
    fn resolve_for_init(&mut self, init: &ForInit) -> (r: Result<ForInit, String>)
        requires
            old(self).state().count + (if *init is InitDecl { 1nat } else { 0nat }) <= u32::MAX,
        ensures
            *final(final(self).generator()) == *final(old(self).generator()),
            match (r, r_for_init(old(self).state(), for_init_view(*init))) {
                (Ok(x), Ok((sx, st))) => for_init_view(x) == sx && final(self).state() == st
                    && st.count <= old(self).state().count + (if *init is InitDecl { 1nat } else { 0nat }),
                (Err(m), Err(n)) => m@ == n,
                _ => false,
            },
    {
        match init {
            ForInit::InitDecl(d) => {
                let new_d = self.resolve_variable_declaration(d)?;
                Ok(ForInit::InitDecl(new_d))
            },
            ForInit::InitExp(o) => {
                let new_o = self.resolve_opt_expression(o)?;
                Ok(ForInit::InitExp(new_o))
            },
        }
    }

    /// Resolves a statement.
    fn resolve_statement(&mut self, stmt: &Statement) -> (r: Result<Statement, String>)
        requires
            old(self).state().count + need_stmt(stmt_view(*stmt)) <= u32::MAX,
        ensures
            *final(final(self).generator()) == *final(old(self).generator()),
            match (r, r_stmt(old(self).state(), stmt_view(*stmt))) {
                (Ok(x), Ok((sx, st))) => stmt_view(x) == sx && final(self).state() == st
                    && st.count <= old(self).state().count + need_stmt(stmt_view(*stmt)),
                (Err(m), Err(n)) => m@ == n,
                _ => false,
            },
        decreases stmt, 5int,
    {
        match stmt {
            Statement::Expression(e) => {
                let new_exp = self.resolve_expression(e)?;
                Ok(Statement::Expression(new_exp))
            },
            Statement::Return(e) => {
                let new_exp = self.resolve_expression(e)?;
                Ok(Statement::Return(new_exp))
            },
            Statement::If { condition, then_stmt, else_stmt } => {
                let new_c = self.resolve_expression(condition)?;
                let new_then = self.resolve_statement(then_stmt)?;
                let new_else = match else_stmt {
                    Some(es) => Some(Box::new(self.resolve_statement(es)?)),
                    None => None,
                };
                Ok(Statement::If { condition: new_c, then_stmt: Box::new(new_then), else_stmt: new_else })
            },
            Statement::Compound(b) => {
                let new_b = self.resolve_block(b)?;
                Ok(Statement::Compound(new_b))
            },
            Statement::While { condition, body, .. } => {
                let new_c = self.resolve_expression(condition)?;
                let new_body = self.resolve_statement(body)?;
                Ok(Statement::While { condition: new_c, body: Box::new(new_body), label: None })
            },
            Statement::DoWhile { body, condition, .. } => {
                let new_body = self.resolve_statement(body)?;
                let new_c = self.resolve_expression(condition)?;
                Ok(Statement::DoWhile { body: Box::new(new_body), condition: new_c, label: None })
            },
            Statement::For { init, condition, post, body, .. } => {
                self.push_env();
                let new_init = self.resolve_for_init(init)?;
                let new_c = self.resolve_opt_expression(condition)?;
                let new_post = self.resolve_opt_expression(post)?;
                let new_body = self.resolve_statement(body)?;
                self.pop_env();
                Ok(Statement::For {
                    init: new_init,
                    condition: new_c,
                    post: new_post,
                    body: Box::new(new_body),
                    label: None,
                })
            },
            Statement::Null => Ok(Statement::Null),
            Statement::Break(n) => Ok(Statement::Break(n.clone())),
            Statement::Continue(n) => Ok(Statement::Continue(n.clone())),
        }
    }

    /// Resolves block items in order, in the current scope.
    fn resolve_items_in_scope(&mut self, items: &Vec<BlockItem>) -> (r: Result<Vec<BlockItem>, String>)
        requires
            old(self).state().count + need_items(items_view(items@)) <= u32::MAX,
        ensures
            *final(final(self).generator()) == *final(old(self).generator()),
            match (r, r_items(old(self).state(), items_view(items@))) {
                (Ok(x), Ok((sx, st))) => items_view(x@) == sx && final(self).state() == st
                    && st.count <= old(self).state().count + need_items(items_view(items@)),
                (Err(m), Err(n)) => m@ == n,
                _ => false,
            },
        decreases items, 3int,
    {
        let ghost st0 = self.state();
        let ghost sitems = items_view(items@);
        let mut resolved: Vec<BlockItem> = Vec::new();
        let mut k: usize = 0;
        proof {
            lemma_items_view(items@);
            assert(sitems.take(0) =~= Seq::<SBlockItem>::empty());
            assert(items_view(resolved@) =~= Seq::<SBlockItem>::empty());
        }
        while k < items.len()
            invariant
                *final(self.generator()) == *final(old(self).generator()),
                k <= items@.len(),
                sitems == items_view(items@),
                sitems.len() == items@.len(),
                forall|j: int| 0 <= j < items@.len() ==> #[trigger] sitems[j] == item_view(items@[j]),
                st0.count + need_items(sitems) <= u32::MAX,
                r_items(st0, sitems.take(k as int)) == Ok::<(Seq<SBlockItem>, RState), Seq<char>>((items_view(resolved@), self.state())),
                self.state().count <= st0.count + need_items(sitems.take(k as int)),
                st0 == old(self).state(),
            decreases items@.len() - k,
        {
            let ghost pre = sitems.take(k + 1);
            assert(pre.drop_last() =~= sitems.take(k as int));
            assert(pre.last() == item_view(items@[k as int]));
            proof {
                lemma_need_items_prefix(sitems, k + 1);
                assert(decreases_to!(items => items@[k as int]));
            }
            let x = match self.resolve_block_item(&items[k]) {
                Ok(x) => x,
                Err(m) => {
                    proof {
                        lemma_r_items_prefix_err(st0, sitems, k + 1);
                    }
                    return Err(m);
                },
            };
            let ghost before = resolved@;
            resolved.push(x);
            proof {
                assert(resolved@.drop_last() =~= before);
            }
            k += 1;
        }
        proof {
            assert(sitems.take(items@.len() as int) =~= sitems);
        }
        Ok(resolved)
    }

    /// Resolves a block in a new scope.
    fn resolve_block(&mut self, block: &Block) -> (r: Result<Block, String>)
        requires
            old(self).state().count + need_items(items_view(block.0@)) <= u32::MAX,
        ensures
            *final(final(self).generator()) == *final(old(self).generator()),
            match (r, r_items(push_scope(old(self).state()), items_view(block.0@))) {
                (Ok(x), Ok((sx, st))) => items_view(x.0@) == sx && final(self).state() == pop_scope(st)
                    && st.count <= old(self).state().count + need_items(items_view(block.0@)),
                (Err(m), Err(n)) => m@ == n,
                _ => false,
            },
        decreases block, 4int,
    {
        self.push_env();
        let items = self.resolve_items_in_scope(&block.0)?;
        self.pop_env();
        Ok(Block(items))
    }

    /// Resolves one block item.
    fn resolve_block_item(&mut self, item: &BlockItem) -> (r: Result<BlockItem, String>)
        requires
            old(self).state().count + need_item(item_view(*item)) <= u32::MAX,
        ensures
            *final(final(self).generator()) == *final(old(self).generator()),
            match (r, r_item(old(self).state(), item_view(*item))) {
                (Ok(x), Ok((sx, st))) => item_view(x) == sx && final(self).state() == st
                    && st.count <= old(self).state().count + need_item(item_view(*item)),
                (Err(m), Err(n)) => m@ == n,
                _ => false,
            },
        decreases item, 2int,
    {
        match item {
            BlockItem::D(d) => {
                let new_d = self.resolve_declaration(d)?;
                Ok(BlockItem::D(new_d))
            },
            BlockItem::S(st) => {
                let new_s = self.resolve_statement(st)?;
                Ok(BlockItem::S(new_s))
            },
        }
    }

    /// Resolves a declaration inside a block; function definitions are refused there.
    fn resolve_declaration(&mut self, d: &Declaration) -> (r: Result<Declaration, String>)
        requires
            old(self).state().count + need_item(SBlockItem::D(decl_view(*d))) <= u32::MAX,
        ensures
            *final(final(self).generator()) == *final(old(self).generator()),
            match (r, r_item(old(self).state(), SBlockItem::D(decl_view(*d)))) {
                (Ok(x), Ok((SBlockItem::D(sx), st))) => decl_view(x) == sx && final(self).state() == st
                    && st.count <= old(self).state().count + need_item(SBlockItem::D(decl_view(*d))),
                (Err(m), Err(n)) => m@ == n,
                _ => false,
            },
        decreases d, 1int,
    {
        match d {
            Declaration::Variable(v) => {
                let new_v = self.resolve_variable_declaration(v)?;
                Ok(Declaration::Variable(new_v))
            },
            Declaration::Fun(f) => {
                if f.body.is_some() {
                    return Err(message_with(
                        "Semantic Error: Nested function definitions are not allowed (function '",
                        &f.name,
                        "').",
                    ));
                }
                let new_f = self.resolve_function_decl(f)?;
                Ok(Declaration::Fun(new_f))
            },
        }
    }

    /// Resolves a function declaration or definition: the name is declared in
    /// the current scope (unless a function of that name already is), then the
    /// parameters and the body share one new scope.
    #[verifier::loop_isolation(false)]
    fn resolve_function_decl(&mut self, f: &FunDecl) -> (r: Result<FunDecl, String>)
        requires
            old(self).state().count + need_fun(fun_decl_view(*f)) <= u32::MAX,
        ensures
            *final(final(self).generator()) == *final(old(self).generator()),
            match (r, r_fun_decl(old(self).state(), fun_decl_view(*f))) {
                (Ok(x), Ok((sx, st))) => fun_decl_view(x) == sx && final(self).state() == st
                    && st.count <= old(self).state().count + need_fun(fun_decl_view(*f)),
                (Err(m), Err(n)) => m@ == n,
                _ => false,
            },
        decreases f, 0int,
    {
        let ghost sf = fun_decl_view(*f);
        let existing_entry = self.find_identifier_in_current_scope(&f.name);
        match existing_entry {
            Some(info) => {
                if !info.linked() {
                    return Err(message_with("Semantic Error: Redeclaration of '", &f.name, "' as a different kind of symbol."));
                }
            },
            None => {
                self.insert_identifier(f.name.clone(), IdentifierInfo { has_linkage: true, mangled_name: f.name.clone() });
            },
        }
        self.push_env();
        let ghost st1 = self.state();
        let ghost sparams = strs_view(f.parameters@);
        let mut resolved_params: Vec<String> = Vec::new();
        let mut k: usize = 0;
        proof {
            assert(sparams.take(0) =~= Seq::<Seq<char>>::empty());
            assert(strs_view(resolved_params@) =~= Seq::<Seq<char>>::empty());
        }
        while k < f.parameters.len()
            invariant
                *final(self.generator()) == *final(old(self).generator()),
                k <= f.parameters@.len(),
                sparams == strs_view(f.parameters@),
                sparams.len() == f.parameters@.len(),
                st1.count + sparams.len() <= u32::MAX,
                r_params(st1, f.name@, sparams.take(k as int)) == Ok::<(Seq<Seq<char>>, RState), Seq<char>>((strs_view(resolved_params@), self.state())),
                self.state().count == st1.count + k,
            decreases f.parameters@.len() - k,
        {
            let ghost pre = sparams.take(k + 1);
            assert(pre.drop_last() =~= sparams.take(k as int));
            assert(pre.last() == f.parameters@[k as int]@);
            let p_name = &f.parameters[k];
            if self.is_identifier_in_current_scope(p_name) {
                let mut m = message_with("Semantic Error: Duplicate parameter name '", p_name, "' in function '");
                push_str(&mut m, f.name.as_str());
                push_str(&mut m, "'.");
                proof {
                    lemma_r_params_prefix_err(st1, f.name@, sparams, k + 1);
                    assert(m@ =~= "Semantic Error: Duplicate parameter name '"@ + p_name@ + "' in function '"@ + f.name@ + "'."@);
                }
                return Err(m);
            }
            let mangled_name = self.name_generator.new_variable_name(p_name.clone());
            self.insert_identifier(p_name.clone(), IdentifierInfo { has_linkage: false, mangled_name: mangled_name.clone() });
            let ghost before = resolved_params@;
            resolved_params.push(mangled_name);
            proof {
                assert(strs_view(resolved_params@) =~= strs_view(before).push(resolved_params@.last()@));
            }
            k += 1;
        }
        proof {
            assert(sparams.take(f.parameters@.len() as int) =~= sparams);
        }
        let resolved_body = match &f.body {
            Some(body_block) => {
                let items = self.resolve_items_in_scope(&body_block.0)?;
                Some(Block(items))
            },
            None => None,
        };
        self.pop_env();
        Ok(FunDecl { name: f.name.clone(), parameters: resolved_params, body: resolved_body, storage_class: f.storage_class })
    }

    /// Resolves a whole program in a fresh global scope.
    #[verifier::loop_isolation(false)]
    pub fn resolve_program(&mut self, ast: &Program) -> (r: Result<Program, String>)
        requires
            old(self).state().count + need_functions(ast@.declarations) <= u32::MAX,
        ensures
            *final(final(self).generator()) == *final(old(self).generator()),
            match (r, r_program(old(self).state(), ast@)) {
                (Ok(x), Ok((sx, st))) => x@ == sx && final(self).state() == st,
                (Err(m), Err(n)) => m@ == n,
                _ => false,
            },
    {
        self.push_env();
        let ghost st0 = self.state();
        let ghost sfs = ast@.declarations;
        let mut resolved: Vec<Declaration> = Vec::new();
        let mut k: usize = 0;
        proof {
            assert(sfs.take(0) =~= Seq::<SDeclaration>::empty());
            assert(decls_view(resolved@) =~= Seq::<SDeclaration>::empty());
        }
        while k < ast.declarations.len()
            invariant
                *final(self.generator()) == *final(old(self).generator()),
                k <= ast.declarations@.len(),
                sfs == ast@.declarations,
                sfs == decls_view(ast.declarations@),
                st0.count + need_functions(sfs) <= u32::MAX,
                r_functions(st0, sfs.take(k as int)) == Ok::<(Seq<SDeclaration>, RState), Seq<char>>((decls_view(resolved@), self.state())),
                self.state().count <= st0.count + need_functions(sfs.take(k as int)),
            decreases ast.declarations@.len() - k,
        {
            let ghost pre = sfs.take(k + 1);
            assert(pre.drop_last() =~= sfs.take(k as int));
            assert(pre.last() == decl_view(ast.declarations@[k as int]));
            proof {
                lemma_need_functions_prefix(sfs, k + 1);
            }
            let x = match &ast.declarations[k] {
                Declaration::Fun(f) => match self.resolve_function_decl(f) {
                    Ok(x) => Declaration::Fun(x),
                    Err(m) => {
                        proof {
                            lemma_r_functions_prefix_err(st0, sfs, k + 1);
                        }
                        return Err(m);
                    },
                },
                Declaration::Variable(v) => {
                    self.insert_identifier(v.name.clone(), IdentifierInfo { has_linkage: true, mangled_name: v.name.clone() });
                    Declaration::Variable(copy_var_decl(v))
                },
            };
            let ghost before = resolved@;
            resolved.push(x);
            proof {
                assert(decls_view(resolved@) =~= decls_view(before).push(decl_view(x)));
            }
            k += 1;
        }
        proof {
            assert(sfs.take(ast.declarations@.len() as int) =~= sfs);
        }
        self.pop_env();
        Ok(Program { declarations: resolved })
    }
}

} // verus!
