//! Variable resolution, second form.
//!
//! Like identifier resolution, every variable and parameter gets the unique
//! name `name.<n>` and every use is tied to the innermost declaration of its
//! name. This form opens no scope for the whole program, keeps a function's
//! parameters and its body in two scopes, allows function definitions inside
//! blocks, resolves a `do`-`while` condition before its body, and does not
//! tell variables from functions at a call. File-scope variables are left as
//! they are.

use vstd::prelude::*;
use crate::frontend::c_ast::{
    copy_var_decl, decl_view, decls_view, expr_view, exprs_view, for_init_view, fun_decl_view, fun_decls_view, item_view,
    items_view, lemma_exprs_view, lemma_items_view, stmt_view, strs_view,
    var_decl_view, Block, BlockItem, Declaration, Expression, ForInit, FunDecl, Program,
    SBlockItem, SDeclaration, SExpression, SForInit, SFunDecl, SProgram, SStatement, SVarDecl,
    Statement, VarDecl,
};
use crate::frontend::resolve_ident::{
    declare, in_current_scope, lemma_need_functions_prefix, lemma_need_items_prefix, lookup_all,
    lookup_scope, need_fun, need_functions, need_item, need_items, need_stmt, pop_scope, push_scope,
    RResult, RState, SIdentInfo, SScope,
};
use crate::name_gen::{qualified_name, UniqueNameGenerator};
use crate::text::{owned, push_str};

verus! {

/// Resolving an expression.
pub open spec fn rv_expr(env: Seq<SScope>, e: SExpression) -> Result<SExpression, Seq<char>>
    decreases e, 0int,
{
    match e {
        SExpression::Assignment { left, right } => {
            if !(*left is Var) {
                Err("Invalid lvaue!"@)
            } else {
                match rv_expr(env, *left) {
                    Err(m) => Err(m),
                    Ok(l) => match rv_expr(env, *right) {
                        Err(m) => Err(m),
                        Ok(r) => Ok(SExpression::Assignment { left: Box::new(l), right: Box::new(r) }),
                    },
                }
            }
        },
        SExpression::Var(id) => match lookup_all(env, id) {
            Some(info) => Ok(SExpression::Var(info.mangled_name)),
            None => Err("Undeclared variable!"@),
        },
        SExpression::FuncCall { name, args } => match lookup_all(env, name) {
            Some(info) => match rv_exprs(env, args) {
                Err(m) => Err(m),
                Ok(a) => Ok(SExpression::FuncCall { name: info.mangled_name, args: a }),
            },
            None => Err("未声明函数!"@),
        },
        SExpression::Binary { op, left, right } => match rv_expr(env, *left) {
            Err(m) => Err(m),
            Ok(l) => match rv_expr(env, *right) {
                Err(m) => Err(m),
                Ok(r) => Ok(SExpression::Binary { op, left: Box::new(l), right: Box::new(r) }),
            },
        },
        SExpression::Unary { op, exp } => match rv_expr(env, *exp) {
            Err(m) => Err(m),
            Ok(x) => Ok(SExpression::Unary { op, exp: Box::new(x) }),
        },
        SExpression::Conditional { condition, left, right } => match rv_expr(env, *condition) {
            Err(m) => Err(m),
            Ok(c) => match rv_expr(env, *left) {
                Err(m) => Err(m),
                Ok(l) => match rv_expr(env, *right) {
                    Err(m) => Err(m),
                    Ok(r) => Ok(SExpression::Conditional { condition: Box::new(c), left: Box::new(l), right: Box::new(r) }),
                },
            },
        },
        SExpression::Constant(i) => Ok(SExpression::Constant(i)),
    }
}

/// Resolving a list of expressions, in order.
pub open spec fn rv_exprs(env: Seq<SScope>, es: Seq<SExpression>) -> Result<Seq<SExpression>, Seq<char>>
    decreases es, 1int,
{
    if es.len() == 0 {
        Ok(Seq::empty())
    } else {
        match rv_exprs(env, es.drop_last()) {
            Err(m) => Err(m),
            Ok(done) => match rv_expr(env, es.last()) {
                Err(m) => Err(m),
                Ok(x) => Ok(done.push(x)),
            },
        }
    }
}

pub open spec fn rv_opt_expr(env: Seq<SScope>, o: Option<SExpression>) -> Result<Option<SExpression>, Seq<char>> {
    match o {
        None => Ok(None),
        Some(e) => match rv_expr(env, e) {
            Err(m) => Err(m),
            Ok(x) => Ok(Some(x)),
        },
    }
}

/// Resolving a variable declaration: declared, renamed, then its initializer.
pub open spec fn rv_var(st: RState, v: SVarDecl) -> RResult<SVarDecl> {
    if in_current_scope(st.env, v.name) {
        Err("Duplicate variable declaration"@)
    } else {
        let m = qualified_name(v.name, st.count);
        let env2 = declare(st.env, v.name, SIdentInfo { has_linkage: false, mangled_name: m });
        match rv_opt_expr(env2, v.init) {
            Err(e) => Err(e),
            Ok(init) => Ok((SVarDecl { name: m, init, storage_class: v.storage_class }, RState { env: env2, count: st.count + 1 })),
        }
    }
}

pub open spec fn rv_for_init(st: RState, i: SForInit) -> RResult<SForInit> {
    match i {
        SForInit::InitDecl(d) => match rv_var(st, d) {
            Err(m) => Err(m),
            Ok((d2, st2)) => Ok((SForInit::InitDecl(d2), st2)),
        },
        SForInit::InitExp(o) => match rv_opt_expr(st.env, o) {
            Err(m) => Err(m),
            Ok(o2) => Ok((SForInit::InitExp(o2), st)),
        },
    }
}

/// Resolving a statement.
pub open spec fn rv_stmt(st: RState, s: SStatement) -> RResult<SStatement>
    decreases s, 0int,
{
    match s {
        SStatement::Expression(e) => match rv_expr(st.env, e) {
            Err(m) => Err(m),
            Ok(x) => Ok((SStatement::Expression(x), st)),
        },
        SStatement::Null => Ok((SStatement::Null, st)),
        SStatement::Return(e) => match rv_expr(st.env, e) {
            Err(m) => Err(m),
            Ok(x) => Ok((SStatement::Return(x), st)),
        },
        SStatement::If { condition, then_stmt, else_stmt } => match rv_expr(st.env, condition) {
            Err(m) => Err(m),
            Ok(c) => match rv_stmt(st, *then_stmt) {
                Err(m) => Err(m),
                Ok((t, st2)) => match else_stmt {
                    None => Ok((SStatement::If { condition: c, then_stmt: Box::new(t), else_stmt: None }, st2)),
                    Some(es) => match rv_stmt(st2, *es) {
                        Err(m) => Err(m),
                        Ok((e2, st3)) => Ok((SStatement::If {
                            condition: c,
                            then_stmt: Box::new(t),
                            else_stmt: Some(Box::new(e2)),
                        }, st3)),
                    },
                },
            },
        },
        SStatement::Compound(items) => match rv_items(push_scope(st), items) {
            Err(m) => Err(m),
            Ok((b, st2)) => Ok((SStatement::Compound(b), pop_scope(st2))),
        },
        SStatement::Break(n) => Ok((SStatement::Break(n), st)),
        SStatement::Continue(n) => Ok((SStatement::Continue(n), st)),
        SStatement::While { condition, body, .. } => match rv_expr(st.env, condition) {
            Err(m) => Err(m),
            Ok(c) => match rv_stmt(st, *body) {
                Err(m) => Err(m),
                Ok((b, st2)) => Ok((SStatement::While { condition: c, body: Box::new(b), label: None }, st2)),
            },
        },
        SStatement::DoWhile { body, condition, .. } => match rv_expr(st.env, condition) {
            Err(m) => Err(m),
            Ok(c) => match rv_stmt(st, *body) {
                Err(m) => Err(m),
                Ok((b, st2)) => Ok((SStatement::DoWhile { body: Box::new(b), condition: c, label: None }, st2)),
            },
        },
        SStatement::For { init, condition, post, body, .. } => {
            let st1 = push_scope(st);
            match rv_for_init(st1, init) {
                Err(m) => Err(m),
                Ok((i2, st2)) => match rv_opt_expr(st2.env, condition) {
                    Err(m) => Err(m),
                    Ok(c) => match rv_opt_expr(st2.env, post) {
                        Err(m) => Err(m),
                        Ok(p) => match rv_stmt(st2, *body) {
                            Err(m) => Err(m),
                            Ok((b, st3)) => Ok((SStatement::For {
                                init: i2,
                                condition: c,
                                post: p,
                                body: Box::new(b),
                                label: None,
                            }, pop_scope(st3))),
                        },
                    },
                },
            }
        },
    }
}

/// Resolving block items in order, in the current scope.
pub open spec fn rv_items(st: RState, items: Seq<SBlockItem>) -> RResult<Seq<SBlockItem>>
    decreases items, 1int,
{
    if items.len() == 0 {
        Ok((Seq::empty(), st))
    } else {
        match rv_items(st, items.drop_last()) {
            Err(m) => Err(m),
            Ok((done, st2)) => match rv_item(st2, items.last()) {
                Err(m) => Err(m),
                Ok((x, st3)) => Ok((done.push(x), st3)),
            },
        }
    }
}

pub open spec fn rv_item(st: RState, item: SBlockItem) -> RResult<SBlockItem>
    decreases item, 0int,
{
    match item {
        SBlockItem::S(s) => match rv_stmt(st, s) {
            Err(m) => Err(m),
            Ok((s2, st2)) => Ok((SBlockItem::S(s2), st2)),
        },
        SBlockItem::D(SDeclaration::Variable(v)) => match rv_var(st, v) {
            Err(m) => Err(m),
            Ok((v2, st2)) => Ok((SBlockItem::D(SDeclaration::Variable(v2)), st2)),
        },
        SBlockItem::D(SDeclaration::Fun(f)) => match rv_fun(st, f) {
            Err(m) => Err(m),
            Ok((f2, st2)) => Ok((SBlockItem::D(SDeclaration::Fun(f2)), st2)),
        },
    }
}

/// Resolving the parameters of function `fname`, in order.
pub open spec fn rv_params(st: RState, fname: Seq<char>, ps: Seq<Seq<char>>) -> RResult<Seq<Seq<char>>>
    decreases ps.len(),
{
    if ps.len() == 0 {
        Ok((Seq::empty(), st))
    } else {
        match rv_params(st, fname, ps.drop_last()) {
            Err(m) => Err(m),
            Ok((done, st2)) => {
                let p = ps.last();
                if in_current_scope(st2.env, p) {
                    Err("Duplicate variable declaration in "@ + fname + " params"@)
                } else {
                    let m = qualified_name(p, st2.count);
                    Ok((done.push(m), RState {
                        env: declare(st2.env, p, SIdentInfo { has_linkage: false, mangled_name: m }),
                        count: st2.count + 1,
                    }))
                }
            },
        }
    }
}

/// Resolving a function: its name is declared in the current scope (a
/// variable of that name in the current scope is an error), its parameters
/// in a new scope, and its body in a scope inside that one.
pub open spec fn rv_fun(st: RState, f: SFunDecl) -> RResult<SFunDecl>
    decreases f, 0int,
{
    if in_current_scope(st.env, f.name) && !lookup_scope(st.env.last(), f.name)->0.has_linkage {
        Err("重复声明! "@ + f.name)
    } else {
        let env1 = declare(st.env, f.name, SIdentInfo { has_linkage: true, mangled_name: f.name });
        let st1 = push_scope(RState { env: env1, count: st.count });
        match rv_params(st1, f.name, f.parameters) {
            Err(m) => Err(m),
            Ok((ps, st2)) => match f.body {
                None => Ok((SFunDecl { name: f.name, parameters: ps, body: None, storage_class: f.storage_class }, pop_scope(st2))),
                Some(items) => match rv_items(push_scope(st2), items) {
                    Err(m) => Err(m),
                    Ok((b, st3)) => Ok((SFunDecl {
                        name: f.name,
                        parameters: ps,
                        body: Some(b),
                        storage_class: f.storage_class,
                    }, pop_scope(pop_scope(st3)))),
                },
            },
        }
    }
}

/// Resolving the file-scope declarations of a program in order; file-scope
/// variables stay as they are.
pub open spec fn rv_functions(st: RState, ds: Seq<SDeclaration>) -> RResult<Seq<SDeclaration>>
    decreases ds.len(),
{
    if ds.len() == 0 {
        Ok((Seq::empty(), st))
    } else {
        match rv_functions(st, ds.drop_last()) {
            Err(m) => Err(m),
            Ok((done, st2)) => match ds.last() {
                SDeclaration::Fun(f) => match rv_fun(st2, f) {
                    Err(m) => Err(m),
                    Ok((f2, st3)) => Ok((done.push(SDeclaration::Fun(f2)), st3)),
                },
                SDeclaration::Variable(v) => Ok((done.push(SDeclaration::Variable(v)), st2)),
            },
        }
    }
}

/// Resolving a program.
pub open spec fn rv_program(st: RState, p: SProgram) -> RResult<SProgram> {
    match rv_functions(st, p.declarations) {
        Err(m) => Err(m),
        Ok((ds, st2)) => Ok((SProgram { declarations: ds }, st2)),
    }
}

proof fn lemma_rv_exprs_prefix_err(env: Seq<SScope>, s: Seq<SExpression>, k: int)
    requires
        0 <= k <= s.len(),
        rv_exprs(env, s.take(k)) is Err,
    ensures
        rv_exprs(env, s) == rv_exprs(env, s.take(k)),
    decreases s.len(),
{
    if k == s.len() {
        assert(s.take(k) =~= s);
    } else {
        assert(s.drop_last().take(k) =~= s.take(k));
        lemma_rv_exprs_prefix_err(env, s.drop_last(), k);
    }
}

proof fn lemma_rv_items_prefix_err(st: RState, s: Seq<SBlockItem>, k: int)
    requires
        0 <= k <= s.len(),
        rv_items(st, s.take(k)) is Err,
    ensures
        rv_items(st, s) == rv_items(st, s.take(k)),
    decreases s.len(),
{
    if k == s.len() {
        assert(s.take(k) =~= s);
    } else {
        assert(s.drop_last().take(k) =~= s.take(k));
        lemma_rv_items_prefix_err(st, s.drop_last(), k);
    }
}

proof fn lemma_rv_params_prefix_err(st: RState, fname: Seq<char>, s: Seq<Seq<char>>, k: int)
    requires
        0 <= k <= s.len(),
        rv_params(st, fname, s.take(k)) is Err,
    ensures
        rv_params(st, fname, s) == rv_params(st, fname, s.take(k)),
    decreases s.len(),
{
    if k == s.len() {
        assert(s.take(k) =~= s);
    } else {
        assert(s.drop_last().take(k) =~= s.take(k));
        lemma_rv_params_prefix_err(st, fname, s.drop_last(), k);
    }
}

proof fn lemma_rv_functions_prefix_err(st: RState, s: Seq<SDeclaration>, k: int)
    requires
        0 <= k <= s.len(),
        rv_functions(st, s.take(k)) is Err,
    ensures
        rv_functions(st, s) == rv_functions(st, s.take(k)),
    decreases s.len(),
{
    if k == s.len() {
        assert(s.take(k) =~= s);
    } else {
        assert(s.drop_last().take(k) =~= s.take(k));
        lemma_rv_functions_prefix_err(st, s.drop_last(), k);
    }
}

// ---------------------------------------------------------------------------
// Implementation
// ---------------------------------------------------------------------------

/// What the resolver records of a name: whether it has linkage and the name
/// that replaces it.
#[derive(Debug)]
pub struct Info {
    has_linkage: bool,
    name: String,
}

impl View for Info {
    type V = SIdentInfo;

    closed spec fn view(&self) -> SIdentInfo {
        SIdentInfo { has_linkage: self.has_linkage, mangled_name: self.name@ }
    }
}

impl Info {
    fn duplicate(&self) -> (r: Info)
        ensures
            r@ == self@,
    {
        Info { has_linkage: self.has_linkage, name: self.name.clone() }
    }

    fn linked(&self) -> (r: bool)
        ensures
            r == self@.has_linkage,
    {
        self.has_linkage
    }

    fn renamed(&self) -> (r: String)
        ensures
            r@ == self@.mangled_name,
    {
        self.name.clone()
    }
}

pub open spec fn info_scope_view(v: Seq<(String, Info)>) -> SScope {
    v.map_values(|p: (String, Info)| (p.0@, p.1@))
}

pub open spec fn info_env_view(v: Seq<Vec<(String, Info)>>) -> Seq<SScope> {
    v.map_values(|s: Vec<(String, Info)>| info_scope_view(s@))
}

pub open spec fn opt_view(o: Option<Info>) -> Option<SIdentInfo> {
    match o {
        Some(i) => Some(i@),
        None => None,
    }
}

fn scope_get(scope: &Vec<(String, Info)>, name: &String) -> (r: Option<Info>)
    ensures
        opt_view(r) == lookup_scope(info_scope_view(scope@), name@),
{
    let mut k: usize = 0;
    assert(info_scope_view(scope@).skip(0) =~= info_scope_view(scope@));
    while k < scope.len()
        invariant
            k <= scope@.len(),
            lookup_scope(info_scope_view(scope@), name@) == lookup_scope(info_scope_view(scope@).skip(k as int), name@),
        decreases scope@.len() - k,
    {
        let ghost rest = info_scope_view(scope@).skip(k as int);
        assert(rest[0] == (scope@[k as int].0@, scope@[k as int].1@));
        if scope[k].0 == *name {
            return Some(scope[k].1.duplicate());
        }
        assert(rest.drop_first() =~= info_scope_view(scope@).skip(k + 1));
        k += 1;
    }
    None
}

/// The variable resolver: a stack of scopes (innermost last) and the shared
/// name counter.
#[derive(Debug)]
pub struct ResloveVar<'a> {
    variable_map: Vec<Vec<(String, Info)>>,
    name_gen: &'a mut UniqueNameGenerator,
}

impl<'a> ResloveVar<'a> {
    /// The borrowed counter.
    pub closed spec fn generator(&self) -> &'a mut UniqueNameGenerator {
        self.name_gen
    }

    /// The resolver's scopes and counter.
    pub closed spec fn state(&self) -> RState {
        RState { env: info_env_view(self.variable_map@), count: self.name_gen.count() }
    }

    /// A resolver with no scope, using the counter `g`.
    pub fn new(g: &'a mut UniqueNameGenerator) -> (r: Self)
        ensures
            *final(g) == *final(r.generator()),
            r.state() == (RState { env: Seq::empty(), count: old(g).count() }),
    {
        let r = ResloveVar { variable_map: Vec::new(), name_gen: g };
        assert(info_env_view(r.variable_map@) =~= Seq::<SScope>::empty());
        r
    }

    /// Resolves the functions of a program in order.
    #[verifier::loop_isolation(false)]
    pub fn reslove_prgram(&mut self, ast: &Program) -> (r: Result<Program, String>)
        requires
            old(self).state().count + need_functions(ast@.declarations) <= u32::MAX,
        ensures
            *final(final(self).generator()) == *final(old(self).generator()),
            match (r, rv_program(old(self).state(), ast@)) {
                (Ok(x), Ok((sx, st))) => x@ == sx && final(self).state() == st,
                (Err(m), Err(n)) => m@ == n,
                _ => false,
            },
    {
        let ghost st0 = self.state();
        let ghost sfs = ast@.declarations;
        let mut fs: Vec<Declaration> = Vec::new();
        let mut k: usize = 0;
        proof {
            assert(sfs.take(0) =~= Seq::<SDeclaration>::empty());
            assert(decls_view(fs@) =~= Seq::<SDeclaration>::empty());
        }
        while k < ast.declarations.len()
            invariant
                *final(self.generator()) == *final(old(self).generator()),
                k <= ast.declarations@.len(),
                sfs == ast@.declarations,
                sfs == decls_view(ast.declarations@),
                st0.count + need_functions(sfs) <= u32::MAX,
                rv_functions(st0, sfs.take(k as int)) == Ok::<(Seq<SDeclaration>, RState), Seq<char>>((decls_view(fs@), self.state())),
                self.state().count <= st0.count + need_functions(sfs.take(k as int)),
            decreases ast.declarations@.len() - k,
        {
            let ghost pre = sfs.take(k + 1);
            assert(pre.drop_last() =~= sfs.take(k as int));
            assert(pre.last() == decl_view(ast.declarations@[k as int]));
            proof {
                lemma_need_functions_prefix(sfs, k + 1);
            }
            let new_d = match &ast.declarations[k] {
                Declaration::Fun(f) => match self.reslove_function_decl(f) {
                    Ok(x) => Declaration::Fun(x),
                    Err(m) => {
                        proof {
                            lemma_rv_functions_prefix_err(st0, sfs, k + 1);
                        }
                        return Err(m);
                    },
                },
                Declaration::Variable(v) => Declaration::Variable(copy_var_decl(v)),
            };
            let ghost before = fs@;
            fs.push(new_d);
            proof {
                assert(decls_view(fs@) =~= decls_view(before).push(decl_view(new_d)));
            }
            k += 1;
        }
        proof {
            assert(sfs.take(ast.declarations@.len() as int) =~= sfs);
        }
        Ok(Program { declarations: fs })
    }

    /// Resolves a function declaration or definition.
    #[verifier::loop_isolation(false)]
    fn reslove_function_decl(&mut self, f: &FunDecl) -> (r: Result<FunDecl, String>)
        requires
            old(self).state().count + need_fun(fun_decl_view(*f)) <= u32::MAX,
        ensures
            *final(final(self).generator()) == *final(old(self).generator()),
            match (r, rv_fun(old(self).state(), fun_decl_view(*f))) {
                (Ok(x), Ok((sx, st))) => fun_decl_view(x) == sx && final(self).state() == st
                    && st.count <= old(self).state().count + need_fun(fun_decl_view(*f)),
                (Err(m), Err(n)) => m@ == n,
                _ => false,
            },
        decreases f, 0int,
    {
        let (result, is_from_current) = self.find_variable_in_env(&f.name);
        match result {
            Some(i) => {
                if !i.linked() && is_from_current {
                    let mut m = owned("重复声明! ");
                    push_str(&mut m, f.name.as_str());
                    return Err(m);
                }
            },
            None => {},
        }
        self.insert_new_variable(f.name.clone(), Info { has_linkage: true, name: f.name.clone() });
        self.variable_map.push(Vec::new());
        proof {
            assert(info_scope_view(Seq::<(String, Info)>::empty()) =~= Seq::<(Seq<char>, SIdentInfo)>::empty());
            assert(info_env_view(self.variable_map@) =~= push_scope(RState {
                env: declare(old(self).state().env, f.name@, SIdentInfo { has_linkage: true, mangled_name: f.name@ }),
                count: old(self).state().count,
            }).env);
        }
        let ghost st1 = self.state();
        let ghost sparams = strs_view(f.parameters@);
        let mut new_params: Vec<String> = Vec::new();
        let mut k: usize = 0;
        proof {
            assert(sparams.take(0) =~= Seq::<Seq<char>>::empty());
            assert(strs_view(new_params@) =~= Seq::<Seq<char>>::empty());
        }
        while k < f.parameters.len()
            invariant
                *final(self.generator()) == *final(old(self).generator()),
                k <= f.parameters@.len(),
                sparams == strs_view(f.parameters@),
                sparams.len() == f.parameters@.len(),
                st1.count + sparams.len() <= u32::MAX,
                rv_params(st1, f.name@, sparams.take(k as int)) == Ok::<(Seq<Seq<char>>, RState), Seq<char>>((strs_view(new_params@), self.state())),
                self.state().count == st1.count + k,
            decreases f.parameters@.len() - k,
        {
            let ghost pre = sparams.take(k + 1);
            assert(pre.drop_last() =~= sparams.take(k as int));
            assert(pre.last() == f.parameters@[k as int]@);
            let p = &f.parameters[k];
            if self.check_variable_in_current_env(p) {
                let mut m = owned("Duplicate variable declaration in ");
                push_str(&mut m, f.name.as_str());
                push_str(&mut m, " params");
                proof {
                    lemma_rv_params_prefix_err(st1, f.name@, sparams, k + 1);
                }
                return Err(m);
            }
            let new_name = self.name_gen.new_variable_name(p.clone());
            self.insert_new_variable(p.clone(), Info { has_linkage: false, name: new_name.clone() });
            let ghost before = new_params@;
            new_params.push(new_name);
            proof {
                assert(strs_view(new_params@) =~= strs_view(before).push(new_params@.last()@));
            }
            k += 1;
        }
        proof {
            assert(sparams.take(f.parameters@.len() as int) =~= sparams);
        }
        match &f.body {
            Some(b) => {
                let new_b = self.reslove_block(b)?;
                self.pop_scope();
                Ok(FunDecl { name: f.name.clone(), parameters: new_params, body: Some(new_b), storage_class: f.storage_class })
            },
            None => {
                self.pop_scope();
                Ok(FunDecl { name: f.name.clone(), parameters: new_params, body: None, storage_class: f.storage_class })
            },
        }
    }

    /// Resolves a block in a new scope.
    fn reslove_block(&mut self, blocks: &Block) -> (r: Result<Block, String>)
        requires
            old(self).state().count + need_items(items_view(blocks.0@)) <= u32::MAX,
        ensures
            *final(final(self).generator()) == *final(old(self).generator()),
            match (r, rv_items(push_scope(old(self).state()), items_view(blocks.0@))) {
                (Ok(x), Ok((sx, st))) => items_view(x.0@) == sx && final(self).state() == pop_scope(st)
                    && st.count <= old(self).state().count + need_items(items_view(blocks.0@)),
                (Err(m), Err(n)) => m@ == n,
                _ => false,
            },
        decreases blocks, 4int,
    {
        self.variable_map.push(Vec::new());
        proof {
            assert(info_scope_view(Seq::<(String, Info)>::empty()) =~= Seq::<(Seq<char>, SIdentInfo)>::empty());
            assert(info_env_view(self.variable_map@) =~= push_scope(old(self).state()).env);
        }
        let items = &blocks.0;
        let ghost st0 = self.state();
        let ghost sitems = items_view(items@);
        let mut bs: Vec<BlockItem> = Vec::new();
        let mut k: usize = 0;
        proof {
            lemma_items_view(items@);
            assert(sitems.take(0) =~= Seq::<SBlockItem>::empty());
            assert(items_view(bs@) =~= Seq::<SBlockItem>::empty());
        }
        while k < items.len()
            invariant
                *final(self.generator()) == *final(old(self).generator()),
                k <= items@.len(),
                items == &blocks.0,
                sitems == items_view(items@),
                sitems.len() == items@.len(),
                forall|j: int| 0 <= j < items@.len() ==> #[trigger] sitems[j] == item_view(items@[j]),
                st0.count + need_items(sitems) <= u32::MAX,
                rv_items(st0, sitems.take(k as int)) == Ok::<(Seq<SBlockItem>, RState), Seq<char>>((items_view(bs@), self.state())),
                self.state().count <= st0.count + need_items(sitems.take(k as int)),
                st0 == push_scope(old(self).state()),
            decreases items@.len() - k,
        {
            let ghost pre = sitems.take(k + 1);
            assert(pre.drop_last() =~= sitems.take(k as int));
            assert(pre.last() == item_view(items@[k as int]));
            proof {
                lemma_need_items_prefix(sitems, k + 1);
                assert(decreases_to!(blocks => items@[k as int]));
            }
            let x = match self.reslove_blockitem(&items[k]) {
                Ok(x) => x,
                Err(m) => {
                    proof {
                        lemma_rv_items_prefix_err(st0, sitems, k + 1);
                    }
                    return Err(m);
                },
            };
            let ghost before = bs@;
            bs.push(x);
            proof {
                assert(bs@.drop_last() =~= before);
            }
            k += 1;
        }
        proof {
            assert(sitems.take(items@.len() as int) =~= sitems);
        }
        self.pop_scope();
        Ok(Block(bs))
    }

    /// Resolves one block item.
    fn reslove_blockitem(&mut self, b: &BlockItem) -> (r: Result<BlockItem, String>)
        requires
            old(self).state().count + need_item(item_view(*b)) <= u32::MAX,
        ensures
            *final(final(self).generator()) == *final(old(self).generator()),
            match (r, rv_item(old(self).state(), item_view(*b))) {
                (Ok(x), Ok((sx, st))) => item_view(x) == sx && final(self).state() == st
                    && st.count <= old(self).state().count + need_item(item_view(*b)),
                (Err(m), Err(n)) => m@ == n,
                _ => false,
            },
        decreases b, 3int,
    {
        match b {
            BlockItem::D(d) => {
                let new_d = self.reslove_dec(d)?;
                Ok(BlockItem::D(new_d))
            },
            BlockItem::S(s) => {
                let news = self.reslove_statement(s)?;
                Ok(BlockItem::S(news))
            },
        }
    }

    /// Resolves a declaration inside a block.
    fn reslove_dec(&mut self, d: &Declaration) -> (r: Result<Declaration, String>)
        requires
            old(self).state().count + need_item(SBlockItem::D(decl_view(*d))) <= u32::MAX,
        ensures
            *final(final(self).generator()) == *final(old(self).generator()),
            match (r, rv_item(old(self).state(), SBlockItem::D(decl_view(*d)))) {
                (Ok(x), Ok((SBlockItem::D(sx), st))) => decl_view(x) == sx && final(self).state() == st
                    && st.count <= old(self).state().count + need_item(SBlockItem::D(decl_view(*d))),
                (Err(m), Err(n)) => m@ == n,
                _ => false,
            },
        decreases d, 2int,
    {
        match d {
            Declaration::Variable(v) => {
                let new_v = self.reslove_var_decl(v)?;
                Ok(Declaration::Variable(new_v))
            },
            Declaration::Fun(f) => {
                let new_f = self.reslove_function_decl(f)?;
                Ok(Declaration::Fun(new_f))
            },
        }
    }

    /// Resolves a variable declaration in the innermost scope.
    fn reslove_var_decl(&mut self, v: &VarDecl) -> (r: Result<VarDecl, String>)
        requires
            old(self).state().count + 1 <= u32::MAX,
        ensures
            *final(final(self).generator()) == *final(old(self).generator()),
            match (r, rv_var(old(self).state(), var_decl_view(*v))) {
                (Ok(x), Ok((sx, st))) => var_decl_view(x) == sx && final(self).state() == st
                    && st.count == old(self).state().count + 1,
                (Err(m), Err(n)) => m@ == n,
                _ => false,
            },
    {
        if self.check_variable_in_current_env(&v.name) {
            return Err(owned("Duplicate variable declaration"));
        }
        let new_name = self.name_gen.new_variable_name(v.name.clone());
        self.insert_new_variable(v.name.clone(), Info { has_linkage: false, name: new_name.clone() });
        let new_init = match &v.init {
            None => None,
            Some(e) => Some(self.reslove_exp(e)?),
        };
        Ok(VarDecl { name: new_name, init: new_init, storage_class: v.storage_class })
    }

    /// Resolves a statement.
    fn reslove_statement(&mut self, d: &Statement) -> (r: Result<Statement, String>)
        requires
            old(self).state().count + need_stmt(stmt_view(*d)) <= u32::MAX,
        ensures
            *final(final(self).generator()) == *final(old(self).generator()),
            match (r, rv_stmt(old(self).state(), stmt_view(*d))) {
                (Ok(x), Ok((sx, st))) => stmt_view(x) == sx && final(self).state() == st
                    && st.count <= old(self).state().count + need_stmt(stmt_view(*d)),
                (Err(m), Err(n)) => m@ == n,
                _ => false,
            },
        decreases d, 5int,
    {
        match d {
            Statement::Expression(e) => {
                let new_exp = self.reslove_exp(e)?;
                Ok(Statement::Expression(new_exp))
            },
            Statement::Null => Ok(Statement::Null),
            Statement::Return(e) => {
                let new_exp = self.reslove_exp(e)?;
                Ok(Statement::Return(new_exp))
            },
            Statement::If { condition, then_stmt, else_stmt } => {
                let new_c = self.reslove_exp(condition)?;
                let new_left = self.reslove_statement(then_stmt)?;
                let new_right = match else_stmt {
                    Some(es) => Some(Box::new(self.reslove_statement(es)?)),
                    None => None,
                };
                Ok(Statement::If { condition: new_c, then_stmt: Box::new(new_left), else_stmt: new_right })
            },
            Statement::Compound(b) => {
                let b = self.reslove_block(b)?;
                Ok(Statement::Compound(b))
            },
            Statement::Break(n) => Ok(Statement::Break(n.clone())),
            Statement::Continue(n) => Ok(Statement::Continue(n.clone())),
            Statement::While { condition, body, .. } => {
                let new_c = self.reslove_exp(condition)?;
                let new_body = self.reslove_statement(body)?;
                Ok(Statement::While { condition: new_c, body: Box::new(new_body), label: None })
            },
            Statement::DoWhile { body, condition, .. } => {
                let new_c = self.reslove_exp(condition)?;
                let new_body = self.reslove_statement(body)?;
                Ok(Statement::DoWhile { body: Box::new(new_body), condition: new_c, label: None })
            },
            Statement::For { init, condition, post, body, .. } => {
                self.variable_map.push(Vec::new());
                proof {
                    assert(info_scope_view(Seq::<(String, Info)>::empty()) =~= Seq::<(Seq<char>, SIdentInfo)>::empty());
                    assert(info_env_view(self.variable_map@) =~= push_scope(old(self).state()).env);
                }
                let new_init = self.reslove_forinit(init)?;
                let new_c = match condition {
                    Some(item_c) => Some(self.reslove_exp(item_c)?),
                    None => None,
                };
                let new_post = match post {
                    Some(item_post) => Some(self.reslove_exp(item_post)?),
                    None => None,
                };
                let new_body = self.reslove_statement(body)?;
                self.pop_scope();
                Ok(Statement::For {
                    init: new_init,
                    condition: new_c,
                    post: new_post,
                    body: Box::new(new_body),
                    label: None,
                })
            },
        }
    }

    /// Resolves the initializer clause of a `for` loop.
    fn reslove_forinit(&mut self, init: &ForInit) -> (r: Result<ForInit, String>)
        requires
            old(self).state().count + (if *init is InitDecl { 1nat } else { 0nat }) <= u32::MAX,
        ensures
            *final(final(self).generator()) == *final(old(self).generator()),
            match (r, rv_for_init(old(self).state(), for_init_view(*init))) {
                (Ok(x), Ok((sx, st))) => for_init_view(x) == sx && final(self).state() == st
                    && st.count <= old(self).state().count + (if *init is InitDecl { 1nat } else { 0nat }),
                (Err(m), Err(n)) => m@ == n,
                _ => false,
            },
    {
        match init {
            ForInit::InitDecl(d) => {
                let new_d = self.reslove_var_decl(d)?;
                Ok(ForInit::InitDecl(new_d))
            },
            ForInit::InitExp(e) => match e {
                Some(item) => {
                    let new_e = self.reslove_exp(item)?;
                    Ok(ForInit::InitExp(Some(new_e)))
                },
                None => Ok(ForInit::InitExp(None)),
            },
        }
    }

    /// Resolves an expression.
    #[verifier::loop_isolation(false)]
    fn reslove_exp(&self, e: &Expression) -> (r: Result<Expression, String>)
        ensures
            match (r, rv_expr(self.state().env, expr_view(*e))) {
                (Ok(x), Ok(sx)) => expr_view(x) == sx,
                (Err(m), Err(n)) => m@ == n,
                _ => false,
            },
        decreases e,
    {
        match e {
            Expression::Assignment { left, right } => {
                match **left {
                    Expression::Var(_) => {},
                    _ => {
                        return Err(owned("Invalid lvaue!"));
                    },
                }
                let new_l = self.reslove_exp(left)?;
                let new_r = self.reslove_exp(right)?;
                Ok(Expression::Assignment { left: Box::new(new_l), right: Box::new(new_r) })
            },
            Expression::Var(id) => {
                let (info, _) = self.find_variable_in_env(id);
                match info {
                    Some(item) => Ok(Expression::Var(item.renamed())),
                    None => Err(owned("Undeclared variable!")),
                }
            },
            Expression::Binary { op, left, right } => {
                let new_l = self.reslove_exp(left)?;
                let new_r = self.reslove_exp(right)?;
                Ok(Expression::Binary { op: *op, left: Box::new(new_l), right: Box::new(new_r) })
            },
            Expression::Unary { op, exp } => {
                let new_e = self.reslove_exp(exp)?;
                Ok(Expression::Unary { op: *op, exp: Box::new(new_e) })
            },
            Expression::Constant(i) => Ok(Expression::Constant(*i)),
            Expression::Conditional { condition, left, right } => {
                let new_c = self.reslove_exp(condition)?;
                let new_left = self.reslove_exp(left)?;
                let new_right = self.reslove_exp(right)?;
                Ok(Expression::Conditional {
                    condition: Box::new(new_c),
                    left: Box::new(new_left),
                    right: Box::new(new_right),
                })
            },
            Expression::FuncCall { name, args } => {
                let (info, _) = self.find_variable_in_env(name);
                match info {
                    Some(r) => {
                        let new_name = r.renamed();
                        let mut new_args: Vec<Expression> = Vec::new();
                        let mut k: usize = 0;
                        proof {
                            lemma_exprs_view(args@);
                            assert(exprs_view(args@).take(0) =~= Seq::<SExpression>::empty());
                        }
                        while k < args.len()
                            invariant
                                k <= args@.len(),
                                exprs_view(args@).len() == args@.len(),
                                forall|j: int| 0 <= j < args@.len() ==> #[trigger] exprs_view(args@)[j] == expr_view(args@[j]),
                                rv_exprs(self.state().env, exprs_view(args@).take(k as int))
                                    == Ok::<Seq<SExpression>, Seq<char>>(exprs_view(new_args@)),
                            decreases args@.len() - k,
                        {
                            let ghost pre = exprs_view(args@).take(k + 1);
                            assert(pre.drop_last() =~= exprs_view(args@).take(k as int));
                            assert(pre.last() == expr_view(args@[k as int]));
                            proof {
                                assert(decreases_to!(*e => args@[k as int]));
                            }
                            let x = match self.reslove_exp(&args[k]) {
                                Ok(x) => x,
                                Err(m) => {
                                    proof {
                                        lemma_rv_exprs_prefix_err(self.state().env, exprs_view(args@), k + 1);
                                        assert(exprs_view(args@).take(args@.len() as int) =~= exprs_view(args@));
                                    }
                                    return Err(m);
                                },
                            };
                            let ghost before = new_args@;
                            new_args.push(x);
                            proof {
                                assert(new_args@.drop_last() =~= before);
                            }
                            k += 1;
                        }
                        proof {
                            assert(exprs_view(args@).take(args@.len() as int) =~= exprs_view(args@));
                        }
                        Ok(Expression::FuncCall { name: new_name, args: new_args })
                    },
                    None => Err(owned("未声明函数!")),
                }
            },
        }
    }

    /// Looks `name` up from the innermost scope outwards; also says whether
    /// it was found in the innermost scope.
    fn find_variable_in_env(&self, name: &String) -> (r: (Option<Info>, bool))
        ensures
            opt_view(r.0) == lookup_all(self.state().env, name@),
            r.0 is Some ==> (r.1 <==> in_current_scope(self.state().env, name@)),
    {
        let ghost env = self.state().env;
        let mut k: usize = self.variable_map.len();
        assert(env.take(k as int) =~= env);
        while k > 0
            invariant
                k <= self.variable_map@.len(),
                env == info_env_view(self.variable_map@),
                lookup_all(env, name@) == lookup_all(env.take(k as int), name@),
                k < self.variable_map@.len() ==> !in_current_scope(env, name@),
            decreases k,
        {
            let ghost pre = env.take(k as int);
            assert(pre.last() == info_scope_view(self.variable_map@[k - 1]@));
            let found = scope_get(&self.variable_map[k - 1], name);
            if found.is_some() {
                return (found, k == self.variable_map.len());
            }
            assert(pre.drop_last() =~= env.take(k - 1));
            k -= 1;
        }
        (None, self.variable_map.len() <= 1)
    }

    /// Whether the innermost scope declares `name`.
    fn check_variable_in_current_env(&self, name: &String) -> (r: bool)
        ensures
            r == in_current_scope(self.state().env, name@),
    {
        let n = self.variable_map.len();
        if n == 0 {
            false
        } else {
            scope_get(&self.variable_map[n - 1], name).is_some()
        }
    }

    /// Declares `name` in the innermost scope.
    fn insert_new_variable(&mut self, name: String, new: Info)
        ensures
            *final(final(self).generator()) == *final(old(self).generator()),
            final(self).state() == (RState {
                env: declare(old(self).state().env, name@, new@),
                count: old(self).state().count,
            }),
    {
        let ghost old_env = self.state().env;
        match self.variable_map.pop() {
            Some(mut top) => {
                let ghost old_top = top@;
                top.push((name, new));
                self.variable_map.push(top);
                proof {
                    assert(info_scope_view(top@) =~= info_scope_view(old_top).push((name@, new@)));
                    assert(info_env_view(self.variable_map@) =~= declare(old_env, name@, new@));
                }
            },
            None => {
                proof {
                    assert(info_env_view(self.variable_map@) =~= old_env);
                }
            },
        }
    }

    fn pop_scope(&mut self)
        ensures
            *final(final(self).generator()) == *final(old(self).generator()),
            final(self).state() == pop_scope(old(self).state()),
    {
        let ghost old_env = self.state().env;
        let _ = self.variable_map.pop();
        proof {
            assert(info_env_view(self.variable_map@) =~= if old_env.len() == 0 { old_env } else { old_env.drop_last() });
        }
    }
}

} // verus!
