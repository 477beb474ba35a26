//! Type checking and the symbol table.
//!
//! Functions and file-scope variables go in the global symbol table with
//! their linkage and definition state; parameters and block-scope variables
//! live in a stack of scopes. Calls must name functions with the right
//! number of arguments, variables must not be used as functions or the other
//! way round, and declarations of one name must agree.

use vstd::prelude::*;
use crate::frontend::c_ast::{
    decl_view, decls_view, expr_view, exprs_view, fun_decl_view, fun_decls_view, item_view, items_view, lemma_exprs_view,
    lemma_items_view, stmt_view, var_decl_view, for_init_view, Block, BlockItem,
    Declaration, Expression, ForInit, FunDecl, Program, SBlockItem, SDeclaration, SExpression,
    SForInit, SFunDecl, SProgram, SStatement, SVarDecl, Statement, StorageClass, VarDecl,
};
use crate::text::{nat_digits, owned, push_str, push_u64_decimal};

verus! {

/// The initial value of a variable with static storage.
#[derive(Debug, Clone, Copy, PartialEq, Eq, Structural)]
pub enum InitValue {
    /// A tentative definition such as `int a;`.
    Tentative,
    /// An initialized definition such as `int a = 5;`.
    Initial(i64),
    /// A declaration without definition such as `extern int a;`.
    NoInitalizer,
}

/// What the symbol table records of an identifier.
#[derive(Debug, Clone, Copy, PartialEq, Eq, Structural)]
pub enum IdentifierAttrs {
    /// A function: whether it is defined, whether it is visible to other files.
    FunAttr { defined: bool, global: bool },
    /// A variable with static storage: its initial value and visibility.
    StaticAttr { init_value: InitValue, global: bool },
    /// A variable with automatic storage.
    LocalAttr,
}

/// A symbol's type and attributes.
#[derive(Debug, Clone, Copy, PartialEq, Eq, Structural)]
pub struct SymbolInfo {
    pub tpye: CType,
    pub identifier_attrs: IdentifierAttrs,
}

/// The types of this C subset.
#[derive(Debug, Clone, Copy, PartialEq, Eq, Structural)]
pub enum CType {
    Int,
    FunType { param_count: usize },
}

/// A symbol table as the list of its insertions; a later insertion of a name
/// replaces an earlier one.
pub open spec fn table_map(s: Seq<(Seq<char>, SymbolInfo)>) -> Map<Seq<char>, SymbolInfo>
    decreases s.len(),
{
    if s.len() == 0 {
        Map::empty()
    } else {
        table_map(s.drop_last()).insert(s.last().0, s.last().1)
    }
}

/// What a map holds for a key.
pub open spec fn lookup(m: Map<Seq<char>, SymbolInfo>, k: Seq<char>) -> Option<SymbolInfo> {
    if m.contains_key(k) {
        Some(m[k])
    } else {
        None
    }
}

/// The type checker's state: the global symbol table and the scopes
/// (innermost last).
pub struct TState {
    pub globals: Map<Seq<char>, SymbolInfo>,
    pub scopes: Seq<Map<Seq<char>, SymbolInfo>>,
}

pub type TResult = Result<TState, Seq<char>>;

/// Looking a name up in the scopes, innermost first.
pub open spec fn find_in_scopes(scopes: Seq<Map<Seq<char>, SymbolInfo>>, name: Seq<char>) -> Option<SymbolInfo>
    decreases scopes.len(),
{
    if scopes.len() == 0 {
        None
    } else if scopes.last().contains_key(name) {
        Some(scopes.last()[name])
    } else {
        find_in_scopes(scopes.drop_last(), name)
    }
}

/// Looking a name up in the scopes, then in the global table.
pub open spec fn find_identifier(st: TState, name: Seq<char>) -> Option<SymbolInfo> {
    match find_in_scopes(st.scopes, name) {
        Some(i) => Some(i),
        None => lookup(st.globals, name),
    }
}

/// Declaring a variable in the innermost scope.
pub open spec fn insert_variable(st: TState, name: Seq<char>, info: SymbolInfo) -> TResult {
    if st.scopes.len() > 0 && st.scopes.last().contains_key(name) {
        Err("语义错误：在同一作用域中重定义了变量 '"@ + name + "'。"@)
    } else if st.scopes.len() > 0 {
        Ok(TState { scopes: st.scopes.update(st.scopes.len() - 1, st.scopes.last().insert(name, info)), ..st })
    } else {
        Ok(st)
    }
}

/// Setting a global symbol.
pub open spec fn set_global(st: TState, name: Seq<char>, info: SymbolInfo) -> TState {
    TState { globals: st.globals.insert(name, info), ..st }
}

pub open spec fn open_scope(st: TState) -> TState {
    TState { scopes: st.scopes.push(Map::empty()), ..st }
}

pub open spec fn close_scope(st: TState) -> TState {
    TState { scopes: if st.scopes.len() > 0 { st.scopes.drop_last() } else { st.scopes }, ..st }
}

/// Checking an expression.
pub open spec fn tc_expr(st: TState, e: SExpression) -> Result<(), Seq<char>>
    decreases e, 0int,
{
    match e {
        SExpression::Var(id) => match find_identifier(st, id) {
            Some(info) => if info.tpye != CType::Int {
                Err("语义错误：函数 '"@ + id + "' 被用作变量。"@)
            } else {
                Ok(())
            },
            None => Err("语义错误：使用了未声明的标识符 '"@ + id + "'。"@),
        },
        SExpression::FuncCall { name, args } => match find_identifier(st, name) {
            Some(info) => match info.tpye {
                CType::Int => Err("语义错误：变量 '"@ + name + "' 被用作函数。"@),
                CType::FunType { param_count } => if param_count != args.len() {
                    Err("语义错误：函数 '"@ + name + "' 调用时参数数量错误。预期 "@ + nat_digits(param_count as nat)
                        + " 个，实际 "@ + nat_digits(args.len()) + " 个。"@)
                } else {
                    tc_exprs(st, args)
                },
            },
            None => Err("语义错误：调用了未声明的函数 '"@ + name + "'。"@),
        },
        SExpression::Assignment { left, right } => match tc_expr(st, *left) {
            Err(m) => Err(m),
            Ok(_) => tc_expr(st, *right),
        },
        SExpression::Binary { left, right, .. } => match tc_expr(st, *left) {
            Err(m) => Err(m),
            Ok(_) => tc_expr(st, *right),
        },
        SExpression::Unary { exp, .. } => tc_expr(st, *exp),
        SExpression::Conditional { condition, left, right } => match tc_expr(st, *condition) {
            Err(m) => Err(m),
            Ok(_) => match tc_expr(st, *left) {
                Err(m) => Err(m),
                Ok(_) => tc_expr(st, *right),
            },
        },
        SExpression::Constant(_) => Ok(()),
    }
}

/// Checking call arguments in order.
pub open spec fn tc_exprs(st: TState, es: Seq<SExpression>) -> Result<(), Seq<char>>
    decreases es, 1int,
{
    if es.len() == 0 {
        Ok(())
    } else {
        match tc_exprs(st, es.drop_last()) {
            Err(m) => Err(m),
            Ok(_) => tc_expr(st, es.last()),
        }
    }
}

/// An optional expression.
pub open spec fn tc_opt_expr(st: TState, o: Option<SExpression>) -> Result<(), Seq<char>> {
    match o {
        Some(e) => tc_expr(st, e),
        None => Ok(()),
    }
}

/// The value of a constant initializer.
pub open spec fn const_value(e: SExpression) -> Result<i64, Seq<char>> {
    match e {
        SExpression::Constant(i) => Ok(i),
        _ => Err("初始值不是常量表达式！"@),
    }
}

/// Combining the initial values of two declarations of a file-scope variable.
pub open spec fn merge_init(old: InitValue, new: InitValue) -> Result<InitValue, Seq<char>> {
    match (old, new) {
        (InitValue::Initial(_), InitValue::Initial(_)) => Err("文件作用域变量定义冲突"@),
        (InitValue::Initial(x), _) => Ok(InitValue::Initial(x)),
        (_, InitValue::Initial(y)) => Ok(InitValue::Initial(y)),
        (InitValue::Tentative, _) => Ok(InitValue::Tentative),
        (_, InitValue::Tentative) => Ok(InitValue::Tentative),
        _ => Ok(InitValue::NoInitalizer),
    }
}

/// Checking a file-scope variable declaration.
pub open spec fn tc_file_var(st: TState, v: SVarDecl) -> TResult {
    let is_extern = v.storage_class == Some(StorageClass::Extern);
    let first = match v.init {
        Some(e) => match const_value(e) {
            Err(m) => Err(m),
            Ok(c) => Ok(InitValue::Initial(c)),
        },
        None => Ok(if is_extern { InitValue::NoInitalizer } else { InitValue::Tentative }),
    };
    match first {
        Err(m) => Err(m),
        Ok(initial) => {
            let global = v.storage_class != Some(StorageClass::Static);
            match lookup(st.globals, v.name) {
                None => Ok(set_global(st, v.name, SymbolInfo {
                    tpye: CType::Int,
                    identifier_attrs: IdentifierAttrs::StaticAttr { init_value: initial, global },
                })),
                Some(old) => if old.tpye != CType::Int {
                    Err("函数 '"@ + v.name + "' 被重新声明为变量"@)
                } else {
                    match old.identifier_attrs {
                        IdentifierAttrs::StaticAttr { init_value: old_init, global: old_global } => {
                            if !is_extern && old_global != global {
                                Err("变量链接冲突"@)
                            } else {
                                match merge_init(old_init, initial) {
                                    Err(m) => Err(m),
                                    Ok(merged) => Ok(set_global(st, v.name, SymbolInfo {
                                        tpye: CType::Int,
                                        identifier_attrs: IdentifierAttrs::StaticAttr {
                                            init_value: merged,
                                            global: if is_extern { old_global } else { global },
                                        },
                                    })),
                                }
                            }
                        },
                        _ => Err("'"@ + v.name + "' 被重新声明为不同类型的符号"@),
                    }
                },
            }
        },
    }
}

/// Checking a block-scope variable declaration.
pub open spec fn tc_block_var(st: TState, v: SVarDecl) -> TResult {
    match v.storage_class {
        Some(StorageClass::Extern) => if v.init is Some {
            Err("局部 extern 变量声明带有初始值"@)
        } else {
            match find_identifier(st, v.name) {
                Some(old) => if old.tpye != CType::Int {
                    Err("函数 '"@ + v.name + "' 被重新声明为变量"@)
                } else {
                    Ok(st)
                },
                None => Ok(set_global(st, v.name, SymbolInfo {
                    tpye: CType::Int,
                    identifier_attrs: IdentifierAttrs::StaticAttr { init_value: InitValue::NoInitalizer, global: true },
                })),
            }
        },
        Some(StorageClass::Static) => {
            let initial = match v.init {
                Some(e) => match const_value(e) {
                    Err(_) => Err("局部静态变量的初始值不是常量"@),
                    Ok(c) => Ok(InitValue::Initial(c)),
                },
                None => Ok(InitValue::Initial(0)),
            };
            match initial {
                Err(m) => Err(m),
                Ok(i) => insert_variable(st, v.name, SymbolInfo {
                    tpye: CType::Int,
                    identifier_attrs: IdentifierAttrs::StaticAttr { init_value: i, global: false },
                }),
            }
        },
        None => match insert_variable(st, v.name, SymbolInfo { tpye: CType::Int, identifier_attrs: IdentifierAttrs::LocalAttr }) {
            Err(m) => Err(m),
            Ok(st2) => match v.init {
                Some(e) => match tc_expr(st2, e) {
                    Err(m) => Err(m),
                    Ok(_) => Ok(st2),
                },
                None => Ok(st2),
            },
        },
    }
}

/// Checking the initializer clause of a `for` loop.
pub open spec fn tc_for_init(st: TState, i: SForInit) -> TResult {
    match i {
        SForInit::InitDecl(d) => if d.storage_class is Some {
            Err("for 循环初始值设定项中不允许使用存储类说明符"@)
        } else {
            tc_block_var(st, d)
        },
        SForInit::InitExp(o) => match tc_opt_expr(st, o) {
            Err(m) => Err(m),
            Ok(_) => Ok(st),
        },
    }
}

/// Checking a statement.
pub open spec fn tc_stmt(st: TState, s: SStatement) -> TResult
    decreases s, 0int,
{
    match s {
        SStatement::Compound(items) => match tc_items(open_scope(st), items) {
            Err(m) => Err(m),
            Ok(st2) => Ok(close_scope(st2)),
        },
        SStatement::For { init, condition, post, body, .. } => match tc_for_init(open_scope(st), init) {
            Err(m) => Err(m),
            Ok(st2) => match tc_opt_expr(st2, condition) {
                Err(m) => Err(m),
                Ok(_) => match tc_opt_expr(st2, post) {
                    Err(m) => Err(m),
                    Ok(_) => match tc_stmt(st2, *body) {
                        Err(m) => Err(m),
                        Ok(st3) => Ok(close_scope(st3)),
                    },
                },
            },
        },
        SStatement::Expression(e) => match tc_expr(st, e) {
            Err(m) => Err(m),
            Ok(_) => Ok(st),
        },
        SStatement::Return(e) => match tc_expr(st, e) {
            Err(m) => Err(m),
            Ok(_) => Ok(st),
        },
        SStatement::If { condition, then_stmt, else_stmt } => match tc_expr(st, condition) {
            Err(m) => Err(m),
            Ok(_) => match tc_stmt(st, *then_stmt) {
                Err(m) => Err(m),
                Ok(st2) => match else_stmt {
                    Some(es) => tc_stmt(st2, *es),
                    None => Ok(st2),
                },
            },
        },
        _ => Ok(st),
    }
}

/// Checking block items in order.
pub open spec fn tc_items(st: TState, items: Seq<SBlockItem>) -> TResult
    decreases items, 1int,
{
    if items.len() == 0 {
        Ok(st)
    } else {
        match tc_items(st, items.drop_last()) {
            Err(m) => Err(m),
            Ok(st2) => tc_item(st2, items.last()),
        }
    }
}

pub open spec fn tc_item(st: TState, item: SBlockItem) -> TResult
    decreases item, 0int,
{
    match item {
        SBlockItem::S(s) => tc_stmt(st, s),
        SBlockItem::D(SDeclaration::Variable(v)) => tc_block_var(st, v),
        SBlockItem::D(SDeclaration::Fun(f)) => if f.body is Some {
            Err("函数定义不允许在块作用域内。"@)
        } else {
            tc_fun(st, f)
        },
    }
}

/// Declaring the parameters of a function as local variables, in order.
pub open spec fn tc_params(st: TState, ps: Seq<Seq<char>>) -> TResult
    decreases ps.len(),
{
    if ps.len() == 0 {
        Ok(st)
    } else {
        match tc_params(st, ps.drop_last()) {
            Err(m) => Err(m),
            Ok(st2) => insert_variable(st2, ps.last(), SymbolInfo { tpye: CType::Int, identifier_attrs: IdentifierAttrs::LocalAttr }),
        }
    }
}

/// Checking a function declaration or definition.
pub open spec fn tc_fun(st: TState, f: SFunDecl) -> TResult
    decreases f, 0int,
{
    let fun_type = CType::FunType { param_count: f.parameters.len() as usize };
    let has_body = f.body is Some;
    let is_static = f.storage_class == Some(StorageClass::Static);
    let prior: Result<(bool, bool), Seq<char>> = match lookup(st.globals, f.name) {
        None => Ok((false, !is_static)),
        Some(old) => if old.tpye != fun_type {
            Err("函数 '"@ + f.name + "' 的声明不兼容"@)
        } else {
            match old.identifier_attrs {
                IdentifierAttrs::FunAttr { defined, global } => if defined && has_body {
                    Err("函数 '"@ + f.name + "' 被多次定义"@)
                } else if global && is_static {
                    Err("静态函数声明跟在非静态函数声明之后"@)
                } else {
                    Ok((defined, global))
                },
                _ => Err("'"@ + f.name + "' 被重新声明为不同类型的符号"@),
            }
        },
    };
    match prior {
        Err(m) => Err(m),
        Ok((already_defined, global)) => {
            let st1 = set_global(st, f.name, SymbolInfo {
                tpye: fun_type,
                identifier_attrs: IdentifierAttrs::FunAttr { defined: already_defined || has_body, global },
            });
            match f.body {
                None => Ok(st1),
                Some(items) => match tc_params(open_scope(st1), f.parameters) {
                    Err(m) => Err(m),
                    Ok(st2) => match tc_items(st2, items) {
                        Err(m) => Err(m),
                        Ok(st3) => Ok(close_scope(st3)),
                    },
                },
            }
        },
    }
}

/// Checking one declaration at file scope.
pub open spec fn tc_file_decl(st: TState, d: SDeclaration) -> TResult {
    match d {
        SDeclaration::Fun(f) => tc_fun(st, f),
        SDeclaration::Variable(v) => tc_file_var(st, v),
    }
}

/// Checking the declarations of a file in order, at file scope.
pub open spec fn tc_file_decls(st: TState, ds: Seq<SDeclaration>) -> TResult
    decreases ds.len(),
{
    if ds.len() == 0 {
        Ok(st)
    } else {
        match tc_file_decls(st, ds.drop_last()) {
            Err(m) => Err(m),
            Ok(st2) => tc_file_decl(st2, ds.last()),
        }
    }
}

/// Checking the declarations of a file: the global symbol table they produce.
pub open spec fn tc_file(ds: Seq<SDeclaration>) -> Result<Map<Seq<char>, SymbolInfo>, Seq<char>> {
    let st0 = TState { globals: Map::empty(), scopes: seq![Map::empty()] };
    match tc_file_decls(st0, ds) {
        Err(m) => Err(m),
        Ok(st) => Ok(st.globals),
    }
}

/// Checking a program: the global symbol table its declarations produce.
pub open spec fn tc_program(p: SProgram) -> Result<Map<Seq<char>, SymbolInfo>, Seq<char>> {
    tc_file(p.declarations)
}

proof fn lemma_tc_file_decls_prefix_err(st: TState, s: Seq<SDeclaration>, k: int)
    requires
        0 <= k <= s.len(),
        tc_file_decls(st, s.take(k)) is Err,
    ensures
        tc_file_decls(st, s) == tc_file_decls(st, s.take(k)),
    decreases s.len(),
{
    if k == s.len() {
        assert(s.take(k) =~= s);
    } else {
        assert(s.drop_last().take(k) =~= s.take(k));
        lemma_tc_file_decls_prefix_err(st, s.drop_last(), k);
    }
}

// ---------------------------------------------------------------------------
// Prefix lemmas.
// ---------------------------------------------------------------------------

proof fn lemma_tc_exprs_prefix_err(st: TState, s: Seq<SExpression>, k: int)
    requires
        0 <= k <= s.len(),
        tc_exprs(st, s.take(k)) is Err,
    ensures
        tc_exprs(st, s) == tc_exprs(st, s.take(k)),
    decreases s.len(),
{
    if k == s.len() {
        assert(s.take(k) =~= s);
    } else {
        assert(s.drop_last().take(k) =~= s.take(k));
        lemma_tc_exprs_prefix_err(st, s.drop_last(), k);
    }
}

proof fn lemma_tc_items_prefix_err(st: TState, s: Seq<SBlockItem>, k: int)
    requires
        0 <= k <= s.len(),
        tc_items(st, s.take(k)) is Err,
    ensures
        tc_items(st, s) == tc_items(st, s.take(k)),
    decreases s.len(),
{
    if k == s.len() {
        assert(s.take(k) =~= s);
    } else {
        assert(s.drop_last().take(k) =~= s.take(k));
        lemma_tc_items_prefix_err(st, s.drop_last(), k);
    }
}

proof fn lemma_tc_params_prefix_err(st: TState, s: Seq<Seq<char>>, k: int)
    requires
        0 <= k <= s.len(),
        tc_params(st, s.take(k)) is Err,
    ensures
        tc_params(st, s) == tc_params(st, s.take(k)),
    decreases s.len(),
{
    if k == s.len() {
        assert(s.take(k) =~= s);
    } else {
        assert(s.drop_last().take(k) =~= s.take(k));
        lemma_tc_params_prefix_err(st, s.drop_last(), k);
    }
}

// ---------------------------------------------------------------------------
// Implementation
// ---------------------------------------------------------------------------

/// The views of a table's insertions.
pub open spec fn log_view(v: Seq<(String, SymbolInfo)>) -> Seq<(Seq<char>, SymbolInfo)> {
    v.map_values(|p: (String, SymbolInfo)| (p.0@, p.1))
}

/// A symbol table: the global table the type checker produces.
#[derive(Debug)]
pub struct SymbolTable {
    entries: Vec<(String, SymbolInfo)>,
}

impl View for SymbolTable {
    type V = Map<Seq<char>, SymbolInfo>;

    closed spec fn view(&self) -> Map<Seq<char>, SymbolInfo> {
        table_map(log_view(self.entries@))
    }
}

/// What the insertions `v` say of `name`: the last insertion of it wins.
fn log_get(v: &Vec<(String, SymbolInfo)>, name: &String) -> (r: Option<SymbolInfo>)
    ensures
        r == lookup(table_map(log_view(v@)), name@),
{
    let ghost s = log_view(v@);
    let mut k: usize = v.len();
    assert(s.take(s.len() as int) =~= s);
    while k > 0
        invariant
            k <= v@.len(),
            s == log_view(v@),
            lookup(table_map(s), name@) == lookup(table_map(s.take(k as int)), name@),
        decreases k,
    {
        let ghost pre = s.take(k as int);
        assert(pre.drop_last() =~= s.take(k - 1));
        assert(pre.last() == (v@[k - 1].0@, v@[k - 1].1));
        if v[k - 1].0 == *name {
            return Some(v[k - 1].1);
        }
        k -= 1;
    }
    None
}

impl SymbolTable {
    /// An empty table.
    pub fn new() -> (r: SymbolTable)
        ensures
            r@ == Map::<Seq<char>, SymbolInfo>::empty(),
    {
        let r = SymbolTable { entries: Vec::new() };
        assert(log_view(r.entries@) =~= Seq::<(Seq<char>, SymbolInfo)>::empty());
        r
    }

    /// What the table holds for `name`.
    pub fn get(&self, name: &String) -> (r: Option<SymbolInfo>)
        ensures
            r == lookup(self@, name@),
    {
        log_get(&self.entries, name)
    }

    /// Whether the table holds `name`.
    pub fn contains_key(&self, name: &String) -> (r: bool)
        ensures
            r == self@.contains_key(name@),
    {
        self.get(name).is_some()
    }

    /// Sets the entry of `name`.
    pub fn insert(&mut self, name: String, info: SymbolInfo)
        ensures
            final(self)@ == old(self)@.insert(name@, info),
    {
        let ghost before = self.entries@;
        self.entries.push((name, info));
        assert(log_view(self.entries@).drop_last() =~= log_view(before));
    }

    /// The insertions made into the table, in order; a later insertion of a
    /// name replaces an earlier one.
    pub fn insertions(&self) -> (r: &Vec<(String, SymbolInfo)>)
        ensures
            table_map(log_view(r@)) == self@,
    {
        &self.entries
    }
}

/// The type checker: the global table and the scopes, innermost last.
#[derive(Debug)]
pub struct TypeChecker {
    symbol_tables: SymbolTable,
    scopes: Vec<SymbolTable>,
}

fn quote(prefix: &str, name: &String, suffix: &str) -> (r: String)
    ensures
        r@ == prefix@ + name@ + suffix@,
{
    let mut r = owned(prefix);
    push_str(&mut r, name.as_str());
    push_str(&mut r, suffix);
    r
}

/// The value of a constant initializer.
fn eval_const_expr(expr: &Expression) -> (r: Result<i64, String>)
    ensures
        match (r, const_value(expr_view(*expr))) {
            (Ok(x), Ok(y)) => x == y,
            (Err(m), Err(n)) => m@ == n,
            _ => false,
        },
{
    match expr {
        Expression::Constant(i) => Ok(*i),
        _ => Err(owned("初始值不是常量表达式！")),
    }
}

fn merge_initial(old: InitValue, new: InitValue) -> (r: Result<InitValue, String>)
    ensures
        match (r, merge_init(old, new)) {
            (Ok(x), Ok(y)) => x == y,
            (Err(m), Err(n)) => m@ == n,
            _ => false,
        },
{
    match (old, new) {
        (InitValue::Initial(_), InitValue::Initial(_)) => Err(owned("文件作用域变量定义冲突")),
        (InitValue::Initial(x), _) => Ok(InitValue::Initial(x)),
        (_, InitValue::Initial(y)) => Ok(InitValue::Initial(y)),
        (InitValue::Tentative, _) | (_, InitValue::Tentative) => Ok(InitValue::Tentative),
        (InitValue::NoInitalizer, InitValue::NoInitalizer) => Ok(InitValue::NoInitalizer),
    }
}

impl TypeChecker {
    /// The checker's tables.
    pub closed spec fn state(&self) -> TState {
        TState { globals: self.symbol_tables@, scopes: self.scopes@.map_values(|t: SymbolTable| t@) }
    }

    /// A checker with empty tables.
    pub fn new() -> (r: Self)
        ensures
            r.state() == (TState { globals: Map::empty(), scopes: Seq::empty() }),
    {
        let r = TypeChecker { symbol_tables: SymbolTable::new(), scopes: Vec::new() };
        assert(r.scopes@.map_values(|t: SymbolTable| t@) =~= Seq::<Map<Seq<char>, SymbolInfo>>::empty());
        r
    }

    /// Checks a program; on success, the global symbol table.
    pub fn typecheck_program(self, ast: &Program) -> (r: Result<SymbolTable, String>)
        requires
            self.state() == (TState { globals: Map::empty(), scopes: Seq::empty() }),
        ensures
            match (r, tc_program(ast@)) {
                (Ok(t), Ok(m)) => t@ == m,
                (Err(m), Err(n)) => m@ == n,
                _ => false,
            },
    {
        self.typecheck_declarations(&ast.declarations)
    }

    /// Checks the declarations of a file, functions and file-scope variables,
    /// in order; on success, the global symbol table.
    pub fn typecheck_declarations(self, declarations: &Vec<Declaration>) -> (r: Result<SymbolTable, String>)
        requires
            self.state() == (TState { globals: Map::empty(), scopes: Seq::empty() }),
        ensures
            match (r, tc_file(decls_view(declarations@))) {
                (Ok(t), Ok(m)) => t@ == m,
                (Err(m), Err(n)) => m@ == n,
                _ => false,
            },
    {
        let mut checker = self;
        checker.push_scope();
        let ghost st0 = checker.state();
        assert(st0.scopes =~= seq![Map::<Seq<char>, SymbolInfo>::empty()]);
        let ghost sds = decls_view(declarations@);
        let mut k: usize = 0;
        assert(sds.take(0) =~= Seq::<SDeclaration>::empty());
        while k < declarations.len()
            invariant
                k <= declarations@.len(),
                sds == decls_view(declarations@),
                st0 == (TState { globals: Map::empty(), scopes: seq![Map::<Seq<char>, SymbolInfo>::empty()] }),
                tc_file_decls(st0, sds.take(k as int)) == Ok::<TState, Seq<char>>(checker.state()),
            decreases declarations@.len() - k,
        {
            let ghost pre = sds.take(k + 1);
            assert(pre.drop_last() =~= sds.take(k as int));
            assert(pre.last() == decl_view(declarations@[k as int]));
            match checker.typecheck_declaration(&declarations[k], true) {
                Ok(()) => {},
                Err(m) => {
                    proof {
                        lemma_tc_file_decls_prefix_err(st0, sds, k + 1);
                    }
                    return Err(m);
                },
            }
            k += 1;
        }
        assert(sds.take(declarations@.len() as int) =~= sds);
        checker.pop_scope();
        let mut result = SymbolTable::new();
        std::mem::swap(&mut result, &mut checker.symbol_tables);
        Ok(result)
    }

    /// Checks a declaration at file scope or in a block.
    fn typecheck_declaration(&mut self, d: &Declaration, is_file_scope: bool) -> (r: Result<(), String>)
        ensures
            is_file_scope ==> match d {
                Declaration::Fun(f) => match (r, tc_fun(old(self).state(), fun_decl_view(*f))) {
                    (Ok(_), Ok(st)) => final(self).state() == st,
                    (Err(m), Err(n)) => m@ == n,
                    _ => false,
                },
                Declaration::Variable(v) => match (r, tc_file_var(old(self).state(), var_decl_view(*v))) {
                    (Ok(_), Ok(st)) => final(self).state() == st,
                    (Err(m), Err(n)) => m@ == n,
                    _ => false,
                },
            },
            !is_file_scope ==> match (r, tc_item(old(self).state(), item_view(BlockItem::D(*d)))) {
                (Ok(_), Ok(st)) => final(self).state() == st,
                (Err(m), Err(n)) => m@ == n,
                _ => false,
            },
        decreases d, 2int,
    {
        match d {
            Declaration::Fun(f) => {
                if !is_file_scope && f.body.is_some() {
                    return Err(owned("函数定义不允许在块作用域内。"));
                }
                self.typecheck_function_declaration(f)
            },
            Declaration::Variable(v) => {
                if is_file_scope {
                    self.typecheck_file_scope_variable_declaration(v)
                } else {
                    self.typecheck_block_scope_variable_declaration(v)
                }
            },
        }
    }

    /// Checks a function declaration or definition against the global table.
    #[verifier::loop_isolation(false)]
    fn typecheck_function_declaration(&mut self, decl: &FunDecl) -> (r: Result<(), String>)
        ensures
            match (r, tc_fun(old(self).state(), fun_decl_view(*decl))) {
                (Ok(_), Ok(st)) => final(self).state() == st,
                (Err(m), Err(n)) => m@ == n,
                _ => false,
            },
        decreases decl, 1int,
    {
        let ghost sf = fun_decl_view(*decl);
        let param_count = decl.parameters.len();
        assert(param_count == sf.parameters.len());
        let fun_type = CType::FunType { param_count };
        let has_body = decl.body.is_some();
        let mut already_defined = false;
        let is_static = match decl.storage_class {
            Some(StorageClass::Static) => true,
            _ => false,
        };
        let mut global = !is_static;
        match self.symbol_tables.get(&decl.name) {
            Some(old_decl_info) => {
                if old_decl_info.tpye != fun_type {
                    return Err(quote("函数 '", &decl.name, "' 的声明不兼容"));
                }
                match old_decl_info.identifier_attrs {
                    IdentifierAttrs::FunAttr { defined, global: old_global } => {
                        already_defined = defined;
                        if already_defined && has_body {
                            return Err(quote("函数 '", &decl.name, "' 被多次定义"));
                        }
                        if old_global && is_static {
                            return Err(owned("静态函数声明跟在非静态函数声明之后"));
                        }
                        global = old_global;
                    },
                    _ => {
                        return Err(quote("'", &decl.name, "' 被重新声明为不同类型的符号"));
                    },
                }
            },
            None => {},
        }
        self.symbol_tables.insert(decl.name.clone(), SymbolInfo {
            tpye: fun_type,
            identifier_attrs: IdentifierAttrs::FunAttr { defined: already_defined || has_body, global },
        });
        match &decl.body {
            Some(body_block) => {
                self.push_scope();
                let ghost st1 = self.state();
                let ghost ps = sf.parameters;
                let mut k: usize = 0;
                assert(ps.take(0) =~= Seq::<Seq<char>>::empty());
                while k < decl.parameters.len()
                    invariant
                        k <= decl.parameters@.len(),
                        ps == sf.parameters,
                        sf == fun_decl_view(*decl),
                        ps.len() == decl.parameters@.len(),
                        tc_params(st1, ps.take(k as int)) == Ok::<TState, Seq<char>>(self.state()),
                    decreases decl.parameters@.len() - k,
                {
                    let ghost pre = ps.take(k + 1);
                    assert(pre.drop_last() =~= ps.take(k as int));
                    assert(pre.last() == decl.parameters@[k as int]@);
                    match self.insert_variable(
                        decl.parameters[k].clone(),
                        SymbolInfo { tpye: CType::Int, identifier_attrs: IdentifierAttrs::LocalAttr },
                    ) {
                        Ok(()) => {},
                        Err(m) => {
                            proof {
                                lemma_tc_params_prefix_err(st1, ps, k + 1);
                            }
                            return Err(m);
                        },
                    }
                    k += 1;
                }
                assert(ps.take(ps.len() as int) =~= ps);
                self.typecheck_block_body(body_block)?;
                self.pop_scope();
            },
            None => {},
        }
        Ok(())
    }

    /// Checks a file-scope variable declaration against the global table.
    fn typecheck_file_scope_variable_declaration(&mut self, decl: &VarDecl) -> (r: Result<(), String>)
        ensures
            match (r, tc_file_var(old(self).state(), var_decl_view(*decl))) {
                (Ok(_), Ok(st)) => final(self).state() == st,
                (Err(m), Err(n)) => m@ == n,
                _ => false,
            },
    {
        let is_extern = match decl.storage_class {
            Some(StorageClass::Extern) => true,
            _ => false,
        };
        let is_static = match decl.storage_class {
            Some(StorageClass::Static) => true,
            _ => false,
        };
        let mut initial_value = match &decl.init {
            Some(init_expr) => InitValue::Initial(eval_const_expr(init_expr)?),
            None => if is_extern {
                InitValue::NoInitalizer
            } else {
                InitValue::Tentative
            },
        };
        let mut global = !is_static;
        match self.symbol_tables.get(&decl.name) {
            Some(old_decl_info) => {
                if old_decl_info.tpye != CType::Int {
                    return Err(quote("函数 '", &decl.name, "' 被重新声明为变量"));
                }
                match old_decl_info.identifier_attrs {
                    IdentifierAttrs::StaticAttr { init_value: old_init, global: old_global } => {
                        if is_extern {
                            global = old_global;
                        } else if old_global != global {
                            return Err(owned("变量链接冲突"));
                        }
                        initial_value = merge_initial(old_init, initial_value)?;
                    },
                    _ => {
                        return Err(quote("'", &decl.name, "' 被重新声明为不同类型的符号"));
                    },
                }
            },
            None => {},
        }
        self.symbol_tables.insert(decl.name.clone(), SymbolInfo {
            tpye: CType::Int,
            identifier_attrs: IdentifierAttrs::StaticAttr { init_value: initial_value, global },
        });
        Ok(())
    }

    /// Checks a block-scope variable declaration.
    fn typecheck_block_scope_variable_declaration(&mut self, decl: &VarDecl) -> (r: Result<(), String>)
        ensures
            match (r, tc_block_var(old(self).state(), var_decl_view(*decl))) {
                (Ok(_), Ok(st)) => final(self).state() == st,
                (Err(m), Err(n)) => m@ == n,
                _ => false,
            },
    {
        match &decl.storage_class {
            Some(StorageClass::Extern) => {
                if decl.init.is_some() {
                    return Err(owned("局部 extern 变量声明带有初始值"));
                }
                match self.find_identifier(&decl.name) {
                    Some(old_decl_info) => {
                        if old_decl_info.tpye != CType::Int {
                            return Err(quote("函数 '", &decl.name, "' 被重新声明为变量"));
                        }
                    },
                    None => {
                        self.symbol_tables.insert(decl.name.clone(), SymbolInfo {
                            tpye: CType::Int,
                            identifier_attrs: IdentifierAttrs::StaticAttr { init_value: InitValue::NoInitalizer, global: true },
                        });
                    },
                }
                Ok(())
            },
            Some(StorageClass::Static) => {
                let initial_value = match &decl.init {
                    Some(init_expr) => match eval_const_expr(init_expr) {
                        Ok(c) => InitValue::Initial(c),
                        Err(_) => {
                            return Err(owned("局部静态变量的初始值不是常量"));
                        },
                    },
                    None => InitValue::Initial(0),
                };
                self.insert_variable(decl.name.clone(), SymbolInfo {
                    tpye: CType::Int,
                    identifier_attrs: IdentifierAttrs::StaticAttr { init_value: initial_value, global: false },
                })
            },
            None => {
                self.insert_variable(decl.name.clone(), SymbolInfo { tpye: CType::Int, identifier_attrs: IdentifierAttrs::LocalAttr })?;
                match &decl.init {
                    Some(e) => self.typecheck_expression(e),
                    None => Ok(()),
                }
            },
        }
    }

    /// Checks the items of a block in the current scope.
    fn typecheck_block_body(&mut self, block: &Block) -> (r: Result<(), String>)
        ensures
            match (r, tc_items(old(self).state(), items_view(block.0@))) {
                (Ok(_), Ok(st)) => final(self).state() == st,
                (Err(m), Err(n)) => m@ == n,
                _ => false,
            },
        decreases block, 3int,
    {
        let items = &block.0;
        let ghost st0 = self.state();
        let ghost sitems = items_view(items@);
        let mut k: usize = 0;
        proof {
            lemma_items_view(items@);
            assert(sitems.take(0) =~= Seq::<SBlockItem>::empty());
        }
        while k < items.len()
            invariant
                k <= items@.len(),
                items == &block.0,
                sitems == items_view(items@),
                sitems.len() == items@.len(),
                forall|j: int| 0 <= j < items@.len() ==> #[trigger] sitems[j] == item_view(items@[j]),
                tc_items(st0, sitems.take(k as int)) == Ok::<TState, Seq<char>>(self.state()),
                st0 == old(self).state(),
            decreases items@.len() - k,
        {
            let ghost pre = sitems.take(k + 1);
            assert(pre.drop_last() =~= sitems.take(k as int));
            assert(pre.last() == item_view(items@[k as int]));
            proof {
                assert(decreases_to!(block => items@[k as int]));
            }
            match self.typecheck_block_item(&items[k]) {
                Ok(()) => {},
                Err(m) => {
                    proof {
                        lemma_tc_items_prefix_err(st0, sitems, k + 1);
                    }
                    return Err(m);
                },
            }
            k += 1;
        }
        assert(sitems.take(items@.len() as int) =~= sitems);
        Ok(())
    }

    /// Checks one block item.
    fn typecheck_block_item(&mut self, item: &BlockItem) -> (r: Result<(), String>)
        ensures
            match (r, tc_item(old(self).state(), item_view(*item))) {
                (Ok(_), Ok(st)) => final(self).state() == st,
                (Err(m), Err(n)) => m@ == n,
                _ => false,
            },
        decreases item, 3int,
    {
        match item {
            BlockItem::D(d) => self.typecheck_declaration(d, false),
            BlockItem::S(s) => self.typecheck_statement(s),
        }
    }

    /// Checks a statement. Loops other than `for` are not looked into.
    fn typecheck_statement(&mut self, stmt: &Statement) -> (r: Result<(), String>)
        ensures
            match (r, tc_stmt(old(self).state(), stmt_view(*stmt))) {
                (Ok(_), Ok(st)) => final(self).state() == st,
                (Err(m), Err(n)) => m@ == n,
                _ => false,
            },
        decreases stmt, 4int,
    {
        match stmt {
            Statement::Compound(b) => {
                self.push_scope();
                self.typecheck_block_body(b)?;
                self.pop_scope();
                Ok(())
            },
            Statement::For { init, condition, post, body, .. } => {
                self.push_scope();
                self.resolve_for_init(init)?;
                match condition {
                    Some(c) => self.typecheck_expression(c)?,
                    None => {},
                }
                match post {
                    Some(p) => self.typecheck_expression(p)?,
                    None => {},
                }
                self.typecheck_statement(body)?;
                self.pop_scope();
                Ok(())
            },
            Statement::Expression(e) => self.typecheck_expression(e),
            Statement::Return(e) => self.typecheck_expression(e),
            Statement::If { condition, then_stmt, else_stmt } => {
                self.typecheck_expression(condition)?;
                self.typecheck_statement(then_stmt)?;
                match else_stmt {
                    Some(es) => self.typecheck_statement(es)?,
                    None => {},
                }
                Ok(())
            },
            _ => Ok(()),
        }
    }

    /// Checks the initializer clause of a `for` loop.
    fn resolve_for_init(&mut self, init: &ForInit) -> (r: Result<(), String>)
        ensures
            match (r, tc_for_init(old(self).state(), for_init_view(*init))) {
                (Ok(_), Ok(st)) => final(self).state() == st,
                (Err(m), Err(n)) => m@ == n,
                _ => false,
            },
    {
        match init {
            ForInit::InitDecl(d) => {
                if d.storage_class.is_some() {
                    return Err(owned("for 循环初始值设定项中不允许使用存储类说明符"));
                }
                self.typecheck_block_scope_variable_declaration(d)
            },
            ForInit::InitExp(Some(e)) => self.typecheck_expression(e),
            ForInit::InitExp(None) => Ok(()),
        }
    }

    /// Checks an expression.
    #[verifier::loop_isolation(false)]
    fn typecheck_expression(&mut self, e: &Expression) -> (r: Result<(), String>)
        ensures
            final(self).state() == old(self).state(),
            match (r, tc_expr(old(self).state(), expr_view(*e))) {
                (Ok(_), Ok(_)) => true,
                (Err(m), Err(n)) => m@ == n,
                _ => false,
            },
        decreases e,
    {
        match e {
            Expression::Var(id) => match self.find_identifier(id) {
                Some(info) => {
                    if info.tpye != CType::Int {
                        Err(quote("语义错误：函数 '", id, "' 被用作变量。"))
                    } else {
                        Ok(())
                    }
                },
                None => Err(quote("语义错误：使用了未声明的标识符 '", id, "'。")),
            },
            Expression::FuncCall { name, args } => match self.find_identifier(name) {
                Some(info) => match info.tpye {
                    CType::Int => Err(quote("语义错误：变量 '", name, "' 被用作函数。")),
                    CType::FunType { param_count } => {
                        if param_count != args.len() {
                            let mut m = quote("语义错误：函数 '", name, "' 调用时参数数量错误。预期 ");
                            push_u64_decimal(&mut m, param_count as u64);
                            push_str(&mut m, " 个，实际 ");
                            push_u64_decimal(&mut m, args.len() as u64);
                            push_str(&mut m, " 个。");
                            proof {
                                lemma_exprs_view(args@);
                            }
                            Err(m)
                        } else {
                            let ghost st = self.state();
                            let ghost sargs = exprs_view(args@);
                            let mut k: usize = 0;
                            proof {
                                lemma_exprs_view(args@);
                                assert(sargs.take(0) =~= Seq::<SExpression>::empty());
                            }
                            while k < args.len()
                                invariant
                                    k <= args@.len(),
                                    st == self.state(),
                                    sargs == exprs_view(args@),
                                    sargs.len() == args@.len(),
                                    forall|j: int| 0 <= j < args@.len() ==> #[trigger] sargs[j] == expr_view(args@[j]),
                                    tc_exprs(st, sargs.take(k as int)) is Ok,
                                decreases args@.len() - k,
                            {
                                let ghost pre = sargs.take(k + 1);
                                assert(pre.drop_last() =~= sargs.take(k as int));
                                assert(pre.last() == expr_view(args@[k as int]));
                                proof {
                                    assert(decreases_to!(*e => args@[k as int]));
                                }
                                match self.typecheck_expression(&args[k]) {
                                    Ok(()) => {
                                        assert(tc_expr(st, pre.last()) is Ok);
                                        assert(tc_exprs(st, pre) == tc_expr(st, pre.last()));
                                    },
                                    Err(m) => {
                                        proof {
                                            lemma_tc_exprs_prefix_err(st, sargs, k + 1);
                                        }
                                        return Err(m);
                                    },
                                }
                                k += 1;
                            }
                            assert(sargs.take(args@.len() as int) =~= sargs);
                            Ok(())
                        }
                    },
                },
                None => Err(quote("语义错误：调用了未声明的函数 '", name, "'。")),
            },
            Expression::Assignment { left, right } => {
                self.typecheck_expression(left)?;
                self.typecheck_expression(right)?;
                Ok(())
            },
            Expression::Binary { left, right, .. } => {
                self.typecheck_expression(left)?;
                self.typecheck_expression(right)?;
                Ok(())
            },
            Expression::Unary { exp, .. } => {
                self.typecheck_expression(exp)?;
                Ok(())
            },
            Expression::Conditional { condition, left, right } => {
                self.typecheck_expression(condition)?;
                self.typecheck_expression(left)?;
                self.typecheck_expression(right)?;
                Ok(())
            },
            Expression::Constant(_) => Ok(()),
        }
    }

    /// Looks a name up in the scopes, innermost first, then in the global
    /// table.
    fn find_identifier(&self, name: &String) -> (r: Option<SymbolInfo>)
        ensures
            r == find_identifier(self.state(), name@),
    {
        let ghost scopes = self.state().scopes;
        let mut k: usize = self.scopes.len();
        assert(scopes.take(k as int) =~= scopes);
        while k > 0
            invariant
                k <= self.scopes@.len(),
                scopes == self.state().scopes,
                scopes == self.scopes@.map_values(|t: SymbolTable| t@),
                find_in_scopes(scopes, name@) == find_in_scopes(scopes.take(k as int), name@),
            decreases k,
        {
            let ghost pre = scopes.take(k as int);
            assert(pre.drop_last() =~= scopes.take(k - 1));
            assert(pre.last() == self.scopes@[k - 1]@);
            match self.scopes[k - 1].get(name) {
                Some(info) => {
                    return Some(info);
                },
                None => {},
            }
            k -= 1;
        }
        self.symbol_tables.get(name)
    }

    /// Declares a variable in the innermost scope; a second declaration of
    /// the name in that scope is an error.
    fn insert_variable(&mut self, name: String, info: SymbolInfo) -> (r: Result<(), String>)
        ensures
            match (r, insert_variable(old(self).state(), name@, info)) {
                (Ok(_), Ok(st)) => final(self).state() == st,
                (Err(m), Err(n)) => m@ == n,
                _ => false,
            },
    {
        let n = self.scopes.len();
        if n == 0 {
            return Ok(());
        }
        let ghost before = self.scopes@;
        assert(self.state().scopes.last() == before[n - 1]@);
        match self.scopes.pop() {
            Some(mut current_scope) => {
                if current_scope.contains_key(&name) {
                    let m = quote("语义错误：在同一作用域中重定义了变量 '", &name, "'。");
                    self.scopes.push(current_scope);
                    return Err(m);
                }
                current_scope.insert(name, info);
                self.scopes.push(current_scope);
                proof {
                    assert(self.scopes@.map_values(|t: SymbolTable| t@) =~= before.map_values(|t: SymbolTable| t@)
                        .update(n - 1, before[n - 1]@.insert(name@, info)));
                }
                Ok(())
            },
            None => Ok(()),
        }
    }

    fn push_scope(&mut self)
        ensures
            final(self).state() == open_scope(old(self).state()),
    {
        let ghost before = self.scopes@;
        self.scopes.push(SymbolTable::new());
        assert(self.scopes@.map_values(|t: SymbolTable| t@) =~= before.map_values(|t: SymbolTable| t@).push(Map::empty()));
    }

    fn pop_scope(&mut self)
        ensures
            final(self).state() == close_scope(old(self).state()),
    {
        let ghost before = self.scopes@;
        let _ = self.scopes.pop();
        assert(self.scopes@.map_values(|t: SymbolTable| t@) =~= if before.len() > 0 {
            before.map_values(|t: SymbolTable| t@).drop_last()
        } else {
            before.map_values(|t: SymbolTable| t@)
        });
    }
}


// ---------------------------------------------------------------------------
// The global table holds no local variable.
// ---------------------------------------------------------------------------

/// No entry of `g` is a local variable.
pub open spec fn no_locals(g: Map<Seq<char>, SymbolInfo>) -> bool {
    forall|k: Seq<char>| #[trigger] g.contains_key(k) ==> !(g[k].identifier_attrs is LocalAttr)
}

/// A step of checking that keeps the global table free of locals.
pub open spec fn keeps_no_locals(st: TState, r: TResult) -> bool {
    no_locals(st.globals) ==> (r matches Ok(st2) ==> no_locals(st2.globals))
}

proof fn lemma_block_var_no_locals(st: TState, v: SVarDecl)
    ensures
        keeps_no_locals(st, tc_block_var(st, v)),
{
}

proof fn lemma_params_no_locals(st: TState, ps: Seq<Seq<char>>)
    ensures
        keeps_no_locals(st, tc_params(st, ps)),
        tc_params(st, ps) matches Ok(st2) ==> st2.globals == st.globals,
    decreases ps.len(),
{
    if ps.len() > 0 {
        lemma_params_no_locals(st, ps.drop_last());
    }
}

proof fn lemma_stmt_no_locals(st: TState, s: SStatement)
    ensures
        keeps_no_locals(st, tc_stmt(st, s)),
    decreases s, 0int,
{
    match s {
        SStatement::Compound(items) => {
            lemma_items_no_locals(open_scope(st), items);
        },
        SStatement::For { init, condition, post, body, .. } => {
            if let SForInit::InitDecl(d) = init {
                lemma_block_var_no_locals(open_scope(st), d);
            }
            if let Ok(st2) = tc_for_init(open_scope(st), init) {
                lemma_stmt_no_locals(st2, *body);
            }
        },
        SStatement::If { condition, then_stmt, else_stmt } => {
            lemma_stmt_no_locals(st, *then_stmt);
            if let Ok(st2) = tc_stmt(st, *then_stmt) {
                if let Some(es) = else_stmt {
                    lemma_stmt_no_locals(st2, *es);
                }
            }
        },
        _ => {},
    }
}

proof fn lemma_items_no_locals(st: TState, items: Seq<SBlockItem>)
    ensures
        keeps_no_locals(st, tc_items(st, items)),
    decreases items, 1int,
{
    if items.len() > 0 {
        lemma_items_no_locals(st, items.drop_last());
        if let Ok(st2) = tc_items(st, items.drop_last()) {
            lemma_item_no_locals(st2, items.last());
        }
    }
}

proof fn lemma_item_no_locals(st: TState, item: SBlockItem)
    ensures
        keeps_no_locals(st, tc_item(st, item)),
    decreases item, 0int,
{
    match item {
        SBlockItem::S(s) => lemma_stmt_no_locals(st, s),
        SBlockItem::D(SDeclaration::Variable(v)) => lemma_block_var_no_locals(st, v),
        SBlockItem::D(SDeclaration::Fun(f)) => lemma_fun_no_locals(st, f),
    }
}

proof fn lemma_fun_no_locals(st: TState, f: SFunDecl)
    ensures
        keeps_no_locals(st, tc_fun(st, f)),
    decreases f, 0int,
{
    if let Some(items) = f.body {
        let fun_type = CType::FunType { param_count: f.parameters.len() as usize };
        let has_body = f.body is Some;
        let is_static = f.storage_class == Some(StorageClass::Static);
        if let Ok(_) = tc_fun(st, f) {
            let prior: Result<(bool, bool), Seq<char>> = match lookup(st.globals, f.name) {
                None => Ok((false, !is_static)),
                Some(old) => if old.tpye != fun_type {
                    Err("函数 '"@ + f.name + "' 的声明不兼容"@)
                } else {
                    match old.identifier_attrs {
                        IdentifierAttrs::FunAttr { defined, global } => if defined && has_body {
                            Err("函数 '"@ + f.name + "' 被多次定义"@)
                        } else if global && is_static {
                            Err("静态函数声明跟在非静态函数声明之后"@)
                        } else {
                            Ok((defined, global))
                        },
                        _ => Err("'"@ + f.name + "' 被重新声明为不同类型的符号"@),
                    }
                },
            };
            let (already_defined, global) = prior->Ok_0;
            let st1 = set_global(st, f.name, SymbolInfo {
                tpye: fun_type,
                identifier_attrs: IdentifierAttrs::FunAttr { defined: already_defined || has_body, global },
            });
            lemma_params_no_locals(open_scope(st1), f.parameters);
            if let Ok(st2) = tc_params(open_scope(st1), f.parameters) {
                lemma_items_no_locals(st2, items);
            }
        }
    }
}

proof fn lemma_file_decls_no_locals(st: TState, ds: Seq<SDeclaration>)
    ensures
        keeps_no_locals(st, tc_file_decls(st, ds)),
    decreases ds.len(),
{
    if ds.len() > 0 {
        lemma_file_decls_no_locals(st, ds.drop_last());
        if let Ok(st2) = tc_file_decls(st, ds.drop_last()) {
            match ds.last() {
                SDeclaration::Fun(f) => lemma_fun_no_locals(st2, f),
                SDeclaration::Variable(v) => {},
            }
        }
    }
}

/// The global symbol table that checking a program produces holds only
/// functions and variables with static storage, never a local variable.
pub proof fn lemma_program_table_has_no_locals(p: SProgram)
    ensures
        tc_program(p) matches Ok(g) ==> no_locals(g),
{
    let st0 = TState { globals: Map::empty(), scopes: seq![Map::empty()] };
    lemma_file_decls_no_locals(st0, p.declarations);
}


// ---------------------------------------------------------------------------
// Calls match the arity of the function they name.
// ---------------------------------------------------------------------------

/// A call checks only when its name is a function whose parameter count is
/// the number of arguments: a call with more or fewer arguments is an error.
pub proof fn lemma_checked_call_has_right_arity(st: TState, name: Seq<char>, args: Seq<SExpression>)
    ensures
        tc_expr(st, SExpression::FuncCall { name, args }) is Ok ==> names_function_of_arity(st, name, args.len()),
{
}

/// Checking an expression succeeds only if every call in it has the right
/// number of arguments for the function it names.
pub proof fn lemma_checked_expression_calls_have_right_arity(st: TState, e: SExpression)
    requires
        tc_expr(st, e) is Ok,
    ensures
        calls_match_arity(st, e),
    decreases e, 0int,
{
    match e {
        SExpression::FuncCall { name, args } => {
            lemma_checked_args_have_right_arity(st, args);
        },
        SExpression::Assignment { left, right } => {
            lemma_checked_expression_calls_have_right_arity(st, *left);
            lemma_checked_expression_calls_have_right_arity(st, *right);
        },
        SExpression::Binary { left, right, .. } => {
            lemma_checked_expression_calls_have_right_arity(st, *left);
            lemma_checked_expression_calls_have_right_arity(st, *right);
        },
        SExpression::Unary { exp, .. } => {
            lemma_checked_expression_calls_have_right_arity(st, *exp);
        },
        SExpression::Conditional { condition, left, right } => {
            lemma_checked_expression_calls_have_right_arity(st, *condition);
            lemma_checked_expression_calls_have_right_arity(st, *left);
            lemma_checked_expression_calls_have_right_arity(st, *right);
        },
        _ => {},
    }
}

proof fn lemma_checked_args_have_right_arity(st: TState, es: Seq<SExpression>)
    requires
        tc_exprs(st, es) is Ok,
    ensures
        calls_match_arity_all(st, es),
    decreases es, 1int,
{
    if es.len() > 0 {
        lemma_checked_args_have_right_arity(st, es.drop_last());
        lemma_checked_expression_calls_have_right_arity(st, es.last());
    }
}

/// `name` is, in `st`, a function with `n` parameters.
pub open spec fn names_function_of_arity(st: TState, name: Seq<char>, n: nat) -> bool {
    match find_identifier(st, name) {
        Some(info) => match info.tpye {
            CType::FunType { param_count } => param_count == n,
            CType::Int => false,
        },
        None => false,
    }
}

/// Every call in `e` names, in `st`, a function with as many parameters as
/// the call has arguments.
pub open spec fn calls_match_arity(st: TState, e: SExpression) -> bool
    decreases e, 0int,
{
    match e {
        SExpression::FuncCall { name, args } => {
            &&& names_function_of_arity(st, name, args.len())
            &&& calls_match_arity_all(st, args)
        },
        SExpression::Assignment { left, right } => calls_match_arity(st, *left) && calls_match_arity(st, *right),
        SExpression::Binary { left, right, .. } => calls_match_arity(st, *left) && calls_match_arity(st, *right),
        SExpression::Unary { exp, .. } => calls_match_arity(st, *exp),
        SExpression::Conditional { condition, left, right } => calls_match_arity(st, *condition)
            && calls_match_arity(st, *left) && calls_match_arity(st, *right),
        _ => true,
    }
}

pub open spec fn calls_match_arity_all(st: TState, es: Seq<SExpression>) -> bool
    decreases es, 1int,
{
    if es.len() == 0 {
        true
    } else {
        calls_match_arity_all(st, es.drop_last()) && calls_match_arity(st, es.last())
    }
}


/// A variable checks only when its name is declared as a variable (of type
/// `int`): an undeclared name, or a function used as a value, is an error.
pub proof fn lemma_checked_variable_is_int(st: TState, id: Seq<char>)
    ensures
        tc_expr(st, SExpression::Var(id)) is Ok ==> (find_identifier(st, id) matches Some(info)
            && info.tpye == CType::Int),
{
}

} // verus!
