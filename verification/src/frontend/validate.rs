//! The first variable-resolution pass over the current syntax tree: one map
//! for the whole program, from each declared variable to a fresh name
//! `name.<n>`. It knows returns, expression statements and null statements,
//! and expressions made of constants, variables, unary and binary
//! operators and assignments. File-scope variables are left as they are.

use vstd::prelude::*;
use crate::frontend::c_ast::{
    copy_strings, copy_var_decl, decl_view, decls_view, expr_view, fun_decl_view, item_view, items_view, stmt_view, var_decl_view,
    Block, BlockItem, Declaration, Expression, FunDecl, Program, SBlockItem, SDeclaration,
    SExpression, SFunDecl, SProgram, SStatement, SVarDecl, Statement, VarDecl,
};
use crate::name_gen::{qualified_name, UniqueNameGenerator};
use crate::text::owned;

verus! {

/// The variable map and the name counter.
pub struct VState {
    pub map: Map<Seq<char>, Seq<char>>,
    pub count: nat,
}

/// The expressions this pass knows.
pub open spec fn known_exp(e: SExpression) -> bool
    decreases e,
{
    match e {
        SExpression::Constant(_) => true,
        SExpression::Var(_) => true,
        SExpression::Unary { exp, .. } => known_exp(*exp),
        SExpression::Binary { left, right, .. } => known_exp(*left) && known_exp(*right),
        SExpression::Assignment { left, right } => *left is Var ==> known_exp(*right),
        _ => false,
    }
}

/// The statements and items this pass knows.
pub open spec fn known_item(i: SBlockItem) -> bool {
    match i {
        SBlockItem::S(SStatement::Return(e)) => known_exp(e),
        SBlockItem::S(SStatement::Expression(e)) => known_exp(e),
        SBlockItem::S(SStatement::Null) => true,
        SBlockItem::D(SDeclaration::Variable(v)) => match v.init {
            Some(e) => known_exp(e),
            None => true,
        },
        _ => false,
    }
}

/// Every function body holds only known items.
pub open spec fn known_program(p: SProgram) -> bool {
    forall|i: int, j: int|
        0 <= i < p.declarations.len() && p.declarations[i] is Fun && p.declarations[i]->Fun_0.body is Some
            && 0 <= j < p.declarations[i]->Fun_0.body->0.len() ==> known_item(
            #[trigger] p.declarations[i]->Fun_0.body->0[j],
        )
}

/// The declarations of a program's bodies (each takes one name).
pub open spec fn decl_count(items: Seq<SBlockItem>) -> nat
    decreases items.len(),
{
    if items.len() == 0 {
        0
    } else {
        decl_count(items.drop_last()) + if items.last() is D { 1nat } else { 0nat }
    }
}

/// The names a declaration of a function body takes.
pub open spec fn file_decl_count(d: SDeclaration) -> nat {
    match d {
        SDeclaration::Fun(f) => match f.body {
            Some(items) => decl_count(items),
            None => 0,
        },
        SDeclaration::Variable(_) => 0,
    }
}

pub open spec fn program_decls(fs: Seq<SDeclaration>) -> nat
    decreases fs.len(),
{
    if fs.len() == 0 {
        0
    } else {
        program_decls(fs.drop_last()) + file_decl_count(fs.last())
    }
}

/// An expression with its variables renamed by `map`, or the message.
pub open spec fn va_exp(e: SExpression, map: Map<Seq<char>, Seq<char>>) -> Result<SExpression, Seq<char>>
    decreases e,
{
    match e {
        SExpression::Assignment { left, right } => if *left is Var {
            match va_exp(*left, map) {
                Err(m) => Err(m),
                Ok(l) => match va_exp(*right, map) {
                    Err(m) => Err(m),
                    Ok(r) => Ok(SExpression::Assignment { left: Box::new(l), right: Box::new(r) }),
                },
            }
        } else {
            Err("Invalid lvaue!"@)
        },
        SExpression::Var(id) => if map.contains_key(id) {
            Ok(SExpression::Var(map[id]))
        } else {
            Err("Undeclared variable!"@)
        },
        SExpression::Binary { op, left, right } => match va_exp(*left, map) {
            Err(m) => Err(m),
            Ok(l) => match va_exp(*right, map) {
                Err(m) => Err(m),
                Ok(r) => Ok(SExpression::Binary { op, left: Box::new(l), right: Box::new(r) }),
            },
        },
        SExpression::Unary { op, exp } => match va_exp(*exp, map) {
            Err(m) => Err(m),
            Ok(x) => Ok(SExpression::Unary { op, exp: Box::new(x) }),
        },
        _ => Ok(e),
    }
}

/// One body item, with the state before and after.
pub open spec fn va_item(i: SBlockItem, st: VState) -> Result<(SBlockItem, VState), Seq<char>> {
    match i {
        SBlockItem::S(SStatement::Return(e)) => match va_exp(e, st.map) {
            Err(m) => Err(m),
            Ok(x) => Ok((SBlockItem::S(SStatement::Return(x)), st)),
        },
        SBlockItem::S(SStatement::Expression(e)) => match va_exp(e, st.map) {
            Err(m) => Err(m),
            Ok(x) => Ok((SBlockItem::S(SStatement::Expression(x)), st)),
        },
        SBlockItem::D(SDeclaration::Variable(d)) => if st.map.contains_key(d.name) {
            Err("Duplicate variable declaration"@)
        } else {
            let new_name = qualified_name(d.name, st.count);
            let st2 = VState { map: st.map.insert(d.name, new_name), count: st.count + 1 };
            match d.init {
                None => Ok((SBlockItem::D(SDeclaration::Variable(SVarDecl { name: new_name, init: None, storage_class: d.storage_class })), st2)),
                Some(e) => match va_exp(e, st2.map) {
                    Err(m) => Err(m),
                    Ok(x) => Ok((SBlockItem::D(SDeclaration::Variable(SVarDecl { name: new_name, init: Some(x), storage_class: d.storage_class })), st2)),
                },
            }
        },
        _ => Ok((i, st)),
    }
}

/// The items of a body in order.
pub open spec fn va_items(s: Seq<SBlockItem>, st: VState) -> Result<(Seq<SBlockItem>, VState), Seq<char>>
    decreases s.len(),
{
    if s.len() == 0 {
        Ok((Seq::empty(), st))
    } else {
        match va_items(s.drop_last(), st) {
            Err(m) => Err(m),
            Ok((done, st1)) => match va_item(s.last(), st1) {
                Err(m) => Err(m),
                Ok((x, st2)) => Ok((done.push(x), st2)),
            },
        }
    }
}

/// A function: its body's items renamed.
pub open spec fn va_fun(f: SFunDecl, st: VState) -> Result<(SFunDecl, VState), Seq<char>> {
    match f.body {
        None => Ok((f, st)),
        Some(items) => match va_items(items, st) {
            Err(m) => Err(m),
            Ok((b, st2)) => Ok((SFunDecl { body: Some(b), ..f }, st2)),
        },
    }
}

/// The file-scope declarations of a program in order; file-scope variables
/// stay as they are.
pub open spec fn va_funs(fs: Seq<SDeclaration>, st: VState) -> Result<(Seq<SDeclaration>, VState), Seq<char>>
    decreases fs.len(),
{
    if fs.len() == 0 {
        Ok((Seq::empty(), st))
    } else {
        match va_funs(fs.drop_last(), st) {
            Err(m) => Err(m),
            Ok((done, st1)) => match fs.last() {
                SDeclaration::Fun(f) => match va_fun(f, st1) {
                    Err(m) => Err(m),
                    Ok((x, st2)) => Ok((done.push(SDeclaration::Fun(x)), st2)),
                },
                SDeclaration::Variable(v) => Ok((done.push(SDeclaration::Variable(v)), st1)),
            },
        }
    }
}

proof fn lemma_va_items_count(s: Seq<SBlockItem>, st: VState)
    ensures
        va_items(s, st) matches Ok((_, st2)) ==> st2.count <= st.count + decl_count(s),
    decreases s.len(),
{
    if s.len() > 0 {
        lemma_va_items_count(s.drop_last(), st);
    }
}

proof fn lemma_decl_count_prefix(s: Seq<SBlockItem>, k: int)
    requires
        0 <= k <= s.len(),
    ensures
        decl_count(s.take(k)) <= decl_count(s),
    decreases s.len() - k,
{
    if k < s.len() {
        lemma_decl_count_prefix(s, k + 1);
        assert(s.take(k + 1).drop_last() =~= s.take(k));
    } else {
        assert(s.take(k) =~= s);
    }
}

proof fn lemma_program_decls_prefix(fs: Seq<SDeclaration>, k: int)
    requires
        0 <= k <= fs.len(),
    ensures
        program_decls(fs.take(k)) <= program_decls(fs),
        k < fs.len() ==> program_decls(fs.take(k)) + file_decl_count(fs[k]) <= program_decls(fs),
    decreases fs.len() - k,
{
    if k < fs.len() {
        lemma_program_decls_prefix(fs, k + 1);
        assert(fs.take(k + 1).drop_last() =~= fs.take(k));
    } else {
        assert(fs.take(k) =~= fs);
    }
}

proof fn lemma_va_funs_count(fs: Seq<SDeclaration>, st: VState)
    ensures
        va_funs(fs, st) matches Ok((_, st2)) ==> st2.count <= st.count + program_decls(fs),
    decreases fs.len(),
{
    if fs.len() > 0 {
        lemma_va_funs_count(fs.drop_last(), st);
        if let Ok((_, st1)) = va_funs(fs.drop_last(), st) {
            if let SDeclaration::Fun(f) = fs.last() {
                if let Some(items) = f.body {
                    lemma_va_items_count(items, st1);
                }
            }
        }
    }
}

/// The (source name, new name) pairs recorded, a later one for a name
/// replacing an earlier one.
pub open spec fn pairs_map(s: Seq<(String, String)>) -> Map<Seq<char>, Seq<char>>
    decreases s.len(),
{
    if s.len() == 0 {
        Map::empty()
    } else {
        pairs_map(s.drop_last()).insert(s.last().0@, s.last().1@)
    }
}

/// Renames variables with one map for the whole program.
pub struct Validate<'a> {
    variable_map: Vec<(String, String)>,
    name_gen: &'a mut UniqueNameGenerator,
}

impl<'a> Validate<'a> {
    /// The borrowed counter.
    pub closed spec fn generator(&self) -> &'a mut UniqueNameGenerator {
        self.name_gen
    }

    /// The map and the counter.
    pub closed spec fn state(&self) -> VState {
        VState { map: pairs_map(self.variable_map@), count: self.name_gen.count() }
    }

    /// A pass with an empty map, using the counter `g`.
    pub fn new(g: &'a mut UniqueNameGenerator) -> (r: Self)
        ensures
            *final(g) == *final(r.generator()),
            r.state() == (VState { map: Map::empty(), count: old(g).count() }),
    {
        Validate { variable_map: Vec::new(), name_gen: g }
    }

    /// Renames the variables of every function body.
    pub fn reslove_prgram(&mut self, ast: &Program) -> (r: Result<Program, String>)
        requires
            known_program(ast@),
            old(self).state().count + program_decls(ast@.declarations) <= u32::MAX,
        ensures
            *final(final(self).generator()) == *final(old(self).generator()),
            match (r, va_funs(ast@.declarations, old(self).state())) {
                (Ok(p), Ok((sp, st))) => p@.declarations == sp && final(self).state() == st,
                (Err(m), Err(n)) => m@ == n,
                _ => false,
            },
    {
        let ghost st0 = self.state();
        let ghost sfs = ast@.declarations;
        let mut fs: Vec<Declaration> = Vec::new();
        let mut k: usize = 0;
        proof {
            assert(sfs.take(0) =~= Seq::<SDeclaration>::empty());
            assert(decls_view(fs@) =~= Seq::<SDeclaration>::empty());
        }
        while k < ast.declarations.len()
            invariant
                *final(self.generator()) == *final(old(self).generator()),
                k <= ast.declarations@.len(),
                sfs == ast@.declarations,
                sfs == decls_view(ast.declarations@),
                st0 == old(self).state(),
                known_program(ast@),
                st0.count + program_decls(sfs) <= u32::MAX,
                va_funs(sfs.take(k as int), st0) == Ok::<(Seq<SDeclaration>, VState), Seq<char>>((
                    decls_view(fs@),
                    self.state(),
                )),
            decreases ast.declarations@.len() - k,
        {
            let ghost pre = sfs.take(k + 1);
            proof {
                assert(pre.drop_last() =~= sfs.take(k as int));
                assert(pre.last() == decl_view(ast.declarations@[k as int]));
                lemma_program_decls_prefix(sfs, k as int);
                lemma_va_funs_count(sfs.take(k as int), st0);
            }
            let new_d = match &ast.declarations[k] {
                Declaration::Fun(f) => {
                    proof {
                        assert(sfs[k as int] == SDeclaration::Fun(fun_decl_view(*f)));
                        if let Some(items) = fun_decl_view(*f).body {
                            assert forall|j: int| 0 <= j < items.len() implies known_item(#[trigger] items[j]) by {
                                assert(sfs[k as int]->Fun_0.body->0[j] == items[j]);
                            }
                        }
                    }
                    match self.reslove_function(f) {
                        Ok(x) => Declaration::Fun(x),
                        Err(m) => {
                            proof {
                                assert(va_funs(pre, st0) is Err);
                                lemma_va_funs_error_stays(sfs, k as int + 1, st0);
                            }
                            return Err(m);
                        },
                    }
                },
                Declaration::Variable(v) => Declaration::Variable(copy_var_decl(v)),
            };
            let ghost before = fs@;
            fs.push(new_d);
            proof {
                assert(decls_view(fs@) =~= decls_view(before).push(decl_view(new_d)));
            }
            k += 1;
        }
        proof {
            assert(sfs.take(ast.declarations@.len() as int) =~= sfs);
        }
        let r = Program { declarations: fs };
        Ok(r)
    }

    fn reslove_function(&mut self, f: &FunDecl) -> (r: Result<FunDecl, String>)
        requires
            fun_decl_view(*f).body matches Some(items) ==> forall|j: int| 0 <= j < items.len() ==> known_item(#[trigger] items[j]),
            fun_decl_view(*f).body matches Some(items) ==> old(self).state().count + decl_count(items) <= u32::MAX,
        ensures
            *final(final(self).generator()) == *final(old(self).generator()),
            match (r, va_fun(fun_decl_view(*f), old(self).state())) {
                (Ok(x), Ok((sx, st))) => fun_decl_view(x) == sx && final(self).state() == st,
                (Err(m), Err(n)) => m@ == n,
                _ => false,
            },
    {
        let parameters = copy_strings(&f.parameters);
        match &f.body {
            None => Ok(FunDecl { name: f.name.clone(), parameters, body: None, storage_class: f.storage_class }),
            Some(block) => {
                let items = &block.0;
                let ghost sitems = items_view(items@);
                let ghost st0 = self.state();
                let mut bs: Vec<BlockItem> = Vec::new();
                let mut k: usize = 0;
                proof {
                    lemma_items_view_len(items@);
                    assert(sitems.take(0) =~= Seq::<SBlockItem>::empty());
                    assert(items_view(bs@) =~= Seq::<SBlockItem>::empty());
                }
                while k < items.len()
                    invariant
                        *final(self.generator()) == *final(old(self).generator()),
                        k <= items@.len(),
                        sitems == items_view(items@),
                        fun_decl_view(*f).body == Some(sitems),
                        st0 == old(self).state(),
                        sitems.len() == items@.len(),
                        forall|j: int| 0 <= j < sitems.len() ==> known_item(#[trigger] sitems[j]),
                        st0.count + decl_count(sitems) <= u32::MAX,
                        va_items(sitems.take(k as int), st0) == Ok::<(Seq<SBlockItem>, VState), Seq<char>>((items_view(bs@), self.state())),
                    decreases items@.len() - k,
                {
                    let ghost pre = sitems.take(k + 1);
                    proof {
                        assert(pre.drop_last() =~= sitems.take(k as int));
                        lemma_items_view_at(items@, k as int);
                        lemma_decl_count_prefix(sitems, k as int + 1);
                        lemma_va_items_count(sitems.take(k as int), st0);
                        assert(decl_count(pre) == decl_count(sitems.take(k as int)) + if pre.last() is D { 1nat } else { 0nat });
                    }
                    let b = match self.reslove_blockitem(&items[k]) {
                        Ok(x) => x,
                        Err(m) => {
                            proof {
                                assert(va_items(pre, st0) is Err);
                                lemma_va_items_error_stays(sitems, k as int + 1, st0);
                            }
                            return Err(m);
                        },
                    };
                    let ghost before = bs@;
                    bs.push(b);
                    proof {
                        assert(bs@.drop_last() =~= before);
                    }
                    k += 1;
                }
                proof {
                    assert(sitems.take(items@.len() as int) =~= sitems);
                }
                Ok(FunDecl { name: f.name.clone(), parameters, body: Some(Block(bs)), storage_class: f.storage_class })
            },
        }
    }

    fn reslove_blockitem(&mut self, b: &BlockItem) -> (r: Result<BlockItem, String>)
        requires
            known_item(item_view(*b)),
            item_view(*b) is D ==> old(self).state().count < u32::MAX,
        ensures
            *final(final(self).generator()) == *final(old(self).generator()),
            match (r, va_item(item_view(*b), old(self).state())) {
                (Ok(x), Ok((sx, st))) => item_view(x) == sx && final(self).state() == st,
                (Err(m), Err(n)) => m@ == n,
                _ => false,
            },
    {
        match b {
            BlockItem::D(Declaration::Variable(d)) => {
                let new_d = self.reslove_dec(d)?;
                Ok(BlockItem::D(Declaration::Variable(new_d)))
            },
            BlockItem::S(s) => {
                let news = self.reslove_statement(s)?;
                Ok(BlockItem::S(news))
            },
            BlockItem::D(Declaration::Fun(_)) => vstd::pervasive::unreached(),
        }
    }

    fn reslove_dec(&mut self, d: &VarDecl) -> (r: Result<VarDecl, String>)
        requires
            var_decl_view(*d).init matches Some(e) ==> known_exp(e),
            old(self).state().count < u32::MAX,
        ensures
            *final(final(self).generator()) == *final(old(self).generator()),
            match (r, va_item(SBlockItem::D(SDeclaration::Variable(var_decl_view(*d))), old(self).state())) {
                (Ok(x), Ok((sx, st))) => SBlockItem::D(SDeclaration::Variable(var_decl_view(x))) == sx && final(self).state() == st,
                (Err(m), Err(n)) => m@ == n,
                _ => false,
            },
    {
        match self.lookup(&d.name) {
            Some(_) => {
                return Err(owned("Duplicate variable declaration"));
            },
            None => {},
        }
        let new_name = self.name_gen.new_variable_name(d.name.clone());
        let ghost before = self.variable_map@;
        self.variable_map.push((d.name.clone(), new_name.clone()));
        proof {
            assert(self.variable_map@.drop_last() =~= before);
        }
        match &d.init {
            None => Ok(VarDecl { name: new_name, init: None, storage_class: d.storage_class }),
            Some(e) => {
                let new_e = self.reslove_exp(e)?;
                Ok(VarDecl { name: new_name, init: Some(new_e), storage_class: d.storage_class })
            },
        }
    }

    fn reslove_statement(&self, s: &Statement) -> (r: Result<Statement, String>)
        requires
            known_item(SBlockItem::S(stmt_view(*s))),
        ensures
            match (r, va_item(SBlockItem::S(stmt_view(*s)), self.state())) {
                (Ok(x), Ok((sx, st))) => SBlockItem::S(stmt_view(x)) == sx && st == self.state(),
                (Err(m), Err(n)) => m@ == n,
                _ => false,
            },
    {
        match s {
            Statement::Expression(e) => {
                let new_exp = self.reslove_exp(e)?;
                Ok(Statement::Expression(new_exp))
            },
            Statement::Null => Ok(Statement::Null),
            Statement::Return(e) => {
                let new_exp = self.reslove_exp(e)?;
                Ok(Statement::Return(new_exp))
            },
            _ => vstd::pervasive::unreached(),
        }
    }

    fn reslove_exp(&self, e: &Expression) -> (r: Result<Expression, String>)
        requires
            known_exp(expr_view(*e)),
        ensures
            match (r, va_exp(expr_view(*e), self.state().map)) {
                (Ok(x), Ok(sx)) => expr_view(x) == sx,
                (Err(m), Err(n)) => m@ == n,
                _ => false,
            },
        decreases e,
    {
        match e {
            Expression::Assignment { left, right } => match &**left {
                Expression::Var(_) => {
                    let new_l = self.reslove_exp(left)?;
                    let new_r = self.reslove_exp(right)?;
                    Ok(Expression::Assignment { left: Box::new(new_l), right: Box::new(new_r) })
                },
                _ => Err(owned("Invalid lvaue!")),
            },
            Expression::Var(id) => match self.lookup(id) {
                Some(new_id) => Ok(Expression::Var(new_id)),
                None => Err(owned("Undeclared variable!")),
            },
            Expression::Binary { op, left, right } => {
                let new_l = self.reslove_exp(left)?;
                let new_r = self.reslove_exp(right)?;
                Ok(Expression::Binary { op: *op, left: Box::new(new_l), right: Box::new(new_r) })
            },
            Expression::Unary { op, exp } => {
                let new_e = self.reslove_exp(exp)?;
                Ok(Expression::Unary { op: *op, exp: Box::new(new_e) })
            },
            Expression::Constant(i) => Ok(Expression::Constant(*i)),
            _ => vstd::pervasive::unreached(),
        }
    }

    /// The new name of `name`, if it was declared.
    fn lookup(&self, name: &String) -> (r: Option<String>)
        ensures
            match r {
                Some(v) => self.state().map.contains_key(name@) && self.state().map[name@] == v@,
                None => !self.state().map.contains_key(name@),
            },
    {
        let ghost s = self.variable_map@;
        let mut k: usize = self.variable_map.len();
        assert(s.take(s.len() as int) =~= s);
        while k > 0
            invariant
                k <= s.len(),
                s == self.variable_map@,
                pairs_map(s).contains_key(name@) == pairs_map(s.take(k as int)).contains_key(name@),
                pairs_map(s.take(k as int)).contains_key(name@) ==> pairs_map(s)[name@] == pairs_map(s.take(k as int))[name@],
            decreases k,
        {
            let ghost pre = s.take(k as int);
            assert(pre.drop_last() =~= s.take(k - 1));
            assert(pre.last() == self.variable_map@[k - 1]);
            if self.variable_map[k - 1].0 == *name {
                return Some(self.variable_map[k - 1].1.clone());
            }
            k -= 1;
        }
        None
    }
}

proof fn lemma_items_view_len(s: Seq<BlockItem>)
    ensures
        items_view(s).len() == s.len(),
    decreases s.len(),
{
    if s.len() > 0 {
        lemma_items_view_len(s.drop_last());
    }
}

proof fn lemma_items_view_at(s: Seq<BlockItem>, k: int)
    requires
        0 <= k < s.len(),
    ensures
        items_view(s)[k] == item_view(s[k]),
    decreases s.len(),
{
    lemma_items_view_len(s.drop_last());
    if k < s.len() - 1 {
        lemma_items_view_at(s.drop_last(), k);
    }
}

proof fn lemma_va_items_error_stays(s: Seq<SBlockItem>, k: int, st: VState)
    requires
        0 <= k <= s.len(),
        va_items(s.take(k), st) is Err,
    ensures
        va_items(s, st) == va_items(s.take(k), st),
    decreases s.len() - k,
{
    if k == s.len() {
        assert(s.take(k) =~= s);
    } else {
        assert(s.take(k + 1).drop_last() =~= s.take(k));
        lemma_va_items_error_stays(s, k + 1, st);
    }
}

proof fn lemma_va_funs_error_stays(s: Seq<SDeclaration>, k: int, st: VState)
    requires
        0 <= k <= s.len(),
        va_funs(s.take(k), st) is Err,
    ensures
        va_funs(s, st) == va_funs(s.take(k), st),
    decreases s.len() - k,
{
    if k == s.len() {
        assert(s.take(k) =~= s);
    } else {
        assert(s.take(k + 1).drop_last() =~= s.take(k));
        lemma_va_funs_error_stays(s, k + 1, st);
    }
}

} // verus!
