//! Loop labeling.
//!
//! Every loop gets a fresh label `loop.<n>` from the shared counter, and every
//! `break` and `continue` gets the label of the innermost loop around it. A
//! `break` or `continue` outside any loop is an error. File-scope variables
//! are left as they are.

use vstd::prelude::*;
use crate::frontend::c_ast::{
    copy_declaration, copy_expression, copy_for_init, copy_opt_expression, copy_strings,
    copy_var_decl, decl_view, decls_view, fun_decl_view, fun_decls_view, item_view, items_view,
    lemma_items_view, stmt_view, strs_view, Block, BlockItem, Declaration, FunDecl, Program,
    SBlockItem, SDeclaration, SFunDecl, SProgram, SStatement, Statement,
};
use crate::name_gen::{qualified_name, UniqueNameGenerator};
use crate::text::owned;

verus! {

/// The label of the loop labeled when the counter stood at `n`.
pub open spec fn loop_label(n: nat) -> Seq<char> {
    qualified_name("loop"@, n)
}

/// A labeling result: the labeled value and the counter after it.
pub type LResult<T> = Result<(T, nat), Seq<char>>;

/// Labeling a statement inside the loops `stack` (innermost last), with the
/// counter at `n`.
pub open spec fn ll_stmt(stack: Seq<Seq<char>>, n: nat, s: SStatement) -> LResult<SStatement>
    decreases s, 0int,
{
    match s {
        SStatement::Compound(items) => match ll_items(stack, n, items) {
            Err(m) => Err(m),
            Ok((b, n2)) => Ok((SStatement::Compound(b), n2)),
        },
        SStatement::If { condition, then_stmt, else_stmt } => match ll_stmt(stack, n, *then_stmt) {
            Err(m) => Err(m),
            Ok((t, n2)) => match else_stmt {
                None => Ok((SStatement::If { condition, then_stmt: Box::new(t), else_stmt: None }, n2)),
                Some(es) => match ll_stmt(stack, n2, *es) {
                    Err(m) => Err(m),
                    Ok((e2, n3)) => Ok((SStatement::If {
                        condition,
                        then_stmt: Box::new(t),
                        else_stmt: Some(Box::new(e2)),
                    }, n3)),
                },
            },
        },
        SStatement::Break(_) => if stack.len() > 0 {
            Ok((SStatement::Break(stack.last()), n))
        } else {
            Err("'break' statement not in loop or switch statement"@)
        },
        SStatement::Continue(_) => if stack.len() > 0 {
            Ok((SStatement::Continue(stack.last()), n))
        } else {
            Err("'continue' statement not in a loop"@)
        },
        SStatement::While { condition, body, .. } => match ll_stmt(stack.push(loop_label(n)), n + 1, *body) {
            Err(m) => Err(m),
            Ok((b, n2)) => Ok((SStatement::While { condition, body: Box::new(b), label: Some(loop_label(n)) }, n2)),
        },
        SStatement::DoWhile { body, condition, .. } => match ll_stmt(stack.push(loop_label(n)), n + 1, *body) {
            Err(m) => Err(m),
            Ok((b, n2)) => Ok((SStatement::DoWhile { body: Box::new(b), condition, label: Some(loop_label(n)) }, n2)),
        },
        SStatement::For { init, condition, post, body, .. } => match ll_stmt(stack.push(loop_label(n)), n + 1, *body) {
            Err(m) => Err(m),
            Ok((b, n2)) => Ok((SStatement::For {
                init,
                condition,
                post,
                body: Box::new(b),
                label: Some(loop_label(n)),
            }, n2)),
        },
        _ => Ok((s, n)),
    }
}

/// Labeling block items in order.
pub open spec fn ll_items(stack: Seq<Seq<char>>, n: nat, items: Seq<SBlockItem>) -> LResult<Seq<SBlockItem>>
    decreases items, 1int,
{
    if items.len() == 0 {
        Ok((Seq::empty(), n))
    } else {
        match ll_items(stack, n, items.drop_last()) {
            Err(m) => Err(m),
            Ok((done, n2)) => match ll_item(stack, n2, items.last()) {
                Err(m) => Err(m),
                Ok((x, n3)) => Ok((done.push(x), n3)),
            },
        }
    }
}

/// Labeling one block item: declarations are left as they are.
pub open spec fn ll_item(stack: Seq<Seq<char>>, n: nat, item: SBlockItem) -> LResult<SBlockItem>
    decreases item, 0int,
{
    match item {
        SBlockItem::S(s) => match ll_stmt(stack, n, s) {
            Err(m) => Err(m),
            Ok((s2, n2)) => Ok((SBlockItem::S(s2), n2)),
        },
        SBlockItem::D(_) => Ok((item, n)),
    }
}

/// Labeling a function: its body, if it has one.
pub open spec fn ll_fun_decl(stack: Seq<Seq<char>>, n: nat, f: SFunDecl) -> LResult<SFunDecl> {
    match f.body {
        None => Ok((f, n)),
        Some(items) => match ll_items(stack, n, items) {
            Err(m) => Err(m),
            Ok((b, n2)) => Ok((SFunDecl { body: Some(b), ..f }, n2)),
        },
    }
}

/// Labeling the file-scope declarations of a program in order; variables
/// hold no loops and stay as they are.
pub open spec fn ll_functions(n: nat, ds: Seq<SDeclaration>) -> LResult<Seq<SDeclaration>>
    decreases ds.len(),
{
    if ds.len() == 0 {
        Ok((Seq::empty(), n))
    } else {
        match ll_functions(n, ds.drop_last()) {
            Err(m) => Err(m),
            Ok((done, n2)) => match ds.last() {
                SDeclaration::Fun(f) => match ll_fun_decl(Seq::empty(), n2, f) {
                    Err(m) => Err(m),
                    Ok((f2, n3)) => Ok((done.push(SDeclaration::Fun(f2)), n3)),
                },
                SDeclaration::Variable(v) => Ok((done.push(SDeclaration::Variable(v)), n2)),
            },
        }
    }
}

/// Labeling a program.
pub open spec fn ll_program(n: nat, p: SProgram) -> LResult<SProgram> {
    match ll_functions(n, p.declarations) {
        Err(m) => Err(m),
        Ok((ds, n2)) => Ok((SProgram { declarations: ds }, n2)),
    }
}

// ---------------------------------------------------------------------------
// How many labels labeling takes from the counter.
// ---------------------------------------------------------------------------

pub open spec fn loops_stmt(s: SStatement) -> nat
    decreases s, 0int,
{
    match s {
        SStatement::If { then_stmt, else_stmt, .. } => loops_stmt(*then_stmt) + match else_stmt {
            Some(e) => loops_stmt(*e),
            None => 0,
        },
        SStatement::Compound(items) => loops_items(items),
        SStatement::While { body, .. } => 1 + loops_stmt(*body),
        SStatement::DoWhile { body, .. } => 1 + loops_stmt(*body),
        SStatement::For { body, .. } => 1 + loops_stmt(*body),
        _ => 0,
    }
}

pub open spec fn loops_items(items: Seq<SBlockItem>) -> nat
    decreases items, 1int,
{
    if items.len() == 0 {
        0
    } else {
        loops_items(items.drop_last()) + loops_item(items.last())
    }
}

pub open spec fn loops_item(item: SBlockItem) -> nat
    decreases item, 0int,
{
    match item {
        SBlockItem::S(s) => loops_stmt(s),
        SBlockItem::D(_) => 0,
    }
}

pub open spec fn loops_fun(f: SFunDecl) -> nat {
    match f.body {
        Some(items) => loops_items(items),
        None => 0,
    }
}

pub open spec fn loops_functions(ds: Seq<SDeclaration>) -> nat
    decreases ds.len(),
{
    if ds.len() == 0 {
        0
    } else {
        loops_functions(ds.drop_last()) + match ds.last() {
            SDeclaration::Fun(f) => loops_fun(f),
            SDeclaration::Variable(_) => 0,
        }
    }
}

proof fn lemma_loops_items_prefix(items: Seq<SBlockItem>, i: int)
    requires
        0 <= i <= items.len(),
    ensures
        loops_items(items.take(i)) <= loops_items(items),
    decreases items.len(),
{
    if i < items.len() {
        lemma_loops_items_prefix(items.drop_last(), i);
        assert(items.drop_last().take(i) =~= items.take(i));
    } else {
        assert(items.take(i) =~= items);
    }
}

proof fn lemma_loops_functions_prefix(fs: Seq<SDeclaration>, i: int)
    requires
        0 <= i <= fs.len(),
    ensures
        loops_functions(fs.take(i)) <= loops_functions(fs),
    decreases fs.len(),
{
    if i < fs.len() {
        lemma_loops_functions_prefix(fs.drop_last(), i);
        assert(fs.drop_last().take(i) =~= fs.take(i));
    } else {
        assert(fs.take(i) =~= fs);
    }
}

proof fn lemma_ll_items_prefix_err(stack: Seq<Seq<char>>, n: nat, s: Seq<SBlockItem>, k: int)
    requires
        0 <= k <= s.len(),
        ll_items(stack, n, s.take(k)) is Err,
    ensures
        ll_items(stack, n, s) == ll_items(stack, n, s.take(k)),
    decreases s.len(),
{
    if k == s.len() {
        assert(s.take(k) =~= s);
    } else {
        assert(s.drop_last().take(k) =~= s.take(k));
        lemma_ll_items_prefix_err(stack, n, s.drop_last(), k);
    }
}

proof fn lemma_ll_functions_prefix_err(n: nat, s: Seq<SDeclaration>, k: int)
    requires
        0 <= k <= s.len(),
        ll_functions(n, s.take(k)) is Err,
    ensures
        ll_functions(n, s) == ll_functions(n, s.take(k)),
    decreases s.len(),
{
    if k == s.len() {
        assert(s.take(k) =~= s);
    } else {
        assert(s.drop_last().take(k) =~= s.take(k));
        lemma_ll_functions_prefix_err(n, s.drop_last(), k);
    }
}

// ---------------------------------------------------------------------------
// What labeling guarantees of its result.
// ---------------------------------------------------------------------------

/// Every loop of `s` is labeled, and every `break` and `continue` of `s` names
/// the innermost loop around it (the last of `stack` when no loop of `s`
/// encloses it).
pub open spec fn well_labeled(stack: Seq<Seq<char>>, s: SStatement) -> bool
    decreases s, 0int,
{
    match s {
        SStatement::Break(l) => stack.len() > 0 && l == stack.last(),
        SStatement::Continue(l) => stack.len() > 0 && l == stack.last(),
        SStatement::If { then_stmt, else_stmt, .. } => well_labeled(stack, *then_stmt) && match else_stmt {
            Some(e) => well_labeled(stack, *e),
            None => true,
        },
        SStatement::Compound(items) => items_well_labeled(stack, items),
        SStatement::While { body, label, .. } => label is Some && well_labeled(stack.push(label->0), *body),
        SStatement::DoWhile { body, label, .. } => label is Some && well_labeled(stack.push(label->0), *body),
        SStatement::For { body, label, .. } => label is Some && well_labeled(stack.push(label->0), *body),
        _ => true,
    }
}

/// Every statement item of `items` is well labeled.
pub open spec fn items_well_labeled(stack: Seq<Seq<char>>, items: Seq<SBlockItem>) -> bool
    decreases items, 1int,
{
    if items.len() == 0 {
        true
    } else {
        items_well_labeled(stack, items.drop_last()) && match items.last() {
            SBlockItem::S(s) => well_labeled(stack, s),
            SBlockItem::D(_) => true,
        }
    }
}

/// The body of every function of `p` is well labeled outside any loop.
pub open spec fn program_well_labeled(p: SProgram) -> bool {
    forall|i: int| 0 <= i < p.declarations.len() ==> match #[trigger] p.declarations[i] {
        SDeclaration::Fun(f) => match f.body {
            Some(items) => items_well_labeled(Seq::empty(), items),
            None => true,
        },
        SDeclaration::Variable(_) => true,
    }
}

proof fn lemma_ll_stmt_well_labeled(stack: Seq<Seq<char>>, n: nat, s: SStatement)
    requires
        ll_stmt(stack, n, s) is Ok,
    ensures
        well_labeled(stack, (ll_stmt(stack, n, s)->Ok_0).0),
        (ll_stmt(stack, n, s)->Ok_0).1 == n + loops_stmt(s),
    decreases s, 0int,
{
    match s {
        SStatement::Compound(items) => lemma_ll_items_well_labeled(stack, n, items),
        SStatement::If { then_stmt, else_stmt, .. } => {
            lemma_ll_stmt_well_labeled(stack, n, *then_stmt);
            let n2 = (ll_stmt(stack, n, *then_stmt)->Ok_0).1;
            match else_stmt {
                Some(es) => lemma_ll_stmt_well_labeled(stack, n2, *es),
                None => {},
            }
        },
        SStatement::While { body, .. } => lemma_ll_stmt_well_labeled(stack.push(loop_label(n)), n + 1, *body),
        SStatement::DoWhile { body, .. } => lemma_ll_stmt_well_labeled(stack.push(loop_label(n)), n + 1, *body),
        SStatement::For { body, .. } => lemma_ll_stmt_well_labeled(stack.push(loop_label(n)), n + 1, *body),
        _ => {},
    }
}

proof fn lemma_ll_items_well_labeled(stack: Seq<Seq<char>>, n: nat, items: Seq<SBlockItem>)
    requires
        ll_items(stack, n, items) is Ok,
    ensures
        items_well_labeled(stack, (ll_items(stack, n, items)->Ok_0).0),
        (ll_items(stack, n, items)->Ok_0).1 == n + loops_items(items),
    decreases items, 1int,
{
    if items.len() > 0 {
        lemma_ll_items_well_labeled(stack, n, items.drop_last());
        let (done, n2) = ll_items(stack, n, items.drop_last())->Ok_0;
        let (x, n3) = ll_item(stack, n2, items.last())->Ok_0;
        match items.last() {
            SBlockItem::S(s) => lemma_ll_stmt_well_labeled(stack, n2, s),
            SBlockItem::D(_) => {},
        }
        assert(n3 == n2 + loops_item(items.last()));
        assert(loops_items(items) == loops_items(items.drop_last()) + loops_item(items.last()));
        assert(done.push(x).drop_last() =~= done);
    }
}

/// Loop labeling, when it succeeds, labels every loop of the program and
/// gives every `break` and `continue` the label of the innermost loop that
/// encloses it; it takes exactly one label from the counter per loop.
pub proof fn lemma_labeled_program_well_labeled(n: nat, p: SProgram)
    requires
        ll_program(n, p) is Ok,
    ensures
        program_well_labeled((ll_program(n, p)->Ok_0).0),
        (ll_program(n, p)->Ok_0).1 == n + loops_functions(p.declarations),
{
    lemma_ll_functions_well_labeled(n, p.declarations);
}

proof fn lemma_ll_functions_well_labeled(n: nat, fs: Seq<SDeclaration>)
    requires
        ll_functions(n, fs) is Ok,
    ensures
        program_well_labeled(SProgram { declarations: (ll_functions(n, fs)->Ok_0).0 }),
        (ll_functions(n, fs)->Ok_0).1 == n + loops_functions(fs),
        (ll_functions(n, fs)->Ok_0).0.len() == fs.len(),
    decreases fs.len(),
{
    if fs.len() > 0 {
        lemma_ll_functions_well_labeled(n, fs.drop_last());
        let (done, n2) = ll_functions(n, fs.drop_last())->Ok_0;
        match fs.last() {
            SDeclaration::Fun(f) => match f.body {
                Some(items) => lemma_ll_items_well_labeled(Seq::empty(), n2, items),
                None => {},
            },
            SDeclaration::Variable(_) => {},
        }
        let all = (ll_functions(n, fs)->Ok_0).0;
        assert forall|i: int| 0 <= i < all.len() implies match #[trigger] all[i] {
            SDeclaration::Fun(f) => match f.body {
                Some(items) => items_well_labeled(Seq::empty(), items),
                None => true,
            },
            SDeclaration::Variable(_) => true,
        } by {
            if i < done.len() {
                assert(all[i] == done[i]);
            }
        }
    }
}

// ---------------------------------------------------------------------------
// Implementation
// ---------------------------------------------------------------------------

/// The loop labeler: the labels of the loops around the current statement
/// (innermost last) and the shared name counter.
#[derive(Debug)]
pub struct LoopLabeling<'a> {
    loop_stack: Vec<String>,
    name_gen: &'a mut UniqueNameGenerator,
}

impl<'a> LoopLabeling<'a> {
    /// The borrowed counter.
    pub closed spec fn generator(&self) -> &'a mut UniqueNameGenerator {
        self.name_gen
    }

    /// The labels of the enclosing loops, innermost last.
    pub closed spec fn stack(&self) -> Seq<Seq<char>> {
        strs_view(self.loop_stack@)
    }

    /// The counter's value.
    pub closed spec fn count(&self) -> nat {
        self.name_gen.count()
    }

    /// A labeler outside any loop, using the counter `g`.
    pub fn new(g: &'a mut UniqueNameGenerator) -> (r: Self)
        ensures
            *final(g) == *final(r.generator()),
            r.stack() == Seq::<Seq<char>>::empty(),
            r.count() == old(g).count(),
    {
        let r = LoopLabeling { loop_stack: Vec::new(), name_gen: g };
        assert(strs_view(r.loop_stack@) =~= Seq::<Seq<char>>::empty());
        r
    }

    /// Labels the loops of every function of a program.
    pub fn label_loops_in_program(&mut self, ast: &Program) -> (r: Result<Program, String>)
        requires
            old(self).stack() == Seq::<Seq<char>>::empty(),
            old(self).count() + loops_functions(ast@.declarations) <= u32::MAX,
        ensures
            *final(final(self).generator()) == *final(old(self).generator()),
            match (r, ll_program(old(self).count(), ast@)) {
                (Ok(x), Ok((sx, n))) => x@ == sx && final(self).count() == n,
                (Err(m), Err(e)) => m@ == e,
                _ => false,
            },
    {
        let ghost n0 = self.count();
        let ghost sfs = ast@.declarations;
        let mut labeled: Vec<Declaration> = Vec::new();
        let mut k: usize = 0;
        proof {
            assert(sfs.take(0) =~= Seq::<SDeclaration>::empty());
            assert(decls_view(labeled@) =~= Seq::<SDeclaration>::empty());
        }
        while k < ast.declarations.len()
            invariant
                *final(self.generator()) == *final(old(self).generator()),
                k <= ast.declarations@.len(),
                sfs == ast@.declarations,
                sfs == decls_view(ast.declarations@),
                n0 + loops_functions(sfs) <= u32::MAX,
                self.stack() == Seq::<Seq<char>>::empty(),
                ll_functions(n0, sfs.take(k as int)) == Ok::<(Seq<SDeclaration>, nat), Seq<char>>((decls_view(labeled@), self.count())),
                self.count() <= n0 + loops_functions(sfs.take(k as int)),
                n0 == old(self).count(),
            decreases ast.declarations@.len() - k,
        {
            let ghost pre = sfs.take(k + 1);
            assert(pre.drop_last() =~= sfs.take(k as int));
            assert(pre.last() == decl_view(ast.declarations@[k as int]));
            proof {
                lemma_loops_functions_prefix(sfs, k + 1);
            }
            let x = match &ast.declarations[k] {
                Declaration::Fun(f) => match self.label_loops_in_function_decl(f) {
                    Ok(x) => Declaration::Fun(x),
                    Err(m) => {
                        proof {
                            lemma_ll_functions_prefix_err(n0, sfs, k + 1);
                        }
                        return Err(m);
                    },
                },
                Declaration::Variable(v) => Declaration::Variable(copy_var_decl(v)),
            };
            let ghost before = labeled@;
            labeled.push(x);
            proof {
                assert(decls_view(labeled@) =~= decls_view(before).push(decl_view(x)));
            }
            k += 1;
        }
        proof {
            assert(sfs.take(ast.declarations@.len() as int) =~= sfs);
        }
        Ok(Program { declarations: labeled })
    }

    /// Labels the loops of a function's body.
    fn label_loops_in_function_decl(&mut self, f: &FunDecl) -> (r: Result<FunDecl, String>)
        requires
            old(self).count() + loops_fun(fun_decl_view(*f)) <= u32::MAX,
        ensures
            *final(final(self).generator()) == *final(old(self).generator()),
            match (r, ll_fun_decl(old(self).stack(), old(self).count(), fun_decl_view(*f))) {
                (Ok(x), Ok((sx, n))) => fun_decl_view(x) == sx && final(self).count() == n
                    && final(self).stack() == old(self).stack()
                    && n <= old(self).count() + loops_fun(fun_decl_view(*f)),
                (Err(m), Err(e)) => m@ == e,
                _ => false,
            },
    {
        match &f.body {
            Some(b) => {
                let new_body = self.label_loops_in_block(b)?;
                Ok(FunDecl {
                    name: f.name.clone(),
                    parameters: copy_strings(&f.parameters),
                    body: Some(new_body),
                    storage_class: f.storage_class,
                })
            },
            None => Ok(FunDecl {
                name: f.name.clone(),
                parameters: copy_strings(&f.parameters),
                body: None,
                storage_class: f.storage_class,
            }),
        }
    }

    /// Labels the loops of a block's items.
    fn label_loops_in_block(&mut self, block: &Block) -> (r: Result<Block, String>)
        requires
            old(self).count() + loops_items(items_view(block.0@)) <= u32::MAX,
        ensures
            *final(final(self).generator()) == *final(old(self).generator()),
            match (r, ll_items(old(self).stack(), old(self).count(), items_view(block.0@))) {
                (Ok(x), Ok((sx, n))) => items_view(x.0@) == sx && final(self).count() == n
                    && final(self).stack() == old(self).stack()
                    && n <= old(self).count() + loops_items(items_view(block.0@)),
                (Err(m), Err(e)) => m@ == e,
                _ => false,
            },
        decreases block, 3int,
    {
        let items = &block.0;
        let ghost stack0 = self.stack();
        let ghost n0 = self.count();
        let ghost sitems = items_view(items@);
        let mut labeled: Vec<BlockItem> = Vec::new();
        let mut k: usize = 0;
        proof {
            lemma_items_view(items@);
            assert(sitems.take(0) =~= Seq::<SBlockItem>::empty());
            assert(items_view(labeled@) =~= Seq::<SBlockItem>::empty());
        }
        while k < items.len()
            invariant
                *final(self.generator()) == *final(old(self).generator()),
                k <= items@.len(),
                items == &block.0,
                sitems == items_view(items@),
                sitems.len() == items@.len(),
                forall|j: int| 0 <= j < items@.len() ==> #[trigger] sitems[j] == item_view(items@[j]),
                n0 + loops_items(sitems) <= u32::MAX,
                self.stack() == stack0,
                ll_items(stack0, n0, sitems.take(k as int)) == Ok::<(Seq<SBlockItem>, nat), Seq<char>>((items_view(labeled@), self.count())),
                self.count() <= n0 + loops_items(sitems.take(k as int)),
                n0 == old(self).count(),
                stack0 == old(self).stack(),
            decreases items@.len() - k,
        {
            let ghost pre = sitems.take(k + 1);
            assert(pre.drop_last() =~= sitems.take(k as int));
            assert(pre.last() == item_view(items@[k as int]));
            proof {
                lemma_loops_items_prefix(sitems, k + 1);
                assert(decreases_to!(block => items@[k as int]));
            }
            let x = match self.label_loops_in_block_item(&items[k]) {
                Ok(x) => x,
                Err(m) => {
                    proof {
                        lemma_ll_items_prefix_err(stack0, n0, sitems, k + 1);
                    }
                    return Err(m);
                },
            };
            let ghost before = labeled@;
            labeled.push(x);
            proof {
                assert(labeled@.drop_last() =~= before);
            }
            k += 1;
        }
        proof {
            assert(sitems.take(items@.len() as int) =~= sitems);
        }
        Ok(Block(labeled))
    }

    /// Labels the loops of a block item; declarations are copied unchanged.
    fn label_loops_in_block_item(&mut self, item: &BlockItem) -> (r: Result<BlockItem, String>)
        requires
            old(self).count() + loops_item(item_view(*item)) <= u32::MAX,
        ensures
            *final(final(self).generator()) == *final(old(self).generator()),
            match (r, ll_item(old(self).stack(), old(self).count(), item_view(*item))) {
                (Ok(x), Ok((sx, n))) => item_view(x) == sx && final(self).count() == n
                    && final(self).stack() == old(self).stack()
                    && n <= old(self).count() + loops_item(item_view(*item)),
                (Err(m), Err(e)) => m@ == e,
                _ => false,
            },
        decreases item, 2int,
    {
        match item {
            BlockItem::D(d) => Ok(BlockItem::D(copy_declaration(d))),
            BlockItem::S(s) => {
                let new_s = self.label_loops_in_statement(s)?;
                Ok(BlockItem::S(new_s))
            },
        }
    }

    /// Enters a loop labeled `label`.
    fn push_loop(&mut self, label: String)
        ensures
            *final(final(self).generator()) == *final(old(self).generator()),
            final(self).stack() == old(self).stack().push(label@),
            final(self).count() == old(self).count(),
    {
        let ghost before = self.loop_stack@;
        self.loop_stack.push(label);
        assert(strs_view(self.loop_stack@) =~= strs_view(before).push(label@));
    }

    /// Leaves the innermost loop.
    fn pop_loop(&mut self)
        requires
            old(self).stack().len() > 0,
        ensures
            *final(final(self).generator()) == *final(old(self).generator()),
            final(self).stack() == old(self).stack().drop_last(),
            final(self).count() == old(self).count(),
    {
        let ghost before = self.loop_stack@;
        let _ = self.loop_stack.pop();
        assert(strs_view(self.loop_stack@) =~= strs_view(before).drop_last());
    }

    /// The label of the innermost loop, if any.
    fn innermost(&self) -> (r: Option<String>)
        ensures
            match r {
                Some(l) => self.stack().len() > 0 && l@ == self.stack().last(),
                None => self.stack().len() == 0,
            },
    {
        let n = self.loop_stack.len();
        if n == 0 {
            None
        } else {
            Some(self.loop_stack[n - 1].clone())
        }
    }

    /// A fresh loop label.
    fn fresh_label(&mut self) -> (r: String)
        requires
            old(self).count() < u32::MAX,
        ensures
            *final(final(self).generator()) == *final(old(self).generator()),
            r@ == loop_label(old(self).count()),
            final(self).count() == old(self).count() + 1,
            final(self).stack() == old(self).stack(),
    {
        self.name_gen.new_loop_label("loop")
    }

    /// Labels the loops of a statement and the jumps out of them.
    fn label_loops_in_statement(&mut self, stmt: &Statement) -> (r: Result<Statement, String>)
        requires
            old(self).count() + loops_stmt(stmt_view(*stmt)) <= u32::MAX,
        ensures
            *final(final(self).generator()) == *final(old(self).generator()),
            match (r, ll_stmt(old(self).stack(), old(self).count(), stmt_view(*stmt))) {
                (Ok(x), Ok((sx, n))) => stmt_view(x) == sx && final(self).count() == n
                    && final(self).stack() == old(self).stack()
                    && n <= old(self).count() + loops_stmt(stmt_view(*stmt)),
                (Err(m), Err(e)) => m@ == e,
                _ => false,
            },
        decreases stmt, 1int,
    {
        match stmt {
            Statement::Return(e) => Ok(Statement::Return(copy_expression(e))),
            Statement::Expression(e) => Ok(Statement::Expression(copy_expression(e))),
            Statement::Null => Ok(Statement::Null),
            Statement::Compound(b) => {
                let new_b = self.label_loops_in_block(b)?;
                Ok(Statement::Compound(new_b))
            },
            Statement::If { condition, then_stmt, else_stmt } => {
                let new_then = self.label_loops_in_statement(then_stmt)?;
                let new_else = match else_stmt {
                    Some(es) => Some(Box::new(self.label_loops_in_statement(es)?)),
                    None => None,
                };
                Ok(Statement::If {
                    condition: copy_expression(condition),
                    then_stmt: Box::new(new_then),
                    else_stmt: new_else,
                })
            },
            Statement::Break(_) => {
                match self.innermost() {
                    Some(l) => Ok(Statement::Break(l)),
                    None => Err(owned("'break' statement not in loop or switch statement")),
                }
            },
            Statement::Continue(_) => {
                match self.innermost() {
                    Some(l) => Ok(Statement::Continue(l)),
                    None => Err(owned("'continue' statement not in a loop")),
                }
            },
            Statement::While { condition, body, .. } => {
                let loop_label = self.fresh_label();
                self.push_loop(loop_label.clone());
                let new_body = self.label_loops_in_statement(body)?;
                self.pop_loop();
                Ok(Statement::While {
                    condition: copy_expression(condition),
                    body: Box::new(new_body),
                    label: Some(loop_label),
                })
            },
            Statement::DoWhile { body, condition, .. } => {
                let loop_label = self.fresh_label();
                self.push_loop(loop_label.clone());
                let new_body = self.label_loops_in_statement(body)?;
                self.pop_loop();
                Ok(Statement::DoWhile {
                    body: Box::new(new_body),
                    condition: copy_expression(condition),
                    label: Some(loop_label),
                })
            },
            Statement::For { init, condition, post, body, .. } => {
                let loop_label = self.fresh_label();
                self.push_loop(loop_label.clone());
                let new_body = self.label_loops_in_statement(body)?;
                self.pop_loop();
                Ok(Statement::For {
                    init: copy_for_init(init),
                    condition: copy_opt_expression(condition),
                    post: copy_opt_expression(post),
                    body: Box::new(new_body),
                    label: Some(loop_label),
                })
            },
        }
    }
}

} // verus!
