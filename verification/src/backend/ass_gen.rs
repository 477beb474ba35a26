//! The first code generator: each `return <constant>` becomes a move of the
//! constant into the return register and a `ret`.

use vstd::prelude::*;
use crate::backend::ass_ast::{Function, Instructions, Operand, Program};
use crate::frontend::c_ast::{
    decls_view, fun_decl_view, fun_decls_of, items_view, lemma_fun_decls_of_prefix, BlockItem,
    Declaration, Expression, FunDecl, Program as CProgram, SBlockItem, SDeclaration, SExpression,
    SFunDecl, SStatement, Statement,
};

verus! {

/// The bodies this generator handles: every item returns a constant.
pub open spec fn returns_constants(f: SFunDecl) -> bool {
    f.body matches Some(items) ==> forall|j: int| 0 <= j < items.len() ==> (#[trigger] items[j]) matches SBlockItem::S(
        SStatement::Return(SExpression::Constant(_)),
    )
}

/// The constant an item returns.
pub open spec fn returned(i: SBlockItem) -> i64 {
    match i {
        SBlockItem::S(SStatement::Return(SExpression::Constant(n))) => n,
        _ => 0,
    }
}

/// The constants a function's items return, in order.
pub open spec fn moves(f: SFunDecl) -> Seq<i64> {
    match f.body {
        Some(items) => items.map_values(|i: SBlockItem| returned(i)),
        None => Seq::empty(),
    }
}

/// The instruction list is the moves and returns for `constants`, in order.
pub open spec fn is_code_for(code: Seq<Instructions>, constants: Seq<i64>) -> bool {
    &&& code.len() == 2 * constants.len()
    &&& forall|k: int| 0 <= k < constants.len() ==> code[2 * k] == Instructions::Mov {
        src: Operand::Imm(#[trigger] constants[k]),
        dst: Operand::Register(),
    } && code[2 * k + 1] == Instructions::Ret
}

/// Generates the first assembly tree.
pub struct AssGen {}

impl AssGen {
    /// A generator.
    pub fn new() -> (r: Self) {
        AssGen {}
    }

    /// The assembly of every function, in order; file-scope variables get
    /// no code.
    pub fn generate_ass_ast(&mut self, c_ast: CProgram) -> (r: Result<Program, String>)
        requires
            forall|i: int| 0 <= i < fun_decls_of(c_ast@.declarations).len()
                ==> returns_constants(#[trigger] fun_decls_of(c_ast@.declarations)[i]),
        ensures
            r matches Ok(p) && p.functions@.len() == fun_decls_of(c_ast@.declarations).len() && forall|i: int|
                0 <= i < p.functions@.len() ==> #[trigger] p.functions@[i].name@ == fun_decls_of(c_ast@.declarations)[i].name
                    && is_code_for(p.functions@[i].instructions@, moves(fun_decls_of(c_ast@.declarations)[i])),
    {
        let ghost ds = c_ast@.declarations;
        let mut fs: Vec<Function> = Vec::new();
        let mut k: usize = 0;
        assert(ds.take(0) =~= Seq::<SDeclaration>::empty());
        while k < c_ast.declarations.len()
            invariant
                k <= c_ast.declarations@.len(),
                ds == c_ast@.declarations,
                ds == decls_view(c_ast.declarations@),
                forall|i: int| 0 <= i < fun_decls_of(ds).len() ==> returns_constants(#[trigger] fun_decls_of(ds)[i]),
                fun_decls_of(ds.take(k as int)).is_prefix_of(fun_decls_of(ds)),
                fs@.len() == fun_decls_of(ds.take(k as int)).len(),
                forall|i: int| 0 <= i < fs@.len() ==> #[trigger] fs@[i].name@ == fun_decls_of(ds.take(k as int))[i].name
                    && is_code_for(fs@[i].instructions@, moves(fun_decls_of(ds.take(k as int))[i])),
            decreases c_ast.declarations@.len() - k,
        {
            let ghost pre = ds.take(k + 1);
            assert(pre.drop_last() =~= ds.take(k as int));
            proof {
                lemma_fun_decls_of_prefix(ds, k + 1);
            }
            match &c_ast.declarations[k] {
                Declaration::Fun(item) => {
                    assert(pre.last() == SDeclaration::Fun(fun_decl_view(*item)));
                    assert(fun_decls_of(pre) == fun_decls_of(ds.take(k as int)).push(fun_decl_view(*item)));
                    let ghost j = fs@.len() as int;
                    assert(fun_decls_of(pre)[j] == fun_decl_view(*item));
                    assert(fun_decls_of(pre) =~= fun_decls_of(ds).subrange(0, fun_decls_of(pre).len() as int));
                    assert(fun_decls_of(ds).subrange(0, fun_decls_of(pre).len() as int)[j] == fun_decls_of(ds)[j]);
                    assert(fun_decls_of(ds)[j] == fun_decl_view(*item));
                    let ins = self.parse_functions(item)?;
                    fs.push(Function { name: item.name.clone(), instructions: ins });
                },
                Declaration::Variable(_) => {},
            }
            k += 1;
        }
        assert(ds.take(c_ast.declarations@.len() as int) =~= ds);
        Ok(Program { functions: fs })
    }

    fn parse_functions(&mut self, f: &FunDecl) -> (r: Result<Vec<Instructions>, String>)
        requires
            returns_constants(fun_decl_view(*f)),
        ensures
            r matches Ok(code) && is_code_for(code@, moves(fun_decl_view(*f))),
    {
        let mut fs: Vec<Instructions> = Vec::new();
        match &f.body {
            None => {},
            Some(block) => {
                let items = &block.0;
                let ghost sitems = items_view(items@);
                proof {
                    lemma_items_view(items@);
                }
                let mut k: usize = 0;
                while k < items.len()
                    invariant
                        k <= items@.len(),
                        sitems == items_view(items@),
                        sitems.len() == items@.len(),
                        fun_decl_view(*f).body == Some(sitems),
                        returns_constants(fun_decl_view(*f)),
                        forall|j: int| 0 <= j < items@.len() ==> #[trigger] sitems[j] == crate::frontend::c_ast::item_view(items@[j]),
                        is_code_for(fs@, sitems.take(k as int).map_values(|i: SBlockItem| returned(i))),
                    decreases items@.len() - k,
                {
                    let ghost before = fs@;
                    assert(sitems[k as int] matches SBlockItem::S(SStatement::Return(SExpression::Constant(_))));
                    let i = self.parse_ins(&items[k])?;
                    let mut i = i;
                    fs.append(&mut i);
                    proof {
                        let c = sitems.take(k + 1).map_values(|i: SBlockItem| returned(i));
                        let c0 = sitems.take(k as int).map_values(|i: SBlockItem| returned(i));
                        assert(c =~= c0.push(returned(sitems[k as int])));
                        assert forall|j: int| 0 <= j < c.len() implies fs@[2 * j] == Instructions::Mov {
                            src: Operand::Imm(#[trigger] c[j]),
                            dst: Operand::Register(),
                        } && fs@[2 * j + 1] == Instructions::Ret by {
                            if j < k {
                                assert(c[j] == c0[j]);
                            }
                        }
                    }
                    k += 1;
                }
                assert(sitems.take(items@.len() as int) =~= sitems);
            },
        }
        Ok(fs)
    }

    fn parse_ins(&mut self, s: &BlockItem) -> (r: Result<Vec<Instructions>, String>)
        requires
            crate::frontend::c_ast::item_view(*s) matches SBlockItem::S(SStatement::Return(SExpression::Constant(_))),
        ensures
            r matches Ok(code) && code@ == seq![
                Instructions::Mov { src: Operand::Imm(returned(crate::frontend::c_ast::item_view(*s))), dst: Operand::Register() },
                Instructions::Ret,
            ],
    {
        let mut ins: Vec<Instructions> = Vec::new();
        match s {
            BlockItem::S(Statement::Return(Expression::Constant(n))) => {
                ins.push(Instructions::Mov { src: Operand::Imm(*n), dst: Operand::Register() });
                ins.push(Instructions::Ret);
            },
            _ => {
                return vstd::pervasive::unreached();
            },
        }
        assert(ins@ =~= seq![
            Instructions::Mov { src: Operand::Imm(returned(crate::frontend::c_ast::item_view(*s))), dst: Operand::Register() },
            Instructions::Ret,
        ]);
        Ok(ins)
    }
}

proof fn lemma_items_view(s: Seq<BlockItem>)
    ensures
        items_view(s).len() == s.len(),
        forall|j: int| 0 <= j < s.len() ==> #[trigger] items_view(s)[j] == crate::frontend::c_ast::item_view(s[j]),
    decreases s.len(),
{
    if s.len() > 0 {
        lemma_items_view(s.drop_last());
    }
}

} // verus!
