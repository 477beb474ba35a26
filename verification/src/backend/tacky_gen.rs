//! Lowering of the checked syntax tree to TACKY.
//!
//! Expressions become straight-line code that leaves their value in a
//! temporary `tmp<n>`; `&&`, `||`, `?:` and `if` become conditional jumps to
//! labels `label<n>`. Temporaries and labels share the name counter. Loops,
//! `break` and `continue` are not lowered. The TACKY program holds the
//! function definitions; file-scope variables get no code.

use vstd::prelude::*;
use crate::backend::tacky_ir::{
    instrs_view, values_view, BinaryOp, Function, Instruction, Program, SFunction, SInstruction,
    SValue, UnaryOp, Value,
};
use crate::backend::tacky_ir;
use crate::backend::tacky_ir::{binary_value, unary_value};
use crate::frontend::c_ast::{c_binary_value, c_unary_value};
use crate::frontend::c_ast::{
    self, decl_view, decls_view, expr_view, exprs_view, fun_decl_view, fun_decls_view, item_view, items_view,
    lemma_exprs_view, lemma_items_view, stmt_view, copy_strings, strs_view, Block, BlockItem,
    Declaration, Expression, SBlockItem, SDeclaration, SExpression, SFunDecl, SStatement,
    Statement,
};
use crate::name_gen::{lemma_temp_names_distinct, temp_label_name, temp_name, UniqueNameGenerator};

verus! {

/// The temporary made when the counter stood at `n`.
pub open spec fn tmp(n: nat) -> SValue {
    SValue::Var(temp_name(n))
}

/// The label made when the counter stood at `n`.
pub open spec fn lbl(n: nat) -> Seq<char> {
    temp_label_name(n)
}

/// The TACKY counterpart of a unary operator.
pub open spec fn unop_of(op: c_ast::UnaryOp) -> UnaryOp {
    match op {
        c_ast::UnaryOp::Complement => UnaryOp::Complement,
        c_ast::UnaryOp::Negate => UnaryOp::Negate,
        c_ast::UnaryOp::Not => UnaryOp::Not,
    }
}

/// The TACKY counterpart of a binary operator other than `&&` and `||`.
pub open spec fn binop_of(op: c_ast::BinaryOp) -> BinaryOp {
    match op {
        c_ast::BinaryOp::Add => BinaryOp::Add,
        c_ast::BinaryOp::Subtract => BinaryOp::Subtract,
        c_ast::BinaryOp::Multiply => BinaryOp::Multiply,
        c_ast::BinaryOp::Divide => BinaryOp::Divide,
        c_ast::BinaryOp::Remainder => BinaryOp::Remainder,
        c_ast::BinaryOp::BangEqual => BinaryOp::BangEqual,
        c_ast::BinaryOp::EqualEqual => BinaryOp::EqualEqual,
        c_ast::BinaryOp::Greater => BinaryOp::Greater,
        c_ast::BinaryOp::GreaterEqual => BinaryOp::GreaterEqual,
        c_ast::BinaryOp::Less => BinaryOp::Less,
        _ => BinaryOp::LessEqual,
    }
}

/// A conditional jump to `target`: on zero when `on_zero`, else on non-zero.
pub open spec fn jump_on(on_zero: bool, condition: SValue, target: Seq<char>) -> SInstruction {
    if on_zero {
        SInstruction::JumpIfZero { condition, target }
    } else {
        SInstruction::JumpIfNotZero { condition, target }
    }
}

/// The code of a short-circuit operator (`&&` when `on_zero`, else `||`):
/// the left operand's code `i1` (value `v1`, counter `n1` after it), the
/// right operand's code `i2` (value `v2`, counter `n2` after it, which holds
/// the result temporary); the two labels come from `n1` and `n1 + 1`.
pub open spec fn short_circuit_code(
    on_zero: bool,
    i1: Seq<SInstruction>,
    v1: SValue,
    n1: nat,
    i2: Seq<SInstruction>,
    v2: SValue,
    n2: nat,
) -> Seq<SInstruction> {
    let sc: i64 = if on_zero { 0 } else { 1 };
    let ft: i64 = if on_zero { 1 } else { 0 };
    i1.push(jump_on(on_zero, v1, lbl(n1))) + i2 + seq![
        jump_on(on_zero, v2, lbl(n1)),
        SInstruction::Copy { src: SValue::Constant(ft), dst: tmp(n2) },
        SInstruction::Jump(lbl(n1 + 1)),
        SInstruction::Label(lbl(n1)),
        SInstruction::Copy { src: SValue::Constant(sc), dst: tmp(n2) },
        SInstruction::Label(lbl(n1 + 1)),
    ]
}

/// The code of an expression with the counter at `n`: its instructions, the
/// value that holds its result, and the counter after it.
pub open spec fn t_exp(n: nat, e: SExpression) -> (Seq<SInstruction>, SValue, nat)
    decreases e, 0int,
{
    match e {
        SExpression::Constant(i) => (Seq::empty(), SValue::Constant(i), n),
        SExpression::Var(id) => (Seq::empty(), SValue::Var(id), n),
        SExpression::Unary { op, exp } => {
            let (is, v, n1) = t_exp(n, *exp);
            (is.push(SInstruction::Unary { op: unop_of(op), src: v, dst: tmp(n1) }), tmp(n1), n1 + 1)
        },
        SExpression::Binary { op, left, right } => {
            if op == c_ast::BinaryOp::And || op == c_ast::BinaryOp::Or {
                let on_zero = op == c_ast::BinaryOp::And;
                let (i1, v1, n1) = t_exp(n, *left);
                let (i2, v2, n2) = t_exp(n1 + 2, *right);
                (short_circuit_code(on_zero, i1, v1, n1, i2, v2, n2), tmp(n2), n2 + 1)
            } else {
                let (i1, v1, n1) = t_exp(n, *left);
                let (i2, v2, n2) = t_exp(n1, *right);
                ((i1 + i2).push(SInstruction::Binary { op: binop_of(op), src1: v1, src2: v2, dst: tmp(n2) }), tmp(n2), n2 + 1)
            }
        },
        SExpression::Assignment { left, right } => {
            let (i1, v1, n1) = t_exp(n, *left);
            let (i2, v2, n2) = t_exp(n1, *right);
            ((i1 + i2).push(SInstruction::Copy { src: v2, dst: v1 }), v1, n2)
        },
        SExpression::Conditional { condition, left, right } => {
            let (ic, vc, n1) = t_exp(n + 3, *condition);
            let (il, vl, n2) = t_exp(n1, *left);
            let (ir, vr, n3) = t_exp(n2, *right);
            (ic.push(SInstruction::JumpIfZero { condition: vc, target: lbl(n + 1) }) + il + seq![
                SInstruction::Copy { src: vl, dst: tmp(n) },
                SInstruction::Jump(lbl(n + 2)),
                SInstruction::Label(lbl(n + 1)),
            ] + ir + seq![
                SInstruction::Copy { src: vr, dst: tmp(n) },
                SInstruction::Label(lbl(n + 2)),
            ], tmp(n), n3)
        },
        SExpression::FuncCall { name, args } => {
            let (is, vs, n1) = t_args(n, args);
            (is.push(SInstruction::FunctionCall { name, args: vs, dst: tmp(n1) }), tmp(n1), n1 + 1)
        },
    }
}

/// The code of call arguments, evaluated left to right.
pub open spec fn t_args(n: nat, args: Seq<SExpression>) -> (Seq<SInstruction>, Seq<SValue>, nat)
    decreases args, 1int,
{
    if args.len() == 0 {
        (Seq::empty(), Seq::empty(), n)
    } else {
        let (is, vs, n1) = t_args(n, args.drop_last());
        let (i2, v, n2) = t_exp(n1, args.last());
        (is + i2, vs.push(v), n2)
    }
}

/// How many names the code of an expression takes from the counter.
pub open spec fn cost_exp(e: SExpression) -> nat
    decreases e, 0int,
{
    match e {
        SExpression::Constant(_) => 0,
        SExpression::Var(_) => 0,
        SExpression::Unary { exp, .. } => 1 + cost_exp(*exp),
        SExpression::Binary { op, left, right } => (if op == c_ast::BinaryOp::And || op == c_ast::BinaryOp::Or {
            3nat
        } else {
            1nat
        }) + cost_exp(*left) + cost_exp(*right),
        SExpression::Assignment { left, right } => cost_exp(*left) + cost_exp(*right),
        SExpression::Conditional { condition, left, right } => 3 + cost_exp(*condition) + cost_exp(*left) + cost_exp(*right),
        SExpression::FuncCall { args, .. } => 1 + cost_args(args),
    }
}

pub open spec fn cost_args(args: Seq<SExpression>) -> nat
    decreases args, 1int,
{
    if args.len() == 0 {
        0
    } else {
        cost_args(args.drop_last()) + cost_exp(args.last())
    }
}

/// Statements that lowering handles: no loops, `break` or `continue`.
pub open spec fn loop_free_stmt(s: SStatement) -> bool
    decreases s, 0int,
{
    match s {
        SStatement::If { then_stmt, else_stmt, .. } => loop_free_stmt(*then_stmt) && match else_stmt {
            Some(e) => loop_free_stmt(*e),
            None => true,
        },
        SStatement::Compound(items) => loop_free_items(items),
        SStatement::Return(_) => true,
        SStatement::Expression(_) => true,
        SStatement::Null => true,
        _ => false,
    }
}

pub open spec fn loop_free_items(items: Seq<SBlockItem>) -> bool
    decreases items, 1int,
{
    if items.len() == 0 {
        true
    } else {
        loop_free_items(items.drop_last()) && match items.last() {
            SBlockItem::S(s) => loop_free_stmt(s),
            SBlockItem::D(_) => true,
        }
    }
}

/// The code of a statement with the counter at `n`, and the counter after it.
pub open spec fn t_stmt(n: nat, s: SStatement) -> (Seq<SInstruction>, nat)
    decreases s, 0int,
{
    match s {
        SStatement::Return(e) => {
            let (is, v, n1) = t_exp(n, e);
            (is.push(SInstruction::Return(v)), n1)
        },
        SStatement::Expression(e) => {
            let (is, v, n1) = t_exp(n, e);
            (is, n1)
        },
        SStatement::Compound(items) => t_items(n, items),
        SStatement::If { condition, then_stmt, else_stmt } => {
            let (ic, vc, n1) = t_exp(n, condition);
            match else_stmt {
                None => {
                    let (it, n2) = t_stmt(n1 + 1, *then_stmt);
                    (ic.push(SInstruction::JumpIfZero { condition: vc, target: lbl(n1) }) + it
                        .push(SInstruction::Label(lbl(n1))), n2)
                },
                Some(es) => {
                    let (it, n2) = t_stmt(n1 + 2, *then_stmt);
                    let (ie, n3) = t_stmt(n2, *es);
                    (ic.push(SInstruction::JumpIfZero { condition: vc, target: lbl(n1) }) + it
                        .push(SInstruction::Jump(lbl(n1 + 1)))
                        .push(SInstruction::Label(lbl(n1))) + ie
                        .push(SInstruction::Label(lbl(n1 + 1))), n3)
                },
            }
        },
        _ => (Seq::empty(), n),
    }
}

/// The code of block items in order.
pub open spec fn t_items(n: nat, items: Seq<SBlockItem>) -> (Seq<SInstruction>, nat)
    decreases items, 1int,
{
    if items.len() == 0 {
        (Seq::empty(), n)
    } else {
        let (is, n1) = t_items(n, items.drop_last());
        let (i2, n2) = t_item(n1, items.last());
        (is + i2, n2)
    }
}

/// The code of one block item: an initialized variable is assigned its
/// initial value; other declarations have no code.
pub open spec fn t_item(n: nat, item: SBlockItem) -> (Seq<SInstruction>, nat)
    decreases item, 0int,
{
    match item {
        SBlockItem::S(s) => t_stmt(n, s),
        SBlockItem::D(SDeclaration::Variable(v)) => match v.init {
            None => (Seq::empty(), n),
            Some(e) => {
                let (is, r, n1) = t_exp(n, e);
                (is.push(SInstruction::Copy { src: r, dst: SValue::Var(v.name) }), n1)
            },
        },
        SBlockItem::D(SDeclaration::Fun(_)) => (Seq::empty(), n),
    }
}

pub open spec fn cost_stmt(s: SStatement) -> nat
    decreases s, 0int,
{
    match s {
        SStatement::Return(e) => cost_exp(e),
        SStatement::Expression(e) => cost_exp(e),
        SStatement::Compound(items) => cost_items(items),
        SStatement::If { condition, then_stmt, else_stmt } => cost_exp(condition) + cost_stmt(*then_stmt)
            + match else_stmt {
            None => 1nat,
            Some(e) => 2 + cost_stmt(*e),
        },
        _ => 0,
    }
}

pub open spec fn cost_items(items: Seq<SBlockItem>) -> nat
    decreases items, 1int,
{
    if items.len() == 0 {
        0
    } else {
        cost_items(items.drop_last()) + cost_item(items.last())
    }
}

pub open spec fn cost_item(item: SBlockItem) -> nat
    decreases item, 0int,
{
    match item {
        SBlockItem::S(s) => cost_stmt(s),
        SBlockItem::D(SDeclaration::Variable(v)) => match v.init {
            None => 0,
            Some(e) => cost_exp(e),
        },
        SBlockItem::D(SDeclaration::Fun(_)) => 0,
    }
}

/// The TACKY functions of a program's function definitions, in order
/// (function declarations without a body and file-scope variables have
/// none), each body ending in `return 0`.
pub open spec fn t_functions(n: nat, ds: Seq<SDeclaration>) -> (Seq<SFunction>, nat)
    decreases ds.len(),
{
    if ds.len() == 0 {
        (Seq::empty(), n)
    } else {
        let (done, n1) = t_functions(n, ds.drop_last());
        match ds.last() {
            SDeclaration::Fun(f) => match f.body {
                None => (done, n1),
                Some(items) => {
                    let (is, n2) = t_items(n1, items);
                    (done.push(SFunction {
                        name: f.name,
                        params: f.parameters,
                        body: is.push(SInstruction::Return(SValue::Constant(0))),
                    }), n2)
                },
            },
            SDeclaration::Variable(_) => (done, n1),
        }
    }
}

/// The TACKY program of a checked program.
pub open spec fn t_program(n: nat, p: c_ast::SProgram) -> (tacky_ir::SProgram, nat) {
    let (fs, n1) = t_functions(n, p.declarations);
    (tacky_ir::SProgram { functions: fs }, n1)
}

pub open spec fn cost_functions(ds: Seq<SDeclaration>) -> nat
    decreases ds.len(),
{
    if ds.len() == 0 {
        0
    } else {
        cost_functions(ds.drop_last()) + match ds.last() {
            SDeclaration::Fun(f) => match f.body {
                Some(items) => cost_items(items),
                None => 0,
            },
            SDeclaration::Variable(_) => 0,
        }
    }
}

/// Every function definition of the program is free of loops.
pub open spec fn loop_free_program(p: c_ast::SProgram) -> bool {
    forall|i: int| 0 <= i < p.declarations.len() ==> match #[trigger] p.declarations[i] {
        SDeclaration::Fun(f) => match f.body {
            Some(items) => loop_free_items(items),
            None => true,
        },
        SDeclaration::Variable(_) => true,
    }
}

proof fn lemma_cost_args_prefix(s: Seq<SExpression>, i: int)
    requires
        0 <= i <= s.len(),
    ensures
        cost_args(s.take(i)) <= cost_args(s),
    decreases s.len(),
{
    if i < s.len() {
        lemma_cost_args_prefix(s.drop_last(), i);
        assert(s.drop_last().take(i) =~= s.take(i));
    } else {
        assert(s.take(i) =~= s);
    }
}

proof fn lemma_cost_items_prefix(s: Seq<SBlockItem>, i: int)
    requires
        0 <= i <= s.len(),
    ensures
        cost_items(s.take(i)) <= cost_items(s),
        loop_free_items(s) ==> loop_free_items(s.take(i)),
    decreases s.len(),
{
    if i < s.len() {
        lemma_cost_items_prefix(s.drop_last(), i);
        assert(s.drop_last().take(i) =~= s.take(i));
    } else {
        assert(s.take(i) =~= s);
    }
}

proof fn lemma_cost_functions_prefix(s: Seq<SDeclaration>, i: int)
    requires
        0 <= i <= s.len(),
    ensures
        cost_functions(s.take(i)) <= cost_functions(s),
    decreases s.len(),
{
    if i < s.len() {
        lemma_cost_functions_prefix(s.drop_last(), i);
        assert(s.drop_last().take(i) =~= s.take(i));
    } else {
        assert(s.take(i) =~= s);
    }
}

// ---------------------------------------------------------------------------
// Implementation
// ---------------------------------------------------------------------------

/// Whether lowering handles the statement: no loop, `break` or `continue`.
fn statement_loop_free(s: &Statement) -> (r: bool)
    ensures
        r == loop_free_stmt(stmt_view(*s)),
    decreases s,
{
    match s {
        Statement::If { then_stmt, else_stmt, .. } => {
            if !statement_loop_free(then_stmt) {
                return false;
            }
            match else_stmt {
                Some(e) => statement_loop_free(e),
                None => true,
            }
        },
        Statement::Compound(b) => items_loop_free(&b.0),
        Statement::Return(_) | Statement::Expression(_) | Statement::Null => true,
        _ => false,
    }
}

fn items_loop_free(items: &Vec<BlockItem>) -> (r: bool)
    ensures
        r == loop_free_items(items_view(items@)),
    decreases items,
{
    let ghost sitems = items_view(items@);
    let mut k: usize = 0;
    proof {
        lemma_items_view(items@);
        assert(sitems.take(0) =~= Seq::<SBlockItem>::empty());
    }
    while k < items.len()
        invariant
            k <= items@.len(),
            sitems == items_view(items@),
            sitems.len() == items@.len(),
            forall|j: int| 0 <= j < items@.len() ==> #[trigger] sitems[j] == item_view(items@[j]),
            loop_free_items(sitems.take(k as int)),
        decreases items@.len() - k,
    {
        let ghost pre = sitems.take(k + 1);
        assert(pre.drop_last() =~= sitems.take(k as int));
        assert(pre.last() == item_view(items@[k as int]));
        proof {
            assert(decreases_to!(items => items@[k as int]));
        }
        let ok = match &items[k] {
            BlockItem::S(s) => statement_loop_free(s),
            BlockItem::D(_) => true,
        };
        if !ok {
            proof {
                lemma_loop_free_prefix(sitems, k + 1);
            }
            return false;
        }
        k += 1;
    }
    assert(sitems.take(items@.len() as int) =~= sitems);
    true
}

proof fn lemma_loop_free_prefix(s: Seq<SBlockItem>, i: int)
    requires
        0 <= i <= s.len(),
        !loop_free_items(s.take(i)),
    ensures
        !loop_free_items(s),
    decreases s.len(),
{
    if i < s.len() {
        assert(s.drop_last().take(i) =~= s.take(i));
        lemma_loop_free_prefix(s.drop_last(), i);
    } else {
        assert(s.take(i) =~= s);
    }
}

/// Whether lowering handles the program: no function body holds a loop,
/// `break` or `continue`.
pub fn is_loop_free(p: &c_ast::Program) -> (r: bool)
    ensures
        r == loop_free_program(p@),
{
    let mut k: usize = 0;
    while k < p.declarations.len()
        invariant
            k <= p.declarations@.len(),
            p@.declarations == decls_view(p.declarations@),
            forall|i: int| 0 <= i < k ==> match #[trigger] p@.declarations[i] {
                SDeclaration::Fun(f) => match f.body {
                    Some(items) => loop_free_items(items),
                    None => true,
                },
                SDeclaration::Variable(_) => true,
            },
        decreases p.declarations@.len() - k,
    {
        assert(p@.declarations[k as int] == decl_view(p.declarations@[k as int]));
        match &p.declarations[k] {
            Declaration::Fun(f) => {
                match &f.body {
                    Some(b) => {
                        if !items_loop_free(&b.0) {
                            assert(fun_decl_view(*f).body == Some(items_view(b.0@)));
                            return false;
                        }
                    },
                    None => {},
                }
            },
            Declaration::Variable(_) => {},
        }
        k += 1;
    }
    true
}

/// The TACKY generator: the shared name counter.
#[derive(Debug)]
pub struct TackyGenerator<'a> {
    name_gen: &'a mut UniqueNameGenerator,
}

/// On which outcome of an operand a short-circuit operator jumps.
enum ShortCircuitJump {
    OnZero,
    OnNotZero,
}

fn tacky_unop(op: c_ast::UnaryOp) -> (r: UnaryOp)
    ensures
        r == unop_of(op),
{
    match op {
        c_ast::UnaryOp::Complement => UnaryOp::Complement,
        c_ast::UnaryOp::Negate => UnaryOp::Negate,
        c_ast::UnaryOp::Not => UnaryOp::Not,
    }
}

fn tacky_binop(op: c_ast::BinaryOp) -> (r: BinaryOp)
    ensures
        r == binop_of(op),
{
    match op {
        c_ast::BinaryOp::Add => BinaryOp::Add,
        c_ast::BinaryOp::Subtract => BinaryOp::Subtract,
        c_ast::BinaryOp::Multiply => BinaryOp::Multiply,
        c_ast::BinaryOp::Divide => BinaryOp::Divide,
        c_ast::BinaryOp::Remainder => BinaryOp::Remainder,
        c_ast::BinaryOp::BangEqual => BinaryOp::BangEqual,
        c_ast::BinaryOp::EqualEqual => BinaryOp::EqualEqual,
        c_ast::BinaryOp::Greater => BinaryOp::Greater,
        c_ast::BinaryOp::GreaterEqual => BinaryOp::GreaterEqual,
        c_ast::BinaryOp::Less => BinaryOp::Less,
        _ => BinaryOp::LessEqual,
    }
}

/// Appends one instruction.
fn emit(v: &mut Vec<Instruction>, i: Instruction)
    ensures
        instrs_view(final(v)@) == instrs_view(old(v)@).push(i@),
{
    let ghost before = v@;
    v.push(i);
    assert(instrs_view(v@) =~= instrs_view(before).push(i@));
}

/// Appends a list of instructions.
fn emit_all(v: &mut Vec<Instruction>, mut w: Vec<Instruction>)
    ensures
        instrs_view(final(v)@) == instrs_view(old(v)@) + instrs_view(w@),
{
    let ghost before = v@;
    let ghost added = w@;
    v.append(&mut w);
    assert(instrs_view(v@) =~= instrs_view(before) + instrs_view(added));
}

impl<'a> TackyGenerator<'a> {
    /// The borrowed counter.
    pub closed spec fn generator(&self) -> &'a mut UniqueNameGenerator {
        self.name_gen
    }

    /// The counter's value.
    pub closed spec fn count(&self) -> nat {
        self.name_gen.count()
    }

    /// A generator using the counter `g`.
    pub fn new(g: &'a mut UniqueNameGenerator) -> (r: Self)
        ensures
            *final(g) == *final(r.generator()),
            r.count() == old(g).count(),
    {
        TackyGenerator { name_gen: g }
    }

    fn temp(&mut self) -> (r: Value)
        requires
            old(self).count() < u32::MAX,
        ensures
            *final(final(self).generator()) == *final(old(self).generator()),
            r@ == tmp(old(self).count()),
            final(self).count() == old(self).count() + 1,
    {
        Value::Var(self.name_gen.new_temp_var())
    }

    fn label(&mut self) -> (r: String)
        requires
            old(self).count() < u32::MAX,
        ensures
            *final(final(self).generator()) == *final(old(self).generator()),
            r@ == lbl(old(self).count()),
            final(self).count() == old(self).count() + 1,
    {
        self.name_gen.new_temp_label()
    }

    /// Lowers a whole program. Every function definition becomes a TACKY
    /// function whose code ends in `return 0`.
    pub fn generate_tacky(&mut self, c_ast: &c_ast::Program) -> (r: Result<Program, String>)
        requires
            loop_free_program(c_ast@),
            old(self).count() + cost_functions(c_ast@.declarations) <= u32::MAX,
        ensures
            *final(final(self).generator()) == *final(old(self).generator()),
            r is Ok,
            r matches Ok(x) ==> x@ == t_program(old(self).count(), c_ast@).0,
            final(self).count() == t_program(old(self).count(), c_ast@).1,
    {
        let ghost n0 = self.count();
        let ghost sfs = c_ast@.declarations;
        let mut fs: Vec<Function> = Vec::new();
        let mut k: usize = 0;
        proof {
            assert(sfs.take(0) =~= Seq::<SDeclaration>::empty());
            assert(fs@.map_values(|f: Function| f@) =~= Seq::<SFunction>::empty());
        }
        while k < c_ast.declarations.len()
            invariant
                *final(self.generator()) == *final(old(self).generator()),
                k <= c_ast.declarations@.len(),
                sfs == c_ast@.declarations,
                sfs == decls_view(c_ast.declarations@),
                loop_free_program(c_ast@),
                n0 + cost_functions(sfs) <= u32::MAX,
                t_functions(n0, sfs.take(k as int)) == (fs@.map_values(|f: Function| f@), self.count()),
                self.count() == n0 + cost_functions(sfs.take(k as int)),
                n0 == old(self).count(),
            decreases c_ast.declarations@.len() - k,
        {
            let ghost pre = sfs.take(k + 1);
            assert(pre.drop_last() =~= sfs.take(k as int));
            assert(pre.last() == decl_view(c_ast.declarations@[k as int]));
            proof {
                lemma_cost_functions_prefix(sfs, k + 1);
            }
            match &c_ast.declarations[k] {
                Declaration::Fun(item) => {
                    match &item.body {
                        Some(b) => {
                            assert(sfs[k as int] == SDeclaration::Fun(fun_decl_view(*item)));
                            assert(fun_decl_view(*item).body == Some(items_view(b.0@)));
                            let mut all_instructions = self.generate_block(b);
                            emit(&mut all_instructions, Instruction::Return(Value::Constant(0)));
                            let f1 = Function {
                                name: item.name.clone(),
                                params: copy_strings(&item.parameters),
                                body: all_instructions,
                            };
                            let ghost before = fs@;
                            fs.push(f1);
                            proof {
                                assert(f1.params@.map_values(|s: String| s@) == strs_view(f1.params@));
                                assert(fs@.map_values(|f: Function| f@) =~= before.map_values(|f: Function| f@).push(f1@));
                            }
                        },
                        None => {},
                    }
                },
                Declaration::Variable(_) => {},
            }
            k += 1;
        }
        proof {
            assert(sfs.take(c_ast.declarations@.len() as int) =~= sfs);
        }
        Ok(Program { functions: fs })
    }

    /// Lowers the items of a block in order.
    fn generate_block(&mut self, b: &Block) -> (r: Vec<Instruction>)
        requires
            loop_free_items(items_view(b.0@)),
            old(self).count() + cost_items(items_view(b.0@)) <= u32::MAX,
        ensures
            *final(final(self).generator()) == *final(old(self).generator()),
            instrs_view(r@) == t_items(old(self).count(), items_view(b.0@)).0,
            final(self).count() == t_items(old(self).count(), items_view(b.0@)).1,
            final(self).count() == old(self).count() + cost_items(items_view(b.0@)),
        decreases b, 3int,
    {
        let items = &b.0;
        let ghost n0 = self.count();
        let ghost sitems = items_view(items@);
        let mut all_instructions: Vec<Instruction> = Vec::new();
        let mut k: usize = 0;
        proof {
            lemma_items_view(items@);
            assert(sitems.take(0) =~= Seq::<SBlockItem>::empty());
            assert(instrs_view(all_instructions@) =~= Seq::<SInstruction>::empty());
        }
        while k < items.len()
            invariant
                *final(self.generator()) == *final(old(self).generator()),
                k <= items@.len(),
                items == &b.0,
                sitems == items_view(items@),
                sitems.len() == items@.len(),
                forall|j: int| 0 <= j < items@.len() ==> #[trigger] sitems[j] == item_view(items@[j]),
                loop_free_items(sitems),
                n0 + cost_items(sitems) <= u32::MAX,
                t_items(n0, sitems.take(k as int)) == (instrs_view(all_instructions@), self.count()),
                self.count() == n0 + cost_items(sitems.take(k as int)),
                n0 == old(self).count(),
            decreases items@.len() - k,
        {
            let ghost pre = sitems.take(k + 1);
            assert(pre.drop_last() =~= sitems.take(k as int));
            assert(pre.last() == item_view(items@[k as int]));
            proof {
                lemma_cost_items_prefix(sitems, k + 1);
                assert(decreases_to!(b => items@[k as int]));
            }
            assert(cost_items(pre) == cost_items(sitems.take(k as int)) + cost_item(pre.last()));
            assert(loop_free_items(pre));
            let ghost n1 = self.count();
            let ghost step = t_item(n1, pre.last());
            let ghost done = instrs_view(all_instructions@);
            let ins = match &items[k] {
                BlockItem::D(d) => {
                    assert(pre.last() == item_view(BlockItem::D(*d)));
                    self.generate_tacky_decl(d)
                },
                BlockItem::S(s) => {
                    assert(pre.last() == SBlockItem::S(stmt_view(*s)));
                    self.generate_tacky_statement(s)
                },
            };
            assert(instrs_view(ins@) == step.0 && self.count() == step.1);
            emit_all(&mut all_instructions, ins);
            assert(t_items(n0, pre) == (done + step.0, step.1));
            k += 1;
        }
        proof {
            assert(sitems.take(items@.len() as int) =~= sitems);
        }
        all_instructions
    }

    /// Lowers a declaration: an initialized variable is assigned its value.
    fn generate_tacky_decl(&mut self, d: &Declaration) -> (r: Vec<Instruction>)
        requires
            old(self).count() + cost_item(item_view(BlockItem::D(*d))) <= u32::MAX,
        ensures
            *final(final(self).generator()) == *final(old(self).generator()),
            instrs_view(r@) == t_item(old(self).count(), item_view(BlockItem::D(*d))).0,
            final(self).count() == t_item(old(self).count(), item_view(BlockItem::D(*d))).1,
            final(self).count() == old(self).count() + cost_item(item_view(BlockItem::D(*d))),
    {
        match d {
            Declaration::Variable(v) => match &v.init {
                None => {
                    let r: Vec<Instruction> = Vec::new();
                    assert(instrs_view(r@) =~= Seq::<SInstruction>::empty());
                    r
                },
                Some(e) => {
                    let (mut instructions, result_value) = self.generate_tacky_exp(e);
                    emit(&mut instructions, Instruction::Copy { src: result_value, dst: Value::Var(v.name.clone()) });
                    instructions
                },
            },
            Declaration::Fun(_) => {
                let r: Vec<Instruction> = Vec::new();
                assert(instrs_view(r@) =~= Seq::<SInstruction>::empty());
                r
            },
        }
    }

    /// Lowers a statement.
    fn generate_tacky_statement(&mut self, c_stat: &Statement) -> (r: Vec<Instruction>)
        requires
            loop_free_stmt(stmt_view(*c_stat)),
            old(self).count() + cost_stmt(stmt_view(*c_stat)) <= u32::MAX,
        ensures
            *final(final(self).generator()) == *final(old(self).generator()),
            instrs_view(r@) == t_stmt(old(self).count(), stmt_view(*c_stat)).0,
            final(self).count() == t_stmt(old(self).count(), stmt_view(*c_stat)).1,
            final(self).count() == old(self).count() + cost_stmt(stmt_view(*c_stat)),
        decreases c_stat, 2int,
    {
        match c_stat {
            Statement::Return(exp) => {
                let (mut instructions, result_value) = self.generate_tacky_exp(exp);
                emit(&mut instructions, Instruction::Return(result_value));
                instructions
            },
            Statement::Null => {
                let r: Vec<Instruction> = Vec::new();
                assert(instrs_view(r@) =~= Seq::<SInstruction>::empty());
                r
            },
            Statement::Expression(e) => {
                let (instructions, _) = self.generate_tacky_exp(e);
                instructions
            },
            Statement::Compound(b) => self.generate_block(b),
            Statement::If { condition, then_stmt, else_stmt } => {
                let (mut instructions, cond_val) = self.generate_tacky_exp(condition);
                match else_stmt {
                    None => {
                        let end_label = self.label();
                        emit(&mut instructions, Instruction::JumpIfZero { condition: cond_val, target: end_label.clone() });
                        let then_instrs = self.generate_tacky_statement(then_stmt);
                        emit_all(&mut instructions, then_instrs);
                        emit(&mut instructions, Instruction::Label(end_label));
                    },
                    Some(else_s) => {
                        let else_label = self.label();
                        let end_label = self.label();
                        emit(&mut instructions, Instruction::JumpIfZero { condition: cond_val, target: else_label.clone() });
                        let then_instrs = self.generate_tacky_statement(then_stmt);
                        emit_all(&mut instructions, then_instrs);
                        emit(&mut instructions, Instruction::Jump(end_label.clone()));
                        emit(&mut instructions, Instruction::Label(else_label));
                        let else_instrs = self.generate_tacky_statement(else_s);
                        emit_all(&mut instructions, else_instrs);
                        emit(&mut instructions, Instruction::Label(end_label));
                    },
                }
                instructions
            },
            _ => {
                let r: Vec<Instruction> = Vec::new();
                r
            },
        }
    }

    /// Lowers `exp`, a `&&` or `||`, with jumps that skip the right operand
    /// once the left one decides the result.
    fn generate_short_circuit_op(
        &mut self,
        exp: &Expression,
        jump_type: ShortCircuitJump,
        short_circuit_val: i64,
        fall_through_val: i64,
    ) -> (r: (Vec<Instruction>, Value))
        requires
            exp matches Expression::Binary { op, .. } && (op == c_ast::BinaryOp::And || op == c_ast::BinaryOp::Or),
            (jump_type is OnZero) == (exp matches Expression::Binary { op, .. } && op == c_ast::BinaryOp::And),
            short_circuit_val == (if jump_type is OnZero { 0i64 } else { 1i64 }),
            fall_through_val == (if jump_type is OnZero { 1i64 } else { 0i64 }),
            old(self).count() + cost_exp(expr_view(*exp)) <= u32::MAX,
        ensures
            *final(final(self).generator()) == *final(old(self).generator()),
            instrs_view(r.0@) == t_exp(old(self).count(), expr_view(*exp)).0,
            r.1@ == t_exp(old(self).count(), expr_view(*exp)).1,
            final(self).count() == t_exp(old(self).count(), expr_view(*exp)).2,
            final(self).count() == old(self).count() + cost_exp(expr_view(*exp)),
        decreases exp, 0int,
    {
        let (left, right) = match exp {
            Expression::Binary { left, right, .. } => (left, right),
            _ => {
                return (Vec::new(), Value::Constant(0));
            },
        };
        let (mut instructions, v1) = self.generate_tacky_exp(left);
        let short_circuit_label = self.label();
        let end_label = self.label();
        let first_jump = match jump_type {
            ShortCircuitJump::OnZero => Instruction::JumpIfZero { condition: v1, target: short_circuit_label.clone() },
            ShortCircuitJump::OnNotZero => Instruction::JumpIfNotZero { condition: v1, target: short_circuit_label.clone() },
        };
        emit(&mut instructions, first_jump);
        let (instrs2, v2) = self.generate_tacky_exp(right);
        emit_all(&mut instructions, instrs2);
        let second_jump = match jump_type {
            ShortCircuitJump::OnZero => Instruction::JumpIfZero { condition: v2, target: short_circuit_label.clone() },
            ShortCircuitJump::OnNotZero => Instruction::JumpIfNotZero { condition: v2, target: short_circuit_label.clone() },
        };
        emit(&mut instructions, second_jump);
        let result = self.temp();
        emit(&mut instructions, Instruction::Copy { src: Value::Constant(fall_through_val), dst: result.duplicate() });
        emit(&mut instructions, Instruction::Jump(end_label.clone()));
        emit(&mut instructions, Instruction::Label(short_circuit_label));
        emit(&mut instructions, Instruction::Copy { src: Value::Constant(short_circuit_val), dst: result.duplicate() });
        emit(&mut instructions, Instruction::Label(end_label));
        (instructions, result)
    }

    /// Lowers an expression: its instructions and the value that holds its
    /// result.
    #[verifier::loop_isolation(false)]
    #[verifier::spinoff_prover]
    #[verifier::rlimit(60)]
    fn generate_tacky_exp(&mut self, exp: &Expression) -> (r: (Vec<Instruction>, Value))
        requires
            old(self).count() + cost_exp(expr_view(*exp)) <= u32::MAX,
        ensures
            *final(final(self).generator()) == *final(old(self).generator()),
            instrs_view(r.0@) == t_exp(old(self).count(), expr_view(*exp)).0,
            r.1@ == t_exp(old(self).count(), expr_view(*exp)).1,
            final(self).count() == t_exp(old(self).count(), expr_view(*exp)).2,
            final(self).count() == old(self).count() + cost_exp(expr_view(*exp)),
        decreases exp, 1int,
    {
        match exp {
            Expression::Constant(i) => {
                let r: Vec<Instruction> = Vec::new();
                assert(instrs_view(r@) =~= Seq::<SInstruction>::empty());
                assert(self.generator() == old(self).generator());
                (r, Value::Constant(*i))
            },
            Expression::Var(id) => {
                let r: Vec<Instruction> = Vec::new();
                assert(instrs_view(r@) =~= Seq::<SInstruction>::empty());
                (r, Value::Var(id.clone()))
            },
            Expression::Unary { op, exp: inner } => {
                let (mut instructions, src_value) = self.generate_tacky_exp(inner);
                let dst_value = self.temp();
                emit(&mut instructions, Instruction::Unary { op: tacky_unop(*op), src: src_value, dst: dst_value.duplicate() });
                (instructions, dst_value)
            },
            Expression::Binary { op, left, right } => match op {
                c_ast::BinaryOp::And => self.generate_short_circuit_op(exp, ShortCircuitJump::OnZero, 0, 1),
                c_ast::BinaryOp::Or => self.generate_short_circuit_op(exp, ShortCircuitJump::OnNotZero, 1, 0),
                _ => {
                    let (mut instructions1, src1_value) = self.generate_tacky_exp(left);
                    let (instructions2, src2_value) = self.generate_tacky_exp(right);
                    let dst_value = self.temp();
                    emit_all(&mut instructions1, instructions2);
                    emit(&mut instructions1, Instruction::Binary {
                        op: tacky_binop(*op),
                        src1: src1_value,
                        src2: src2_value,
                        dst: dst_value.duplicate(),
                    });
                    (instructions1, dst_value)
                },
            },
            Expression::Assignment { left, right } => {
                let (mut instructions_for_dest, dest_value) = self.generate_tacky_exp(left);
                let (instructions_for_src, src_value) = self.generate_tacky_exp(right);
                emit_all(&mut instructions_for_dest, instructions_for_src);
                emit(&mut instructions_for_dest, Instruction::Copy { src: src_value, dst: dest_value.duplicate() });
                (instructions_for_dest, dest_value)
            },
            Expression::Conditional { condition, left, right } => {
                let result_val = self.temp();
                let false_label = self.label();
                let end_label = self.label();
                let (mut instructions, cond_val) = self.generate_tacky_exp(condition);
                emit(&mut instructions, Instruction::JumpIfZero { condition: cond_val, target: false_label.clone() });
                let (then_instrs, then_val) = self.generate_tacky_exp(left);
                emit_all(&mut instructions, then_instrs);
                emit(&mut instructions, Instruction::Copy { src: then_val, dst: result_val.duplicate() });
                emit(&mut instructions, Instruction::Jump(end_label.clone()));
                emit(&mut instructions, Instruction::Label(false_label));
                let (else_instrs, else_val) = self.generate_tacky_exp(right);
                emit_all(&mut instructions, else_instrs);
                emit(&mut instructions, Instruction::Copy { src: else_val, dst: result_val.duplicate() });
                emit(&mut instructions, Instruction::Label(end_label));
                (instructions, result_val)
            },
            Expression::FuncCall { name, args } => {
                let ghost n0 = self.count();
                let ghost sargs = exprs_view(args@);
                let mut instructions: Vec<Instruction> = Vec::new();
                let mut values: Vec<Value> = Vec::new();
                let mut k: usize = 0;
                proof {
                    lemma_exprs_view(args@);
                    assert(sargs.take(0) =~= Seq::<SExpression>::empty());
                    assert(instrs_view(instructions@) =~= Seq::<SInstruction>::empty());
                    assert(values_view(values@) =~= Seq::<SValue>::empty());
                }
                while k < args.len()
                    invariant
                        *final(self.generator()) == *final(old(self).generator()),
                        k <= args@.len(),
                        sargs == exprs_view(args@),
                        sargs.len() == args@.len(),
                        forall|j: int| 0 <= j < args@.len() ==> #[trigger] sargs[j] == expr_view(args@[j]),
                        n0 + cost_args(sargs) + 1 <= u32::MAX,
                        t_args(n0, sargs.take(k as int)) == (instrs_view(instructions@), values_view(values@), self.count()),
                        self.count() == n0 + cost_args(sargs.take(k as int)),
                    decreases args@.len() - k,
                {
                    let ghost pre = sargs.take(k + 1);
                    assert(pre.drop_last() =~= sargs.take(k as int));
                    assert(pre.last() == expr_view(args@[k as int]));
                    proof {
                        lemma_cost_args_prefix(sargs, k + 1);
                        assert(decreases_to!(*exp => args@[k as int]));
                    }
                    let (ins, v) = self.generate_tacky_exp(&args[k]);
                    emit_all(&mut instructions, ins);
                    let ghost vbefore = values@;
                    values.push(v);
                    proof {
                        assert(values_view(values@) =~= values_view(vbefore).push(v@));
                    }
                    k += 1;
                }
                proof {
                    assert(sargs.take(args@.len() as int) =~= sargs);
                }
                let dst = self.temp();
                emit(&mut instructions, Instruction::FunctionCall { name: name.clone(), args: values, dst: dst.duplicate() });
                (instructions, dst)
            },
        }
    }
}


// ---------------------------------------------------------------------------
// Freshness of the names that lowering makes.
// ---------------------------------------------------------------------------

/// The label an instruction defines or jumps to.
pub open spec fn instr_label(i: SInstruction) -> Option<Seq<char>> {
    match i {
        SInstruction::Jump(l) => Some(l),
        SInstruction::Label(l) => Some(l),
        SInstruction::JumpIfZero { target, .. } => Some(target),
        SInstruction::JumpIfNotZero { target, .. } => Some(target),
        _ => None,
    }
}

/// The value an instruction writes.
pub open spec fn instr_dst(i: SInstruction) -> Option<SValue> {
    match i {
        SInstruction::Unary { dst, .. } => Some(dst),
        SInstruction::Binary { dst, .. } => Some(dst),
        SInstruction::Copy { dst, .. } => Some(dst),
        SInstruction::FunctionCall { dst, .. } => Some(dst),
        _ => None,
    }
}

/// Every label and every temporary that `is` defines, jumps to or writes was
/// made at a counter value in `[lo, hi)`.
pub open spec fn code_within(is: Seq<SInstruction>, lo: nat, hi: nat) -> bool {
    &&& forall|j: int, k: nat|
        0 <= j < is.len() && #[trigger] instr_label(is[j]) == Some(#[trigger] lbl(k)) ==> lo <= k < hi
    &&& forall|j: int, k: nat|
        0 <= j < is.len() && #[trigger] instr_dst(is[j]) == Some(#[trigger] tmp(k)) ==> lo <= k < hi
    &&& forall|j: int|
        0 <= j < is.len() && (#[trigger] instr_label(is[j])) is Some ==> exists|k: nat|
            lo <= k < hi && instr_label(is[j]) == Some(#[trigger] lbl(k))
}

/// No variable of the expression is named like a temporary `tmp<k>`.
pub open spec fn no_temp_named(e: SExpression) -> bool
    decreases e, 0int,
{
    match e {
        SExpression::Constant(_) => true,
        SExpression::Var(id) => forall|k: nat| id != #[trigger] temp_name(k),
        SExpression::Unary { exp, .. } => no_temp_named(*exp),
        SExpression::Binary { left, right, .. } => no_temp_named(*left) && no_temp_named(*right),
        SExpression::Assignment { left, right } => no_temp_named(*left) && no_temp_named(*right),
        SExpression::Conditional { condition, left, right } => no_temp_named(*condition)
            && no_temp_named(*left) && no_temp_named(*right),
        SExpression::FuncCall { args, .. } => no_temp_named_args(args),
    }
}

pub open spec fn no_temp_named_args(args: Seq<SExpression>) -> bool
    decreases args, 1int,
{
    if args.len() == 0 {
        true
    } else {
        no_temp_named_args(args.drop_last()) && no_temp_named(args.last())
    }
}

proof fn lemma_lbl_injective(a: nat, b: nat)
    requires
        lbl(a) == lbl(b),
    ensures
        a == b,
{
    if a != b {
        lemma_temp_names_distinct(a, b);
    }
}

proof fn lemma_tmp_injective(a: nat, b: nat)
    requires
        tmp(a) == tmp(b),
    ensures
        a == b,
{
    if a != b {
        lemma_temp_names_distinct(a, b);
    }
}

proof fn lemma_within_concat(a: Seq<SInstruction>, b: Seq<SInstruction>, lo: nat, hi: nat)
    requires
        code_within(a, lo, hi),
        code_within(b, lo, hi),
    ensures
        code_within(a + b, lo, hi),
{
    assert forall|j: int, k: nat|
        0 <= j < (a + b).len() && #[trigger] instr_label((a + b)[j]) == Some(#[trigger] lbl(k)) implies lo <= k < hi by {
        if j < a.len() {
            assert((a + b)[j] == a[j]);
        } else {
            assert((a + b)[j] == b[j - a.len()]);
        }
    }
    assert forall|j: int, k: nat|
        0 <= j < (a + b).len() && #[trigger] instr_dst((a + b)[j]) == Some(#[trigger] tmp(k)) implies lo <= k < hi by {
        if j < a.len() {
            assert((a + b)[j] == a[j]);
        } else {
            assert((a + b)[j] == b[j - a.len()]);
        }
    }
    assert forall|j: int|
        0 <= j < (a + b).len() && (#[trigger] instr_label((a + b)[j])) is Some implies exists|k: nat|
            lo <= k < hi && instr_label((a + b)[j]) == Some(#[trigger] lbl(k)) by {
        if j < a.len() {
            assert((a + b)[j] == a[j]);
        } else {
            assert((a + b)[j] == b[j - a.len()]);
        }
    }
}

proof fn lemma_within_widen(a: Seq<SInstruction>, lo: nat, hi: nat, lo2: nat, hi2: nat)
    requires
        code_within(a, lo, hi),
        lo2 <= lo,
        hi <= hi2,
    ensures
        code_within(a, lo2, hi2),
{
    assert forall|j: int|
        0 <= j < a.len() && (#[trigger] instr_label(a[j])) is Some implies exists|k: nat|
            lo2 <= k < hi2 && instr_label(a[j]) == Some(#[trigger] lbl(k)) by {
        let k = choose|k: nat| lo <= k < hi && instr_label(a[j]) == Some(#[trigger] lbl(k));
        assert(lo2 <= k < hi2 && instr_label(a[j]) == Some(lbl(k)));
    }
}

/// A single instruction whose label and written temporary, where it has
/// them, were made at counter values in `[lo, hi)`.
proof fn lemma_within_one(i: SInstruction, lo: nat, hi: nat)
    requires
        forall|k: nat| instr_label(i) == Some(#[trigger] lbl(k)) ==> lo <= k < hi,
        forall|k: nat| instr_dst(i) == Some(#[trigger] tmp(k)) ==> lo <= k < hi,
        instr_label(i) is Some ==> exists|k: nat| lo <= k < hi && instr_label(i) == Some(#[trigger] lbl(k)),
    ensures
        code_within(seq![i], lo, hi),
{
    assert forall|j: int|
        0 <= j < seq![i].len() && (#[trigger] instr_label(seq![i][j])) is Some implies exists|k: nat|
            lo <= k < hi && instr_label(seq![i][j]) == Some(#[trigger] lbl(k)) by {
        assert(seq![i][j] == i);
    }
    assert forall|j: int, k: nat|
        0 <= j < seq![i].len() && #[trigger] instr_label(seq![i][j]) == Some(#[trigger] lbl(k)) implies lo <= k < hi by {
        assert(seq![i][j] == i);
    }
    assert forall|j: int, k: nat|
        0 <= j < seq![i].len() && #[trigger] instr_dst(seq![i][j]) == Some(#[trigger] tmp(k)) implies lo <= k < hi by {
        assert(seq![i][j] == i);
    }
}

proof fn lemma_label_at(l: nat, lo: nat, hi: nat)
    requires
        lo <= l < hi,
    ensures
        forall|k: nat| lbl(l) == #[trigger] lbl(k) ==> lo <= k < hi,
{
    assert forall|k: nat| lbl(l) == #[trigger] lbl(k) implies lo <= k < hi by {
        lemma_lbl_injective(l, k);
    }
}

proof fn lemma_tmp_at(t: nat, lo: nat, hi: nat)
    requires
        lo <= t < hi,
    ensures
        forall|k: nat| tmp(t) == #[trigger] tmp(k) ==> lo <= k < hi,
{
    assert forall|k: nat| tmp(t) == #[trigger] tmp(k) implies lo <= k < hi by {
        lemma_tmp_injective(t, k);
    }
}


proof fn lemma_within_push(a: Seq<SInstruction>, i: SInstruction, lo: nat, hi: nat)
    requires
        code_within(a, lo, hi),
        forall|k: nat| instr_label(i) == Some(#[trigger] lbl(k)) ==> lo <= k < hi,
        forall|k: nat| instr_dst(i) == Some(#[trigger] tmp(k)) ==> lo <= k < hi,
        instr_label(i) is Some ==> exists|k: nat| lo <= k < hi && instr_label(i) == Some(#[trigger] lbl(k)),
    ensures
        code_within(a.push(i), lo, hi),
{
    lemma_within_one(i, lo, hi);
    lemma_within_concat(a, seq![i], lo, hi);
    assert(a.push(i) =~= a + seq![i]);
}

/// The code of `e`, lowered with the counter at `n`, makes its labels and
/// temporaries from counter values in `[n, m)`, `m` the counter after it, and
/// so does its result value where that is a temporary.
pub proof fn lemma_t_exp_fresh(n: nat, e: SExpression)
    requires
        no_temp_named(e),
    ensures
        n <= t_exp(n, e).2,
        code_within(t_exp(n, e).0, n, t_exp(n, e).2),
        forall|k: nat| t_exp(n, e).1 == #[trigger] tmp(k) ==> n <= k < t_exp(n, e).2,
    decreases e, 0int,
{
    match e {
        SExpression::Constant(i) => {},
        SExpression::Var(id) => {
            assert forall|k: nat| t_exp(n, e).1 == #[trigger] tmp(k) implies n <= k < t_exp(n, e).2 by {
                assert(id != temp_name(k));
            }
        },
        SExpression::Unary { op, exp } => {
            lemma_t_exp_fresh(n, *exp);
            let (is, v, n1) = t_exp(n, *exp);
            lemma_within_widen(is, n, n1, n, n1 + 1);
            lemma_tmp_at(n1, n, n1 + 1);
            lemma_within_push(is, SInstruction::Unary { op: unop_of(op), src: v, dst: tmp(n1) }, n, n1 + 1);
        },
        SExpression::Binary { op, left, right } => {
            if op == c_ast::BinaryOp::And || op == c_ast::BinaryOp::Or {
                lemma_t_exp_fresh(n, *left);
                let (i1, v1, n1) = t_exp(n, *left);
                lemma_t_exp_fresh(n1 + 2, *right);
                let (i2, v2, n2) = t_exp(n1 + 2, *right);
                lemma_short_circuit_within(op == c_ast::BinaryOp::And, n, i1, v1, n1, i2, v2, n2);
                lemma_tmp_at(n2, n, n2 + 1);
            } else {
                lemma_t_exp_fresh(n, *left);
                let (i1, v1, n1) = t_exp(n, *left);
                lemma_t_exp_fresh(n1, *right);
                let (i2, v2, n2) = t_exp(n1, *right);
                lemma_within_widen(i1, n, n1, n, n2 + 1);
                lemma_within_widen(i2, n1, n2, n, n2 + 1);
                lemma_within_concat(i1, i2, n, n2 + 1);
                lemma_tmp_at(n2, n, n2 + 1);
                lemma_within_push(i1 + i2, SInstruction::Binary { op: binop_of(op), src1: v1, src2: v2, dst: tmp(n2) }, n, n2 + 1);
            }
        },
        SExpression::Assignment { left, right } => {
            lemma_t_exp_fresh(n, *left);
            let (i1, v1, n1) = t_exp(n, *left);
            lemma_t_exp_fresh(n1, *right);
            let (i2, v2, n2) = t_exp(n1, *right);
            lemma_within_widen(i1, n, n1, n, n2);
            lemma_within_widen(i2, n1, n2, n, n2);
            lemma_within_concat(i1, i2, n, n2);
            lemma_within_push(i1 + i2, SInstruction::Copy { src: v2, dst: v1 }, n, n2);
        },
        SExpression::Conditional { condition, left, right } => {
            lemma_t_exp_fresh(n + 3, *condition);
            let (ic, vc, n1) = t_exp(n + 3, *condition);
            lemma_t_exp_fresh(n1, *left);
            let (il, vl, n2) = t_exp(n1, *left);
            lemma_t_exp_fresh(n2, *right);
            let (ir, vr, n3) = t_exp(n2, *right);
            lemma_conditional_within(n, ic, vc, n1, il, vl, n2, ir, vr, n3);
            lemma_tmp_at(n, n, n3);
        },
        SExpression::FuncCall { name, args } => {
            lemma_t_args_fresh(n, args);
            let (is, vs, n1) = t_args(n, args);
            lemma_within_widen(is, n, n1, n, n1 + 1);
            lemma_tmp_at(n1, n, n1 + 1);
            lemma_within_push(is, SInstruction::FunctionCall { name, args: vs, dst: tmp(n1) }, n, n1 + 1);
        },
    }
}

proof fn lemma_t_args_fresh(n: nat, args: Seq<SExpression>)
    requires
        no_temp_named_args(args),
    ensures
        n <= t_args(n, args).2,
        code_within(t_args(n, args).0, n, t_args(n, args).2),
    decreases args, 1int,
{
    if args.len() > 0 {
        lemma_t_args_fresh(n, args.drop_last());
        let (is, vs, n1) = t_args(n, args.drop_last());
        lemma_t_exp_fresh(n1, args.last());
        let (i2, v, n2) = t_exp(n1, args.last());
        lemma_within_widen(is, n, n1, n, n2);
        lemma_within_widen(i2, n1, n2, n, n2);
        lemma_within_concat(is, i2, n, n2);
    }
}


proof fn lemma_short_circuit_within(
    on_zero: bool,
    n: nat,
    i1: Seq<SInstruction>,
    v1: SValue,
    n1: nat,
    i2: Seq<SInstruction>,
    v2: SValue,
    n2: nat,
)
    requires
        n <= n1,
        n1 + 2 <= n2,
        code_within(i1, n, n1),
        code_within(i2, n1 + 2, n2),
    ensures
        code_within(short_circuit_code(on_zero, i1, v1, n1, i2, v2, n2), n, n2 + 1),
{
    let hi = n2 + 1;
    let sc: i64 = if on_zero { 0 } else { 1 };
    let ft: i64 = if on_zero { 1 } else { 0 };
    lemma_label_at(n1, n, hi);
    lemma_label_at(n1 + 1, n, hi);
    lemma_tmp_at(n2, n, hi);
    lemma_within_widen(i1, n, n1, n, hi);
    lemma_within_widen(i2, n1 + 2, n2, n, hi);
    lemma_within_push(i1, jump_on(on_zero, v1, lbl(n1)), n, hi);
    let tail = seq![
        jump_on(on_zero, v2, lbl(n1)),
        SInstruction::Copy { src: SValue::Constant(ft), dst: tmp(n2) },
        SInstruction::Jump(lbl(n1 + 1)),
        SInstruction::Label(lbl(n1)),
        SInstruction::Copy { src: SValue::Constant(sc), dst: tmp(n2) },
        SInstruction::Label(lbl(n1 + 1)),
    ];
    assert forall|j: int, k: nat|
        0 <= j < tail.len() && #[trigger] instr_label(tail[j]) == Some(#[trigger] lbl(k)) implies n <= k < hi by {}
    assert forall|j: int, k: nat|
        0 <= j < tail.len() && #[trigger] instr_dst(tail[j]) == Some(#[trigger] tmp(k)) implies n <= k < hi by {}
    lemma_within_concat(i1.push(jump_on(on_zero, v1, lbl(n1))), i2, n, hi);
    lemma_within_concat(i1.push(jump_on(on_zero, v1, lbl(n1))) + i2, tail, n, hi);
}

proof fn lemma_conditional_within(
    n: nat,
    ic: Seq<SInstruction>,
    vc: SValue,
    n1: nat,
    il: Seq<SInstruction>,
    vl: SValue,
    n2: nat,
    ir: Seq<SInstruction>,
    vr: SValue,
    n3: nat,
)
    requires
        n + 3 <= n1 <= n2 <= n3,
        code_within(ic, n + 3, n1),
        code_within(il, n1, n2),
        code_within(ir, n2, n3),
    ensures
        code_within(ic.push(SInstruction::JumpIfZero { condition: vc, target: lbl(n + 1) }) + il + seq![
            SInstruction::Copy { src: vl, dst: tmp(n) },
            SInstruction::Jump(lbl(n + 2)),
            SInstruction::Label(lbl(n + 1)),
        ] + ir + seq![
            SInstruction::Copy { src: vr, dst: tmp(n) },
            SInstruction::Label(lbl(n + 2)),
        ], n, n3),
{
    lemma_label_at(n + 1, n, n3);
    lemma_label_at(n + 2, n, n3);
    lemma_tmp_at(n, n, n3);
    lemma_within_widen(ic, n + 3, n1, n, n3);
    lemma_within_widen(il, n1, n2, n, n3);
    lemma_within_widen(ir, n2, n3, n, n3);
    lemma_within_push(ic, SInstruction::JumpIfZero { condition: vc, target: lbl(n + 1) }, n, n3);
    let mid = seq![
        SInstruction::Copy { src: vl, dst: tmp(n) },
        SInstruction::Jump(lbl(n + 2)),
        SInstruction::Label(lbl(n + 1)),
    ];
    let end = seq![
        SInstruction::Copy { src: vr, dst: tmp(n) },
        SInstruction::Label(lbl(n + 2)),
    ];
    assert forall|j: int, k: nat|
        0 <= j < mid.len() && #[trigger] instr_label(mid[j]) == Some(#[trigger] lbl(k)) implies n <= k < n3 by {}
    assert forall|j: int, k: nat|
        0 <= j < mid.len() && #[trigger] instr_dst(mid[j]) == Some(#[trigger] tmp(k)) implies n <= k < n3 by {}
    assert forall|j: int, k: nat|
        0 <= j < end.len() && #[trigger] instr_label(end[j]) == Some(#[trigger] lbl(k)) implies n <= k < n3 by {}
    assert forall|j: int, k: nat|
        0 <= j < end.len() && #[trigger] instr_dst(end[j]) == Some(#[trigger] tmp(k)) implies n <= k < n3 by {}
    let a = ic.push(SInstruction::JumpIfZero { condition: vc, target: lbl(n + 1) });
    lemma_within_concat(a, il, n, n3);
    lemma_within_concat(a + il, mid, n, n3);
    lemma_within_concat(a + il + mid, ir, n, n3);
    lemma_within_concat(a + il + mid + ir, end, n, n3);
}


/// The names that short-circuit code (`&&`, `||`) makes are fresh: its two
/// labels differ, neither operand's code defines or jumps to either of them,
/// and the result temporary is written by neither operand's code nor holds
/// an operand's value, as long as no variable is named like a temporary.
pub proof fn lemma_short_circuit_names_fresh(
    n: nat,
    op: c_ast::BinaryOp,
    left: SExpression,
    right: SExpression,
    i1: Seq<SInstruction>,
    v1: SValue,
    n1: nat,
    i2: Seq<SInstruction>,
    v2: SValue,
    n2: nat,
)
    requires
        op == c_ast::BinaryOp::And || op == c_ast::BinaryOp::Or,
        no_temp_named(left),
        no_temp_named(right),
        (i1, v1, n1) == t_exp(n, left),
        (i2, v2, n2) == t_exp(n1 + 2, right),
    ensures
        t_exp(n, SExpression::Binary { op, left: Box::new(left), right: Box::new(right) }) == (
            short_circuit_code(op == c_ast::BinaryOp::And, i1, v1, n1, i2, v2, n2),
            tmp(n2),
            n2 + 1,
        ),
        lbl(n1) != lbl(n1 + 1),
        forall|j: int| 0 <= j < i1.len() ==> {
            &&& #[trigger] instr_label(i1[j]) != Some(lbl(n1))
            &&& instr_label(i1[j]) != Some(lbl(n1 + 1))
            &&& instr_dst(i1[j]) != Some(tmp(n2))
        },
        forall|j: int| 0 <= j < i2.len() ==> {
            &&& #[trigger] instr_label(i2[j]) != Some(lbl(n1))
            &&& instr_label(i2[j]) != Some(lbl(n1 + 1))
            &&& instr_dst(i2[j]) != Some(tmp(n2))
        },
        v1 != tmp(n2),
        v2 != tmp(n2),
{
    lemma_t_exp_fresh(n, left);
    lemma_t_exp_fresh(n1 + 2, right);
    lemma_temp_names_distinct(n1, n1 + 1);
    assert forall|j: int| 0 <= j < i1.len() implies {
        &&& #[trigger] instr_label(i1[j]) != Some(lbl(n1))
        &&& instr_label(i1[j]) != Some(lbl(n1 + 1))
        &&& instr_dst(i1[j]) != Some(tmp(n2))
    } by {
        if instr_label(i1[j]) == Some(lbl(n1)) {
            assert(n <= n1 < n1);
        }
        if instr_label(i1[j]) == Some(lbl(n1 + 1)) {
            assert(n <= n1 + 1 < n1);
        }
        if instr_dst(i1[j]) == Some(tmp(n2)) {
            assert(n <= n2 < n1);
        }
    }
    assert forall|j: int| 0 <= j < i2.len() implies {
        &&& #[trigger] instr_label(i2[j]) != Some(lbl(n1))
        &&& instr_label(i2[j]) != Some(lbl(n1 + 1))
        &&& instr_dst(i2[j]) != Some(tmp(n2))
    } by {
        if instr_label(i2[j]) == Some(lbl(n1)) {
            assert(n1 + 2 <= n1);
        }
        if instr_label(i2[j]) == Some(lbl(n1 + 1)) {
            assert(n1 + 2 <= n1 + 1);
        }
        if instr_dst(i2[j]) == Some(tmp(n2)) {
            assert(n2 < n2);
        }
    }
    if v1 == tmp(n2) {
        assert(n <= n2 < n1);
    }
    if v2 == tmp(n2) {
        assert(n2 < n2);
    }
}


// ---------------------------------------------------------------------------
// Lowered operators mean what the C operators mean.
// ---------------------------------------------------------------------------

/// The TACKY instruction that lowering emits last for a C binary operator
/// other than `&&` and `||` computes, for any operand values, the value the C
/// operator gives: `>=` stays `>=`, `/` stays a truncating division, and so
/// on.
pub proof fn lemma_lowered_operator_means_c(
    n: nat,
    op: c_ast::BinaryOp,
    left: SExpression,
    right: SExpression,
    a: int,
    b: int,
)
    requires
        op != c_ast::BinaryOp::And,
        op != c_ast::BinaryOp::Or,
    ensures
        t_exp(n, SExpression::Binary { op, left: Box::new(left), right: Box::new(right) }).0.last()
            matches SInstruction::Binary { op: o, .. } && binary_value(o, a, b) == c_binary_value(op, a, b),
{
    let (i1, v1, n1) = t_exp(n, left);
    let (i2, v2, n2) = t_exp(n1, right);
    assert(t_exp(n, SExpression::Binary { op, left: Box::new(left), right: Box::new(right) }).0
        == (i1 + i2).push(SInstruction::Binary { op: binop_of(op), src1: v1, src2: v2, dst: tmp(n2) }));
}

/// The TACKY instruction that lowering emits last for a C unary operator
/// computes, for any operand value, the value the C operator gives.
pub proof fn lemma_lowered_unary_means_c(n: nat, op: c_ast::UnaryOp, exp: SExpression, a: int)
    ensures
        t_exp(n, SExpression::Unary { op, exp: Box::new(exp) }).0.last()
            matches SInstruction::Unary { op: o, .. } && unary_value(o, a) == c_unary_value(op, a),
{
    let (is, v, n1) = t_exp(n, exp);
    assert(t_exp(n, SExpression::Unary { op, exp: Box::new(exp) }).0
        == is.push(SInstruction::Unary { op: unop_of(op), src: v, dst: tmp(n1) }));
}

} // verus!
