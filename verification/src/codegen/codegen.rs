//! First-generation instruction selection: TACKY to the one-function
//! assembly tree.
//!
//! Each TACKY instruction becomes a fixed sequence with pseudo-registers;
//! the pseudo-registers, taken in lexicographic order, get the stack slots
//! from the translator's next free offset downwards, four bytes apart; the
//! frame is reserved; and moves between two stack slots, immediate divisors
//! and memory operands that `add`, `sub` and `imul` cannot take are rewritten
//! through `%r10` and `%r11`.

use vstd::prelude::*;
use crate::backend::assembly_ast_gen::{add_names, lemma_add_names};
use crate::codegen::assembly_ir::{
    code_view, AssFunction, Assemble, BinaryOperator, Instruction, Operand, Reg, SInstruction,
    SOperand, UnaryOperator,
};
use crate::error::CodegenError;
use crate::frontend::c_ast::strs_view;
use crate::tacky::tacky;
use crate::text::{chars_of, owned, push_str};

verus! {

/// The operand of a TACKY value.
pub open spec fn operand_of(v: tacky::SValue) -> SOperand {
    match v {
        tacky::SValue::Constant(i) => SOperand::Imm(i),
        tacky::SValue::Var(id) => SOperand::Pseudo(id),
    }
}

/// The variable a value names, if any.
pub open spec fn value_names(v: tacky::SValue) -> Seq<Seq<char>> {
    match v {
        tacky::SValue::Var(id) => seq![id],
        _ => Seq::empty(),
    }
}

/// The instructions this translator handles: returns, `~` and `-`, and
/// arithmetic.
pub open spec fn handled(i: tacky::SInstruction) -> bool {
    match i {
        tacky::SInstruction::Return(_) => true,
        tacky::SInstruction::Unary { op, .. } => op != tacky::UnaryOperator::Bang,
        tacky::SInstruction::Binary { op, .. } => op == tacky::BinaryOperator::Add || op == tacky::BinaryOperator::Subtract
            || op == tacky::BinaryOperator::Multiply || op == tacky::BinaryOperator::Divide
            || op == tacky::BinaryOperator::Remainder,
        _ => false,
    }
}

/// The assembly of one TACKY instruction, with pseudo-registers.
pub open spec fn lower(i: tacky::SInstruction) -> Seq<SInstruction> {
    match i {
        tacky::SInstruction::Return(v) => seq![
            SInstruction::Mov { src: operand_of(v), dst: SOperand::Reg(Reg::AX) },
            SInstruction::Ret,
        ],
        tacky::SInstruction::Unary { op, src, dst } => seq![
            SInstruction::Mov { src: operand_of(src), dst: operand_of(dst) },
            SInstruction::Unary {
                op: if op == tacky::UnaryOperator::Complement { UnaryOperator::Not } else { UnaryOperator::Neg },
                operand: operand_of(dst),
            },
        ],
        tacky::SInstruction::Binary { op, src1, src2, dst } => {
            if op == tacky::BinaryOperator::Divide || op == tacky::BinaryOperator::Remainder {
                seq![
                    SInstruction::Mov { src: operand_of(src1), dst: SOperand::Reg(Reg::AX) },
                    SInstruction::Cdq,
                    SInstruction::Idiv(operand_of(src2)),
                    SInstruction::Mov {
                        src: SOperand::Reg(if op == tacky::BinaryOperator::Divide { Reg::AX } else { Reg::DX }),
                        dst: operand_of(dst),
                    },
                ]
            } else {
                seq![
                    SInstruction::Mov { src: operand_of(src1), dst: operand_of(dst) },
                    SInstruction::Binary {
                        op: if op == tacky::BinaryOperator::Add {
                            BinaryOperator::Add
                        } else if op == tacky::BinaryOperator::Subtract {
                            BinaryOperator::Sub
                        } else {
                            BinaryOperator::Mult
                        },
                        left_operand: operand_of(src2),
                        right_operand: operand_of(dst),
                    },
                ]
            }
        },
        _ => Seq::empty(),
    }
}

/// The variables one TACKY instruction names, in order.
pub open spec fn names_of(i: tacky::SInstruction) -> Seq<Seq<char>> {
    match i {
        tacky::SInstruction::Return(v) => value_names(v),
        tacky::SInstruction::Unary { src, dst, .. } => value_names(src) + value_names(dst),
        tacky::SInstruction::Binary { src1, src2, dst, .. } => value_names(src1) + value_names(src2) + value_names(dst),
        _ => Seq::empty(),
    }
}

pub open spec fn lower_all(s: Seq<tacky::SInstruction>) -> Seq<SInstruction>
    decreases s.len(),
{
    if s.len() == 0 {
        Seq::empty()
    } else {
        lower_all(s.drop_last()) + lower(s.last())
    }
}

pub open spec fn names_all(s: Seq<tacky::SInstruction>) -> Seq<Seq<char>>
    decreases s.len(),
{
    if s.len() == 0 {
        Seq::empty()
    } else {
        names_all(s.drop_last()) + names_of(s.last())
    }
}

/// The distinct variables of a function body.
pub open spec fn unique_names(s: Seq<tacky::SInstruction>) -> Seq<Seq<char>> {
    add_names(Seq::empty(), names_all(s))
}

/// `a` comes before `b` in the order of strings (character by character;
/// a proper prefix comes first), looking from index `i` on.
pub open spec fn lex_less_at(a: Seq<char>, b: Seq<char>, i: nat) -> bool
    decreases a.len() - i,
{
    if i >= b.len() {
        false
    } else if i >= a.len() {
        true
    } else if a[i as int] != b[i as int] {
        (a[i as int] as u32) < (b[i as int] as u32)
    } else {
        lex_less_at(a, b, i + 1)
    }
}

/// `a` comes before `b` in the order of strings.
pub open spec fn lex_less(a: Seq<char>, b: Seq<char>) -> bool {
    lex_less_at(a, b, 0)
}

/// How many names of `u` come before `p`.
pub open spec fn rank_in(u: Seq<Seq<char>>, p: Seq<char>) -> nat
    decreases u.len(),
{
    if u.len() == 0 {
        0
    } else {
        rank_in(u.drop_last(), p) + if lex_less(u.last(), p) { 1nat } else { 0nat }
    }
}

/// The stack offsets this translation assigns: from `base` downwards, in
/// the order of the names.
pub open spec fn assigned(base: int, u: Seq<Seq<char>>) -> Map<Seq<char>, i64> {
    Map::new(|p: Seq<char>| u.contains(p), |p: Seq<char>| (base - 4 * rank_in(u, p)) as i64)
}

/// An operand placed with the offsets `m`, or the missing pseudo-register.
pub open spec fn place_operand(m: Map<Seq<char>, i64>, o: SOperand) -> Result<SOperand, Seq<char>> {
    match o {
        SOperand::Pseudo(id) => if m.contains_key(id) {
            Ok(SOperand::Stack(m[id]))
        } else {
            Err("Internal error: Pseudoregister '"@ + id + "' used but no stack allocation found."@)
        },
        _ => Ok(o),
    }
}

/// An instruction placed with the offsets `m`, or the first missing
/// pseudo-register's message.
pub open spec fn place_instr(m: Map<Seq<char>, i64>, i: SInstruction) -> Result<SInstruction, Seq<char>> {
    match i {
        SInstruction::Mov { src, dst } => match place_operand(m, src) {
            Err(e) => Err(e),
            Ok(s) => match place_operand(m, dst) {
                Err(e) => Err(e),
                Ok(d) => Ok(SInstruction::Mov { src: s, dst: d }),
            },
        },
        SInstruction::Unary { op, operand } => match place_operand(m, operand) {
            Err(e) => Err(e),
            Ok(o) => Ok(SInstruction::Unary { op, operand: o }),
        },
        SInstruction::Binary { op, left_operand, right_operand } => match place_operand(m, left_operand) {
            Err(e) => Err(e),
            Ok(l) => match place_operand(m, right_operand) {
                Err(e) => Err(e),
                Ok(r) => Ok(SInstruction::Binary { op, left_operand: l, right_operand: r }),
            },
        },
        SInstruction::Idiv(o) => match place_operand(m, o) {
            Err(e) => Err(e),
            Ok(x) => Ok(SInstruction::Idiv(x)),
        },
        _ => Ok(i),
    }
}

/// The rewriting of an instruction x86-64 cannot encode.
pub open spec fn fix(i: SInstruction) -> Seq<SInstruction> {
    match i {
        SInstruction::Mov { src: SOperand::Stack(s), dst: SOperand::Stack(d) } => seq![
            SInstruction::Mov { src: SOperand::Stack(s), dst: SOperand::Reg(Reg::R10) },
            SInstruction::Mov { src: SOperand::Reg(Reg::R10), dst: SOperand::Stack(d) },
        ],
        SInstruction::Idiv(SOperand::Imm(v)) => seq![
            SInstruction::Mov { src: SOperand::Imm(v), dst: SOperand::Reg(Reg::R10) },
            SInstruction::Idiv(SOperand::Reg(Reg::R10)),
        ],
        SInstruction::Binary { op, left_operand, right_operand } => {
            if op != BinaryOperator::Mult && left_operand is Stack && right_operand is Stack {
                seq![
                    SInstruction::Mov { src: left_operand, dst: SOperand::Reg(Reg::R10) },
                    SInstruction::Binary { op, left_operand: SOperand::Reg(Reg::R10), right_operand },
                ]
            } else if op == BinaryOperator::Mult && right_operand is Stack {
                seq![
                    SInstruction::Mov { src: right_operand, dst: SOperand::Reg(Reg::R11) },
                    SInstruction::Binary { op, left_operand, right_operand: SOperand::Reg(Reg::R11) },
                    SInstruction::Mov { src: SOperand::Reg(Reg::R11), dst: right_operand },
                ]
            } else {
                seq![i]
            }
        },
        _ => seq![i],
    }
}

/// The function's instructions after placement, reservation and rewriting,
/// with the offsets starting at `base`.
pub open spec fn translated(base: int, body: Seq<tacky::SInstruction>) -> Seq<SInstruction> {
    let u = unique_names(body);
    let placed = lower_all(body).map_values(|i: SInstruction| place_instr(assigned(base, u), i)->Ok_0);
    let total = 4 * u.len() - base - 4;
    (if total > 0 { seq![SInstruction::AllocateStack(total as i64)] } else { Seq::empty() }) + fix_all(placed)
}

pub open spec fn fix_all(s: Seq<SInstruction>) -> Seq<SInstruction>
    decreases s.len(),
{
    if s.len() == 0 {
        Seq::empty()
    } else {
        fix_all(s.drop_last()) + fix(s.last())
    }
}

/// The pseudo-registers an instruction names.
pub open spec fn pseudo_names(i: SInstruction) -> Seq<Seq<char>> {
    let of = |o: SOperand| -> Seq<Seq<char>> {
        match o {
            SOperand::Pseudo(id) => seq![id],
            _ => Seq::empty(),
        }
    };
    match i {
        SInstruction::Mov { src, dst } => of(src) + of(dst),
        SInstruction::Unary { operand, .. } => of(operand),
        SInstruction::Binary { left_operand, right_operand, .. } => of(left_operand) + of(right_operand),
        SInstruction::Idiv(o) => of(o),
        _ => Seq::empty(),
    }
}

/// The offsets recorded by insertions, a later one replacing an earlier one.
pub open spec fn offsets_map(s: Seq<(Seq<char>, i64)>) -> Map<Seq<char>, i64>
    decreases s.len(),
{
    if s.len() == 0 {
        Map::empty()
    } else {
        offsets_map(s.drop_last()).insert(s.last().0, s.last().1)
    }
}

pub open spec fn pairs_view(v: Seq<(String, i64)>) -> Seq<(Seq<char>, i64)> {
    v.map_values(|p: (String, i64)| (p.0@, p.1))
}

// ---------------------------------------------------------------------------
// Lemmas
// ---------------------------------------------------------------------------

proof fn lemma_lower_names(i: tacky::SInstruction)
    ensures
        forall|k: int, x: Seq<char>| 0 <= k < lower(i).len() && pseudo_names(lower(i)[k]).contains(x)
            ==> names_of(i).contains(x),
{
    assert forall|k: int, x: Seq<char>| 0 <= k < lower(i).len() && pseudo_names(lower(i)[k]).contains(x)
        implies names_of(i).contains(x) by {
        let ps = pseudo_names(lower(i)[k]);
        let j = choose|j: int| 0 <= j < ps.len() && ps[j] == x;
        match i {
            tacky::SInstruction::Return(v) => {
                assert(names_of(i) == value_names(v));
                assert(value_names(v)[0] == x);
            },
            tacky::SInstruction::Unary { src, dst, .. } => {
                let a = value_names(src);
                let b = value_names(dst);
                if k == 0 && j == 0 && a.len() > 0 {
                    assert((a + b)[0] == x);
                } else {
                    assert(b.len() > 0 && b[0] == x);
                    assert((a + b)[a.len() as int] == x);
                }
            },
            tacky::SInstruction::Binary { op, src1, src2, dst } => {
                let a = value_names(src1);
                let b = value_names(src2);
                let c = value_names(dst);
                assert(names_of(i) == a + b + c);
                if op == tacky::BinaryOperator::Divide || op == tacky::BinaryOperator::Remainder {
                    if k == 0 {
                        assert((a + b + c)[0] == x);
                    } else if k == 2 {
                        assert((a + b + c)[a.len() as int] == x);
                    } else {
                        assert((a + b + c)[(a.len() + b.len()) as int] == x);
                    }
                } else {
                    if k == 0 && j == 0 && a.len() > 0 {
                        assert((a + b + c)[0] == x);
                    } else if k == 1 && j == 0 && b.len() > 0 {
                        assert((a + b + c)[a.len() as int] == x);
                    } else {
                        assert(c.len() > 0 && c[0] == x);
                        assert((a + b + c)[(a.len() + b.len()) as int] == x);
                    }
                }
            },
            _ => {},
        }
    }
}

pub(crate) proof fn lemma_lower_all_names(s: Seq<tacky::SInstruction>)
    ensures
        forall|k: int, x: Seq<char>| 0 <= k < lower_all(s).len() && pseudo_names(lower_all(s)[k]).contains(x)
            ==> names_all(s).contains(x),
    decreases s.len(),
{
    if s.len() > 0 {
        lemma_lower_all_names(s.drop_last());
        lemma_lower_names(s.last());
        let a = lower_all(s.drop_last());
        let b = lower(s.last());
        let na = names_all(s.drop_last());
        let nb = names_of(s.last());
        assert forall|k: int, x: Seq<char>| 0 <= k < lower_all(s).len() && pseudo_names(lower_all(s)[k]).contains(x)
            implies names_all(s).contains(x) by {
            if k < a.len() {
                assert(lower_all(s)[k] == a[k]);
                let j = choose|j: int| 0 <= j < na.len() && na[j] == x;
                assert((na + nb)[j] == x);
            } else {
                assert(lower_all(s)[k] == b[k - a.len()]);
                let j = choose|j: int| 0 <= j < nb.len() && nb[j] == x;
                assert((na + nb)[na.len() + j] == x);
            }
        }
    }
}

pub(crate) proof fn lemma_place_total(m: Map<Seq<char>, i64>, i: SInstruction)
    requires
        forall|x: Seq<char>| #[trigger] pseudo_names(i).contains(x) ==> m.contains_key(x),
    ensures
        place_instr(m, i) is Ok,
{
    match i {
        SInstruction::Mov { src, dst } => {
            if let SOperand::Pseudo(id) = src {
                assert(pseudo_names(i)[0] == id); assert(pseudo_names(i).contains(id));
            }
            if let SOperand::Pseudo(id) = dst {
                assert(pseudo_names(i)[pseudo_names(i).len() - 1] == id); assert(pseudo_names(i).contains(id));
            }
        },
        SInstruction::Binary { left_operand, right_operand, .. } => {
            if let SOperand::Pseudo(id) = left_operand {
                assert(pseudo_names(i)[0] == id); assert(pseudo_names(i).contains(id));
            }
            if let SOperand::Pseudo(id) = right_operand {
                assert(pseudo_names(i)[pseudo_names(i).len() - 1] == id); assert(pseudo_names(i).contains(id));
            }
        },
        SInstruction::Unary { operand, .. } => {
            if let SOperand::Pseudo(id) = operand {
                assert(pseudo_names(i)[0] == id); assert(pseudo_names(i).contains(id));
            }
        },
        SInstruction::Idiv(o) => {
            if let SOperand::Pseudo(id) = o {
                assert(pseudo_names(i)[0] == id); assert(pseudo_names(i).contains(id));
            }
        },
        _ => {},
    }
}

proof fn lemma_names_len(s: Seq<tacky::SInstruction>)
    ensures
        names_all(s).len() <= 3 * s.len(),
        lower_all(s).len() <= 4 * s.len(),
    decreases s.len(),
{
    if s.len() > 0 {
        lemma_names_len(s.drop_last());
    }
}

proof fn lemma_rank_bound(u: Seq<Seq<char>>, p: Seq<char>)
    ensures
        rank_in(u, p) <= u.len(),
    decreases u.len(),
{
    if u.len() > 0 {
        lemma_rank_bound(u.drop_last(), p);
    }
}

// ---------------------------------------------------------------------------
// Implementation
// ---------------------------------------------------------------------------

/// Whether string `a` comes before string `b`.
fn string_less(a: &String, b: &String) -> (r: bool)
    ensures
        r == lex_less(a@, b@),
{
    let x = chars_of(a.as_str());
    let y = chars_of(b.as_str());
    let mut i: usize = 0;
    while i < x.len() && i < y.len() && x[i] == y[i]
        invariant
            x@ == a@,
            y@ == b@,
            i <= x@.len(),
            i <= y@.len(),
            lex_less(a@, b@) == lex_less_at(a@, b@, i as nat),
        decreases x@.len() - i,
    {
        i += 1;
    }
    if i >= y.len() {
        false
    } else if i >= x.len() {
        true
    } else {
        (x[i] as u32) < (y[i] as u32)
    }
}

/// Adds `name` to the distinct names `names` unless it is there already.
fn add_unique(names: &mut Vec<String>, name: &String)
    ensures
        strs_view(final(names)@) == add_names(strs_view(old(names)@), seq![name@]),
{
    let ghost s = strs_view(names@);
    assert(seq![name@].drop_last() =~= Seq::<Seq<char>>::empty());
    assert(add_names(s, Seq::<Seq<char>>::empty()) == s);
    assert(add_names(s, seq![name@]) == if s.contains(name@) { s } else { s.push(name@) });
    let mut k: usize = 0;
    while k < names.len()
        invariant
            k <= names@.len(),
            s == strs_view(names@),
            s == strs_view(old(names)@),
            add_names(s, seq![name@]) == if s.contains(name@) { s } else { s.push(name@) },
            forall|j: int| 0 <= j < k ==> s[j] != name@,
        decreases names@.len() - k,
    {
        if names[k] == *name {
            assert(s[k as int] == name@);
            return;
        }
        k += 1;
    }
    names.push(name.clone());
    assert(strs_view(names@) =~= s.push(name@));
}

/// The last offset recorded for `name`.
fn offset_lookup(v: &Vec<(String, i64)>, name: &String) -> (r: Option<i64>)
    ensures
        match r {
            Some(o) => offsets_map(pairs_view(v@)).contains_key(name@) && offsets_map(pairs_view(v@))[name@] == o,
            None => !offsets_map(pairs_view(v@)).contains_key(name@),
        },
{
    let ghost s = pairs_view(v@);
    let mut k: usize = v.len();
    assert(s.take(s.len() as int) =~= s);
    while k > 0
        invariant
            k <= v@.len(),
            s == pairs_view(v@),
            offsets_map(s).contains_key(name@) == offsets_map(s.take(k as int)).contains_key(name@),
            offsets_map(s.take(k as int)).contains_key(name@) ==> offsets_map(s)[name@] == offsets_map(s.take(k as int))[name@],
        decreases k,
    {
        let ghost pre = s.take(k as int);
        assert(pre.drop_last() =~= s.take(k - 1));
        assert(pre.last() == (v@[k - 1].0@, v@[k - 1].1));
        if v[k - 1].0 == *name {
            return Some(v[k - 1].1);
        }
        k -= 1;
    }
    None
}

/// Translates first-generation TACKY to assembly, keeping the stack offsets
/// it has assigned and the next free one.
pub struct TackyToAssemblyTranslator {
    pseudo_to_stack_offset: Vec<(String, i64)>,
    next_stack_offset: i64,
}

impl TackyToAssemblyTranslator {
    /// The offsets assigned so far.
    pub closed spec fn offsets(&self) -> Map<Seq<char>, i64> {
        offsets_map(pairs_view(self.pseudo_to_stack_offset@))
    }

    /// The next free offset.
    pub closed spec fn next(&self) -> int {
        self.next_stack_offset as int
    }

    /// A translator with no offsets assigned; the first goes at `-4`.
    pub fn new() -> (r: Self)
        ensures
            r.offsets() == Map::<Seq<char>, i64>::empty(),
            r.next() == -4,
    {
        let r = TackyToAssemblyTranslator { pseudo_to_stack_offset: Vec::new(), next_stack_offset: -4 };
        assert(pairs_view(r.pseudo_to_stack_offset@) =~= Seq::<(Seq<char>, i64)>::empty());
        r
    }

    /// Translates the program's function: selection, slots for its
    /// pseudo-registers in lexicographic order, the frame reservation and the
    /// rewriting of unencodable instructions.
    pub fn translate(&mut self, tacky_program: tacky::Program) -> (r: Result<Assemble, CodegenError>)
        requires
            forall|k: int| 0 <= k < tacky_program.definition.body@.len() ==> handled(#[trigger] tacky_program.definition.body@[k]@),
            tacky_program.definition.body@.len() < 0x0100_0000_0000_0000,
            -0x1000_0000_0000_0000 <= old(self).next() <= -4,
        ensures
            r matches Ok(a) && a.function.name@ == tacky_program.definition.name@
                && code_view(a.function.instructions@) == translated(old(self).next(), tacky::body_view(tacky_program.definition.body@)),
            final(self).next() == old(self).next() - 4 * unique_names(tacky::body_view(tacky_program.definition.body@)).len(),
            forall|p: Seq<char>| #[trigger] unique_names(tacky::body_view(tacky_program.definition.body@)).contains(p)
                ==> final(self).offsets().contains_key(p) && final(self).offsets()[p] == assigned(
                    old(self).next(),
                    unique_names(tacky::body_view(tacky_program.definition.body@)),
                )[p],
    {
        let tacky_function = tacky_program.definition;
        let body = &tacky_function.body;
        let ghost sbody = tacky::body_view(body@);
        let ghost base = self.next();

        // Selection, collecting the distinct pseudo-registers.
        let mut initial: Vec<Instruction> = Vec::new();
        let mut unique: Vec<String> = Vec::new();
        let mut k: usize = 0;
        assert(sbody.take(0) =~= Seq::<tacky::SInstruction>::empty());
        assert(code_view(initial@) =~= Seq::<SInstruction>::empty());
        assert(strs_view(unique@) =~= Seq::<Seq<char>>::empty());
        while k < body.len()
            invariant
                k <= body@.len(),
                sbody == tacky::body_view(body@),
                forall|j: int| 0 <= j < body@.len() ==> handled(#[trigger] body@[j]@),
                code_view(initial@) == lower_all(sbody.take(k as int)),
                strs_view(unique@) == add_names(Seq::empty(), names_all(sbody.take(k as int))),
            decreases body@.len() - k,
        {
            let ghost pre = sbody.take(k + 1);
            assert(pre.drop_last() =~= sbody.take(k as int));
            assert(pre.last() == body@[k as int]@);
            let (mut lowered_code, pseudos) = self.translate_tacky_instruction(&body[k])?;
            let ghost before = initial@;
            let ghost added = lowered_code@;
            initial.append(&mut lowered_code);
            assert(code_view(initial@) =~= code_view(before) + code_view(added));
            let ghost u0 = strs_view(unique@);
            let mut j: usize = 0;
            assert(strs_view(pseudos@).take(0) =~= Seq::<Seq<char>>::empty());
            while j < pseudos.len()
                invariant
                    j <= pseudos@.len(),
                    strs_view(unique@) == add_names(u0, strs_view(pseudos@).take(j as int)),
                decreases pseudos@.len() - j,
            {
                let ghost ps = strs_view(pseudos@);
                add_unique(&mut unique, &pseudos[j]);
                proof {
                    lemma_add_names_concat_local(u0, ps.take(j as int), seq![ps[j as int]]);
                    assert(ps.take(j as int) + seq![ps[j as int]] =~= ps.take(j + 1));
                }
                j += 1;
            }
            proof {
                assert(strs_view(pseudos@).take(pseudos@.len() as int) =~= strs_view(pseudos@));
                lemma_add_names_concat_local(Seq::empty(), names_all(sbody.take(k as int)), names_of(body@[k as int]@));
            }
            k += 1;
        }
        assert(sbody.take(body@.len() as int) =~= sbody);
        let ghost u = strs_view(unique@);
        proof {
            lemma_add_names(Seq::empty(), names_all(sbody));
            lemma_names_len(sbody);
        }

        // Slots: each name gets the base offset less four bytes per name
        // that comes before it.
        let base_offset = self.next_stack_offset;
        let mut m: usize = 0;
        let ghost log0 = pairs_view(self.pseudo_to_stack_offset@);
        while m < unique.len()
            invariant
                m <= unique@.len(),
                u == strs_view(unique@),
                u.no_duplicates(),
                u.len() <= 3 * body@.len(),
                body@.len() < 0x0100_0000_0000_0000,
                -0x1000_0000_0000_0000 <= base_offset <= -4,
                base_offset == base,
                self.next_stack_offset == base_offset,
                pairs_view(self.pseudo_to_stack_offset@) == log0 + Seq::new(m as nat, |t: int| (u[t], assigned(base, u)[u[t]])),
            decreases unique@.len() - m,
        {
            let mut rank: i64 = 0;
            let mut t: usize = 0;
            assert(u.take(0) =~= Seq::<Seq<char>>::empty());
            while t < unique.len()
                invariant
                    t <= unique@.len(),
                    u == strs_view(unique@),
                    m < unique@.len(),
                    u.len() <= 3 * body@.len(),
                    body@.len() < 0x0100_0000_0000_0000,
                    rank == rank_in(u.take(t as int), u[m as int]),
                    rank <= t,
                decreases unique@.len() - t,
            {
                assert(u.take(t + 1).drop_last() =~= u.take(t as int));
                if string_less(&unique[t], &unique[m]) {
                    rank = rank + 1;
                }
                t += 1;
            }
            assert(u.take(u.len() as int) =~= u);
            assert(u.contains(u[m as int]));
            let offset = base_offset - 4 * rank;
            let ghost before = pairs_view(self.pseudo_to_stack_offset@);
            self.pseudo_to_stack_offset.push((unique[m].clone(), offset));
            assert(pairs_view(self.pseudo_to_stack_offset@) =~= before.push((u[m as int], assigned(base, u)[u[m as int]])));
            assert(Seq::new((m + 1) as nat, |t: int| (u[t], assigned(base, u)[u[t]]))
                =~= Seq::new(m as nat, |t: int| (u[t], assigned(base, u)[u[t]])).push((u[m as int], assigned(base, u)[u[m as int]])));
            m += 1;
        }
        self.next_stack_offset = base_offset - 4 * (unique.len() as i64);
        proof {
            lemma_offsets_suffix(log0, u, assigned(base, u));
        }
        let total_stack_space_needed = (0 - self.next_stack_offset) - 4;

        // Placement.
        let ghost lowered = lower_all(sbody);
        let ghost amap = assigned(base, u);
        proof {
            lemma_lower_all_names(sbody);
        }
        let mut placed: Vec<Instruction> = Vec::new();
        let mut q: usize = 0;
        while q < initial.len()
            invariant
                q <= initial@.len(),
                code_view(initial@) == lowered,
                lowered == lower_all(sbody),
                u == unique_names(sbody),
                amap == assigned(base, u),
                forall|p: Seq<char>| #[trigger] u.contains(p) ==> self.offsets().contains_key(p) && self.offsets()[p] == amap[p],
                forall|kk: int, x: Seq<char>| 0 <= kk < lowered.len() && pseudo_names(lowered[kk]).contains(x)
                    ==> names_all(sbody).contains(x),
                forall|x: Seq<char>| names_all(sbody).contains(x) ==> u.contains(x),
                placed@.len() == q,
                forall|kk: int| 0 <= kk < q ==> #[trigger] placed@[kk]@ == place_instr(amap, lowered[kk])->Ok_0,
            decreases initial@.len() - q,
        {
            proof {
                assert forall|x: Seq<char>| #[trigger] pseudo_names(lowered[q as int]).contains(x)
                    implies self.offsets().contains_key(x) && amap.contains_key(x) && self.offsets()[x] == amap[x] by {
                    assert(0 <= q < lowered.len() && pseudo_names(lowered[q as int]).contains(x));
                    assert(names_all(sbody).contains(x));
                    assert(u.contains(x));
                }
                lemma_place_total(amap, lowered[q as int]);
                lemma_place_agree(self.offsets(), amap, lowered[q as int]);
            }
            let x = self.replace_pseudos_in_instruction(&initial[q])?;
            placed.push(x);
            q += 1;
        }
        assert(code_view(placed@) =~= lowered.map_values(|i: SInstruction| place_instr(amap, i)->Ok_0));

        // Reservation and rewriting.
        let mut final_instructions: Vec<Instruction> = Vec::new();
        if total_stack_space_needed > 0 {
            final_instructions.push(Instruction::AllocateStack(total_stack_space_needed));
        }
        let ghost head = code_view(final_instructions@);
        let ghost ps = code_view(placed@);
        let mut z: usize = 0;
        assert(ps.take(0) =~= Seq::<SInstruction>::empty());
        while z < placed.len()
            invariant
                z <= placed@.len(),
                ps == code_view(placed@),
                code_view(final_instructions@) == head + fix_all(ps.take(z as int)),
            decreases placed@.len() - z,
        {
            assert(ps.take(z + 1).drop_last() =~= ps.take(z as int));
            let mut fixed = fix_one(&placed[z]);
            let ghost b = final_instructions@;
            let ghost added = fixed@;
            final_instructions.append(&mut fixed);
            assert(code_view(final_instructions@) =~= code_view(b) + code_view(added));
            z += 1;
        }
        assert(ps.take(ps.len() as int) =~= ps);
        assert(code_view(final_instructions@) =~= translated(base, sbody));
        Ok(Assemble { function: AssFunction { name: tacky_function.name, instructions: final_instructions } })
    }

    /// The assembly of one TACKY instruction and the variables it names.
    fn translate_tacky_instruction(&self, instruction: &tacky::Instruction) -> (r: Result<(Vec<Instruction>, Vec<String>), CodegenError>)
        requires
            handled(instruction@),
        ensures
            r matches Ok((code, names)) && code_view(code@) == lower(instruction@) && strs_view(names@) == names_of(instruction@),
    {
        let mut asm_instructions: Vec<Instruction> = Vec::new();
        let mut pseudos_found: Vec<String> = Vec::new();
        match instruction {
            tacky::Instruction::Return(val) => {
                collect_pseudo(val, &mut pseudos_found);
                let src_operand = self.translate_tacky_value(val)?;
                asm_instructions.push(Instruction::Mov { src: src_operand, dst: Operand::Reg(Reg::AX) });
                asm_instructions.push(Instruction::Ret);
            },
            tacky::Instruction::Unary { op, src, dst } => {
                collect_pseudo(src, &mut pseudos_found);
                collect_pseudo(dst, &mut pseudos_found);
                let src_operand = self.translate_tacky_value(src)?;
                let dst_operand = self.translate_tacky_value(dst)?;
                asm_instructions.push(Instruction::Mov { src: src_operand, dst: dst_operand.duplicate() });
                let ass_unary_op = match op {
                    tacky::UnaryOperator::Complement => UnaryOperator::Not,
                    _ => UnaryOperator::Neg,
                };
                asm_instructions.push(Instruction::Unary { op: ass_unary_op, operand: dst_operand });
            },
            tacky::Instruction::Binary { op, src1, src2, dst } => {
                collect_pseudo(src1, &mut pseudos_found);
                collect_pseudo(src2, &mut pseudos_found);
                collect_pseudo(dst, &mut pseudos_found);
                let src1_operand = self.translate_tacky_value(src1)?;
                let src2_operand = self.translate_tacky_value(src2)?;
                let dst_operand = self.translate_tacky_value(dst)?;
                match op {
                    tacky::BinaryOperator::Divide => {
                        asm_instructions.push(Instruction::Mov { src: src1_operand, dst: Operand::Reg(Reg::AX) });
                        asm_instructions.push(Instruction::Cdq);
                        asm_instructions.push(Instruction::Idiv(src2_operand));
                        asm_instructions.push(Instruction::Mov { src: Operand::Reg(Reg::AX), dst: dst_operand });
                    },
                    tacky::BinaryOperator::Remainder => {
                        asm_instructions.push(Instruction::Mov { src: src1_operand, dst: Operand::Reg(Reg::AX) });
                        asm_instructions.push(Instruction::Cdq);
                        asm_instructions.push(Instruction::Idiv(src2_operand));
                        asm_instructions.push(Instruction::Mov { src: Operand::Reg(Reg::DX), dst: dst_operand });
                    },
                    _ => {
                        let asm_op = match op {
                            tacky::BinaryOperator::Add => BinaryOperator::Add,
                            tacky::BinaryOperator::Subtract => BinaryOperator::Sub,
                            _ => BinaryOperator::Mult,
                        };
                        asm_instructions.push(Instruction::Mov { src: src1_operand, dst: dst_operand.duplicate() });
                        asm_instructions.push(Instruction::Binary {
                            op: asm_op,
                            left_operand: src2_operand,
                            right_operand: dst_operand,
                        });
                    },
                }
            },
            _ => {},
        }
        assert(code_view(asm_instructions@) =~= lower(instruction@));
        assert(strs_view(pseudos_found@) =~= names_of(instruction@));
        Ok((asm_instructions, pseudos_found))
    }

    /// The operand of a TACKY value.
    fn translate_tacky_value(&self, value: &tacky::Value) -> (r: Result<Operand, CodegenError>)
        ensures
            r matches Ok(o) && o@ == operand_of(value@),
    {
        match value {
            tacky::Value::Constant(i) => Ok(Operand::Imm(*i)),
            tacky::Value::Var(id) => Ok(Operand::Pseudo(id.clone())),
        }
    }

    /// The instruction with its pseudo-registers in their stack slots; a
    /// pseudo-register without a slot is an internal error.
    fn replace_pseudos_in_instruction(&self, instruction: &Instruction) -> (r: Result<Instruction, CodegenError>)
        ensures
            match (r, place_instr(self.offsets(), instruction@)) {
                (Ok(x), Ok(y)) => x@ == y,
                (Err(e), Err(m)) => e.message@ == m,
                _ => false,
            },
    {
        match instruction {
            Instruction::Mov { src, dst } => {
                let new_src = self.replace_operand(src)?;
                let new_dst = self.replace_operand(dst)?;
                Ok(Instruction::Mov { src: new_src, dst: new_dst })
            },
            Instruction::Unary { op, operand } => {
                let new_operand = self.replace_operand(operand)?;
                Ok(Instruction::Unary { op: *op, operand: new_operand })
            },
            Instruction::Binary { op, left_operand, right_operand } => {
                let left_src = self.replace_operand(left_operand)?;
                let right_src = self.replace_operand(right_operand)?;
                Ok(Instruction::Binary { op: *op, left_operand: left_src, right_operand: right_src })
            },
            Instruction::Idiv(operand) => {
                let new_operand = self.replace_operand(operand)?;
                Ok(Instruction::Idiv(new_operand))
            },
            Instruction::AllocateStack(n) => Ok(Instruction::AllocateStack(*n)),
            Instruction::Ret => Ok(Instruction::Ret),
            Instruction::Cdq => Ok(Instruction::Cdq),
        }
    }

    fn replace_operand(&self, operand: &Operand) -> (r: Result<Operand, CodegenError>)
        ensures
            match (r, place_operand(self.offsets(), operand@)) {
                (Ok(x), Ok(y)) => x@ == y,
                (Err(e), Err(m)) => e.message@ == m,
                _ => false,
            },
    {
        match operand {
            Operand::Pseudo(id) => match offset_lookup(&self.pseudo_to_stack_offset, id) {
                Some(offset) => Ok(Operand::Stack(offset)),
                None => {
                    let mut message = owned("Internal error: Pseudoregister '");
                    push_str(&mut message, id.as_str());
                    push_str(&mut message, "' used but no stack allocation found.");
                    Err(CodegenError { message })
                },
            },
            _ => Ok(operand.duplicate()),
        }
    }
}

/// Whether this translator handles the instruction.
fn handles(i: &tacky::Instruction) -> (r: bool)
    ensures
        r == handled(i@),
{
    match i {
        tacky::Instruction::Return(_) => true,
        tacky::Instruction::Unary { op, .. } => match op {
            tacky::UnaryOperator::Bang => false,
            _ => true,
        },
        tacky::Instruction::Binary { op, .. } => match op {
            tacky::BinaryOperator::Add | tacky::BinaryOperator::Subtract | tacky::BinaryOperator::Multiply
            | tacky::BinaryOperator::Divide | tacky::BinaryOperator::Remainder => true,
            _ => false,
        },
        _ => false,
    }
}

/// Whether a fresh translator accepts the program: every instruction is a
/// return, `~` or `-`, or arithmetic, and the body is not absurdly long.
pub fn translatable(program: &tacky::Program) -> (r: bool)
    ensures
        r == ((forall|k: int| 0 <= k < program.definition.body@.len() ==> handled(#[trigger] program.definition.body@[k]@))
            && program.definition.body@.len() < 0x0100_0000_0000_0000),
{
    let body = &program.definition.body;
    if (body.len() as u64) >= 0x0100_0000_0000_0000u64 {
        return false;
    }
    let mut k: usize = 0;
    while k < body.len()
        invariant
            k <= body@.len(),
            body@ == program.definition.body@,
            forall|j: int| 0 <= j < k ==> handled(#[trigger] body@[j]@),
        decreases body@.len() - k,
    {
        if !handles(&body[k]) {
            assert(!handled(body@[k as int]@));
            return false;
        }
        k += 1;
    }
    true
}

/// Records the variable a value names.
fn collect_pseudo(value: &tacky::Value, pseudos: &mut Vec<String>)
    ensures
        strs_view(final(pseudos)@) == strs_view(old(pseudos)@) + value_names(value@),
{
    let ghost before = pseudos@;
    match value {
        tacky::Value::Var(id) => {
            pseudos.push(id.clone());
            assert(strs_view(pseudos@) =~= strs_view(before) + value_names(value@));
        },
        _ => {
            assert(strs_view(pseudos@) =~= strs_view(before) + value_names(value@));
        },
    }
}

/// The rewriting of one instruction.
fn fix_one(item: &Instruction) -> (r: Vec<Instruction>)
    ensures
        code_view(r@) == fix(item@),
{
    let mut v: Vec<Instruction> = Vec::new();
    match item {
        Instruction::Mov { src: Operand::Stack(s_offset), dst: Operand::Stack(d_offset) } => {
            v.push(Instruction::Mov { src: Operand::Stack(*s_offset), dst: Operand::Reg(Reg::R10) });
            v.push(Instruction::Mov { src: Operand::Reg(Reg::R10), dst: Operand::Stack(*d_offset) });
        },
        Instruction::Idiv(Operand::Imm(i)) => {
            v.push(Instruction::Mov { src: Operand::Imm(*i), dst: Operand::Reg(Reg::R10) });
            v.push(Instruction::Idiv(Operand::Reg(Reg::R10)));
        },
        Instruction::Binary { op, left_operand, right_operand } => {
            match (op, left_operand, right_operand) {
                (BinaryOperator::Add, Operand::Stack(_), Operand::Stack(_))
                | (BinaryOperator::Sub, Operand::Stack(_), Operand::Stack(_)) => {
                    v.push(Instruction::Mov { src: left_operand.duplicate(), dst: Operand::Reg(Reg::R10) });
                    v.push(Instruction::Binary {
                        op: *op,
                        left_operand: Operand::Reg(Reg::R10),
                        right_operand: right_operand.duplicate(),
                    });
                },
                (BinaryOperator::Mult, _, Operand::Stack(_)) => {
                    v.push(Instruction::Mov { src: right_operand.duplicate(), dst: Operand::Reg(Reg::R11) });
                    v.push(Instruction::Binary {
                        op: BinaryOperator::Mult,
                        left_operand: left_operand.duplicate(),
                        right_operand: Operand::Reg(Reg::R11),
                    });
                    v.push(Instruction::Mov { src: Operand::Reg(Reg::R11), dst: right_operand.duplicate() });
                },
                _ => {
                    v.push(Instruction::Binary {
                        op: *op,
                        left_operand: left_operand.duplicate(),
                        right_operand: right_operand.duplicate(),
                    });
                },
            }
        },
        Instruction::Mov { src, dst } => {
            v.push(Instruction::Mov { src: src.duplicate(), dst: dst.duplicate() });
        },
        Instruction::Unary { op, operand } => {
            v.push(Instruction::Unary { op: *op, operand: operand.duplicate() });
        },
        Instruction::Idiv(o) => {
            v.push(Instruction::Idiv(o.duplicate()));
        },
        Instruction::Cdq => {
            v.push(Instruction::Cdq);
        },
        Instruction::Ret => {
            v.push(Instruction::Ret);
        },
        Instruction::AllocateStack(n) => {
            v.push(Instruction::AllocateStack(*n));
        },
    }
    assert(code_view(v@) =~= fix(item@));
    v
}

proof fn lemma_add_names_concat_local(x: Seq<Seq<char>>, a: Seq<Seq<char>>, b: Seq<Seq<char>>)
    ensures
        add_names(add_names(x, a), b) == add_names(x, a + b),
    decreases b.len(),
{
    if b.len() == 0 {
        assert(a + b =~= a);
    } else {
        lemma_add_names_concat_local(x, a, b.drop_last());
        assert((a + b).drop_last() =~= a + b.drop_last());
        assert((a + b).last() == b.last());
    }
}

proof fn lemma_offsets_suffix(log0: Seq<(Seq<char>, i64)>, u: Seq<Seq<char>>, m: Map<Seq<char>, i64>)
    requires
        u.no_duplicates(),
    ensures
        forall|p: Seq<char>| #[trigger] u.contains(p) ==> offsets_map(log0 + Seq::new(u.len(), |t: int| (u[t], m[u[t]]))).contains_key(p)
            && offsets_map(log0 + Seq::new(u.len(), |t: int| (u[t], m[u[t]])))[p] == m[p],
    decreases u.len(),
{
    if u.len() > 0 {
        let v = u.drop_last();
        assert(v.no_duplicates());
        lemma_offsets_suffix(log0, v, m);
        let s = log0 + Seq::new(u.len(), |t: int| (u[t], m[u[t]]));
        let sv = log0 + Seq::new(v.len(), |t: int| (v[t], m[v[t]]));
        assert(s.drop_last() =~= sv);
        assert(s.last() == (u.last(), m[u.last()]));
        assert forall|p: Seq<char>| #[trigger] u.contains(p) implies offsets_map(s).contains_key(p) && offsets_map(s)[p] == m[p] by {
            if p != u.last() {
                let j = choose|j: int| 0 <= j < u.len() && u[j] == p;
                assert(j < u.len() - 1);
                assert(v[j] == p);
                assert(v.contains(p));
            }
        }
    }
}

proof fn lemma_place_agree(m1: Map<Seq<char>, i64>, m2: Map<Seq<char>, i64>, i: SInstruction)
    requires
        forall|x: Seq<char>| #[trigger] pseudo_names(i).contains(x) ==> m1.contains_key(x) && m2.contains_key(x) && m1[x] == m2[x],
    ensures
        place_instr(m1, i) == place_instr(m2, i),
{
    match i {
        SInstruction::Mov { src, dst } => {
            if let SOperand::Pseudo(id) = src {
                assert(pseudo_names(i)[0] == id); assert(pseudo_names(i).contains(id));
            }
            if let SOperand::Pseudo(id) = dst {
                assert(pseudo_names(i)[pseudo_names(i).len() - 1] == id); assert(pseudo_names(i).contains(id));
            }
        },
        SInstruction::Binary { left_operand, right_operand, .. } => {
            if let SOperand::Pseudo(id) = left_operand {
                assert(pseudo_names(i)[0] == id); assert(pseudo_names(i).contains(id));
            }
            if let SOperand::Pseudo(id) = right_operand {
                assert(pseudo_names(i)[pseudo_names(i).len() - 1] == id); assert(pseudo_names(i).contains(id));
            }
        },
        SInstruction::Unary { operand, .. } => {
            if let SOperand::Pseudo(id) = operand {
                assert(pseudo_names(i)[0] == id); assert(pseudo_names(i).contains(id));
            }
        },
        SInstruction::Idiv(o) => {
            if let SOperand::Pseudo(id) = o {
                assert(pseudo_names(i)[0] == id); assert(pseudo_names(i).contains(id));
            }
        },
        _ => {},
    }
}

proof fn lemma_lex_irreflexive(a: Seq<char>, i: nat)
    ensures
        !lex_less_at(a, a, i),
    decreases a.len() - i,
{
    if i < a.len() {
        lemma_lex_irreflexive(a, i + 1);
    }
}

proof fn lemma_lex_transitive(a: Seq<char>, b: Seq<char>, c: Seq<char>, i: nat)
    requires
        lex_less_at(a, b, i),
        lex_less_at(b, c, i),
    ensures
        lex_less_at(a, c, i),
    decreases a.len() - i,
{
    if i < a.len() && i < b.len() && i < c.len() && a[i as int] == b[i as int] && b[i as int] == c[i as int] {
        lemma_lex_transitive(a, b, c, i + 1);
    }
}

proof fn lemma_lex_total(a: Seq<char>, b: Seq<char>, i: nat)
    requires
        a.take(i as int) == b.take(i as int),
        i <= a.len(),
        i <= b.len(),
        a != b,
    ensures
        lex_less_at(a, b, i) || lex_less_at(b, a, i),
    decreases a.len() - i,
{
    if i < a.len() && i < b.len() {
        if a[i as int] == b[i as int] {
            assert(a.take(i + 1int) =~= a.take(i as int).push(a[i as int]));
            assert(b.take(i + 1int) =~= b.take(i as int).push(b[i as int]));
            lemma_lex_total(a, b, i + 1);
        } else {
            vstd::utf8::char_u32_cast(a[i as int], a[i as int] as u32);
            vstd::utf8::char_u32_cast(b[i as int], b[i as int] as u32);
            assert((a[i as int] as u32) != (b[i as int] as u32));
        }
    } else if i == a.len() && i == b.len() {
        assert(a =~= a.take(i as int));
        assert(b =~= b.take(i as int));
    }
}

proof fn lemma_rank_ordered(u: Seq<Seq<char>>, p: Seq<char>, q: Seq<char>)
    requires
        lex_less(p, q),
    ensures
        rank_in(u, p) <= rank_in(u, q),
        u.contains(p) ==> rank_in(u, p) < rank_in(u, q),
    decreases u.len(),
{
    if u.len() > 0 {
        let x = u.last();
        lemma_rank_ordered(u.drop_last(), p, q);
        if lex_less(x, p) {
            lemma_lex_transitive(x, p, q, 0);
        }
        if x == p {
            lemma_lex_irreflexive(p, 0);
        }
        if u.contains(p) && x != p {
            let j = choose|j: int| 0 <= j < u.len() && u[j] == p;
            assert(u.drop_last()[j] == p);
        }
    }
}

proof fn lemma_rank_below(u: Seq<Seq<char>>, p: Seq<char>)
    requires
        u.contains(p),
    ensures
        rank_in(u, p) < u.len(),
    decreases u.len(),
{
    lemma_rank_bound(u.drop_last(), p);
    if u.last() == p {
        lemma_lex_irreflexive(p, 0);
    } else {
        let j = choose|j: int| 0 <= j < u.len() && u[j] == p;
        assert(u.drop_last()[j] == p);
        lemma_rank_below(u.drop_last(), p);
    }
}

/// Distinct pseudo-registers get distinct stack slots, four bytes apart at
/// least, each inside the frame: between `base` and `base - 4 * (n - 1)` for
/// `n` distinct names.
pub proof fn lemma_assigned_slots_distinct(base: int, u: Seq<Seq<char>>, p: Seq<char>, q: Seq<char>)
    requires
        u.contains(p),
        u.contains(q),
        p != q,
        i64::MIN <= base - 4 * u.len(),
        base <= i64::MAX,
    ensures
        assigned(base, u)[p] != assigned(base, u)[q],
        assigned(base, u)[p] == base - 4 * rank_in(u, p),
        base - 4 * (u.len() - 1) <= assigned(base, u)[p] <= base,
{
    assert(p.take(0) =~= q.take(0));
    lemma_lex_total(p, q, 0);
    if lex_less(p, q) {
        lemma_rank_ordered(u, p, q);
    } else {
        lemma_rank_ordered(u, q, p);
    }
    lemma_rank_below(u, p);
    lemma_rank_below(u, q);
}

} // verus!
