//! Instruction selection: TACKY to x86-64 assembly.
//!
//! Each function is lowered in four steps: its parameters are moved from the
//! argument registers and the caller's stack into pseudo-registers, each TACKY
//! instruction becomes a fixed sequence of assembly instructions, every
//! pseudo-register gets a 4-byte stack slot (in order of first use: `-4`,
//! `-8`, ...), and instructions x86-64 cannot encode are rewritten through the
//! scratch registers `%r10` and `%r11`. A function that uses the stack starts
//! by reserving its slots, rounded up to a multiple of 16 bytes.

use vstd::prelude::*;
use crate::backend::assembly_ast::{
    asm_view, BinaryOp, ConditionCode, Function, Instruction, Operand, Program, Reg, SFunction,
    SInstruction, SOperand, SProgram, UnaryOp,
};
use crate::backend::tacky_ir;
use crate::backend::tacky_ir::{instrs_view, values_view, SValue};
use crate::frontend::c_ast::strs_view;

verus! {

// ---------------------------------------------------------------------------
// Instruction selection.
// ---------------------------------------------------------------------------

/// The operand of a TACKY value.
pub open spec fn opnd(v: SValue) -> SOperand {
    match v {
        SValue::Constant(i) => SOperand::Imm(i),
        SValue::Var(n) => SOperand::Pseudo(n),
    }
}

/// The register that carries argument `i` (for `i < 6`).
pub open spec fn arg_reg(i: int) -> Reg {
    if i == 0 {
        Reg::DI
    } else if i == 1 {
        Reg::SI
    } else if i == 2 {
        Reg::DX
    } else if i == 3 {
        Reg::CX
    } else if i == 4 {
        Reg::R8
    } else {
        Reg::R9
    }
}

/// Where parameter `i` arrives: one of the six argument registers, else the
/// caller's stack above the return address.
pub open spec fn param_src(i: int) -> SOperand {
    if i < 6 {
        SOperand::Register(arg_reg(i))
    } else {
        SOperand::Stack((16 + (i - 6) * 8) as i64)
    }
}

/// The moves of the parameters into their pseudo-registers.
pub open spec fn param_moves(ps: Seq<Seq<char>>) -> Seq<SInstruction> {
    Seq::new(ps.len(), |i: int| SInstruction::Mov { src: param_src(i), dst: SOperand::Pseudo(ps[i]) })
}

/// `dst = (op1 cc op2)` as 0 or 1: compare, set `%al`, widen it, store it.
pub open spec fn relational(op1: SOperand, op2: SOperand, dst: SOperand, cc: ConditionCode) -> Seq<SInstruction> {
    seq![
        SInstruction::Cmp { operand1: op2, operand2: op1 },
        SInstruction::SetCC { conditin: cc, operand: SOperand::Register(Reg::AX) },
        SInstruction::Mov { src: SOperand::Register(Reg::AX), dst: SOperand::Register(Reg::AX) },
        SInstruction::Mov { src: SOperand::Register(Reg::AX), dst },
    ]
}

/// The condition code of a relational TACKY operator.
pub open spec fn cc_of(op: tacky_ir::BinaryOp) -> ConditionCode {
    match op {
        tacky_ir::BinaryOp::EqualEqual => ConditionCode::E,
        tacky_ir::BinaryOp::BangEqual => ConditionCode::NE,
        tacky_ir::BinaryOp::Greater => ConditionCode::G,
        tacky_ir::BinaryOp::GreaterEqual => ConditionCode::GE,
        tacky_ir::BinaryOp::Less => ConditionCode::L,
        _ => ConditionCode::LE,
    }
}

pub open spec fn is_relational(op: tacky_ir::BinaryOp) -> bool {
    op == tacky_ir::BinaryOp::EqualEqual || op == tacky_ir::BinaryOp::BangEqual
        || op == tacky_ir::BinaryOp::Greater || op == tacky_ir::BinaryOp::GreaterEqual
        || op == tacky_ir::BinaryOp::Less || op == tacky_ir::BinaryOp::LessEqual
}

/// The assembly counterpart of `+`, `-` and `*`.
pub open spec fn arith_of(op: tacky_ir::BinaryOp) -> BinaryOp {
    match op {
        tacky_ir::BinaryOp::Add => BinaryOp::Add,
        tacky_ir::BinaryOp::Subtract => BinaryOp::Subtract,
        _ => BinaryOp::Multiply,
    }
}

/// Pushing one stack argument: an immediate directly, a variable through `%rax`.
pub open spec fn push_arg(v: SValue) -> Seq<SInstruction> {
    match opnd(v) {
        SOperand::Imm(i) => seq![SInstruction::Push(SOperand::Imm(i))],
        o => seq![
            SInstruction::Mov { src: o, dst: SOperand::Register(Reg::AX) },
            SInstruction::Push(SOperand::Register(Reg::AX)),
        ],
    }
}

/// Pushing the stack arguments, last one first.
pub open spec fn push_args(vs: Seq<SValue>) -> Seq<SInstruction>
    decreases vs.len(),
{
    if vs.len() == 0 {
        Seq::empty()
    } else {
        push_arg(vs.last()) + push_args(vs.drop_last())
    }
}

/// How many arguments of a call go in registers.
pub open spec fn reg_count(n: nat) -> nat {
    if n < 6 { n } else { 6 }
}

/// The padding that keeps the stack 16-byte aligned at a call.
pub open spec fn call_padding(n: nat) -> int {
    if (n - reg_count(n)) % 2 != 0 { 8 } else { 0 }
}

/// The code of a call: padding, register arguments, stack arguments in
/// reverse, the call, releasing the stack arguments and padding, and storing
/// `%eax`.
pub open spec fn call_code(name: Seq<char>, args: Seq<SValue>, dst: SValue) -> Seq<SInstruction> {
    let n = args.len();
    let split = reg_count(n);
    let pad = call_padding(n);
    let release = 8 * (n - split) + pad;
    (if pad != 0 { seq![SInstruction::AllocateStack(pad as i64)] } else { Seq::empty() })
        + Seq::new(split, |i: int| SInstruction::Mov {
        src: opnd(args[i]),
        dst: SOperand::Register(arg_reg(i)),
    }) + push_args(args.skip(split as int)) + seq![SInstruction::Call(name)]
        + (if release > 0 { seq![SInstruction::DeallocateStack(release as i64)] } else { Seq::empty() })
        + seq![SInstruction::Mov { src: SOperand::Register(Reg::AX), dst: opnd(dst) }]
}

/// The assembly of one TACKY instruction.
pub open spec fn select(i: tacky_ir::SInstruction) -> Seq<SInstruction> {
    match i {
        tacky_ir::SInstruction::Return(v) => seq![
            SInstruction::Mov { src: opnd(v), dst: SOperand::Register(Reg::AX) },
            SInstruction::Ret,
        ],
        tacky_ir::SInstruction::Unary { op, src, dst } => match op {
            tacky_ir::UnaryOp::Not => relational(opnd(src), SOperand::Imm(0), opnd(dst), ConditionCode::E),
            _ => seq![
                SInstruction::Mov { src: opnd(src), dst: opnd(dst) },
                SInstruction::Unary {
                    op: if op == tacky_ir::UnaryOp::Complement { UnaryOp::Complement } else { UnaryOp::Neg },
                    operand: opnd(dst),
                },
            ],
        },
        tacky_ir::SInstruction::Binary { op, src1, src2, dst } => {
            if op == tacky_ir::BinaryOp::Divide || op == tacky_ir::BinaryOp::Remainder {
                seq![
                    SInstruction::Mov { src: opnd(src1), dst: SOperand::Register(Reg::AX) },
                    SInstruction::Cdq,
                    SInstruction::Idiv(opnd(src2)),
                    SInstruction::Mov {
                        src: SOperand::Register(if op == tacky_ir::BinaryOp::Divide { Reg::AX } else { Reg::DX }),
                        dst: opnd(dst),
                    },
                ]
            } else if is_relational(op) {
                relational(opnd(src1), opnd(src2), opnd(dst), cc_of(op))
            } else {
                seq![
                    SInstruction::Mov { src: opnd(src1), dst: opnd(dst) },
                    SInstruction::Binary { op: arith_of(op), left_operand: opnd(src2), right_operand: opnd(dst) },
                ]
            }
        },
        tacky_ir::SInstruction::Jump(t) => seq![SInstruction::Jmp(t)],
        tacky_ir::SInstruction::JumpIfZero { condition, target } => seq![
            SInstruction::Cmp { operand1: SOperand::Imm(0), operand2: opnd(condition) },
            SInstruction::JmpCC { condtion: ConditionCode::E, target },
        ],
        tacky_ir::SInstruction::JumpIfNotZero { condition, target } => seq![
            SInstruction::Cmp { operand1: SOperand::Imm(0), operand2: opnd(condition) },
            SInstruction::JmpCC { condtion: ConditionCode::NE, target },
        ],
        tacky_ir::SInstruction::Copy { src, dst } => seq![SInstruction::Mov { src: opnd(src), dst: opnd(dst) }],
        tacky_ir::SInstruction::Label(t) => seq![SInstruction::Label(t)],
        tacky_ir::SInstruction::FunctionCall { name, args, dst } => call_code(name, args, dst),
    }
}

/// The assembly of a list of TACKY instructions.
pub open spec fn select_all(s: Seq<tacky_ir::SInstruction>) -> Seq<SInstruction>
    decreases s.len(),
{
    if s.len() == 0 {
        Seq::empty()
    } else {
        select_all(s.drop_last()) + select(s.last())
    }
}

/// The assembly of a function before stack allocation.
pub open spec fn initial_code(f: tacky_ir::SFunction) -> Seq<SInstruction> {
    param_moves(f.params) + select_all(f.body)
}

// ---------------------------------------------------------------------------
// Stack allocation.
// ---------------------------------------------------------------------------

/// The pseudo-registers an operand names.
pub open spec fn operand_pseudos(o: SOperand) -> Seq<Seq<char>> {
    match o {
        SOperand::Pseudo(n) => seq![n],
        _ => Seq::empty(),
    }
}

/// The pseudo-registers an instruction names, in operand order.
pub open spec fn instr_pseudos(i: SInstruction) -> Seq<Seq<char>> {
    match i {
        SInstruction::Mov { src, dst } => operand_pseudos(src) + operand_pseudos(dst),
        SInstruction::Unary { operand, .. } => operand_pseudos(operand),
        SInstruction::Binary { left_operand, right_operand, .. } => operand_pseudos(left_operand)
            + operand_pseudos(right_operand),
        SInstruction::Cmp { operand1, operand2 } => operand_pseudos(operand1) + operand_pseudos(operand2),
        SInstruction::Idiv(o) => operand_pseudos(o),
        SInstruction::SetCC { operand, .. } => operand_pseudos(operand),
        SInstruction::Push(o) => operand_pseudos(o),
        _ => Seq::empty(),
    }
}

/// `order` followed by the names of `names` it does not hold yet, in order.
pub open spec fn add_names(order: Seq<Seq<char>>, names: Seq<Seq<char>>) -> Seq<Seq<char>>
    decreases names.len(),
{
    if names.len() == 0 {
        order
    } else {
        let a = add_names(order, names.drop_last());
        if a.contains(names.last()) {
            a
        } else {
            a.push(names.last())
        }
    }
}

/// The pseudo-registers of a list of instructions in order of first use.
pub open spec fn pseudo_order(s: Seq<SInstruction>) -> Seq<Seq<char>>
    decreases s.len(),
{
    if s.len() == 0 {
        Seq::empty()
    } else {
        add_names(pseudo_order(s.drop_last()), instr_pseudos(s.last()))
    }
}

/// The index of the first occurrence of `x` in `s`.
pub open spec fn position(s: Seq<Seq<char>>, x: Seq<char>) -> int
    decreases s.len(),
{
    if s.len() == 0 {
        0
    } else if s.drop_last().contains(x) {
        position(s.drop_last(), x)
    } else {
        s.len() - 1
    }
}

/// The stack slot of the `k`-th pseudo-register.
pub open spec fn slot(k: int) -> int {
    -4 * (k + 1)
}

/// An operand with its pseudo-register replaced by its stack slot.
pub open spec fn replace_operand(order: Seq<Seq<char>>, o: SOperand) -> SOperand {
    match o {
        SOperand::Pseudo(n) => SOperand::Stack(slot(position(order, n)) as i64),
        _ => o,
    }
}

/// An instruction with its pseudo-registers replaced by their stack slots.
pub open spec fn replace_instr(order: Seq<Seq<char>>, i: SInstruction) -> SInstruction {
    match i {
        SInstruction::Mov { src, dst } => SInstruction::Mov {
            src: replace_operand(order, src),
            dst: replace_operand(order, dst),
        },
        SInstruction::Unary { op, operand } => SInstruction::Unary { op, operand: replace_operand(order, operand) },
        SInstruction::Binary { op, left_operand, right_operand } => SInstruction::Binary {
            op,
            left_operand: replace_operand(order, left_operand),
            right_operand: replace_operand(order, right_operand),
        },
        SInstruction::Cmp { operand1, operand2 } => SInstruction::Cmp {
            operand1: replace_operand(order, operand1),
            operand2: replace_operand(order, operand2),
        },
        SInstruction::Idiv(o) => SInstruction::Idiv(replace_operand(order, o)),
        SInstruction::SetCC { conditin, operand } => SInstruction::SetCC {
            conditin,
            operand: replace_operand(order, operand),
        },
        SInstruction::Push(o) => SInstruction::Push(replace_operand(order, o)),
        _ => i,
    }
}

/// The instructions with every pseudo-register in its stack slot.
pub open spec fn allocated(s: Seq<SInstruction>) -> Seq<SInstruction> {
    s.map_values(|i: SInstruction| replace_instr(pseudo_order(s), i))
}

/// The bytes the stack slots of `s` take.
pub open spec fn slots_size(s: Seq<SInstruction>) -> int {
    4 * pseudo_order(s).len() as int
}

/// `a` is a prefix of `b`.
pub open spec fn is_prefix(a: Seq<Seq<char>>, b: Seq<Seq<char>>) -> bool {
    a.len() <= b.len() && forall|k: int| 0 <= k < a.len() ==> #[trigger] b[k] == a[k]
}

pub(crate) proof fn lemma_add_names(order: Seq<Seq<char>>, names: Seq<Seq<char>>)
    ensures
        is_prefix(order, add_names(order, names)),
        forall|k: int| 0 <= k < names.len() ==> add_names(order, names).contains(#[trigger] names[k]),
        order.no_duplicates() ==> add_names(order, names).no_duplicates(),
        add_names(order, names).len() <= order.len() + names.len(),
        forall|x: Seq<char>| add_names(order, names).contains(x) ==> order.contains(x) || names.contains(x),
    decreases names.len(),
{
    if names.len() > 0 {
        let a = add_names(order, names.drop_last());
        lemma_add_names(order, names.drop_last());
        assert forall|k: int| 0 <= k < names.len() implies add_names(order, names).contains(#[trigger] names[k]) by {
            if k < names.len() - 1 {
                assert(names.drop_last()[k] == names[k]);
                let j = choose|j: int| 0 <= j < a.len() && a[j] == names[k];
                if !a.contains(names.last()) {
                    assert(a.push(names.last())[j] == names[k]);
                }
            } else {
                if !a.contains(names.last()) {
                    assert(a.push(names.last())[a.len() as int] == names.last());
                }
            }
        }
        assert forall|x: Seq<char>| add_names(order, names).contains(x) implies order.contains(x) || names.contains(x) by {
            if a.contains(x) {
                if names.drop_last().contains(x) {
                    let j = choose|j: int| 0 <= j < names.drop_last().len() && names.drop_last()[j] == x;
                    assert(names[j] == x);
                }
            } else {
                assert(x == names.last());
                assert(names[names.len() - 1] == x);
            }
        }
    }
}

proof fn lemma_position(s: Seq<Seq<char>>, x: Seq<char>)
    requires
        s.contains(x),
    ensures
        0 <= position(s, x) < s.len(),
        s[position(s, x)] == x,
        forall|k: int| 0 <= k < position(s, x) ==> s[k] != x,
        s.no_duplicates() ==> forall|k: int| 0 <= k < s.len() && s[k] == x ==> k == position(s, x),
    decreases s.len(),
{
    if s.drop_last().contains(x) {
        lemma_position(s.drop_last(), x);
        assert forall|k: int| 0 <= k < position(s, x) implies s[k] != x by {
            assert(s.drop_last()[k] != x);
        }
    } else {
        assert forall|k: int| 0 <= k < s.len() - 1 implies s[k] != x by {
            assert(s.drop_last()[k] == s[k]);
        }
    }
}

proof fn lemma_position_prefix(a: Seq<Seq<char>>, b: Seq<Seq<char>>, x: Seq<char>)
    requires
        is_prefix(a, b),
        a.contains(x),
    ensures
        position(a, x) == position(b, x),
    decreases b.len(),
{
    if a.len() == b.len() {
        assert(a =~= b);
    } else {
        let j = choose|j: int| 0 <= j < a.len() && a[j] == x;
        assert(b.drop_last()[j] == x);
        lemma_position_prefix(a, b.drop_last(), x);
    }
}

proof fn lemma_order_prefix(s: Seq<SInstruction>, i: int, j: int)
    requires
        0 <= i <= j <= s.len(),
    ensures
        is_prefix(pseudo_order(s.take(i)), pseudo_order(s.take(j))),
        pseudo_order(s.take(j)).no_duplicates(),
        pseudo_order(s.take(j)).len() <= 2 * j,
    decreases j,
{
    if j == 0 {
        assert(s.take(0) =~= Seq::<SInstruction>::empty());
    } else {
        lemma_order_prefix(s, if i == j { j - 1 } else { i }, j - 1);
        assert(s.take(j).drop_last() =~= s.take(j - 1));
        lemma_add_names(pseudo_order(s.take(j - 1)), instr_pseudos(s[j - 1]));
        assert(instr_pseudos(s[j - 1]).len() <= 2);
    }
}

proof fn lemma_replace_operand_stable(o1: Seq<Seq<char>>, o2: Seq<Seq<char>>, o: SOperand)
    requires
        is_prefix(o1, o2),
        forall|k: int| 0 <= k < operand_pseudos(o).len() ==> o1.contains(#[trigger] operand_pseudos(o)[k]),
    ensures
        replace_operand(o1, o) == replace_operand(o2, o),
{
    if let SOperand::Pseudo(n) = o {
        assert(operand_pseudos(o)[0] == n);
        lemma_position_prefix(o1, o2, n);
    }
}

proof fn lemma_replace_stable(o1: Seq<Seq<char>>, o2: Seq<Seq<char>>, i: SInstruction)
    requires
        is_prefix(o1, o2),
        forall|k: int| 0 <= k < instr_pseudos(i).len() ==> o1.contains(#[trigger] instr_pseudos(i)[k]),
    ensures
        replace_instr(o1, i) == replace_instr(o2, i),
{
    let ps = instr_pseudos(i);
    match i {
        SInstruction::Mov { src, dst } => {
            let a = operand_pseudos(src);
            assert forall|k: int| 0 <= k < a.len() implies o1.contains(#[trigger] a[k]) by {
                assert(ps[k] == a[k]);
            }
            let b = operand_pseudos(dst);
            assert forall|k: int| 0 <= k < b.len() implies o1.contains(#[trigger] b[k]) by {
                assert(ps[a.len() + k] == b[k]);
            }
            lemma_replace_operand_stable(o1, o2, src);
            lemma_replace_operand_stable(o1, o2, dst);
        },
        SInstruction::Binary { left_operand, right_operand, .. } => {
            let a = operand_pseudos(left_operand);
            assert forall|k: int| 0 <= k < a.len() implies o1.contains(#[trigger] a[k]) by {
                assert(ps[k] == a[k]);
            }
            let b = operand_pseudos(right_operand);
            assert forall|k: int| 0 <= k < b.len() implies o1.contains(#[trigger] b[k]) by {
                assert(ps[a.len() + k] == b[k]);
            }
            lemma_replace_operand_stable(o1, o2, left_operand);
            lemma_replace_operand_stable(o1, o2, right_operand);
        },
        SInstruction::Cmp { operand1, operand2 } => {
            let a = operand_pseudos(operand1);
            assert forall|k: int| 0 <= k < a.len() implies o1.contains(#[trigger] a[k]) by {
                assert(ps[k] == a[k]);
            }
            let b = operand_pseudos(operand2);
            assert forall|k: int| 0 <= k < b.len() implies o1.contains(#[trigger] b[k]) by {
                assert(ps[a.len() + k] == b[k]);
            }
            lemma_replace_operand_stable(o1, o2, operand1);
            lemma_replace_operand_stable(o1, o2, operand2);
        },
        SInstruction::Unary { operand, .. } => lemma_replace_operand_stable(o1, o2, operand),
        SInstruction::Idiv(o) => lemma_replace_operand_stable(o1, o2, o),
        SInstruction::SetCC { operand, .. } => lemma_replace_operand_stable(o1, o2, operand),
        SInstruction::Push(o) => lemma_replace_operand_stable(o1, o2, o),
        _ => {},
    }
}

// ---------------------------------------------------------------------------
// Fixing up instructions x86-64 cannot encode.
// ---------------------------------------------------------------------------

/// The legal replacement of one instruction.
pub open spec fn fix_up(i: SInstruction) -> Seq<SInstruction> {
    match i {
        SInstruction::Mov { src: SOperand::Stack(s), dst: SOperand::Stack(d) } => seq![
            SInstruction::Mov { src: SOperand::Stack(s), dst: SOperand::Register(Reg::R10) },
            SInstruction::Mov { src: SOperand::Register(Reg::R10), dst: SOperand::Stack(d) },
        ],
        SInstruction::Idiv(SOperand::Imm(v)) => seq![
            SInstruction::Mov { src: SOperand::Imm(v), dst: SOperand::Register(Reg::R10) },
            SInstruction::Idiv(SOperand::Register(Reg::R10)),
        ],
        SInstruction::Binary { op, left_operand, right_operand } => {
            if op != BinaryOp::Multiply && left_operand is Stack && right_operand is Stack {
                seq![
                    SInstruction::Mov { src: left_operand, dst: SOperand::Register(Reg::R10) },
                    SInstruction::Binary { op, left_operand: SOperand::Register(Reg::R10), right_operand },
                ]
            } else if op == BinaryOp::Multiply && right_operand is Stack {
                seq![
                    SInstruction::Mov { src: right_operand, dst: SOperand::Register(Reg::R11) },
                    SInstruction::Binary { op, left_operand, right_operand: SOperand::Register(Reg::R11) },
                    SInstruction::Mov { src: SOperand::Register(Reg::R11), dst: right_operand },
                ]
            } else {
                seq![i]
            }
        },
        SInstruction::Cmp { operand1: SOperand::Stack(s), operand2: SOperand::Stack(d) } => seq![
            SInstruction::Mov { src: SOperand::Stack(s), dst: SOperand::Register(Reg::R10) },
            SInstruction::Cmp { operand1: SOperand::Register(Reg::R10), operand2: SOperand::Stack(d) },
        ],
        SInstruction::Cmp { operand1, operand2: SOperand::Imm(v) } => seq![
            SInstruction::Mov { src: SOperand::Imm(v), dst: SOperand::Register(Reg::R11) },
            SInstruction::Cmp { operand1, operand2: SOperand::Register(Reg::R11) },
        ],
        _ => seq![i],
    }
}

/// The legal replacements of a list of instructions.
pub open spec fn fix_up_all(s: Seq<SInstruction>) -> Seq<SInstruction>
    decreases s.len(),
{
    if s.len() == 0 {
        Seq::empty()
    } else {
        fix_up_all(s.drop_last()) + fix_up(s.last())
    }
}

/// The stack reservation rounded up to a multiple of 16 bytes.
pub open spec fn aligned_size(size: i64) -> i64 {
    (size + 15) as i64 & !15i64
}

/// The assembly function of a TACKY function.
pub open spec fn lower_function(f: tacky_ir::SFunction) -> SFunction {
    let init = initial_code(f);
    let size = slots_size(init) as i64;
    let fixed = fix_up_all(allocated(init));
    SFunction {
        name: f.name,
        instructions: if size > 0 { seq![SInstruction::AllocateStack(aligned_size(size))] + fixed } else { fixed },
        stack_size: size,
    }
}

/// The assembly program of a TACKY program.
pub open spec fn lower_program(p: tacky_ir::SProgram) -> SProgram {
    SProgram { functions: p.functions.map_values(|f: tacky_ir::SFunction| lower_function(f)) }
}

/// The largest function this lowering handles: its slots and offsets fit
/// in 64 bits.
pub open spec fn fits(f: tacky_ir::SFunction) -> bool {
    initial_code(f).len() < 0x0400_0000_0000_0000
}

proof fn lemma_push_args_len(vs: Seq<SValue>)
    ensures
        push_args(vs).len() >= vs.len(),
    decreases vs.len(),
{
    if vs.len() > 0 {
        lemma_push_args_len(vs.drop_last());
    }
}

proof fn lemma_call_code_len(name: Seq<char>, args: Seq<SValue>, dst: SValue)
    ensures
        call_code(name, args, dst).len() >= args.len(),
{
    let split = reg_count(args.len());
    lemma_push_args_len(args.skip(split as int));
}

proof fn lemma_select_all_prefix(s: Seq<tacky_ir::SInstruction>, i: int)
    requires
        0 < i <= s.len(),
    ensures
        select_all(s.take(i - 1)).len() + select(s[i - 1]).len() == select_all(s.take(i)).len(),
        select_all(s.take(i)).len() <= select_all(s).len(),
    decreases s.len(),
{
    assert(s.take(i).drop_last() =~= s.take(i - 1));
    if i < s.len() {
        lemma_select_all_prefix(s.drop_last(), i);
        assert(s.drop_last().take(i) =~= s.take(i));
        assert(s.drop_last().take(i - 1) =~= s.take(i - 1));
    } else {
        assert(s.take(i) =~= s);
    }
}


// ---------------------------------------------------------------------------
// What lowering guarantees of its result.
// ---------------------------------------------------------------------------

/// An instruction x86-64 can encode: at most one memory operand where the
/// instruction allows one, no immediate divisor, no immediate compared
/// against, and no memory destination for `imul`.
pub open spec fn legal(i: SInstruction) -> bool {
    match i {
        SInstruction::Mov { src, dst } => !(src is Stack && dst is Stack),
        SInstruction::Idiv(o) => !(o is Imm),
        SInstruction::Binary { op, left_operand, right_operand } => if op == BinaryOp::Multiply {
            !(right_operand is Stack)
        } else {
            !(left_operand is Stack && right_operand is Stack)
        },
        SInstruction::Cmp { operand1, operand2 } => !(operand1 is Stack && operand2 is Stack) && !(operand2 is Imm),
        _ => true,
    }
}

/// An instruction that names no pseudo-register.
pub open spec fn pseudo_free(i: SInstruction) -> bool {
    instr_pseudos(i).len() == 0
}

proof fn lemma_fix_up_legal(i: SInstruction)
    ensures
        forall|k: int| 0 <= k < fix_up(i).len() ==> legal(#[trigger] fix_up(i)[k]),
        pseudo_free(i) ==> forall|k: int| 0 <= k < fix_up(i).len() ==> pseudo_free(#[trigger] fix_up(i)[k]),
{
}

proof fn lemma_fix_up_all_legal(s: Seq<SInstruction>)
    ensures
        forall|k: int| 0 <= k < fix_up_all(s).len() ==> legal(#[trigger] fix_up_all(s)[k]),
        (forall|j: int| 0 <= j < s.len() ==> pseudo_free(#[trigger] s[j]))
            ==> forall|k: int| 0 <= k < fix_up_all(s).len() ==> pseudo_free(#[trigger] fix_up_all(s)[k]),
    decreases s.len(),
{
    if s.len() > 0 {
        lemma_fix_up_all_legal(s.drop_last());
        lemma_fix_up_legal(s.last());
        let a = fix_up_all(s.drop_last());
        let b = fix_up(s.last());
        assert forall|k: int| 0 <= k < fix_up_all(s).len() implies legal(#[trigger] fix_up_all(s)[k]) by {
            if k < a.len() {
                assert(fix_up_all(s)[k] == a[k]);
            } else {
                assert(fix_up_all(s)[k] == b[k - a.len()]);
            }
        }
        if forall|j: int| 0 <= j < s.len() ==> pseudo_free(#[trigger] s[j]) {
            assert(forall|j: int| 0 <= j < s.drop_last().len() ==> pseudo_free(#[trigger] s.drop_last()[j])) by {
                assert forall|j: int| 0 <= j < s.drop_last().len() implies pseudo_free(#[trigger] s.drop_last()[j]) by {
                    assert(s.drop_last()[j] == s[j]);
                }
            }
            assert(pseudo_free(s[s.len() - 1]));
            assert forall|k: int| 0 <= k < fix_up_all(s).len() implies pseudo_free(#[trigger] fix_up_all(s)[k]) by {
                if k < a.len() {
                    assert(fix_up_all(s)[k] == a[k]);
                } else {
                    assert(fix_up_all(s)[k] == b[k - a.len()]);
                }
            }
        }
    }
}

/// Stack allocation leaves no pseudo-register behind.
proof fn lemma_allocated_pseudo_free(s: Seq<SInstruction>)
    ensures
        allocated(s).len() == s.len(),
        forall|j: int| 0 <= j < s.len() ==> pseudo_free(#[trigger] allocated(s)[j]),
{
    assert forall|j: int| 0 <= j < s.len() implies pseudo_free(#[trigger] allocated(s)[j]) by {
        assert(allocated(s)[j] == replace_instr(pseudo_order(s), s[j]));
    }
}

/// Rounding up to 16 bytes gives a multiple of 16 no smaller than the size
/// and less than 16 bytes larger.
pub proof fn lemma_aligned_size(size: i64)
    requires
        0 <= size <= 0x2000_0000_0000_0000,
    ensures
        aligned_size(size) % 16 == 0,
        size <= aligned_size(size) < size + 16,
{
    assert((size + 15) as i64 & !15i64 == (size + 15) as i64 - ((size + 15) as i64 % 16)) by (bit_vector)
        requires
            0 <= size <= 0x2000_0000_0000_0000;
}

/// Every instruction a lowered function executes after reserving its frame
/// is encodable and names no pseudo-register; the reservation is a multiple
/// of 16 bytes that covers all the slots.
pub proof fn lemma_lowered_function_well_formed(f: tacky_ir::SFunction)
    requires
        fits(f),
    ensures
        ({
            let g = lower_function(f);
            let body = if g.stack_size > 0 { g.instructions.drop_first() } else { g.instructions };
            &&& forall|k: int| 0 <= k < body.len() ==> legal(#[trigger] body[k]) && pseudo_free(body[k])
            &&& g.stack_size > 0 ==> g.instructions[0] == SInstruction::AllocateStack(aligned_size(g.stack_size))
                && aligned_size(g.stack_size) % 16 == 0 && g.stack_size <= aligned_size(g.stack_size)
            &&& g.stack_size == slots_size(initial_code(f))
        }),
{
    let init = initial_code(f);
    assert(init.take(init.len() as int) =~= init);
    lemma_order_prefix(init, init.len() as int, init.len() as int);
    lemma_allocated_pseudo_free(init);
    lemma_fix_up_all_legal(allocated(init));
    let size = slots_size(init) as i64;
    let fixed = fix_up_all(allocated(init));
    if size > 0 {
        lemma_aligned_size(size);
        assert((seq![SInstruction::AllocateStack(aligned_size(size))] + fixed).drop_first() =~= fixed);
    }
}

/// Distinct pseudo-registers of a function get distinct stack slots, all
/// inside the reserved frame: between `-stack_size` and `-4`.
pub proof fn lemma_slots_distinct(s: Seq<SInstruction>, a: Seq<char>, b: Seq<char>)
    requires
        pseudo_order(s).contains(a),
        pseudo_order(s).contains(b),
        a != b,
    ensures
        slot(position(pseudo_order(s), a)) != slot(position(pseudo_order(s), b)),
        -slots_size(s) <= slot(position(pseudo_order(s), a)) <= -4,
{
    let o = pseudo_order(s);
    lemma_position(o, a);
    lemma_position(o, b);
}

// ---------------------------------------------------------------------------
// Implementation
// ---------------------------------------------------------------------------

/// Translates TACKY to assembly.
#[derive(Debug)]
pub struct AssemblyGenerator {}

/// Appends one instruction.
fn emit(v: &mut Vec<Instruction>, i: Instruction)
    ensures
        asm_view(final(v)@) == asm_view(old(v)@).push(i@),
{
    let ghost before = v@;
    v.push(i);
    assert(asm_view(v@) =~= asm_view(before).push(i@));
}

/// Appends a list of instructions.
fn emit_all(v: &mut Vec<Instruction>, mut w: Vec<Instruction>)
    ensures
        asm_view(final(v)@) == asm_view(old(v)@) + asm_view(w@),
{
    let ghost before = v@;
    let ghost added = w@;
    v.append(&mut w);
    assert(asm_view(v@) =~= asm_view(before) + asm_view(added));
}

fn argument_register(i: usize) -> (r: Reg)
    requires
        i < 6,
    ensures
        r == arg_reg(i as int),
{
    if i == 0 {
        Reg::DI
    } else if i == 1 {
        Reg::SI
    } else if i == 2 {
        Reg::DX
    } else if i == 3 {
        Reg::CX
    } else if i == 4 {
        Reg::R8
    } else {
        Reg::R9
    }
}

impl AssemblyGenerator {
    /// A generator.
    pub fn new() -> (r: Self) {
        AssemblyGenerator {}
    }

    /// Lowers every function of a TACKY program.
    pub fn generate(&mut self, ir_program: tacky_ir::Program) -> (r: Result<Program, String>)
        requires
            forall|i: int| 0 <= i < ir_program@.functions.len() ==> fits(#[trigger] ir_program@.functions[i]),
        ensures
            r matches Ok(p) && p@ == lower_program(ir_program@),
    {
        let mut functions: Vec<Function> = Vec::new();
        let mut k: usize = 0;
        while k < ir_program.functions.len()
            invariant
                k <= ir_program.functions@.len(),
                forall|i: int| 0 <= i < ir_program@.functions.len() ==> fits(#[trigger] ir_program@.functions[i]),
                functions@.map_values(|f: Function| f@)
                    =~= ir_program@.functions.take(k as int).map_values(|f: tacky_ir::SFunction| lower_function(f)),
            decreases ir_program.functions@.len() - k,
        {
            assert(ir_program@.functions[k as int] == ir_program.functions@[k as int]@);
            let f = self.process_function(&ir_program.functions[k])?;
            let ghost before = functions@;
            functions.push(f);
            proof {
                assert(functions@.map_values(|f: Function| f@) =~= before.map_values(|f: Function| f@).push(f@));
                assert(ir_program@.functions.take(k + 1).map_values(|f: tacky_ir::SFunction| lower_function(f))
                    =~= ir_program@.functions.take(k as int).map_values(|f: tacky_ir::SFunction| lower_function(f))
                        .push(lower_function(ir_program@.functions[k as int])));
            }
            k += 1;
        }
        assert(ir_program@.functions.take(ir_program.functions@.len() as int) =~= ir_program@.functions);
        Ok(Program { functions })
    }

    /// Lowers one function: selection, stack allocation, fix-up, and the
    /// stack reservation when the function uses the stack.
    fn process_function(&mut self, ir_func: &tacky_ir::Function) -> (r: Result<Function, String>)
        requires
            fits(ir_func@),
        ensures
            r matches Ok(f) && f@ == lower_function(ir_func@),
    {
        let mut initial_instructions = self.generate_function_helper(ir_func)?;
        let ins = self.generate_initial_instructions(ir_func)?;
        emit_all(&mut initial_instructions, ins);
        let ghost init = asm_view(initial_instructions@);
        proof {
            assert(init == initial_code(ir_func@));
            assert(init.take(init.len() as int) =~= init);
            lemma_order_prefix(init, init.len() as int, init.len() as int);
        }
        let (instructions_with_stack, stack_size) = self.allocate_stack_slots(&initial_instructions);
        let patched = self.patch_instructions(&instructions_with_stack);
        let mut final_instructions: Vec<Instruction> = Vec::new();
        if stack_size > 0 {
            let aligned_stack_size = (stack_size + 15) & !15i64;
            emit(&mut final_instructions, Instruction::AllocateStack(aligned_stack_size));
        }
        emit_all(&mut final_instructions, patched);
        proof {
            assert(asm_view(final_instructions@) =~= lower_function(ir_func@).instructions);
        }
        Ok(Function { name: ir_func.name.clone(), instructions: final_instructions, stack_size })
    }

    /// Moves the parameters from where the caller put them into their
    /// pseudo-registers.
    fn generate_function_helper(&mut self, ir_func: &tacky_ir::Function) -> (r: Result<Vec<Instruction>, String>)
        requires
            ir_func.params@.len() < 0x0400_0000_0000_0000,
        ensures
            r matches Ok(v) && asm_view(v@) == param_moves(ir_func@.params),
    {
        let mut ins: Vec<Instruction> = Vec::new();
        let mut i: usize = 0;
        while i < ir_func.params.len()
            invariant
                i <= ir_func.params@.len(),
                ir_func.params@.len() < 0x0400_0000_0000_0000,
                asm_view(ins@) =~= param_moves(ir_func@.params).take(i as int),
            decreases ir_func.params@.len() - i,
        {
            let destination = Operand::Pseudo(ir_func.params[i].clone());
            let source = if i < 6 {
                Operand::Register(argument_register(i))
            } else {
                let offset: i64 = 16 + ((i - 6) as i64) * 8;
                Operand::Stack(offset)
            };
            emit(&mut ins, Instruction::Mov { src: source, dst: destination });
            proof {
                assert(param_moves(ir_func@.params).take(i + 1)
                    =~= param_moves(ir_func@.params).take(i as int).push(param_moves(ir_func@.params)[i as int]));
            }
            i += 1;
        }
        Ok(ins)
    }

    /// Selects the instructions of a function's body, in order.
    fn generate_initial_instructions(&self, ir_func: &tacky_ir::Function) -> (r: Result<Vec<Instruction>, String>)
        requires
            select_all(ir_func@.body).len() < 0x0400_0000_0000_0000,
        ensures
            r matches Ok(v) && asm_view(v@) == select_all(ir_func@.body),
    {
        let body = &ir_func.body;
        let ghost sbody = instrs_view(body@);
        let mut out: Vec<Instruction> = Vec::new();
        let mut k: usize = 0;
        assert(sbody.take(0) =~= Seq::<tacky_ir::SInstruction>::empty());
        assert(asm_view(out@) =~= Seq::<SInstruction>::empty());
        while k < body.len()
            invariant
                k <= body@.len(),
                body == &ir_func.body,
                sbody == instrs_view(body@),
                sbody == ir_func@.body,
                select_all(sbody).len() < 0x0400_0000_0000_0000,
                asm_view(out@) == select_all(sbody.take(k as int)),
            decreases body@.len() - k,
        {
            let ghost pre = sbody.take(k + 1);
            assert(pre.drop_last() =~= sbody.take(k as int));
            assert(pre.last() == body@[k as int]@);
            proof {
                lemma_select_all_prefix(sbody, k + 1);
            }
            let ins = self.generate_instruction(&body[k])?;
            emit_all(&mut out, ins);
            k += 1;
        }
        assert(sbody.take(body@.len() as int) =~= sbody);
        Ok(out)
    }

    /// `dst = (op1 cc op2)` as 0 or 1.
    fn generate_relational_op_instructions(
        &self,
        op1: &Operand,
        op2: &Operand,
        dst: &Operand,
        cc: ConditionCode,
    ) -> (r: Vec<Instruction>)
        ensures
            asm_view(r@) == relational(op1@, op2@, dst@, cc),
    {
        let mut v: Vec<Instruction> = Vec::new();
        emit(&mut v, Instruction::Cmp { operand1: op2.duplicate(), operand2: op1.duplicate() });
        emit(&mut v, Instruction::SetCC { conditin: cc, operand: Operand::Register(Reg::AX) });
        emit(&mut v, Instruction::Mov { src: Operand::Register(Reg::AX), dst: Operand::Register(Reg::AX) });
        emit(&mut v, Instruction::Mov { src: Operand::Register(Reg::AX), dst: dst.duplicate() });
        assert(asm_view(v@) =~= relational(op1@, op2@, dst@, cc));
        v
    }

    /// The code of a call.
    fn generate_call(&self, name: &String, args: &Vec<tacky_ir::Value>, dst: &tacky_ir::Value) -> (r: Result<Vec<Instruction>, String>)
        requires
            args@.len() < 0x0400_0000_0000_0000,
        ensures
            r matches Ok(v) && asm_view(v@) == call_code(name@, values_view(args@), dst@),
    {
        let ghost sargs = values_view(args@);
        let mut ins: Vec<Instruction> = Vec::new();
        let n = args.len();
        let split_idx: usize = if n < 6 { n } else { 6 };
        let num_stack_args: usize = n - split_idx;
        let stack_padding: i64 = if num_stack_args % 2 != 0 { 8 } else { 0 };
        assert(asm_view(ins@) =~= Seq::<SInstruction>::empty());
        if stack_padding != 0 {
            emit(&mut ins, Instruction::AllocateStack(stack_padding));
        }
        let ghost head = asm_view(ins@);
        let mut i: usize = 0;
        while i < split_idx
            invariant
                i <= split_idx,
                split_idx == reg_count(args@.len() as nat),
                n == args@.len(),
                sargs == values_view(args@),
                asm_view(ins@) == head + Seq::new(i as nat, |j: int| SInstruction::Mov {
                    src: opnd(sargs[j]),
                    dst: SOperand::Register(arg_reg(j)),
                }),
            decreases split_idx - i,
        {
            let assembly_arg = self.generate_expression(&args[i])?;
            emit(&mut ins, Instruction::Mov { src: assembly_arg, dst: Operand::Register(argument_register(i)) });
            proof {
                assert(Seq::new((i + 1) as nat, |j: int| SInstruction::Mov {
                    src: opnd(sargs[j]),
                    dst: SOperand::Register(arg_reg(j)),
                }) =~= Seq::new(i as nat, |j: int| SInstruction::Mov {
                    src: opnd(sargs[j]),
                    dst: SOperand::Register(arg_reg(j)),
                }).push(SInstruction::Mov { src: opnd(sargs[i as int]), dst: SOperand::Register(arg_reg(i as int)) }));
            }
            i += 1;
        }
        let ghost mid = asm_view(ins@);
        let ghost rest = sargs.skip(split_idx as int);
        let mut j: usize = n;
        assert(rest.take(rest.len() as int) =~= rest);
        while j > split_idx
            invariant
                split_idx <= j <= n,
                n == args@.len(),
                sargs == values_view(args@),
                rest == sargs.skip(split_idx as int),
                mid + push_args(rest) == asm_view(ins@) + push_args(rest.take(j - split_idx)),
            decreases j,
        {
            let ghost part = rest.take(j - split_idx);
            assert(part.drop_last() =~= rest.take(j - 1 - split_idx));
            assert(part.last() == sargs[j - 1]);
            let assembly_arg = self.generate_expression(&args[j - 1])?;
            match assembly_arg {
                Operand::Register(_) | Operand::Imm(_) => {
                    emit(&mut ins, Instruction::Push(assembly_arg));
                },
                _ => {
                    emit(&mut ins, Instruction::Mov { src: assembly_arg, dst: Operand::Register(Reg::AX) });
                    emit(&mut ins, Instruction::Push(Operand::Register(Reg::AX)));
                },
            }
            proof {
                assert(asm_view(ins@) + push_args(rest.take(j - 1 - split_idx))
                    =~= asm_view(ins@).take(asm_view(ins@).len() - push_arg(sargs[j - 1]).len())
                        + push_arg(sargs[j - 1]) + push_args(rest.take(j - 1 - split_idx)));
            }
            j -= 1;
        }
        emit(&mut ins, Instruction::Call(name.clone()));
        let bytes_to_remove: i64 = 8 * (num_stack_args as i64) + stack_padding;
        if bytes_to_remove > 0 {
            emit(&mut ins, Instruction::DeallocateStack(bytes_to_remove));
        }
        let assembly_dst = self.generate_expression(dst)?;
        emit(&mut ins, Instruction::Mov { src: Operand::Register(Reg::AX), dst: assembly_dst });
        Ok(ins)
    }

    /// The assembly of one TACKY instruction.
    fn generate_instruction(&self, ir_incs: &tacky_ir::Instruction) -> (r: Result<Vec<Instruction>, String>)
        requires
            select(ir_incs@).len() < 0x0400_0000_0000_0000,
        ensures
            r matches Ok(v) && asm_view(v@) == select(ir_incs@),
    {
        let mut v: Vec<Instruction> = Vec::new();
        match ir_incs {
            tacky_ir::Instruction::Return(val) => {
                let return_operand = self.generate_expression(val)?;
                emit(&mut v, Instruction::Mov { src: return_operand, dst: Operand::Register(Reg::AX) });
                emit(&mut v, Instruction::Ret);
            },
            tacky_ir::Instruction::Unary { op, src, dst } => {
                let src_operand = self.generate_expression(src)?;
                let dst_operand = self.generate_expression(dst)?;
                match op {
                    tacky_ir::UnaryOp::Not => {
                        v = self.generate_relational_op_instructions(&src_operand, &Operand::Imm(0), &dst_operand, ConditionCode::E);
                    },
                    _ => {
                        let op_type = match op {
                            tacky_ir::UnaryOp::Complement => UnaryOp::Complement,
                            _ => UnaryOp::Neg,
                        };
                        emit(&mut v, Instruction::Mov { src: src_operand, dst: dst_operand.duplicate() });
                        emit(&mut v, Instruction::Unary { op: op_type, operand: dst_operand });
                    },
                }
            },
            tacky_ir::Instruction::Binary { op, src1, src2, dst } => {
                let src1_operand = self.generate_expression(src1)?;
                let src2_operand = self.generate_expression(src2)?;
                let dst_operand = self.generate_expression(dst)?;
                match op {
                    tacky_ir::BinaryOp::Divide => {
                        emit(&mut v, Instruction::Mov { src: src1_operand, dst: Operand::Register(Reg::AX) });
                        emit(&mut v, Instruction::Cdq);
                        emit(&mut v, Instruction::Idiv(src2_operand));
                        emit(&mut v, Instruction::Mov { src: Operand::Register(Reg::AX), dst: dst_operand });
                    },
                    tacky_ir::BinaryOp::Remainder => {
                        emit(&mut v, Instruction::Mov { src: src1_operand, dst: Operand::Register(Reg::AX) });
                        emit(&mut v, Instruction::Cdq);
                        emit(&mut v, Instruction::Idiv(src2_operand));
                        emit(&mut v, Instruction::Mov { src: Operand::Register(Reg::DX), dst: dst_operand });
                    },
                    tacky_ir::BinaryOp::EqualEqual | tacky_ir::BinaryOp::BangEqual | tacky_ir::BinaryOp::Greater
                    | tacky_ir::BinaryOp::GreaterEqual | tacky_ir::BinaryOp::Less | tacky_ir::BinaryOp::LessEqual => {
                        let cc = match op {
                            tacky_ir::BinaryOp::EqualEqual => ConditionCode::E,
                            tacky_ir::BinaryOp::BangEqual => ConditionCode::NE,
                            tacky_ir::BinaryOp::Greater => ConditionCode::G,
                            tacky_ir::BinaryOp::GreaterEqual => ConditionCode::GE,
                            tacky_ir::BinaryOp::Less => ConditionCode::L,
                            _ => ConditionCode::LE,
                        };
                        v = self.generate_relational_op_instructions(&src1_operand, &src2_operand, &dst_operand, cc);
                    },
                    _ => {
                        let asm_op = match op {
                            tacky_ir::BinaryOp::Add => BinaryOp::Add,
                            tacky_ir::BinaryOp::Subtract => BinaryOp::Subtract,
                            _ => BinaryOp::Multiply,
                        };
                        emit(&mut v, Instruction::Mov { src: src1_operand, dst: dst_operand.duplicate() });
                        emit(&mut v, Instruction::Binary { op: asm_op, left_operand: src2_operand, right_operand: dst_operand });
                    },
                }
            },
            tacky_ir::Instruction::Jump(t) => {
                emit(&mut v, Instruction::Jmp(t.clone()));
            },
            tacky_ir::Instruction::JumpIfZero { condition, target } => {
                let condition_value = self.generate_expression(condition)?;
                emit(&mut v, Instruction::Cmp { operand1: Operand::Imm(0), operand2: condition_value });
                emit(&mut v, Instruction::JmpCC { condtion: ConditionCode::E, target: target.clone() });
            },
            tacky_ir::Instruction::JumpIfNotZero { condition, target } => {
                let condition_value = self.generate_expression(condition)?;
                emit(&mut v, Instruction::Cmp { operand1: Operand::Imm(0), operand2: condition_value });
                emit(&mut v, Instruction::JmpCC { condtion: ConditionCode::NE, target: target.clone() });
            },
            tacky_ir::Instruction::Copy { src, dst } => {
                let src_operand = self.generate_expression(src)?;
                let dst_operand = self.generate_expression(dst)?;
                emit(&mut v, Instruction::Mov { src: src_operand, dst: dst_operand });
            },
            tacky_ir::Instruction::Label(t) => {
                emit(&mut v, Instruction::Label(t.clone()));
            },
            tacky_ir::Instruction::FunctionCall { name, args, dst } => {
                proof {
                    lemma_call_code_len(name@, values_view(args@), dst@);
                }
                v = self.generate_call(name, args, dst)?;
            },
        }
        assert(asm_view(v@) =~= select(ir_incs@));
        Ok(v)
    }

    /// The operand of a TACKY value.
    fn generate_expression(&self, v: &tacky_ir::Value) -> (r: Result<Operand, String>)
        ensures
            r matches Ok(o) && o@ == opnd(v@),
    {
        match v {
            tacky_ir::Value::Constant(i) => Ok(Operand::Imm(*i)),
            tacky_ir::Value::Var(name) => Ok(Operand::Pseudo(name.clone())),
        }
    }
    /// Gives every pseudo-register a stack slot, in order of first use, and
    /// returns the instructions with the slots in place and the bytes the
    /// slots take.
    fn allocate_stack_slots(&self, instructions: &Vec<Instruction>) -> (r: (Vec<Instruction>, i64))
        requires
            instructions@.len() < 0x0400_0000_0000_0000,
        ensures
            asm_view(r.0@) == allocated(asm_view(instructions@)),
            r.1 == slots_size(asm_view(instructions@)),
    {
        let ghost s = asm_view(instructions@);
        let mut slots: Vec<String> = Vec::new();
        let mut out: Vec<Instruction> = Vec::new();
        let mut k: usize = 0;
        assert(s.take(0) =~= Seq::<SInstruction>::empty());
        assert(strs_view(slots@) =~= Seq::<Seq<char>>::empty());
        while k < instructions.len()
            invariant
                k <= instructions@.len(),
                instructions@.len() < 0x0400_0000_0000_0000,
                s == asm_view(instructions@),
                strs_view(slots@) == pseudo_order(s.take(k as int)),
                slots@.len() <= 2 * k,
                out@.len() == k,
                forall|j: int| 0 <= j < k ==> #[trigger] out@[j]@ == replace_instr(pseudo_order(s.take(j + 1)), s[j]),
            decreases instructions@.len() - k,
        {
            proof {
                lemma_order_prefix(s, k as int, k as int);
                assert(s.take(k + 1).drop_last() =~= s.take(k as int));
                assert(s.take(k + 1).last() == s[k as int]);
            }
            let x = instructions[k].map_operands(&mut slots);
            out.push(x);
            proof {
                lemma_order_prefix(s, k + 1, k + 1);
            }
            k += 1;
        }
        proof {
            assert(s.take(s.len() as int) =~= s);
            assert forall|j: int| 0 <= j < s.len() implies #[trigger] asm_view(out@)[j] == replace_instr(pseudo_order(s), s[j]) by {
                lemma_order_prefix(s, j + 1, s.len() as int);
                assert(s.take(j + 1).drop_last() =~= s.take(j));
                assert(s.take(j + 1).last() == s[j]);
                lemma_add_names(pseudo_order(s.take(j)), instr_pseudos(s[j]));
                lemma_replace_stable(pseudo_order(s.take(j + 1)), pseudo_order(s), s[j]);
            }
            assert(asm_view(out@) =~= allocated(s));
        }
        let size = (slots.len() as i64) * 4;
        (out, size)
    }

    /// Rewrites the instructions x86-64 cannot encode through `%r10` and
    /// `%r11`.
    fn patch_instructions(&self, instructions: &Vec<Instruction>) -> (r: Vec<Instruction>)
        ensures
            asm_view(r@) == fix_up_all(asm_view(instructions@)),
    {
        let ghost s = asm_view(instructions@);
        let mut new_ins: Vec<Instruction> = Vec::new();
        let mut k: usize = 0;
        assert(s.take(0) =~= Seq::<SInstruction>::empty());
        assert(asm_view(new_ins@) =~= Seq::<SInstruction>::empty());
        while k < instructions.len()
            invariant
                k <= instructions@.len(),
                s == asm_view(instructions@),
                asm_view(new_ins@) == fix_up_all(s.take(k as int)),
            decreases instructions@.len() - k,
        {
            assert(s.take(k + 1).drop_last() =~= s.take(k as int));
            assert(s.take(k + 1).last() == s[k as int]);
            let fixed = fix_instruction(&instructions[k]);
            emit_all(&mut new_ins, fixed);
            k += 1;
        }
        assert(s.take(s.len() as int) =~= s);
        new_ins
    }
}

/// The legal replacement of one instruction.
fn fix_instruction(item: &Instruction) -> (r: Vec<Instruction>)
    ensures
        asm_view(r@) == fix_up(item@),
{
    let mut v: Vec<Instruction> = Vec::new();
    match item {
        Instruction::Mov { src: Operand::Stack(s_off), dst: Operand::Stack(d_off) } => {
            emit(&mut v, Instruction::Mov { src: Operand::Stack(*s_off), dst: Operand::Register(Reg::R10) });
            emit(&mut v, Instruction::Mov { src: Operand::Register(Reg::R10), dst: Operand::Stack(*d_off) });
        },
        Instruction::Idiv(Operand::Imm(val)) => {
            emit(&mut v, Instruction::Mov { src: Operand::Imm(*val), dst: Operand::Register(Reg::R10) });
            emit(&mut v, Instruction::Idiv(Operand::Register(Reg::R10)));
        },
        Instruction::Binary { op, left_operand, right_operand } => {
            match (op, left_operand, right_operand) {
                (BinaryOp::Add, Operand::Stack(l_off), Operand::Stack(r_off))
                | (BinaryOp::Subtract, Operand::Stack(l_off), Operand::Stack(r_off)) => {
                    emit(&mut v, Instruction::Mov { src: Operand::Stack(*l_off), dst: Operand::Register(Reg::R10) });
                    emit(&mut v, Instruction::Binary {
                        op: *op,
                        left_operand: Operand::Register(Reg::R10),
                        right_operand: Operand::Stack(*r_off),
                    });
                },
                (BinaryOp::Multiply, _, Operand::Stack(r_off)) => {
                    emit(&mut v, Instruction::Mov { src: Operand::Stack(*r_off), dst: Operand::Register(Reg::R11) });
                    emit(&mut v, Instruction::Binary {
                        op: BinaryOp::Multiply,
                        left_operand: left_operand.duplicate(),
                        right_operand: Operand::Register(Reg::R11),
                    });
                    emit(&mut v, Instruction::Mov { src: Operand::Register(Reg::R11), dst: Operand::Stack(*r_off) });
                },
                _ => {
                    emit(&mut v, item.duplicate());
                },
            }
        },
        Instruction::Cmp { operand1: Operand::Stack(s_off), operand2: Operand::Stack(d_off) } => {
            emit(&mut v, Instruction::Mov { src: Operand::Stack(*s_off), dst: Operand::Register(Reg::R10) });
            emit(&mut v, Instruction::Cmp { operand1: Operand::Register(Reg::R10), operand2: Operand::Stack(*d_off) });
        },
        Instruction::Cmp { operand1, operand2: Operand::Imm(i) } => {
            emit(&mut v, Instruction::Mov { src: Operand::Imm(*i), dst: Operand::Register(Reg::R11) });
            emit(&mut v, Instruction::Cmp { operand1: operand1.duplicate(), operand2: Operand::Register(Reg::R11) });
        },
        _ => {
            emit(&mut v, item.duplicate());
        },
    }
    assert(asm_view(v@) =~= fix_up(item@));
    v
}

proof fn lemma_add_names_concat(x: Seq<Seq<char>>, a: Seq<Seq<char>>, b: Seq<Seq<char>>)
    ensures
        add_names(add_names(x, a), b) == add_names(x, a + b),
    decreases b.len(),
{
    if b.len() == 0 {
        assert(a + b =~= a);
    } else {
        lemma_add_names_concat(x, a, b.drop_last());
        assert((a + b).drop_last() =~= a + b.drop_last());
        assert((a + b).last() == b.last());
    }
}

/// The stack slot of pseudo-register `name`; a name seen for the first time
/// gets the next free slot.
fn slot_for(slots: &mut Vec<String>, name: &String) -> (r: i64)
    requires
        old(slots)@.len() < 0x1000_0000_0000_0000,
        strs_view(old(slots)@).no_duplicates(),
    ensures
        strs_view(final(slots)@) == add_names(strs_view(old(slots)@), seq![name@]),
        r == slot(position(strs_view(final(slots)@), name@)),
        final(slots)@.len() <= old(slots)@.len() + 1,
{
    let ghost names = strs_view(slots@);
    assert(seq![name@].drop_last() =~= Seq::<Seq<char>>::empty());
    assert(add_names(names, Seq::<Seq<char>>::empty()) == names);
    assert(add_names(names, seq![name@]) == if names.contains(name@) { names } else { names.push(name@) });
    let mut k: usize = 0;
    while k < slots.len()
        invariant
            k <= slots@.len(),
            slots@.len() < 0x1000_0000_0000_0000,
            names == strs_view(slots@),
            names == strs_view(old(slots)@),
            names.no_duplicates(),
            add_names(names, seq![name@]) == if names.contains(name@) { names } else { names.push(name@) },
            forall|j: int| 0 <= j < k ==> names[j] != name@,
        decreases slots@.len() - k,
    {
        if slots[k] == *name {
            proof {
                assert(names[k as int] == name@);
                assert(names.contains(name@));
                lemma_position(names, name@);
            }
            return -4 * (k as i64 + 1);
        }
        k += 1;
    }
    assert(!names.contains(name@));
    slots.push(name.clone());
    proof {
        assert(strs_view(slots@) =~= names.push(name@));
        assert(strs_view(slots@).drop_last() =~= names);
    }
    -4 * (slots.len() as i64)
}

/// An operand with its pseudo-register replaced by its stack slot.
fn map_operand(o: &Operand, slots: &mut Vec<String>) -> (r: Operand)
    requires
        old(slots)@.len() < 0x1000_0000_0000_0000,
        strs_view(old(slots)@).no_duplicates(),
    ensures
        strs_view(final(slots)@) == add_names(strs_view(old(slots)@), operand_pseudos(o@)),
        r@ == replace_operand(strs_view(final(slots)@), o@),
        final(slots)@.len() <= old(slots)@.len() + 1,
{
    match o {
        Operand::Pseudo(name) => {
            let offset = slot_for(slots, name);
            Operand::Stack(offset)
        },
        _ => {
            assert(operand_pseudos(o@) =~= Seq::<Seq<char>>::empty());
            o.duplicate()
        },
    }
}

/// Replaces two operands in order.
fn map_two(a: &Operand, b: &Operand, slots: &mut Vec<String>) -> (r: (Operand, Operand))
    requires
        old(slots)@.len() < 0x0f00_0000_0000_0000,
        strs_view(old(slots)@).no_duplicates(),
    ensures
        strs_view(final(slots)@) == add_names(strs_view(old(slots)@), operand_pseudos(a@) + operand_pseudos(b@)),
        r.0@ == replace_operand(strs_view(final(slots)@), a@),
        r.1@ == replace_operand(strs_view(final(slots)@), b@),
        final(slots)@.len() <= old(slots)@.len() + 2,
{
    let ghost o0 = strs_view(slots@);
    let x = map_operand(a, slots);
    let ghost o1 = strs_view(slots@);
    proof {
        lemma_add_names(o0, operand_pseudos(a@));
    }
    let y = map_operand(b, slots);
    proof {
        let o2 = strs_view(slots@);
        lemma_add_names(o1, operand_pseudos(b@));
        lemma_add_names_concat(o0, operand_pseudos(a@), operand_pseudos(b@));
        lemma_replace_operand_stable(o1, o2, a@);
    }
    (x, y)
}

impl Instruction {
    /// This instruction with every pseudo-register replaced by its stack
    /// slot; names seen for the first time get the next free slots.
    fn map_operands(&self, slots: &mut Vec<String>) -> (r: Instruction)
        requires
            old(slots)@.len() < 0x0f00_0000_0000_0000,
            strs_view(old(slots)@).no_duplicates(),
        ensures
            strs_view(final(slots)@) == add_names(strs_view(old(slots)@), instr_pseudos(self@)),
            r@ == replace_instr(strs_view(final(slots)@), self@),
            final(slots)@.len() <= old(slots)@.len() + 2,
    {
        match self {
            Instruction::Mov { src, dst } => {
                let (s, d) = map_two(src, dst, slots);
                Instruction::Mov { src: s, dst: d }
            },
            Instruction::Unary { op, operand } => Instruction::Unary { op: *op, operand: map_operand(operand, slots) },
            Instruction::Binary { op, left_operand, right_operand } => {
                let (l, r) = map_two(left_operand, right_operand, slots);
                Instruction::Binary { op: *op, left_operand: l, right_operand: r }
            },
            Instruction::Idiv(operand) => Instruction::Idiv(map_operand(operand, slots)),
            Instruction::SetCC { conditin, operand } => Instruction::SetCC {
                conditin: *conditin,
                operand: map_operand(operand, slots),
            },
            Instruction::Cmp { operand1, operand2 } => {
                let (a, b) = map_two(operand1, operand2, slots);
                Instruction::Cmp { operand1: a, operand2: b }
            },
            Instruction::Push(opd) => Instruction::Push(map_operand(opd, slots)),
            _ => {
                assert(instr_pseudos(self@) =~= Seq::<Seq<char>>::empty());
                self.duplicate()
            },
        }
    }
}

} // verus!
