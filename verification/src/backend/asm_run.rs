//! What straight-line x86-64 code does to the registers, the
//! pseudo-registers and the flags, as the processor manual describes the
//! instructions; with it, the code that instruction selection picks for a
//! TACKY operator is shown to compute that operator.

use vstd::prelude::*;
use crate::backend::assembly_ast::{cc_holds, BinaryOp, Reg, SInstruction, SOperand, UnaryOp};
use crate::backend::assembly_ast_gen::{opnd, select};
use crate::backend::tacky_ir;
use crate::backend::tacky_ir::{binary_value, unary_value, SValue};
use crate::frontend::c_ast::{trunc_div, trunc_rem};

verus! {

/// The machine state: registers, pseudo-registers, and the two values the
/// last `cmp` compared (`lhs` against `rhs`).
pub struct Machine {
    pub regs: Map<Reg, int>,
    pub pseudos: Map<Seq<char>, int>,
    pub lhs: int,
    pub rhs: int,
}

/// The value of an operand (0 for a register or pseudo-register never
/// written).
pub open spec fn read(m: Machine, o: SOperand) -> int {
    match o {
        SOperand::Imm(i) => i as int,
        SOperand::Register(r) => if m.regs.contains_key(r) { m.regs[r] } else { 0 },
        SOperand::Pseudo(n) => if m.pseudos.contains_key(n) { m.pseudos[n] } else { 0 },
        SOperand::Stack(_) => 0,
    }
}

/// Writing `v` into a register or a pseudo-register; nothing else can be
/// written here.
pub open spec fn write(m: Machine, o: SOperand, v: int) -> Option<Machine> {
    match o {
        SOperand::Register(r) => Some(Machine { regs: m.regs.insert(r, v), ..m }),
        SOperand::Pseudo(n) => Some(Machine { pseudos: m.pseudos.insert(n, v), ..m }),
        _ => None,
    }
}

/// One instruction of straight-line code:
/// - `mov src, dst` copies;
/// - `neg` negates, `not` complements;
/// - `add`, `sub`, `imul` with source `left` and destination `right` set
///   `right` to `right + left`, `right - left`, `right * left`;
/// - `cmp x, y` compares `y` against `x`, and `set<cc>` writes 1 or 0 as the
///   condition holds for them;
/// - `cdq` fills `%edx` with the sign of `%eax`;
/// - `idiv d`, with `%edx:%eax` the sign extension of `%eax`, leaves the
///   quotient truncated toward zero in `%eax` and the remainder in `%edx`.
/// Other instructions (jumps, calls, the stack) are not straight-line.
pub open spec fn step(m: Machine, i: SInstruction) -> Option<Machine> {
    match i {
        SInstruction::Mov { src, dst } => write(m, dst, read(m, src)),
        SInstruction::Unary { op, operand } => write(m, operand, match op {
            UnaryOp::Neg => -read(m, operand),
            UnaryOp::Complement => -read(m, operand) - 1,
        }),
        SInstruction::Binary { op, left_operand, right_operand } => write(m, right_operand, match op {
            BinaryOp::Add => read(m, right_operand) + read(m, left_operand),
            BinaryOp::Subtract => read(m, right_operand) - read(m, left_operand),
            BinaryOp::Multiply => read(m, right_operand) * read(m, left_operand),
        }),
        SInstruction::Cmp { operand1, operand2 } => Some(Machine { lhs: read(m, operand2), rhs: read(m, operand1), ..m }),
        SInstruction::SetCC { conditin, operand } => write(m, operand, if cc_holds(conditin, m.lhs, m.rhs) { 1 } else { 0 }),
        SInstruction::Cdq => {
            let ax = read(m, SOperand::Register(Reg::AX));
            write(m, SOperand::Register(Reg::DX), if ax < 0 { -1 } else { 0 })
        },
        SInstruction::Idiv(o) => {
            let ax = read(m, SOperand::Register(Reg::AX));
            let dx = read(m, SOperand::Register(Reg::DX));
            let d = read(m, o);
            if d == 0 || dx != (if ax < 0 { -1int } else { 0 }) {
                None
            } else {
                Some(Machine { regs: m.regs.insert(Reg::AX, trunc_div(ax, d)).insert(Reg::DX, trunc_rem(ax, d)), ..m })
            }
        },
        _ => None,
    }
}

/// Running straight-line code from its first instruction to its last.
pub open spec fn run(m: Machine, code: Seq<SInstruction>) -> Option<Machine>
    decreases code.len(),
{
    if code.len() == 0 {
        Some(m)
    } else {
        match step(m, code[0]) {
            None => None,
            Some(m2) => run(m2, code.drop_first()),
        }
    }
}

/// The value of a TACKY operand in a machine.
pub open spec fn value_in(m: Machine, v: SValue) -> int {
    read(m, opnd(v))
}

proof fn lemma_run_two(m: Machine, a: SInstruction, b: SInstruction)
    ensures
        run(m, seq![a, b]) == match step(m, a) {
            None => None,
            Some(m2) => step(m2, b),
        },
{
    let s = seq![a, b];
    assert(s[0] == a);
    assert(s.drop_first() =~= seq![b]);
    assert(seq![b][0] == b);
    assert(seq![b].drop_first() =~= Seq::<SInstruction>::empty());
    if let Some(m2) = step(m, a) {
        assert(run(m2, seq![b]) == match step(m2, b) {
            None => None,
            Some(m3) => run(m3, Seq::<SInstruction>::empty()),
        });
    }
}

proof fn lemma_run_four(m: Machine, a: SInstruction, b: SInstruction, c: SInstruction, d: SInstruction)
    ensures
        run(m, seq![a, b, c, d]) == match step(m, a) {
            None => None,
            Some(m2) => run(m2, seq![b, c, d]),
        },
{
    assert(seq![a, b, c, d][0] == a);
    assert(seq![a, b, c, d].drop_first() =~= seq![b, c, d]);
}

proof fn lemma_run_three(m: Machine, b: SInstruction, c: SInstruction, d: SInstruction)
    ensures
        run(m, seq![b, c, d]) == match step(m, b) {
            None => None,
            Some(m2) => run(m2, seq![c, d]),
        },
{
    assert(seq![b, c, d][0] == b);
    assert(seq![b, c, d].drop_first() =~= seq![c, d]);
}

/// The code selected for a TACKY binary instruction `dst = src1 op src2`,
/// run from any state, stores in `dst` the value of `src1 op src2`: the
/// sum, difference or product, the quotient truncated toward zero for `/`,
/// the remainder for `%`, and 1 or 0 for a comparison. It holds when `src2`
/// is not `dst` itself, and, for `/` and `%`, when `src2` is not 0.
pub proof fn lemma_selected_binary_computes(
    op: tacky_ir::BinaryOp,
    src1: SValue,
    src2: SValue,
    dst: Seq<char>,
    m: Machine,
)
    requires
        src2 != SValue::Var(dst),
        op == tacky_ir::BinaryOp::Divide || op == tacky_ir::BinaryOp::Remainder ==> value_in(m, src2) != 0,
    ensures
        run(m, select(tacky_ir::SInstruction::Binary { op, src1, src2, dst: SValue::Var(dst) })) matches Some(m2)
            && m2.pseudos.contains_key(dst)
            && m2.pseudos[dst] == binary_value(op, value_in(m, src1), value_in(m, src2)),
{
    let code = select(tacky_ir::SInstruction::Binary { op, src1, src2, dst: SValue::Var(dst) });
    let a = value_in(m, src1);
    let b = value_in(m, src2);
    let o1 = opnd(src1);
    let o2 = opnd(src2);
    let d = SOperand::Pseudo(dst);
    let ax = SOperand::Register(Reg::AX);
    let dx = SOperand::Register(Reg::DX);
    if op == tacky_ir::BinaryOp::Divide || op == tacky_ir::BinaryOp::Remainder {
        let i0 = code[0];
        let i1 = code[1];
        let i2 = code[2];
        let i3 = code[3];
        assert(code == seq![i0, i1, i2, i3]);
        assert(i0 == SInstruction::Mov { src: o1, dst: ax });
        assert(i1 == SInstruction::Cdq);
        assert(i2 == SInstruction::Idiv(o2));
        lemma_run_four(m, i0, i1, i2, i3);
        let m1 = step(m, i0)->Some_0;
        assert(read(m1, ax) == a);
        assert(read(m1, o2) == b);
        lemma_run_three(m1, i1, i2, i3);
        let m2 = step(m1, i1)->Some_0;
        assert(read(m2, o2) == b);
        assert(read(m2, ax) == a);
        assert(read(m2, dx) == if a < 0 { -1int } else { 0 });
        lemma_run_two(m2, i2, i3);
        let m3 = step(m2, i2)->Some_0;
        assert(read(m3, ax) == trunc_div(a, b));
        assert(read(m3, dx) == trunc_rem(a, b));
        let m4 = step(m3, i3)->Some_0;
        if op == tacky_ir::BinaryOp::Divide {
            assert(i3 == SInstruction::Mov { src: ax, dst: d });
            assert(m4.pseudos[dst] == trunc_div(a, b));
        } else {
            assert(i3 == SInstruction::Mov { src: dx, dst: d });
            assert(m4.pseudos[dst] == trunc_rem(a, b));
        }
        assert(run(m, code) == Some(m4));
    } else if op == tacky_ir::BinaryOp::EqualEqual || op == tacky_ir::BinaryOp::BangEqual
        || op == tacky_ir::BinaryOp::Greater || op == tacky_ir::BinaryOp::GreaterEqual
        || op == tacky_ir::BinaryOp::Less || op == tacky_ir::BinaryOp::LessEqual {
        let i0 = code[0];
        let i1 = code[1];
        let i2 = code[2];
        let i3 = code[3];
        assert(code == seq![i0, i1, i2, i3]);
        assert(i0 == SInstruction::Cmp { operand1: o2, operand2: o1 });
        lemma_run_four(m, i0, i1, i2, i3);
        let m1 = step(m, i0)->Some_0;
        assert(m1.lhs == a && m1.rhs == b);
        lemma_run_three(m1, i1, i2, i3);
        let m2 = step(m1, i1)->Some_0;
        assert(read(m2, ax) == binary_value(op, a, b));
        lemma_run_two(m2, i2, i3);
        let m3 = step(m2, i2)->Some_0;
        assert(read(m3, ax) == binary_value(op, a, b));
        let m4 = step(m3, i3)->Some_0;
        assert(m4.pseudos[dst] == binary_value(op, a, b));
        assert(run(m, code) == Some(m4));
    } else {
        let i0 = code[0];
        let i1 = code[1];
        assert(code == seq![i0, i1]);
        assert(i0 == SInstruction::Mov { src: o1, dst: d });
        lemma_run_two(m, i0, i1);
        let m1 = step(m, i0)->Some_0;
        assert(read(m1, d) == a);
        assert(read(m1, o2) == b);
        let m2 = step(m1, i1)->Some_0;
        assert(m2.pseudos[dst] == binary_value(op, a, b));
        assert(run(m, code) == Some(m2));
    }
}

/// The code selected for a TACKY unary instruction `dst = op src`, run from
/// any state, stores in `dst` the value of `op src`: its complement, its
/// negation, or for `!` 1 exactly when it is 0.
pub proof fn lemma_selected_unary_computes(op: tacky_ir::UnaryOp, src: SValue, dst: Seq<char>, m: Machine)
    ensures
        run(m, select(tacky_ir::SInstruction::Unary { op, src, dst: SValue::Var(dst) })) matches Some(m2)
            && m2.pseudos.contains_key(dst)
            && m2.pseudos[dst] == unary_value(op, value_in(m, src)),
{
    let code = select(tacky_ir::SInstruction::Unary { op, src, dst: SValue::Var(dst) });
    let a = value_in(m, src);
    let d = SOperand::Pseudo(dst);
    let ax = SOperand::Register(Reg::AX);
    if op == tacky_ir::UnaryOp::Not {
        let i0 = code[0];
        let i1 = code[1];
        let i2 = code[2];
        let i3 = code[3];
        assert(code == seq![i0, i1, i2, i3]);
        lemma_run_four(m, i0, i1, i2, i3);
        let m1 = step(m, i0)->Some_0;
        assert(m1.lhs == a && m1.rhs == 0);
        lemma_run_three(m1, i1, i2, i3);
        let m2 = step(m1, i1)->Some_0;
        assert(read(m2, ax) == unary_value(op, a));
        lemma_run_two(m2, i2, i3);
        let m3 = step(m2, i2)->Some_0;
        let m4 = step(m3, i3)->Some_0;
        assert(m4.pseudos[dst] == unary_value(op, a));
        assert(run(m, code) == Some(m4));
    } else {
        let i0 = code[0];
        let i1 = code[1];
        assert(code == seq![i0, i1]);
        lemma_run_two(m, i0, i1);
        let m1 = step(m, i0)->Some_0;
        assert(read(m1, d) == a);
        let m2 = step(m1, i1)->Some_0;
        assert(m2.pseudos[dst] == unary_value(op, a));
        assert(run(m, code) == Some(m2));
    }
}


/// The code selected for a TACKY `dst = src` copies the value.
pub proof fn lemma_selected_copy_copies(src: SValue, dst: Seq<char>, m: Machine)
    ensures
        run(m, select(tacky_ir::SInstruction::Copy { src, dst: SValue::Var(dst) })) matches Some(m2)
            && m2.pseudos.contains_key(dst) && m2.pseudos[dst] == value_in(m, src),
{
    let code = select(tacky_ir::SInstruction::Copy { src, dst: SValue::Var(dst) });
    let i0 = SInstruction::Mov { src: opnd(src), dst: SOperand::Pseudo(dst) };
    assert(code == seq![i0]);
    assert(code[0] == i0);
    assert(code.drop_first() =~= Seq::<SInstruction>::empty());
    let m1 = step(m, i0)->Some_0;
    assert(run(m1, Seq::<SInstruction>::empty()) == Some(m1));
    assert(run(m, code) == Some(m1));
}

/// The code selected for a TACKY conditional jump compares the condition
/// with 0 and then jumps on a condition code that holds exactly when the
/// TACKY jump is taken: when the value is 0 for `JumpIfZero`, when it is not
/// for `JumpIfNotZero`; the target is kept.
pub proof fn lemma_selected_jump_tests_condition(i: tacky_ir::SInstruction, m: Machine)
    requires
        i is JumpIfZero || i is JumpIfNotZero,
    ensures
        ({
            let (condition, target, on_zero) = match i {
                tacky_ir::SInstruction::JumpIfZero { condition, target } => (condition, target, true),
                tacky_ir::SInstruction::JumpIfNotZero { condition, target } => (condition, target, false),
                _ => (SValue::Constant(0), Seq::empty(), true),
            };
            let code = select(i);
            &&& code.len() == 2
            &&& step(m, code[0]) matches Some(m1) && code[1] matches SInstruction::JmpCC { condtion, target: t }
                && t == target
                && cc_holds(condtion, m1.lhs, m1.rhs) == (if on_zero {
                    value_in(m, condition) == 0
                } else {
                    value_in(m, condition) != 0
                })
        }),
{
}

/// The code selected for a TACKY `return v` puts the value in `%eax` and
/// then returns.
pub proof fn lemma_selected_return_sets_ax(v: SValue, m: Machine)
    ensures
        ({
            let code = select(tacky_ir::SInstruction::Return(v));
            &&& code.len() == 2
            &&& code[1] == SInstruction::Ret
            &&& step(m, code[0]) matches Some(m1) && read(m1, SOperand::Register(Reg::AX)) == value_in(m, v)
        }),
{
}

} // verus!
