//! What TACKY code does when it runs: a step relation over instruction
//! sequences, with the values of variables in a store. Arithmetic and calls
//! write whatever `ops` says; copies, labels and jumps have their meaning
//! here. With it, the code of `&&` and `||` is shown to skip its right
//! operand once the left one decides the result, and to leave 0 or 1 in its
//! result temporary.

use vstd::prelude::*;
use crate::backend::tacky_gen::{
    code_within, instr_label, jump_on, lbl, lemma_t_exp_fresh, lemma_short_circuit_names_fresh,
    no_temp_named, short_circuit_code, t_exp, tmp,
};
use crate::backend::tacky_ir::{SInstruction, SValue};
use crate::frontend::c_ast::{self, SExpression};
use crate::name_gen::temp_name;

verus! {

/// The values of the variables.
pub type Store = Map<Seq<char>, i64>;

/// What an arithmetic instruction or a call writes, given the store.
pub type Ops = spec_fn(SInstruction, Store) -> i64;

/// The value of an operand in a store (0 for a variable never written).
pub open spec fn value_of(v: SValue, st: Store) -> i64 {
    match v {
        SValue::Constant(c) => c,
        SValue::Var(x) => if st.dom().contains(x) { st[x] } else { 0 },
    }
}

/// The first position at or after `i` that holds `Label(l)`.
pub open spec fn find_from(code: Seq<SInstruction>, l: Seq<char>, i: int) -> Option<int>
    decreases code.len() - i,
{
    if i < 0 || i >= code.len() {
        None
    } else if code[i] == SInstruction::Label(l) {
        Some(i)
    } else {
        find_from(code, l, i + 1)
    }
}

/// The position of label `l` in `code`.
pub open spec fn find_label(code: Seq<SInstruction>, l: Seq<char>) -> Option<int> {
    find_from(code, l, 0)
}

/// Writes `value` into the variable `dst`; a constant cannot be written.
pub open spec fn write(dst: SValue, value: i64, st: Store) -> Option<Store> {
    match dst {
        SValue::Var(x) => Some(st.insert(x, value)),
        SValue::Constant(_) => None,
    }
}

/// A jump to `l`, where `l` is a label of `code`.
pub open spec fn goto(code: Seq<SInstruction>, l: Seq<char>, st: Store) -> Option<(int, Store)> {
    match find_label(code, l) {
        Some(j) => Some((j, st)),
        None => None,
    }
}

/// One step at position `pc`: the next position and store, or `None` where
/// the code stops (a return, a missing label, a write to a constant).
pub open spec fn step(code: Seq<SInstruction>, pc: int, st: Store, ops: Ops) -> Option<(int, Store)> {
    if pc < 0 || pc >= code.len() {
        None
    } else {
        let i = code[pc];
        match i {
            SInstruction::Copy { src, dst } => match write(dst, value_of(src, st), st) {
                Some(s2) => Some((pc + 1, s2)),
                None => None,
            },
            SInstruction::Unary { dst, .. } => match write(dst, ops(i, st), st) {
                Some(s2) => Some((pc + 1, s2)),
                None => None,
            },
            SInstruction::Binary { dst, .. } => match write(dst, ops(i, st), st) {
                Some(s2) => Some((pc + 1, s2)),
                None => None,
            },
            SInstruction::FunctionCall { dst, .. } => match write(dst, ops(i, st), st) {
                Some(s2) => Some((pc + 1, s2)),
                None => None,
            },
            SInstruction::Label(_) => Some((pc + 1, st)),
            SInstruction::Jump(l) => goto(code, l, st),
            SInstruction::JumpIfZero { condition, target } => if value_of(condition, st) == 0 {
                goto(code, target, st)
            } else {
                Some((pc + 1, st))
            },
            SInstruction::JumpIfNotZero { condition, target } => if value_of(condition, st) != 0 {
                goto(code, target, st)
            } else {
                Some((pc + 1, st))
            },
            SInstruction::Return(_) => None,
        }
    }
}

/// Runs `code` from `pc` for at most `fuel` steps until the position is
/// `stop`: the store then, or `None` if it stops elsewhere or runs out.
pub open spec fn run_to(code: Seq<SInstruction>, pc: int, st: Store, fuel: nat, ops: Ops, stop: int) -> Option<Store>
    decreases fuel,
{
    if pc == stop {
        Some(st)
    } else if fuel == 0 {
        None
    } else {
        match step(code, pc, st, ops) {
            None => None,
            Some((pc2, st2)) => run_to(code, pc2, st2, (fuel - 1) as nat, ops, stop),
        }
    }
}

/// Runs `code` from its start to its end within `fuel` steps.
pub open spec fn runs(code: Seq<SInstruction>, st: Store, fuel: nat, ops: Ops) -> Option<Store> {
    run_to(code, 0, st, fuel, ops, code.len() as int)
}

/// Whether a short-circuit jump is taken on `v`: on zero for `&&`, on
/// non-zero for `||`.
pub open spec fn decides(on_zero: bool, v: i64) -> bool {
    if on_zero { v == 0 } else { v != 0 }
}

proof fn lemma_find_from(code: Seq<SInstruction>, l: Seq<char>, i: int)
    requires
        0 <= i,
    ensures
        match find_from(code, l, i) {
            Some(j) => i <= j < code.len() && code[j] == SInstruction::Label(l)
                && forall|m: int| i <= m < j ==> code[m] != SInstruction::Label(l),
            None => forall|m: int| i <= m < code.len() ==> code[m] != SInstruction::Label(l),
        },
    decreases code.len() - i,
{
    if i < code.len() && code[i] != SInstruction::Label(l) {
        lemma_find_from(code, l, i + 1);
    }
}

/// A label whose first place in `code` is `j`.
proof fn lemma_find_label_at(code: Seq<SInstruction>, l: Seq<char>, j: int)
    requires
        0 <= j < code.len(),
        code[j] == SInstruction::Label(l),
        forall|m: int| 0 <= m < j ==> code[m] != SInstruction::Label(l),
    ensures
        find_label(code, l) == Some(j),
{
    lemma_find_from(code, l, 0);
    match find_from(code, l, 0) {
        Some(k) => {
            if k < j {
                assert(code[k] != SInstruction::Label(l));
            }
            if j < k {
                assert(code[j] != SInstruction::Label(l));
            }
        },
        None => {
            assert(code[j] != SInstruction::Label(l));
        },
    }
}

proof fn lemma_run_more_fuel(code: Seq<SInstruction>, pc: int, st: Store, f: nat, g: nat, ops: Ops, stop: int)
    requires
        run_to(code, pc, st, f, ops, stop) is Some,
        f <= g,
    ensures
        run_to(code, pc, st, g, ops, stop) == run_to(code, pc, st, f, ops, stop),
    decreases f,
{
    if pc != stop {
        let (pc2, st2) = step(code, pc, st, ops)->Some_0;
        lemma_run_more_fuel(code, pc2, st2, (f - 1) as nat, (g - 1) as nat, ops, stop);
    }
}

/// Labels of `a` sit, in `whole`, where `a` sits, shifted by `off`.
pub open spec fn labels_carried(whole: Seq<SInstruction>, a: Seq<SInstruction>, off: int) -> bool {
    forall|l: Seq<char>| #[trigger] find_label(a, l) is Some ==> find_label(whole, l) == Some(off + find_label(a, l)->0)
}

/// `a` sits in `whole` at `off`.
pub open spec fn placed(whole: Seq<SInstruction>, a: Seq<SInstruction>, off: int) -> bool {
    &&& 0 <= off
    &&& off + a.len() <= whole.len()
    &&& forall|k: int| 0 <= k < a.len() ==> whole[off + k] == #[trigger] a[k]
}

/// Code that runs to its end, placed inside bigger code whose labels agree
/// with its own, runs there the same way, and then the bigger code goes on.
proof fn lemma_frame(
    whole: Seq<SInstruction>,
    a: Seq<SInstruction>,
    off: int,
    pc: int,
    st: Store,
    f: nat,
    ops: Ops,
    st_a: Store,
    g: nat,
    s: int,
    r: Store,
)
    requires
        placed(whole, a, off),
        labels_carried(whole, a, off),
        0 <= pc <= a.len(),
        run_to(a, pc, st, f, ops, a.len() as int) == Some(st_a),
        !(off <= s < off + a.len()),
        run_to(whole, off + a.len(), st_a, g, ops, s) == Some(r),
    ensures
        run_to(whole, off + pc, st, f + g, ops, s) == Some(r),
    decreases f,
{
    if pc == a.len() {
        lemma_run_more_fuel(whole, off + a.len(), st_a, g, f + g, ops, s);
    } else {
        let (pc2, st2) = step(a, pc, st, ops)->Some_0;
        assert(whole[off + pc] == a[pc]);
        match a[pc] {
            SInstruction::Jump(l) => {
                lemma_find_from(a, l, 0);
                assert(find_label(a, l) is Some);
            },
            SInstruction::JumpIfZero { condition, target } => {
                lemma_find_from(a, target, 0);
                if value_of(condition, st) == 0 {
                    assert(find_label(a, target) is Some);
                }
            },
            SInstruction::JumpIfNotZero { condition, target } => {
                lemma_find_from(a, target, 0);
                if value_of(condition, st) != 0 {
                    assert(find_label(a, target) is Some);
                }
            },
            _ => {},
        }
        assert(step(whole, off + pc, st, ops) == Some((off + pc2, st2)));
        assert(0 <= pc2 <= a.len());
        lemma_frame(whole, a, off, pc2, st2, (f - 1) as nat, ops, st_a, g, s, r);
        assert((f + g - 1) as nat == ((f - 1) as nat + g) as nat);
    }
}


/// The instructions after the right operand's code in short-circuit code.
pub open spec fn sc_tail(on_zero: bool, v2: SValue, n1: nat, n2: nat) -> Seq<SInstruction> {
    let sc: i64 = if on_zero { 0 } else { 1 };
    let ft: i64 = if on_zero { 1 } else { 0 };
    seq![
        jump_on(on_zero, v2, lbl(n1)),
        SInstruction::Copy { src: SValue::Constant(ft), dst: tmp(n2) },
        SInstruction::Jump(lbl(n1 + 1)),
        SInstruction::Label(lbl(n1)),
        SInstruction::Copy { src: SValue::Constant(sc), dst: tmp(n2) },
        SInstruction::Label(lbl(n1 + 1)),
    ]
}

/// Where things sit in short-circuit code, and where its labels lead.
proof fn lemma_sc_layout(
    on_zero: bool,
    n: nat,
    i1: Seq<SInstruction>,
    v1: SValue,
    n1: nat,
    i2: Seq<SInstruction>,
    v2: SValue,
    n2: nat,
)
    requires
        n <= n1,
        n1 + 2 <= n2,
        code_within(i1, n, n1),
        code_within(i2, n1 + 2, n2),
        lbl(n1) != lbl(n1 + 1),
    ensures
        ({
            let code = short_circuit_code(on_zero, i1, v1, n1, i2, v2, n2);
            let l1 = i1.len() as int;
            let t = l1 + 1 + i2.len();
            &&& code == i1.push(jump_on(on_zero, v1, lbl(n1))) + i2 + sc_tail(on_zero, v2, n1, n2)
            &&& code.len() == t + 6
            &&& code[l1] == jump_on(on_zero, v1, lbl(n1))
            &&& forall|m: int| 0 <= m < 6 ==> code[t + m] == #[trigger] sc_tail(on_zero, v2, n1, n2)[m]
            &&& placed(code, i1, 0)
            &&& placed(code, i2, l1 + 1)
            &&& labels_carried(code, i1, 0)
            &&& labels_carried(code, i2, l1 + 1)
            &&& find_label(code, lbl(n1)) == Some(t + 3)
            &&& find_label(code, lbl(n1 + 1)) == Some(t + 5)
        }),
{
    let code = short_circuit_code(on_zero, i1, v1, n1, i2, v2, n2);
    let tail = sc_tail(on_zero, v2, n1, n2);
    let a = i1.push(jump_on(on_zero, v1, lbl(n1)));
    let l1 = i1.len() as int;
    let t = l1 + 1 + i2.len();
    assert(code =~= a + i2 + tail);
    assert forall|k: int| 0 <= k < i1.len() implies code[0 + k] == #[trigger] i1[k] by {
        assert(code[k] == (a + i2)[k]);
        assert((a + i2)[k] == a[k]);
    }
    assert forall|k: int| 0 <= k < i2.len() implies code[l1 + 1 + k] == #[trigger] i2[k] by {
        assert(code[l1 + 1 + k] == (a + i2)[l1 + 1 + k]);
    }
    assert forall|m: int| 0 <= m < 6 implies code[t + m] == #[trigger] sc_tail(on_zero, v2, n1, n2)[m] by {}
    assert(code[l1] == (a + i2)[l1]);
    // No label of the left operand's code is defined again later, and the
    // names made for this operator are fresh.
    assert forall|l: Seq<char>| #[trigger] find_label(i1, l) is Some implies
        find_label(code, l) == Some(0 + find_label(i1, l)->0) by {
        lemma_find_from(i1, l, 0);
        let j = find_label(i1, l)->0;
        assert(code[j] == i1[j]);
        assert forall|m: int| 0 <= m < j implies code[m] != SInstruction::Label(l) by {
            assert(code[m] == i1[m]);
        }
        lemma_find_label_at(code, l, j);
    }
    assert forall|l: Seq<char>| #[trigger] find_label(i2, l) is Some implies
        find_label(code, l) == Some(l1 + 1 + find_label(i2, l)->0) by {
        lemma_find_from(i2, l, 0);
        let j = find_label(i2, l)->0;
        assert(instr_label(i2[j]) == Some(l));
        let k = choose|k: nat| n1 + 2 <= k < n2 && instr_label(i2[j]) == Some(#[trigger] lbl(k));
        assert(code[l1 + 1 + j] == i2[j]);
        assert forall|m: int| 0 <= m < l1 + 1 + j implies code[m] != SInstruction::Label(l) by {
            if m < l1 {
                assert(code[m] == i1[m]);
                if i1[m] == SInstruction::Label(l) {
                    assert(instr_label(i1[m]) == Some(lbl(k)));
                }
            } else if m > l1 {
                assert(code[m] == i2[m - l1 - 1]);
            }
        }
        lemma_find_label_at(code, l, l1 + 1 + j);
    }
    assert forall|m: int| 0 <= m < t + 3 implies code[m] != SInstruction::Label(lbl(n1)) by {
        if m < l1 {
            assert(code[m] == i1[m]);
            if i1[m] == SInstruction::Label(lbl(n1)) {
                assert(instr_label(i1[m]) == Some(lbl(n1)));
            }
        } else if l1 < m < t {
            assert(code[m] == i2[m - l1 - 1]);
            if i2[m - l1 - 1] == SInstruction::Label(lbl(n1)) {
                assert(instr_label(i2[m - l1 - 1]) == Some(lbl(n1)));
            }
        } else if m >= t {
            assert(code[m] == tail[m - t]);
        }
    }
    lemma_find_label_at(code, lbl(n1), t + 3);
    assert forall|m: int| 0 <= m < t + 5 implies code[m] != SInstruction::Label(lbl(n1 + 1)) by {
        if m < l1 {
            assert(code[m] == i1[m]);
            if i1[m] == SInstruction::Label(lbl(n1 + 1)) {
                assert(instr_label(i1[m]) == Some(lbl(n1 + 1)));
            }
        } else if l1 < m < t {
            assert(code[m] == i2[m - l1 - 1]);
            if i2[m - l1 - 1] == SInstruction::Label(lbl(n1 + 1)) {
                assert(instr_label(i2[m - l1 - 1]) == Some(lbl(n1 + 1)));
            }
        } else if m >= t {
            assert(code[m] == tail[m - t]);
        }
    }
    lemma_find_label_at(code, lbl(n1 + 1), t + 5);
}


/// The code of `left && right` (`op` is `And`) or `left || right` (`Or`)
/// runs as C says: the left operand's code runs first; if its value decides
/// the result (0 for `&&`, non-zero for `||`) the right operand's code does
/// not run and the result temporary gets 0 (`&&`) or 1 (`||`); otherwise
/// the right operand's code runs next and the result temporary gets 1 exactly
/// when the right value is non-zero. Nothing else changes. This holds for any
/// meaning of arithmetic and calls, as long as no variable is named like a
/// temporary.
pub proof fn lemma_short_circuit_runs(
    n: nat,
    op: c_ast::BinaryOp,
    left: SExpression,
    right: SExpression,
    i1: Seq<SInstruction>,
    v1: SValue,
    n1: nat,
    i2: Seq<SInstruction>,
    v2: SValue,
    n2: nat,
    st: Store,
    ops: Ops,
    f1: nat,
    st1: Store,
    f2: nat,
    st2: Store,
)
    requires
        op == c_ast::BinaryOp::And || op == c_ast::BinaryOp::Or,
        no_temp_named(left),
        no_temp_named(right),
        (i1, v1, n1) == t_exp(n, left),
        (i2, v2, n2) == t_exp(n1 + 2, right),
        runs(i1, st, f1, ops) == Some(st1),
        !decides(op == c_ast::BinaryOp::And, value_of(v1, st1)) ==> runs(i2, st1, f2, ops) == Some(st2),
    ensures
        decides(op == c_ast::BinaryOp::And, value_of(v1, st1)) ==> runs(
            t_exp(n, SExpression::Binary { op, left: Box::new(left), right: Box::new(right) }).0,
            st,
            f1 + 4,
            ops,
        ) == Some(st1.insert(temp_name(n2), if op == c_ast::BinaryOp::And { 0i64 } else { 1i64 })),
        !decides(op == c_ast::BinaryOp::And, value_of(v1, st1)) ==> runs(
            t_exp(n, SExpression::Binary { op, left: Box::new(left), right: Box::new(right) }).0,
            st,
            f1 + f2 + 5,
            ops,
        ) == Some(st2.insert(temp_name(n2), if value_of(v2, st2) != 0 { 1i64 } else { 0i64 })),
{
    let on_zero = op == c_ast::BinaryOp::And;
    lemma_short_circuit_names_fresh(n, op, left, right, i1, v1, n1, i2, v2, n2);
    lemma_t_exp_fresh(n, left);
    lemma_t_exp_fresh(n1 + 2, right);
    lemma_sc_layout(on_zero, n, i1, v1, n1, i2, v2, n2);
    let code = short_circuit_code(on_zero, i1, v1, n1, i2, v2, n2);
    let tail = sc_tail(on_zero, v2, n1, n2);
    let l1 = i1.len() as int;
    let t = l1 + 1 + i2.len();
    let end = code.len() as int;
    let sc: i64 = if on_zero { 0 } else { 1 };
    let ft: i64 = if on_zero { 1 } else { 0 };
    // From the short-circuit label to the end: the result gets `sc`.
    assert forall|s: Store| run_to(code, t + 3, s, 3, ops, end) == Some(s.insert(temp_name(n2), sc)) by {
        assert(code[t + 3] == tail[3]);
        assert(code[t + 4] == tail[4]);
        assert(code[t + 5] == tail[5]);
        assert(step(code, t + 3, s, ops) == Some((t + 4, s)));
        assert(step(code, t + 4, s, ops) == Some((t + 5, s.insert(temp_name(n2), sc))));
        assert(step(code, t + 5, s.insert(temp_name(n2), sc), ops) == Some((t + 6, s.insert(temp_name(n2), sc))));
        assert(run_to(code, t + 6, s.insert(temp_name(n2), sc), 0, ops, end) == Some(s.insert(temp_name(n2), sc)));
        assert(run_to(code, t + 5, s.insert(temp_name(n2), sc), 1, ops, end) == Some(s.insert(temp_name(n2), sc)));
        assert(run_to(code, t + 4, s, 2, ops, end) == Some(s.insert(temp_name(n2), sc)));
    }
    if decides(on_zero, value_of(v1, st1)) {
        assert(step(code, l1, st1, ops) == Some((t + 3, st1)));
        assert(run_to(code, l1, st1, 4, ops, end) == Some(st1.insert(temp_name(n2), sc)));
        lemma_frame(code, i1, 0, 0, st, f1, ops, st1, 4, end, st1.insert(temp_name(n2), sc));
    } else {
        let r2 = st2.insert(temp_name(n2), if value_of(v2, st2) != 0 { 1i64 } else { 0i64 });
        assert(code[t] == tail[0]);
        if decides(on_zero, value_of(v2, st2)) {
            assert(step(code, t, st2, ops) == Some((t + 3, st2)));
            assert(r2 == st2.insert(temp_name(n2), sc));
            assert(run_to(code, t + 3, st2, 3, ops, end) == Some(st2.insert(temp_name(n2), sc)));
            assert(run_to(code, t, st2, 4, ops, end) == Some(r2));
        } else {
            assert(code[t + 1] == tail[1]);
            assert(code[t + 2] == tail[2]);
            assert(code[t + 5] == tail[5]);
            let s3 = st2.insert(temp_name(n2), ft);
            assert(step(code, t, st2, ops) == Some((t + 1, st2)));
            assert(step(code, t + 1, st2, ops) == Some((t + 2, s3)));
            assert(step(code, t + 2, s3, ops) == Some((t + 5, s3)));
            assert(step(code, t + 5, s3, ops) == Some((t + 6, s3)));
            assert(run_to(code, t + 6, s3, 0, ops, end) == Some(s3));
            assert(run_to(code, t + 5, s3, 1, ops, end) == Some(s3));
            assert(run_to(code, t + 2, s3, 2, ops, end) == Some(s3));
            assert(run_to(code, t + 1, st2, 3, ops, end) == Some(s3));
            assert(r2 == s3);
            assert(run_to(code, t, st2, 4, ops, end) == Some(r2));
        }
        lemma_frame(code, i2, l1 + 1, 0, st1, f2, ops, st2, 4, end, r2);
        assert(step(code, l1, st1, ops) == Some((l1 + 1, st1)));
        assert(run_to(code, l1, st1, f2 + 5, ops, end) == Some(r2));
        lemma_frame(code, i1, 0, 0, st, f1, ops, st1, f2 + 5, end, r2);
    }
}

} // verus!
