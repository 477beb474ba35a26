//! The AT&T text of a one-function assembly program, in 32-bit operands.
//!
//! The text is built in memory; whoever calls [`CodeEmitter::emit`] writes
//! it to the output file.

use vstd::prelude::*;
use crate::codegen::assembly_ir::{
    code_view, Assemble, BinaryOperator, Instruction, Operand, Reg, SInstruction, SOperand,
    UnaryOperator,
};
use crate::backend::assembly_ast_gen::lemma_add_names;
use crate::codegen::codegen::{
    assigned, fix, fix_all, lemma_lower_all_names, lemma_place_total, lower_all, names_all,
    place_instr, pseudo_names, translated, unique_names,
};
use crate::error::{CodeEmitterError, CompilerError};
use crate::tacky::tacky;
use crate::text::{int_decimal, owned, push_i64_decimal, push_str};

verus! {

/// The 32-bit name of a register.
pub open spec fn reg_text(r: Reg) -> Seq<char> {
    match r {
        Reg::AX => "%eax"@,
        Reg::DX => "%edx"@,
        Reg::R10 => "%r10d"@,
        Reg::R11 => "%r11d"@,
    }
}

/// The message for a pseudo-register left in the final code.
pub open spec fn leftover_pseudo_message(id: Seq<char>) -> Seq<char> {
    "Internal error: Pseudoregister '"@ + id + "' found in final Assembly AST. Pseudo-to-Stack pass failed?"@
}

/// The text of an operand, or the message for a leftover pseudo-register.
pub open spec fn emitted_operand(o: SOperand) -> Result<Seq<char>, Seq<char>> {
    match o {
        SOperand::Imm(v) => Ok("$"@ + int_decimal(v as int)),
        SOperand::Reg(r) => Ok(reg_text(r)),
        SOperand::Stack(off) => Ok(int_decimal(off as int) + "(%rbp)"@),
        SOperand::Pseudo(id) => Err(leftover_pseudo_message(id)),
    }
}

/// The mnemonic of a one-operand instruction.
pub open spec fn unary_mnemonic(op: UnaryOperator) -> Seq<char> {
    match op {
        UnaryOperator::Neg => "negl"@,
        UnaryOperator::Not => "notl"@,
    }
}

/// The mnemonic of a two-operand instruction.
pub open spec fn binary_mnemonic(op: BinaryOperator) -> Seq<char> {
    match op {
        BinaryOperator::Add => "addl"@,
        BinaryOperator::Mult => "imull"@,
        BinaryOperator::Sub => "subl"@,
    }
}

/// The lines of one instruction (each ending in a newline), or the message
/// of the first operand that cannot be written. A return restores the
/// caller's frame; an empty reservation writes nothing.
pub open spec fn emitted_lines(i: SInstruction) -> Result<Seq<char>, Seq<char>> {
    match i {
        SInstruction::AllocateStack(n) => Ok(
            if n > 0 { "\tsubq\t$"@ + int_decimal(n as int) + ", %rsp\n"@ } else { Seq::empty() },
        ),
        SInstruction::Mov { src, dst } => match (emitted_operand(src), emitted_operand(dst)) {
            (Err(e), _) => Err(e),
            (Ok(_), Err(e)) => Err(e),
            (Ok(s), Ok(d)) => Ok("\tmovl\t"@ + s + ", "@ + d + "\n"@),
        },
        SInstruction::Unary { op, operand } => match emitted_operand(operand) {
            Err(e) => Err(e),
            Ok(o) => Ok("\t"@ + unary_mnemonic(op) + "\t"@ + o + "\n"@),
        },
        SInstruction::Ret => Ok("\tmovq\t%rbp, %rsp\n\tpopq\t%rbp\n\tret\n"@),
        SInstruction::Binary { op, left_operand, right_operand } => match (
            emitted_operand(left_operand),
            emitted_operand(right_operand),
        ) {
            (Err(e), _) => Err(e),
            (Ok(_), Err(e)) => Err(e),
            (Ok(l), Ok(r)) => Ok("\t"@ + binary_mnemonic(op) + "\t"@ + l + ", "@ + r + "\n"@),
        },
        SInstruction::Idiv(o) => match emitted_operand(o) {
            Err(e) => Err(e),
            Ok(t) => Ok("\tidivl\t"@ + t + "\n"@),
        },
        SInstruction::Cdq => Ok("\tcdq\n"@),
    }
}

/// The lines of a list of instructions, or the first message.
pub open spec fn emitted_body(s: Seq<SInstruction>) -> Result<Seq<char>, Seq<char>>
    decreases s.len(),
{
    if s.len() == 0 {
        Ok(Seq::empty())
    } else {
        match emitted_body(s.drop_last()) {
            Err(e) => Err(e),
            Ok(t) => match emitted_lines(s.last()) {
                Err(e) => Err(e),
                Ok(l) => Ok(t + l),
            },
        }
    }
}

/// The lines before a function's body: the file and section directives,
/// the symbol's declaration and label, and the frame set-up.
pub open spec fn prologue_text(file_name: Seq<char>, name: Seq<char>) -> Seq<char> {
    "\t.file\t\""@ + file_name + "\"\n\t.text\n\n\t.globl\t"@ + name + "\n\t.type\t"@ + name
        + ", @function\n"@ + name + ":\n\n\tpushq\t%rbp\n\tmovq\t%rsp, %rbp\n"@
}

/// The lines after a function's body: its size and the non-executable
/// stack note.
pub open spec fn epilogue_text(name: Seq<char>) -> Seq<char> {
    "\n\t.size\t"@ + name + ", .-"@ + name + "\n\t.section\t.note.GNU-stack,\"\",@progbits\n"@
}

/// The text of a whole file for function `name` with instructions `s`, or
/// the first message.
pub open spec fn emitted_file(file_name: Seq<char>, name: Seq<char>, s: Seq<SInstruction>) -> Result<Seq<char>, Seq<char>> {
    match emitted_body(s) {
        Err(e) => Err(e),
        Ok(b) => Ok(prologue_text(file_name, name) + b + epilogue_text(name)),
    }
}

/// Writes first-generation assembly programs as text.
pub struct CodeEmitter;

impl CodeEmitter {
    /// The text of the assembly file named `file_name` for the program; a
    /// pseudo-register left in the code is an emitter error.
    pub fn emit(assembly_ast: &Assemble, file_name: &str) -> (r: Result<String, CompilerError>)
        ensures
            match emitted_file(file_name@, assembly_ast.function.name@, code_view(assembly_ast.function.instructions@)) {
                Ok(t) => r matches Ok(x) && x@ == t,
                Err(m) => r matches Err(CompilerError::CodeEmitter(e)) && e.message@ == m,
            },
    {
        let function = &assembly_ast.function;
        let name = function.name.as_str();
        let mut out = owned("\t.file\t\"");
        push_str(&mut out, file_name);
        push_str(&mut out, "\"\n\t.text\n\n\t.globl\t");
        push_str(&mut out, name);
        push_str(&mut out, "\n\t.type\t");
        push_str(&mut out, name);
        push_str(&mut out, ", @function\n");
        push_str(&mut out, name);
        push_str(&mut out, ":\n\n\tpushq\t%rbp\n\tmovq\t%rsp, %rbp\n");
        let ghost head = out@;
        proof {
            assert(head =~= prologue_text(file_name@, name@));
        }
        let ghost s = code_view(function.instructions@);
        let mut k: usize = 0;
        assert(s.take(0) =~= Seq::<SInstruction>::empty());
        while k < function.instructions.len()
            invariant
                k <= function.instructions@.len(),
                s == code_view(function.instructions@),
                s == code_view(assembly_ast.function.instructions@),
                name@ == assembly_ast.function.name@,
                emitted_body(s.take(k as int)) is Ok,
                out@ == head + emitted_body(s.take(k as int))->Ok_0,
            decreases function.instructions@.len() - k,
        {
            let ghost pre = s.take(k + 1);
            assert(pre.drop_last() =~= s.take(k as int));
            assert(pre.last() == function.instructions@[k as int]@);
            let ghost before = out@;
            match Self::emit_instruction(&function.instructions[k], &mut out) {
                Ok(()) => {
                    assert(out@ =~= head + emitted_body(pre)->Ok_0);
                },
                Err(e) => {
                    proof {
                        assert(emitted_lines(pre.last()) is Err);
                        assert(emitted_body(pre) == Err::<Seq<char>, Seq<char>>(e.message@));
                        lemma_body_error_stays(s, k as int + 1);
                        assert(emitted_body(s) == Err::<Seq<char>, Seq<char>>(e.message@));
                        assert(emitted_file(file_name@, name@, s) == Err::<Seq<char>, Seq<char>>(e.message@));
                    }
                    return Err(CompilerError::CodeEmitter(e));
                },
            }
            k += 1;
        }
        assert(s.take(s.len() as int) =~= s);
        push_str(&mut out, "\n\t.size\t");
        push_str(&mut out, name);
        push_str(&mut out, ", .-");
        push_str(&mut out, name);
        push_str(&mut out, "\n\t.section\t.note.GNU-stack,\"\",@progbits\n");
        assert(out@ =~= prologue_text(file_name@, name@) + emitted_body(s)->Ok_0 + epilogue_text(name@));
        Ok(out)
    }

    /// Appends the lines of one instruction, or gives the message of its
    /// first operand that cannot be written.
    fn emit_instruction(instruction: &Instruction, out: &mut String) -> (r: Result<(), CodeEmitterError>)
        ensures
            match emitted_lines(instruction@) {
                Ok(t) => r is Ok && final(out)@ == old(out)@ + t,
                Err(m) => r matches Err(e) && e.message@ == m,
            },
    {
        match instruction {
            Instruction::AllocateStack(size) => {
                if *size > 0 {
                    push_str(out, "\tsubq\t$");
                    push_i64_decimal(out, *size);
                    push_str(out, ", %rsp\n");
                } else {
                    assert(old(out)@ + Seq::<char>::empty() =~= old(out)@);
                }
            },
            Instruction::Mov { src, dst } => {
                let src_str = Self::operand_to_string(src)?;
                let dst_str = Self::operand_to_string(dst)?;
                push_str(out, "\tmovl\t");
                push_str(out, src_str.as_str());
                push_str(out, ", ");
                push_str(out, dst_str.as_str());
                push_str(out, "\n");
            },
            Instruction::Unary { op, operand } => {
                let operand_str = Self::operand_to_string(operand)?;
                let op_str = match op {
                    UnaryOperator::Neg => "negl",
                    UnaryOperator::Not => "notl",
                };
                push_str(out, "\t");
                push_str(out, op_str);
                push_str(out, "\t");
                push_str(out, operand_str.as_str());
                push_str(out, "\n");
            },
            Instruction::Ret => {
                push_str(out, "\tmovq\t%rbp, %rsp\n\tpopq\t%rbp\n\tret\n");
            },
            Instruction::Binary { op, left_operand, right_operand } => {
                let left_operand_str = Self::operand_to_string(left_operand)?;
                let right_operand_str = Self::operand_to_string(right_operand)?;
                let op_str = match op {
                    BinaryOperator::Add => "addl",
                    BinaryOperator::Mult => "imull",
                    BinaryOperator::Sub => "subl",
                };
                push_str(out, "\t");
                push_str(out, op_str);
                push_str(out, "\t");
                push_str(out, left_operand_str.as_str());
                push_str(out, ", ");
                push_str(out, right_operand_str.as_str());
                push_str(out, "\n");
            },
            Instruction::Idiv(operand) => {
                let operand_str = Self::operand_to_string(operand)?;
                push_str(out, "\tidivl\t");
                push_str(out, operand_str.as_str());
                push_str(out, "\n");
            },
            Instruction::Cdq => {
                push_str(out, "\tcdq\n");
            },
        }
        Ok(())
    }

    /// The AT&T text of an operand; a pseudo-register is an error.
    fn operand_to_string(operand: &Operand) -> (r: Result<String, CodeEmitterError>)
        ensures
            match emitted_operand(operand@) {
                Ok(t) => r matches Ok(x) && x@ == t,
                Err(m) => r matches Err(e) && e.message@ == m,
            },
    {
        match operand {
            Operand::Imm(val) => {
                let mut s = owned("$");
                push_i64_decimal(&mut s, *val);
                Ok(s)
            },
            Operand::Reg(reg) => Ok(Self::reg_to_string(reg)),
            Operand::Stack(offset) => {
                let mut s = owned("");
                proof {
                    reveal_strlit("");
                }
                push_i64_decimal(&mut s, *offset);
                push_str(&mut s, "(%rbp)");
                assert(s@ =~= int_decimal(*offset as int) + "(%rbp)"@);
                Ok(s)
            },
            Operand::Pseudo(id) => {
                let mut message = owned("Internal error: Pseudoregister '");
                push_str(&mut message, id.as_str());
                push_str(&mut message, "' found in final Assembly AST. Pseudo-to-Stack pass failed?");
                Err(CodeEmitterError { message })
            },
        }
    }

    /// The 32-bit name of a register.
    fn reg_to_string(reg: &Reg) -> (r: String)
        ensures
            r@ == reg_text(*reg),
    {
        match reg {
            Reg::AX => owned("%eax"),
            Reg::DX => owned("%edx"),
            Reg::R10 => owned("%r10d"),
            Reg::R11 => owned("%r11d"),
        }
    }
}

/// Once a prefix of the instructions fails to be written, the whole list
/// fails with the same message.
proof fn lemma_body_error_stays(s: Seq<SInstruction>, k: int)
    requires
        0 <= k <= s.len(),
        emitted_body(s.take(k)) is Err,
    ensures
        emitted_body(s) == emitted_body(s.take(k)),
    decreases s.len() - k,
{
    if k == s.len() {
        assert(s.take(k) =~= s);
    } else {
        let pre = s.take(k + 1);
        assert(pre.drop_last() =~= s.take(k));
        lemma_body_error_stays(s, k + 1);
    }
}

/// No operand of the instruction is a pseudo-register.
pub open spec fn pseudo_free(i: SInstruction) -> bool {
    match i {
        SInstruction::Mov { src, dst } => !(src is Pseudo) && !(dst is Pseudo),
        SInstruction::Unary { operand, .. } => !(operand is Pseudo),
        SInstruction::Binary { left_operand, right_operand, .. } => !(left_operand is Pseudo) && !(right_operand is Pseudo),
        SInstruction::Idiv(o) => !(o is Pseudo),
        _ => true,
    }
}

proof fn lemma_pseudo_free_lines(i: SInstruction)
    requires
        pseudo_free(i),
    ensures
        emitted_lines(i) is Ok,
{
}

proof fn lemma_pseudo_free_body(s: Seq<SInstruction>)
    requires
        forall|k: int| 0 <= k < s.len() ==> pseudo_free(#[trigger] s[k]),
    ensures
        emitted_body(s) is Ok,
    decreases s.len(),
{
    if s.len() > 0 {
        lemma_pseudo_free_body(s.drop_last());
        lemma_pseudo_free_lines(s.last());
    }
}

proof fn lemma_fix_all_pseudo_free(s: Seq<SInstruction>)
    requires
        forall|k: int| 0 <= k < s.len() ==> pseudo_free(#[trigger] s[k]),
    ensures
        forall|k: int| 0 <= k < fix_all(s).len() ==> pseudo_free(#[trigger] fix_all(s)[k]),
    decreases s.len(),
{
    if s.len() > 0 {
        lemma_fix_all_pseudo_free(s.drop_last());
        let a = fix_all(s.drop_last());
        let b = fix(s.last());
        assert(pseudo_free(s.last()));
        assert forall|k: int| 0 <= k < fix_all(s).len() implies pseudo_free(#[trigger] fix_all(s)[k]) by {
            if k < a.len() {
                assert(fix_all(s)[k] == a[k]);
            } else {
                assert(fix_all(s)[k] == b[k - a.len()]);
            }
        }
    }
}

/// What the first-generation translator produces, the emitter writes: the
/// translation places every pseudo-register in a stack slot, so emitting its
/// instructions never meets one.
pub proof fn lemma_translation_is_emittable(base: int, body: Seq<tacky::SInstruction>)
    ensures
        emitted_body(translated(base, body)) is Ok,
        forall|k: int| 0 <= k < translated(base, body).len() ==> pseudo_free(#[trigger] translated(base, body)[k]),
{
    let u = unique_names(body);
    let m = assigned(base, u);
    let lowered = lower_all(body);
    lemma_lower_all_names(body);
    lemma_add_names(Seq::empty(), names_all(body));
    let placed = lowered.map_values(|i: SInstruction| place_instr(m, i)->Ok_0);
    assert forall|k: int| 0 <= k < placed.len() implies pseudo_free(#[trigger] placed[k]) by {
        assert forall|x: Seq<char>| #[trigger] pseudo_names(lowered[k]).contains(x) implies m.contains_key(x) by {
            assert(names_all(body).contains(x));
            let j = choose|j: int| 0 <= j < names_all(body).len() && names_all(body)[j] == x;
            assert(u.contains(names_all(body)[j]));
        }
        lemma_place_total(m, lowered[k]);
    }
    lemma_fix_all_pseudo_free(placed);
    let total = 4 * u.len() - base - 4;
    let head: Seq<SInstruction> = if total > 0 { seq![SInstruction::AllocateStack(total as i64)] } else { Seq::empty() };
    let t = translated(base, body);
    assert(t == head + fix_all(placed));
    assert forall|k: int| 0 <= k < t.len() implies pseudo_free(#[trigger] t[k]) by {
        if k < head.len() {
        } else {
            assert(t[k] == fix_all(placed)[k - head.len()]);
        }
    }
    lemma_pseudo_free_body(t);
}

} // verus!
