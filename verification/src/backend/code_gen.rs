//! Emission of AT&T-syntax assembly text.
//!
//! Every function is made global and gets the usual `%rbp` frame; local
//! labels get the `.L` prefix; a call goes through the PLT unless the symbol
//! table records the callee as defined in this file. The text ends with the
//! note that marks the stack non-executable.

use vstd::prelude::*;
use crate::backend::assembly_ast::{
    asm_view, cc_holds, BinaryOp, ConditionCode, Function, Instruction, Operand, Program, Reg, SFunction,
    SInstruction, SOperand, SProgram, UnaryOp,
};
use crate::backend::assembly_ast_gen::{operand_pseudos, pseudo_free};
use crate::frontend::type_checking::{lookup, IdentifierAttrs, SymbolInfo, SymbolTable};
use crate::text::{int_decimal, owned, push_i64_decimal, push_str};

verus! {

/// The prefix of local labels.
pub const LOCAL_LABEL_PREFIX: &'static str = ".L";

/// Operand sizes, as instruction suffixes.
#[derive(Debug, Clone, Copy, PartialEq, Eq, Structural)]
pub enum InstructionSuffix {
    /// 8 bits, such as `%al`.
    Byte,
    /// 32 bits, such as `%eax`.
    Long,
    /// 64 bits, such as `%rax`.
    Q,
}

/// The name of a register at a size.
pub open spec fn reg_name(reg: Reg, size: InstructionSuffix) -> Seq<char> {
    match size {
        InstructionSuffix::Q => match reg {
            Reg::AX => "%rax"@,
            Reg::CX => "%rcx"@,
            Reg::DX => "%rdx"@,
            Reg::DI => "%rdi"@,
            Reg::SI => "%rsi"@,
            Reg::R8 => "%r8"@,
            Reg::R9 => "%r9"@,
            Reg::R10 => "%r10"@,
            Reg::R11 => "%r11"@,
        },
        InstructionSuffix::Long => match reg {
            Reg::AX => "%eax"@,
            Reg::CX => "%ecx"@,
            Reg::DX => "%edx"@,
            Reg::DI => "%edi"@,
            Reg::SI => "%esi"@,
            Reg::R8 => "%r8d"@,
            Reg::R9 => "%r9d"@,
            Reg::R10 => "%r10d"@,
            Reg::R11 => "%r11d"@,
        },
        InstructionSuffix::Byte => match reg {
            Reg::AX => "%al"@,
            Reg::CX => "%cl"@,
            Reg::DX => "%dl"@,
            Reg::DI => "%dil"@,
            Reg::SI => "%sil"@,
            Reg::R8 => "%r8b"@,
            Reg::R9 => "%r9b"@,
            Reg::R10 => "%r10b"@,
            Reg::R11 => "%r11b"@,
        },
    }
}

/// The text of an operand (pseudo-registers have none).
pub open spec fn operand_text(o: SOperand, size: InstructionSuffix) -> Seq<char> {
    match o {
        SOperand::Imm(v) => "$"@ + int_decimal(v as int),
        SOperand::Register(r) => reg_name(r, size),
        SOperand::Stack(off) => int_decimal(off as int) + "(%rbp)"@,
        SOperand::Pseudo(_) => Seq::empty(),
    }
}

/// The suffix of a condition code.
pub open spec fn cond_text(c: ConditionCode) -> Seq<char> {
    match c {
        ConditionCode::E => "e"@,
        ConditionCode::NE => "ne"@,
        ConditionCode::G => "g"@,
        ConditionCode::GE => "ge"@,
        ConditionCode::L => "l"@,
        ConditionCode::LE => "le"@,
    }
}

/// An indented line.
pub open spec fn indented(line: Seq<char>) -> Seq<char> {
    "    "@ + line + "\n"@
}

/// Whether the symbol table records `name` as a function defined here.
pub open spec fn defined_here(tables: Map<Seq<char>, SymbolInfo>, name: Seq<char>) -> bool {
    match lookup(tables, name) {
        Some(info) => info.identifier_attrs matches IdentifierAttrs::FunAttr { defined, .. } && defined,
        None => false,
    }
}

/// The text of one instruction.
pub open spec fn instr_text(i: SInstruction, tables: Map<Seq<char>, SymbolInfo>) -> Seq<char> {
    match i {
        SInstruction::Mov { src, dst } => if src == SOperand::Register(Reg::AX) && dst == SOperand::Register(Reg::AX) {
            indented("movzbl %al, %eax"@)
        } else {
            indented("movl "@ + operand_text(src, InstructionSuffix::Long) + ", "@ + operand_text(dst, InstructionSuffix::Long))
        },
        SInstruction::Unary { op, operand } => indented(
            (if op == UnaryOp::Neg { "negl "@ } else { "notl "@ }) + operand_text(operand, InstructionSuffix::Long),
        ),
        SInstruction::AllocateStack(size) => indented("subq $"@ + int_decimal(size as int) + ", %rsp"@),
        SInstruction::Ret => indented("movq %rbp, %rsp"@) + indented("popq %rbp"@) + indented("ret"@),
        SInstruction::Binary { op, left_operand, right_operand } => indented(
            (if op == BinaryOp::Add { "addl "@ } else if op == BinaryOp::Subtract { "subl "@ } else { "imull "@ })
                + operand_text(left_operand, InstructionSuffix::Long) + ", "@
                + operand_text(right_operand, InstructionSuffix::Long),
        ),
        SInstruction::Idiv(o) => indented("idivl "@ + operand_text(o, InstructionSuffix::Long)),
        SInstruction::Cdq => indented("cdq"@),
        SInstruction::Cmp { operand1, operand2 } => indented(
            "cmpl "@ + operand_text(operand1, InstructionSuffix::Long) + ", "@ + operand_text(operand2, InstructionSuffix::Long),
        ),
        SInstruction::Jmp(name) => indented("jmp "@ + ".L"@ + name),
        SInstruction::JmpCC { condtion, target } => indented("j"@ + cond_text(condtion) + " "@ + ".L"@ + target),
        SInstruction::SetCC { conditin, operand } => indented(
            "set"@ + cond_text(conditin) + " "@ + operand_text(operand, InstructionSuffix::Byte),
        ),
        SInstruction::Label(t) => ".L"@ + t + ":\n"@,
        SInstruction::DeallocateStack(n) => indented("addq $"@ + int_decimal(n as int) + " ,%rsp"@),
        SInstruction::Push(o) => indented("pushq "@ + operand_text(o, InstructionSuffix::Q) + " "@),
        SInstruction::Call(name) => if defined_here(tables, name) {
            indented("call "@ + name + " "@)
        } else {
            indented("call "@ + name + "@PLT"@)
        },
    }
}

/// The text of a list of instructions.
pub open spec fn instrs_text(s: Seq<SInstruction>, tables: Map<Seq<char>, SymbolInfo>) -> Seq<char>
    decreases s.len(),
{
    if s.len() == 0 {
        Seq::empty()
    } else {
        instrs_text(s.drop_last(), tables) + instr_text(s.last(), tables)
    }
}

/// The text of a function: its global symbol, its label, the frame set-up
/// and its instructions.
pub open spec fn function_text(f: SFunction, tables: Map<Seq<char>, SymbolInfo>) -> Seq<char> {
    "    .globl "@ + f.name + "\n"@ + f.name + ":\n"@ + indented("pushq %rbp"@) + indented("movq %rsp, %rbp"@)
        + instrs_text(f.instructions, tables)
}

/// The text of the functions, each followed by an empty line.
pub open spec fn functions_text(fs: Seq<SFunction>, tables: Map<Seq<char>, SymbolInfo>) -> Seq<char>
    decreases fs.len(),
{
    if fs.len() == 0 {
        Seq::empty()
    } else {
        functions_text(fs.drop_last(), tables) + function_text(fs.last(), tables) + "\n"@
    }
}

/// The text of a program.
pub open spec fn program_text(p: SProgram, tables: Map<Seq<char>, SymbolInfo>) -> Seq<char> {
    functions_text(p.functions, tables) + "    .section .note.GNU-stack,\"\",@progbits\n"@
}

/// A program the emitter can write: no pseudo-register is left.
pub open spec fn emittable(p: SProgram) -> bool {
    forall|i: int, k: int| 0 <= i < p.functions.len() && 0 <= k < p.functions[i].instructions.len()
        ==> pseudo_free(#[trigger] p.functions[i].instructions[k])
}

fn no_pseudo(o: &Operand) -> (r: bool)
    ensures
        r == (operand_pseudos(o@).len() == 0),
{
    match o {
        Operand::Pseudo(_) => false,
        _ => true,
    }
}

fn instruction_pseudo_free(i: &Instruction) -> (r: bool)
    ensures
        r == pseudo_free(i@),
{
    match i {
        Instruction::Mov { src, dst } => no_pseudo(src) && no_pseudo(dst),
        Instruction::Unary { operand, .. } => no_pseudo(operand),
        Instruction::Binary { left_operand, right_operand, .. } => no_pseudo(left_operand) && no_pseudo(right_operand),
        Instruction::Cmp { operand1, operand2 } => no_pseudo(operand1) && no_pseudo(operand2),
        Instruction::Idiv(o) => no_pseudo(o),
        Instruction::SetCC { operand, .. } => no_pseudo(operand),
        Instruction::Push(o) => no_pseudo(o),
        _ => true,
    }
}

/// Whether `emit_program` can write the program: no pseudo-register is left.
pub fn is_emittable(p: &Program) -> (r: bool)
    ensures
        r == emittable(p@),
{
    let mut i: usize = 0;
    while i < p.functions.len()
        invariant
            i <= p.functions@.len(),
            forall|a: int, k: int| 0 <= a < i && 0 <= k < p@.functions[a].instructions.len()
                ==> pseudo_free(#[trigger] p@.functions[a].instructions[k]),
        decreases p.functions@.len() - i,
    {
        let f = &p.functions[i];
        assert(p@.functions[i as int] == f@);
        let mut k: usize = 0;
        while k < f.instructions.len()
            invariant
                i < p.functions@.len(),
                f == p.functions@[i as int],
                p@.functions[i as int] == f@,
                k <= f.instructions@.len(),
                f@.instructions.len() == f.instructions@.len(),
                forall|a: int, j: int| 0 <= a < i && 0 <= j < p@.functions[a].instructions.len()
                    ==> pseudo_free(#[trigger] p@.functions[a].instructions[j]),
                forall|j: int| 0 <= j < k ==> pseudo_free(#[trigger] f@.instructions[j]),
            decreases f.instructions@.len() - k,
        {
            assert(f@.instructions[k as int] == f.instructions@[k as int]@);
            if !instruction_pseudo_free(&f.instructions[k]) {
                return false;
            }
            k += 1;
        }
        i += 1;
    }
    true
}

/// Writes assembly text, consulting the symbol table for calls.
pub struct CodeGenerator<'a> {
    tables: &'a SymbolTable,
}

impl<'a> CodeGenerator<'a> {
    /// The symbol table the generator consults.
    pub closed spec fn tables(&self) -> Map<Seq<char>, SymbolInfo> {
        self.tables@
    }

    /// A generator consulting `tables`.
    pub fn new(tables: &'a SymbolTable) -> (r: Self)
        ensures
            r.tables() == tables@,
    {
        CodeGenerator { tables }
    }

    /// The assembly text of a program.
    pub fn emit_program(&self, program: &Program) -> (r: String)
        requires
            emittable(program@),
        ensures
            r@ == program_text(program@, self.tables()),
    {
        let mut out = owned("");
        proof {
            reveal_strlit("");
        }
        let ghost fs = program@.functions;
        let mut k: usize = 0;
        assert(fs.take(0) =~= Seq::<SFunction>::empty());
        while k < program.functions.len()
            invariant
                k <= program.functions@.len(),
                fs == program@.functions,
                emittable(program@),
                out@ == functions_text(fs.take(k as int), self.tables()),
            decreases program.functions@.len() - k,
        {
            let ghost pre = fs.take(k + 1);
            assert(pre.drop_last() =~= fs.take(k as int));
            assert(pre.last() == program.functions@[k as int]@);
            self.emit_function(&program.functions[k], &mut out);
            push_str(&mut out, "\n");
            k += 1;
        }
        assert(fs.take(fs.len() as int) =~= fs);
        push_str(&mut out, "    .section .note.GNU-stack,\"\",@progbits\n");
        out
    }

    fn emit_function(&self, function: &Function, out: &mut String)
        requires
            forall|k: int| 0 <= k < function@.instructions.len() ==> pseudo_free(#[trigger] function@.instructions[k]),
        ensures
            final(out)@ == old(out)@ + function_text(function@, self.tables()),
    {
        push_str(out, "    .globl ");
        push_str(out, function.name.as_str());
        push_str(out, "\n");
        push_str(out, function.name.as_str());
        push_str(out, ":\n");
        self.emit_indented("pushq %rbp", out);
        self.emit_indented("movq %rsp, %rbp", out);
        let ghost head = out@;
        let ghost s = function@.instructions;
        let mut k: usize = 0;
        assert(s.take(0) =~= Seq::<SInstruction>::empty());
        while k < function.instructions.len()
            invariant
                k <= function.instructions@.len(),
                s == function@.instructions,
                s == asm_view(function.instructions@),
                forall|j: int| 0 <= j < s.len() ==> pseudo_free(#[trigger] s[j]),
                out@ == head + instrs_text(s.take(k as int), self.tables()),
            decreases function.instructions@.len() - k,
        {
            let ghost pre = s.take(k + 1);
            assert(pre.drop_last() =~= s.take(k as int));
            assert(pre.last() == function.instructions@[k as int]@);
            assert(pseudo_free(s[k as int]));
            self.emit_instruction(&function.instructions[k], out);
            k += 1;
        }
        assert(s.take(s.len() as int) =~= s);
        assert(out@ =~= old(out)@ + function_text(function@, self.tables()));
    }

    /// Writes one instruction.
    fn emit_instruction(&self, instruction: &Instruction, out: &mut String)
        requires
            pseudo_free(instruction@),
        ensures
            final(out)@ == old(out)@ + instr_text(instruction@, self.tables()),
    {
        let mut line = owned("");
        proof {
            reveal_strlit("");
        }
        match instruction {
            Instruction::Mov { src, dst } => {
                match (src, dst) {
                    (Operand::Register(Reg::AX), Operand::Register(Reg::AX)) => {
                        self.emit_indented("movzbl %al, %eax", out);
                        return;
                    },
                    _ => {},
                }
                push_str(&mut line, "movl ");
                self.push_operand(&mut line, src, InstructionSuffix::Long);
                push_str(&mut line, ", ");
                self.push_operand(&mut line, dst, InstructionSuffix::Long);
            },
            Instruction::Unary { op, operand } => {
                match op {
                    UnaryOp::Neg => push_str(&mut line, "negl "),
                    UnaryOp::Complement => push_str(&mut line, "notl "),
                }
                self.push_operand(&mut line, operand, InstructionSuffix::Long);
            },
            Instruction::AllocateStack(size) => {
                push_str(&mut line, "subq $");
                push_i64_decimal(&mut line, *size);
                push_str(&mut line, ", %rsp");
            },
            Instruction::Ret => {
                self.emit_indented("movq %rbp, %rsp", out);
                self.emit_indented("popq %rbp", out);
                self.emit_indented("ret", out);
                return;
            },
            Instruction::Binary { op, left_operand, right_operand } => {
                match op {
                    BinaryOp::Add => push_str(&mut line, "addl "),
                    BinaryOp::Subtract => push_str(&mut line, "subl "),
                    BinaryOp::Multiply => push_str(&mut line, "imull "),
                }
                self.push_operand(&mut line, left_operand, InstructionSuffix::Long);
                push_str(&mut line, ", ");
                self.push_operand(&mut line, right_operand, InstructionSuffix::Long);
            },
            Instruction::Idiv(operand) => {
                push_str(&mut line, "idivl ");
                self.push_operand(&mut line, operand, InstructionSuffix::Long);
            },
            Instruction::Cdq => {
                push_str(&mut line, "cdq");
            },
            Instruction::Cmp { operand1, operand2 } => {
                push_str(&mut line, "cmpl ");
                self.push_operand(&mut line, operand1, InstructionSuffix::Long);
                push_str(&mut line, ", ");
                self.push_operand(&mut line, operand2, InstructionSuffix::Long);
            },
            Instruction::Jmp(name) => {
                push_str(&mut line, "jmp ");
                push_str(&mut line, LOCAL_LABEL_PREFIX);
                push_str(&mut line, name.as_str());
            },
            Instruction::JmpCC { condtion, target } => {
                push_str(&mut line, "j");
                push_str(&mut line, self.format_condition(condtion));
                push_str(&mut line, " ");
                push_str(&mut line, LOCAL_LABEL_PREFIX);
                push_str(&mut line, target.as_str());
            },
            Instruction::SetCC { conditin, operand } => {
                push_str(&mut line, "set");
                push_str(&mut line, self.format_condition(conditin));
                push_str(&mut line, " ");
                self.push_operand(&mut line, operand, InstructionSuffix::Byte);
            },
            Instruction::Label(t) => {
                push_str(out, LOCAL_LABEL_PREFIX);
                push_str(out, t.as_str());
                push_str(out, ":\n");
                proof {
                    reveal_strlit(".L");
                }
                assert(final(out)@ =~= old(out)@ + instr_text(instruction@, self.tables()));
                return;
            },
            Instruction::DeallocateStack(i) => {
                push_str(&mut line, "addq $");
                push_i64_decimal(&mut line, *i);
                push_str(&mut line, " ,%rsp");
            },
            Instruction::Push(operand) => {
                push_str(&mut line, "pushq ");
                self.push_operand(&mut line, operand, InstructionSuffix::Q);
                push_str(&mut line, " ");
            },
            Instruction::Call(name) => {
                push_str(&mut line, "call ");
                push_str(&mut line, name.as_str());
                let defined = match self.tables.get(name) {
                    Some(r) => match r.identifier_attrs {
                        IdentifierAttrs::FunAttr { defined, .. } => defined,
                        _ => false,
                    },
                    None => false,
                };
                if defined {
                    push_str(&mut line, " ");
                } else {
                    push_str(&mut line, "@PLT");
                }
            },
        }
        self.emit_indented(line.as_str(), out);
        proof {
            reveal_strlit(".L");
        }
        assert(final(out)@ =~= old(out)@ + instr_text(instruction@, self.tables()));
    }

    /// Writes an indented line.
    fn emit_indented(&self, line: &str, out: &mut String)
        ensures
            final(out)@ == old(out)@ + indented(line@),
    {
        push_str(out, "    ");
        push_str(out, line);
        push_str(out, "\n");
        assert(final(out)@ =~= old(out)@ + indented(line@));
    }

    /// Appends the text of an operand.
    fn push_operand(&self, out: &mut String, operand: &Operand, size: InstructionSuffix)
        requires
            !(operand@ is Pseudo),
        ensures
            final(out)@ == old(out)@ + operand_text(operand@, size),
    {
        let text = self.format_operand(operand, size);
        push_str(out, text.as_str());
    }

    /// The text of an operand.
    fn format_operand(&self, operand: &Operand, size: InstructionSuffix) -> (r: String)
        requires
            !(operand@ is Pseudo),
        ensures
            r@ == operand_text(operand@, size),
    {
        match operand {
            Operand::Imm(val) => {
                let mut r = owned("$");
                push_i64_decimal(&mut r, *val);
                assert(r@ =~= "$"@ + int_decimal(*val as int));
                r
            },
            Operand::Register(reg) => self.format_reg(reg, size),
            Operand::Stack(offset) => {
                let mut r = owned("");
                proof {
                    reveal_strlit("");
                }
                push_i64_decimal(&mut r, *offset);
                push_str(&mut r, "(%rbp)");
                r
            },
            Operand::Pseudo(_) => owned(""),
        }
    }

    /// The suffix of a condition code.
    fn format_condition(&self, code: &ConditionCode) -> (r: &'static str)
        ensures
            r@ == cond_text(*code),
    {
        match code {
            ConditionCode::E => "e",
            ConditionCode::NE => "ne",
            ConditionCode::G => "g",
            ConditionCode::GE => "ge",
            ConditionCode::L => "l",
            ConditionCode::LE => "le",
        }
    }

    /// The name of a register at a size.
    pub fn format_reg(&self, reg: &Reg, size: InstructionSuffix) -> (r: String)
        ensures
            r@ == reg_name(*reg, size),
    {
        let name = match (reg, size) {
            (Reg::AX, InstructionSuffix::Q) => "%rax",
            (Reg::CX, InstructionSuffix::Q) => "%rcx",
            (Reg::DX, InstructionSuffix::Q) => "%rdx",
            (Reg::DI, InstructionSuffix::Q) => "%rdi",
            (Reg::SI, InstructionSuffix::Q) => "%rsi",
            (Reg::R8, InstructionSuffix::Q) => "%r8",
            (Reg::R9, InstructionSuffix::Q) => "%r9",
            (Reg::R10, InstructionSuffix::Q) => "%r10",
            (Reg::R11, InstructionSuffix::Q) => "%r11",
            (Reg::AX, InstructionSuffix::Long) => "%eax",
            (Reg::CX, InstructionSuffix::Long) => "%ecx",
            (Reg::DX, InstructionSuffix::Long) => "%edx",
            (Reg::DI, InstructionSuffix::Long) => "%edi",
            (Reg::SI, InstructionSuffix::Long) => "%esi",
            (Reg::R8, InstructionSuffix::Long) => "%r8d",
            (Reg::R9, InstructionSuffix::Long) => "%r9d",
            (Reg::R10, InstructionSuffix::Long) => "%r10d",
            (Reg::R11, InstructionSuffix::Long) => "%r11d",
            (Reg::AX, InstructionSuffix::Byte) => "%al",
            (Reg::CX, InstructionSuffix::Byte) => "%cl",
            (Reg::DX, InstructionSuffix::Byte) => "%dl",
            (Reg::DI, InstructionSuffix::Byte) => "%dil",
            (Reg::SI, InstructionSuffix::Byte) => "%sil",
            (Reg::R8, InstructionSuffix::Byte) => "%r8b",
            (Reg::R9, InstructionSuffix::Byte) => "%r9b",
            (Reg::R10, InstructionSuffix::Byte) => "%r10b",
            (Reg::R11, InstructionSuffix::Byte) => "%r11b",
        };
        owned(name)
    }
}


// ---------------------------------------------------------------------------
// The condition suffixes written are the right x86 mnemonics.
// ---------------------------------------------------------------------------

/// What an x86 condition suffix (of `j<cc>` and `set<cc>`) tests after
/// `cmp x, y`, with `lhs = y` and `rhs = x`: `e` equal, `ne` not equal, `g`
/// greater, `ge` greater or equal, `l` less, `le` less or equal (signed).
/// Any other text tests nothing.
pub open spec fn suffix_tests(suffix: Seq<char>, lhs: int, rhs: int) -> bool {
    if suffix == "e"@ {
        lhs == rhs
    } else if suffix == "ne"@ {
        lhs != rhs
    } else if suffix == "g"@ {
        lhs > rhs
    } else if suffix == "ge"@ {
        lhs >= rhs
    } else if suffix == "l"@ {
        lhs < rhs
    } else if suffix == "le"@ {
        lhs <= rhs
    } else {
        false
    }
}

/// The suffix written for each condition code is the x86 mnemonic that tests
/// the same condition: for all compared values, the written jump or set
/// fires exactly when the condition code holds.
pub proof fn lemma_condition_suffix_means_code(cc: ConditionCode, lhs: int, rhs: int)
    ensures
        suffix_tests(cond_text(cc), lhs, rhs) == cc_holds(cc, lhs, rhs),
{
    reveal_strlit("e");
    reveal_strlit("ne");
    reveal_strlit("g");
    reveal_strlit("ge");
    reveal_strlit("l");
    reveal_strlit("le");
    let e = "e"@;
    let ne = "ne"@;
    let g = "g"@;
    let ge = "ge"@;
    let l = "l"@;
    let le = "le"@;
    assert(e != ne && e != g && e != ge && e != l && e != le) by {
        assert(e[0] != g[0] && e[0] != l[0] && e.len() != ne.len() && e.len() != ge.len() && e.len() != le.len());
    }
    assert(ne != g && ne != ge && ne != l && ne != le) by {
        assert(ne.len() != g.len() && ne[0] != ge[0] && ne.len() != l.len() && ne[0] != le[0]);
    }
    assert(g != ge && g != l && g != le) by {
        assert(g.len() != ge.len() && g[0] != l[0] && g.len() != le.len());
    }
    assert(ge != l && ge != le) by {
        assert(ge.len() != l.len() && ge[0] != le[0]);
    }
    assert(l != le) by {
        assert(l.len() != le.len());
    }
}


// ---------------------------------------------------------------------------
// The arithmetic mnemonics and register names written mean what the
// instructions mean.
// ---------------------------------------------------------------------------

/// What an AT&T arithmetic mnemonic (with its trailing space) leaves in its
/// destination, given the value `src` of its source (none for the one-operand
/// forms) and the old value `dst` of its destination: `addl` adds, `subl`
/// subtracts the source, `imull` multiplies, `negl` negates, `notl`
/// complements. Any other text computes nothing.
pub open spec fn mnemonic_result(mnemonic: Seq<char>, src: int, dst: int) -> Option<int> {
    if mnemonic == "addl "@ {
        Some(dst + src)
    } else if mnemonic == "subl "@ {
        Some(dst - src)
    } else if mnemonic == "imull "@ {
        Some(dst * src)
    } else if mnemonic == "negl "@ {
        Some(-dst)
    } else if mnemonic == "notl "@ {
        Some(-dst - 1)
    } else {
        None
    }
}

/// The result an assembly arithmetic instruction computes.
pub open spec fn arith_result(op: BinaryOp, src: int, dst: int) -> int {
    match op {
        BinaryOp::Add => dst + src,
        BinaryOp::Subtract => dst - src,
        BinaryOp::Multiply => dst * src,
    }
}

proof fn lemma_mnemonics_distinct()
    ensures
        "addl "@ != "subl "@,
        "addl "@ != "imull "@,
        "subl "@ != "imull "@,
        "negl "@ != "notl "@,
        "negl "@ != "addl "@ && "negl "@ != "subl "@ && "negl "@ != "imull "@,
        "notl "@ != "addl "@ && "notl "@ != "subl "@ && "notl "@ != "imull "@,
{
    reveal_strlit("addl ");
    reveal_strlit("subl ");
    reveal_strlit("imull ");
    reveal_strlit("negl ");
    reveal_strlit("notl ");
    assert("addl "@[0] != "subl "@[0]);
    assert("addl "@.len() != "imull "@.len());
    assert("subl "@.len() != "imull "@.len());
    assert("negl "@[1] != "notl "@[1]);
    assert("negl "@[0] != "addl "@[0] && "negl "@[0] != "subl "@[0] && "negl "@.len() != "imull "@.len());
    assert("notl "@[0] != "addl "@[0] && "notl "@[0] != "subl "@[0] && "notl "@.len() != "imull "@.len());
}

/// The text of a two-operand arithmetic instruction is a mnemonic that
/// computes, from the source and the old destination, what the instruction
/// computes, followed by the source and then the destination.
pub proof fn lemma_arith_text_means_op(
    op: BinaryOp,
    left: SOperand,
    right: SOperand,
    tables: Map<Seq<char>, SymbolInfo>,
    src: int,
    dst: int,
)
    ensures
        exists|mnemonic: Seq<char>|
            #[trigger] mnemonic_result(mnemonic, src, dst) == Some(arith_result(op, src, dst)) && instr_text(
                SInstruction::Binary { op, left_operand: left, right_operand: right },
                tables,
            ) == indented(mnemonic + operand_text(left, InstructionSuffix::Long) + ", "@ + operand_text(
                right,
                InstructionSuffix::Long,
            )),
{
    lemma_mnemonics_distinct();
    let m = if op == BinaryOp::Add { "addl "@ } else if op == BinaryOp::Subtract { "subl "@ } else { "imull "@ };
    assert(mnemonic_result(m, src, dst) == Some(arith_result(op, src, dst)));
}

/// The text of a one-operand arithmetic instruction is a mnemonic that
/// computes, from the old value of the operand, what the instruction
/// computes: the negation for `Neg`, the complement for `Complement`.
pub proof fn lemma_unary_text_means_op(op: UnaryOp, operand: SOperand, tables: Map<Seq<char>, SymbolInfo>, v: int)
    ensures
        exists|mnemonic: Seq<char>|
            #[trigger] mnemonic_result(mnemonic, 0, v) == Some(if op == UnaryOp::Neg { -v } else { -v - 1 })
                && instr_text(SInstruction::Unary { op, operand }, tables) == indented(
                mnemonic + operand_text(operand, InstructionSuffix::Long),
            ),
{
    lemma_mnemonics_distinct();
    let m = if op == UnaryOp::Neg { "negl "@ } else { "notl "@ };
    assert(mnemonic_result(m, 0, v) == Some(if op == UnaryOp::Neg { -v } else { -v - 1 }));
}

} // verus!
