//! The text form of TACKY: one line per instruction, labels one level out.

use vstd::prelude::*;
use crate::backend::tacky_ir::{
    instrs_view, values_view, BinaryOp, Function, Instruction, Program, SFunction, SInstruction,
    SProgram, SValue, UnaryOp, Value,
};
use crate::common::{pad, AstNode, PrettyPrinter};
use crate::text::{int_decimal, owned, push_i64_decimal, push_str};

verus! {

/// The text of a value.
pub open spec fn value_text(v: SValue) -> Seq<char> {
    match v {
        SValue::Constant(i) => int_decimal(i as int),
        SValue::Var(n) => n,
    }
}

/// The symbol of a unary operator.
pub open spec fn unop_text(op: UnaryOp) -> Seq<char> {
    match op {
        UnaryOp::Complement => "~"@,
        UnaryOp::Negate => "-"@,
        UnaryOp::Not => "!"@,
    }
}

/// The symbol of a binary operator.
pub open spec fn binop_text(op: BinaryOp) -> Seq<char> {
    match op {
        BinaryOp::Add => "+"@,
        BinaryOp::Subtract => "-"@,
        BinaryOp::Multiply => "*"@,
        BinaryOp::Divide => "/"@,
        BinaryOp::Remainder => "%"@,
        BinaryOp::BangEqual => "!="@,
        BinaryOp::EqualEqual => "=="@,
        BinaryOp::Greater => ">"@,
        BinaryOp::GreaterEqual => ">="@,
        BinaryOp::Less => "<"@,
        BinaryOp::LessEqual => "<="@,
    }
}

/// Values separated by `, `.
pub open spec fn values_text(vs: Seq<SValue>) -> Seq<char>
    decreases vs.len(),
{
    if vs.len() == 0 {
        Seq::empty()
    } else if vs.len() == 1 {
        value_text(vs[0])
    } else {
        values_text(vs.drop_last()) + ", "@ + value_text(vs.last())
    }
}

/// The text of an instruction.
pub open spec fn instr_line(i: SInstruction) -> Seq<char> {
    match i {
        SInstruction::Return(v) => "return "@ + value_text(v),
        SInstruction::Unary { op, src, dst } => value_text(dst) + " = "@ + unop_text(op) + " "@ + value_text(src),
        SInstruction::Binary { op, src1, src2, dst } => value_text(dst) + " = "@ + value_text(src1) + " "@
            + binop_text(op) + " "@ + value_text(src2),
        SInstruction::Copy { src, dst } => "Copy "@ + value_text(src) + " "@ + value_text(dst),
        SInstruction::Jump(s) => "Jump "@ + s,
        SInstruction::JumpIfZero { condition, target } => "JumpIfZero "@ + value_text(condition) + " "@ + target,
        SInstruction::JumpIfNotZero { condition, target } => "JumpIfNotZero "@ + value_text(condition) + " "@ + target,
        SInstruction::Label(t) => t + ":"@,
        SInstruction::FunctionCall { name, args, dst } => value_text(dst) + " = "@ + name + "("@ + values_text(args)
            + ")"@,
    }
}

/// The level an instruction's line is printed at: labels one level out.
pub open spec fn instr_level(l: nat, i: SInstruction) -> nat {
    if i is Label {
        if l > 0 { (l - 1) as nat } else { 0 }
    } else {
        l
    }
}

/// The level after printing an instruction at level `l`.
pub open spec fn after_level(l: nat, i: SInstruction) -> nat {
    if i is Label && l == 0 { 1 } else { l }
}

/// The lines of instructions printed from level `l`, and the level after.
pub open spec fn instrs_lines(l: nat, s: Seq<SInstruction>) -> (Seq<Seq<char>>, nat)
    decreases s.len(),
{
    if s.len() == 0 {
        (Seq::empty(), l)
    } else {
        let (ls, l1) = instrs_lines(l, s.drop_last());
        (ls.push(pad(instr_level(l1, s.last())) + instr_line(s.last())), after_level(l1, s.last()))
    }
}

/// The lines of a function: its name, then its instructions one level in.
pub open spec fn function_lines(l: nat, f: SFunction) -> Seq<Seq<char>> {
    seq![pad(l) + f.name + ":"@] + instrs_lines(l + 1, f.body).0
}

/// The lines of a program's functions, each followed by an empty line.
pub open spec fn functions_lines(l: nat, fs: Seq<SFunction>) -> Seq<Seq<char>>
    decreases fs.len(),
{
    if fs.len() == 0 {
        Seq::empty()
    } else {
        functions_lines(l, fs.drop_last()) + function_lines(l, fs.last()) + seq![pad(l)]
    }
}

/// The lines of a program.
pub open spec fn program_lines(l: nat, p: SProgram) -> Seq<Seq<char>> {
    seq![pad(l) + "TackyIR_Program"@] + functions_lines(l + 1, p.functions)
}

proof fn lemma_instrs_level(l: nat, s: Seq<SInstruction>)
    requires
        l > 0,
    ensures
        instrs_lines(l, s).1 == l,
    decreases s.len(),
{
    if s.len() > 0 {
        lemma_instrs_level(l, s.drop_last());
    }
}

impl Value {
    /// The text of the value.
    pub fn text(&self) -> (r: String)
        ensures
            r@ == value_text(self@),
    {
        match self {
            Value::Constant(i) => {
                let mut r = owned("");
                proof {
                    reveal_strlit("");
                }
                push_i64_decimal(&mut r, *i);
                r
            },
            Value::Var(name) => name.clone(),
        }
    }
}

impl UnaryOp {
    /// The operator's symbol.
    pub fn text(&self) -> (r: &'static str)
        ensures
            r@ == unop_text(*self),
    {
        match self {
            UnaryOp::Complement => "~",
            UnaryOp::Negate => "-",
            UnaryOp::Not => "!",
        }
    }
}

impl BinaryOp {
    /// The operator's symbol.
    pub fn text(&self) -> (r: &'static str)
        ensures
            r@ == binop_text(*self),
    {
        match self {
            BinaryOp::Add => "+",
            BinaryOp::Subtract => "-",
            BinaryOp::Multiply => "*",
            BinaryOp::Divide => "/",
            BinaryOp::Remainder => "%",
            BinaryOp::BangEqual => "!=",
            BinaryOp::EqualEqual => "==",
            BinaryOp::Greater => ">",
            BinaryOp::GreaterEqual => ">=",
            BinaryOp::Less => "<",
            BinaryOp::LessEqual => "<=",
        }
    }
}

fn values_str(vs: &Vec<Value>) -> (r: String)
    ensures
        r@ == values_text(values_view(vs@)),
{
    let ghost s = values_view(vs@);
    let mut r = owned("");
    proof {
        reveal_strlit("");
    }
    if vs.len() == 0 {
        return r;
    }
    r = vs[0].text();
    let mut k: usize = 1;
    assert(s.take(1).drop_last() =~= Seq::<SValue>::empty());
    assert(values_text(s.take(1)) == value_text(s[0]));
    while k < vs.len()
        invariant
            1 <= k <= vs@.len(),
            s == values_view(vs@),
            r@ == values_text(s.take(k as int)),
        decreases vs@.len() - k,
    {
        push_str(&mut r, ", ");
        let t = vs[k].text();
        push_str(&mut r, t.as_str());
        assert(s.take(k + 1).drop_last() =~= s.take(k as int));
        k += 1;
    }
    assert(s.take(vs@.len() as int) =~= s);
    r
}

impl Instruction {
    /// The text of the instruction.
    pub fn line_text(&self) -> (r: String)
        ensures
            r@ == instr_line(self@),
    {
        let mut r = owned("");
        proof {
            reveal_strlit("");
        }
        match self {
            Instruction::Return(val) => {
                push_str(&mut r, "return ");
                push_str(&mut r, val.text().as_str());
            },
            Instruction::Unary { op, src, dst } => {
                push_str(&mut r, dst.text().as_str());
                push_str(&mut r, " = ");
                push_str(&mut r, op.text());
                push_str(&mut r, " ");
                push_str(&mut r, src.text().as_str());
            },
            Instruction::Binary { op, src1, src2, dst } => {
                push_str(&mut r, dst.text().as_str());
                push_str(&mut r, " = ");
                push_str(&mut r, src1.text().as_str());
                push_str(&mut r, " ");
                push_str(&mut r, op.text());
                push_str(&mut r, " ");
                push_str(&mut r, src2.text().as_str());
            },
            Instruction::Copy { src, dst } => {
                push_str(&mut r, "Copy ");
                push_str(&mut r, src.text().as_str());
                push_str(&mut r, " ");
                push_str(&mut r, dst.text().as_str());
            },
            Instruction::Jump(s) => {
                push_str(&mut r, "Jump ");
                push_str(&mut r, s.as_str());
            },
            Instruction::JumpIfZero { condition, target } => {
                push_str(&mut r, "JumpIfZero ");
                push_str(&mut r, condition.text().as_str());
                push_str(&mut r, " ");
                push_str(&mut r, target.as_str());
            },
            Instruction::JumpIfNotZero { condition, target } => {
                push_str(&mut r, "JumpIfNotZero ");
                push_str(&mut r, condition.text().as_str());
                push_str(&mut r, " ");
                push_str(&mut r, target.as_str());
            },
            Instruction::Label(t) => {
                push_str(&mut r, t.as_str());
                push_str(&mut r, ":");
            },
            Instruction::FunctionCall { name, args, dst } => {
                push_str(&mut r, dst.text().as_str());
                push_str(&mut r, " = ");
                push_str(&mut r, name.as_str());
                push_str(&mut r, "(");
                push_str(&mut r, values_str(args).as_str());
                push_str(&mut r, ")");
            },
        }
        assert(r@ =~= instr_line(self@));
        r
    }
}

impl AstNode for Instruction {
    open spec fn print_depth(&self) -> nat {
        1
    }

    /// Prints the instruction; a label is printed one level out.
    fn pretty_print(&self, printer: &mut PrettyPrinter)
        ensures
            final(printer).level() == after_level(old(printer).level(), self@),
            final(printer).printed() == old(printer).printed().push(
                pad(instr_level(old(printer).level(), self@)) + instr_line(self@),
            ),
    {
        let line = self.line_text();
        match self {
            Instruction::Label(_) => {
                printer.unindent();
                printer.writeln(line.as_str());
                printer.indent();
            },
            _ => {
                printer.writeln(line.as_str());
            },
        }
    }
}

impl AstNode for Function {
    open spec fn print_depth(&self) -> nat {
        2
    }

    /// Prints the function's name and its instructions one level in.
    fn pretty_print(&self, printer: &mut PrettyPrinter)
        ensures
            final(printer).level() == old(printer).level(),
            final(printer).printed() == old(printer).printed() + function_lines(old(printer).level(), self@),
    {
        let ghost l = printer.level();
        let ghost before = printer.printed();
        let mut head = self.name.clone();
        push_str(&mut head, ":");
        printer.writeln(head.as_str());
        printer.indent();
        let ghost mid = printer.printed();
        let ghost s = instrs_view(self.body@);
        let mut k: usize = 0;
        assert(s.take(0) =~= Seq::<SInstruction>::empty());
        while k < self.body.len()
            invariant
                k <= self.body@.len(),
                s == instrs_view(self.body@),
                s == self@.body,
                l + 2 <= usize::MAX,
                printer.level() == l + 1,
                instrs_lines(l + 1, s.take(k as int)).1 == l + 1,
                printer.printed() == mid + instrs_lines(l + 1, s.take(k as int)).0,
            decreases self.body@.len() - k,
        {
            let ghost pre = s.take(k + 1);
            assert(pre.drop_last() =~= s.take(k as int));
            assert(pre.last() == self.body@[k as int]@);
            self.body[k].pretty_print(printer);
            assert(printer.printed() =~= mid + instrs_lines(l + 1, pre).0);
            k += 1;
        }
        assert(s.take(s.len() as int) =~= s);
        printer.unindent();
        assert(pad(l) + (self.name@ + ":"@) =~= pad(l) + self.name@ + ":"@);
        assert(mid == before.push(pad(l) + self.name@ + ":"@));
        assert(printer.printed() == mid + instrs_lines(l + 1, s).0);
        assert(printer.printed() =~= before + function_lines(l, self@));
    }
}

impl AstNode for Program {
    open spec fn print_depth(&self) -> nat {
        3
    }

    /// Prints `TackyIR_Program` and each function followed by an empty line.
    fn pretty_print(&self, printer: &mut PrettyPrinter)
        ensures
            final(printer).level() == old(printer).level(),
            final(printer).printed() == old(printer).printed() + program_lines(old(printer).level(), self@),
    {
        let ghost l = printer.level();
        let ghost before = printer.printed();
        printer.writeln("TackyIR_Program");
        printer.indent();
        let ghost mid = printer.printed();
        let ghost fs = self@.functions;
        let mut k: usize = 0;
        assert(fs.take(0) =~= Seq::<SFunction>::empty());
        while k < self.functions.len()
            invariant
                k <= self.functions@.len(),
                fs == self@.functions,
                l + 3 <= usize::MAX,
                printer.level() == l + 1,
                printer.printed() == mid + functions_lines(l + 1, fs.take(k as int)),
            decreases self.functions@.len() - k,
        {
            let ghost pre = fs.take(k + 1);
            assert(pre.drop_last() =~= fs.take(k as int));
            assert(pre.last() == self.functions@[k as int]@);
            self.functions[k].pretty_print(printer);
            printer.writeln("");
            proof {
                reveal_strlit("");
            }
            assert(printer.printed() =~= mid + functions_lines(l + 1, pre));
            k += 1;
        }
        assert(fs.take(fs.len() as int) =~= fs);
        printer.unindent();
        assert(printer.printed() =~= before + program_lines(l, self@));
    }
}

} // verus!
