use ccompiler::ast_printer;
use ccompiler::backend::assembly_ast::{Instruction as Asm, Operand, Reg};
use ccompiler::backend::assembly_ast_gen::AssemblyGenerator;
use ccompiler::backend::code_gen::{CodeGenerator, InstructionSuffix};
use ccompiler::backend::tacky_gen::{is_loop_free, TackyGenerator};
use ccompiler::backend::tacky_ir;
use ccompiler::common::{AstNode, PrettyPrinter};
use ccompiler::common_ids::{
    generate_analysis_variable_name, generate_translator_label_name, generate_translator_temp_name,
};
use ccompiler::frontend::c_ast::{Block, BlockItem, Declaration, FunDecl, Program, Statement, StorageClass};
use ccompiler::frontend::loop_labeling::LoopLabeling;
use ccompiler::frontend::parser::Parser;
use ccompiler::frontend::reslove_var::ResloveVar;
use ccompiler::frontend::resolve_ident::IdentifierResolver;
use ccompiler::frontend::type_checking::{CType, IdentifierAttrs, SymbolInfo, SymbolTable, TypeChecker};
use ccompiler::lexer::Lexer;
use ccompiler::UniqueNameGenerator;

/// The `i`-th function declaration of a program.
fn function_at(p: &Program, i: usize) -> &FunDecl {
    p.declarations
        .iter()
        .filter_map(|d| match d {
            Declaration::Fun(f) => Some(f),
            Declaration::Variable(_) => None,
        })
        .nth(i)
        .expect("no such function")
}


fn parse_source(code: &str) -> Program {
    let tokens = Lexer::new().lex(code).unwrap();
    Parser::new(tokens).parse().unwrap()
}

/// Lexing, parsing, resolution and loop labeling, with the counter they used.
fn front_end(code: &str, g: &mut UniqueNameGenerator) -> Result<Program, String> {
    let ast = parse_source(code);
    let resolved = IdentifierResolver::new(g).resolve_program(&ast)?;
    LoopLabeling::new(g).label_loops_in_program(&resolved)
}

fn lines_of<T: AstNode>(node: &T) -> Vec<String> {
    let mut printer = PrettyPrinter::new();
    node.pretty_print(&mut printer);
    printer.lines().clone()
}

fn tacky_of(code: &str) -> tacky_ir::Program {
    let mut g = UniqueNameGenerator::new();
    let ast = front_end(code, &mut g).unwrap();
    TackyGenerator::new(&mut g).generate_tacky(&ast).unwrap()
}

fn assembly_text_of(code: &str) -> String {
    let mut g = UniqueNameGenerator::new();
    let ast = front_end(code, &mut g).unwrap();
    let tables = TypeChecker::new().typecheck_program(&ast).unwrap();
    let ir = TackyGenerator::new(&mut g).generate_tacky(&ast).unwrap();
    let lowered = AssemblyGenerator::new().generate(ir).unwrap();
    CodeGenerator::new(&tables).emit_program(&lowered)
}

fn typecheck_source(code: &str) -> Result<SymbolTable, String> {
    let mut g = UniqueNameGenerator::new();
    let ast = front_end(code, &mut g)?;
    TypeChecker::new().typecheck_program(&ast)
}

#[test]
fn loop_labels_tie_break_to_its_loop() {
    let mut g = UniqueNameGenerator::new();
    let ast = front_end("int main(void) { while (1) { break; } return 0; }", &mut g).unwrap();
    let body = function_at(&ast, 0).body.as_ref().unwrap();
    match &body.0[0] {
        BlockItem::S(Statement::While { label, body, .. }) => {
            assert_eq!(label.as_deref(), Some("loop.0"));
            match &**body {
                Statement::Compound(Block(items)) => match &items[0] {
                    BlockItem::S(Statement::Break(l)) => assert_eq!(l, "loop.0"),
                    other => panic!("expected a break, got {:?}", other),
                },
                other => panic!("expected a block, got {:?}", other),
            }
        }
        other => panic!("expected a while loop, got {:?}", other),
    }
}

#[test]
fn nested_loops_get_distinct_labels() {
    let mut g = UniqueNameGenerator::new();
    let ast = front_end("int main(void) { for (;;) { do { continue; } while (1); break; } return 0; }", &mut g).unwrap();
    let body = function_at(&ast, 0).body.as_ref().unwrap();
    match &body.0[0] {
        BlockItem::S(Statement::For { label, body, .. }) => {
            assert_eq!(label.as_deref(), Some("loop.0"));
            match &**body {
                Statement::Compound(Block(items)) => {
                    match &items[0] {
                        BlockItem::S(Statement::DoWhile { label, body, .. }) => {
                            assert_eq!(label.as_deref(), Some("loop.1"));
                            match &**body {
                                Statement::Compound(Block(inner)) => match &inner[0] {
                                    BlockItem::S(Statement::Continue(l)) => assert_eq!(l, "loop.1"),
                                    other => panic!("expected continue, got {:?}", other),
                                },
                                other => panic!("expected a block, got {:?}", other),
                            }
                        }
                        other => panic!("expected do-while, got {:?}", other),
                    }
                    match &items[1] {
                        BlockItem::S(Statement::Break(l)) => assert_eq!(l, "loop.0"),
                        other => panic!("expected break, got {:?}", other),
                    }
                }
                other => panic!("expected a block, got {:?}", other),
            }
        }
        other => panic!("expected a for loop, got {:?}", other),
    }
}

#[test]
fn break_outside_loop_is_an_error() {
    let mut g = UniqueNameGenerator::new();
    let r = front_end("int main(void) { break; }", &mut g);
    assert_eq!(r.unwrap_err(), "'break' statement not in loop or switch statement");
}

#[test]
fn continue_outside_loop_is_an_error() {
    let mut g = UniqueNameGenerator::new();
    let r = front_end("int main(void) { if (1) continue; return 0; }", &mut g);
    assert_eq!(r.unwrap_err(), "'continue' statement not in a loop");
}

#[test]
fn tacky_of_addition() {
    let ir = tacky_of("int main(void) { return 1 + 2; }");
    assert_eq!(
        lines_of(&ir),
        vec!["TackyIR_Program", "  main:", "    tmp0 = 1 + 2", "    return tmp0", "    return 0", "  "]
    );
}

#[test]
fn tacky_of_logical_and_short_circuits() {
    let ir = tacky_of("int main(void) { return 1 && 0; }");
    assert_eq!(
        lines_of(&ir),
        vec![
            "TackyIR_Program",
            "  main:",
            "    JumpIfZero 1 label0",
            "    JumpIfZero 0 label0",
            "    Copy 1 tmp2",
            "    Jump label1",
            "  label0:",
            "    Copy 0 tmp2",
            "  label1:",
            "    return tmp2",
            "    return 0",
            "  ",
        ]
    );
}

#[test]
fn tacky_of_conditional_and_if_else() {
    let ir = tacky_of("int main(void) { int a = 1; if (a) a = 2; else a = 3; return a ? 4 : 5; }");
    assert_eq!(
        lines_of(&ir),
        vec![
            "TackyIR_Program",
            "  main:",
            "    Copy 1 a.0",
            "    JumpIfZero a.0 label1",
            "    Copy 2 a.0",
            "    Jump label2",
            "  label1:",
            "    Copy 3 a.0",
            "  label2:",
            "    JumpIfZero a.0 label4",
            "    Copy 4 tmp3",
            "    Jump label5",
            "  label4:",
            "    Copy 5 tmp3",
            "  label5:",
            "    return tmp3",
            "    return 0",
            "  ",
        ]
    );
}

#[test]
fn tacky_of_call_and_parameters() {
    let ir = tacky_of("int f(int x, int y) { return x - y; } int main(void) { return f(3, -4); }");
    assert_eq!(ir.functions.len(), 2);
    assert_eq!(ir.functions[0].params, vec!["x.0", "y.1"]);
    assert_eq!(
        lines_of(&ir),
        vec![
            "TackyIR_Program",
            "  f:",
            "    tmp2 = x.0 - y.1",
            "    return tmp2",
            "    return 0",
            "  ",
            "  main:",
            "    tmp3 = - 4",
            "    tmp4 = f(3, tmp3)",
            "    return tmp4",
            "    return 0",
            "  ",
        ]
    );
}

#[test]
fn declarations_without_body_have_no_tacky_function() {
    let ir = tacky_of("int f(void); int main(void) { return 0; }");
    assert_eq!(ir.functions.len(), 1);
    assert_eq!(ir.functions[0].name, "main");
}

#[test]
fn loops_are_not_lowered() {
    let mut g = UniqueNameGenerator::new();
    let with_loop = front_end("int main(void) { while (0) ; return 0; }", &mut g).unwrap();
    assert!(!is_loop_free(&with_loop));
    let mut g2 = UniqueNameGenerator::new();
    let without = front_end("int main(void) { if (1) { return 2; } return 0; }", &mut g2).unwrap();
    assert!(is_loop_free(&without));
}

#[test]
fn assembly_of_constant_return() {
    let text = assembly_text_of("int main(void) { return 2; }");
    assert_eq!(
        text,
        "    .globl main\nmain:\n    pushq %rbp\n    movq %rsp, %rbp\n    movl $2, %eax\n    movq %rbp, %rsp\n    popq %rbp\n    ret\n    movl $0, %eax\n    movq %rbp, %rsp\n    popq %rbp\n    ret\n\n    .section .note.GNU-stack,\"\",@progbits\n"
    );
}

#[test]
fn stack_slots_and_frame_alignment() {
    let mut g = UniqueNameGenerator::new();
    let ast = front_end("int main(void) { int a = 1; return a; }", &mut g).unwrap();
    let ir = TackyGenerator::new(&mut g).generate_tacky(&ast).unwrap();
    let lowered = AssemblyGenerator::new().generate(ir).unwrap();
    let f = &lowered.functions[0];
    assert_eq!(f.stack_size, 4);
    assert!(matches!(f.instructions[0], Asm::AllocateStack(16)));
    assert!(matches!(f.instructions[1], Asm::Mov { src: Operand::Imm(1), dst: Operand::Stack(-4) }));
    assert!(matches!(f.instructions[2], Asm::Mov { src: Operand::Stack(-4), dst: Operand::Register(Reg::AX) }));
}

#[test]
fn memory_operands_are_fixed_up() {
    let text = assembly_text_of("int main(void) { int a = 2; a = a * 3; return a; }");
    let expected = "    subq $16, %rsp\n    movl $2, -4(%rbp)\n    movl -4(%rbp), %r10d\n    movl %r10d, -8(%rbp)\n    movl -8(%rbp), %r11d\n    imull $3, %r11d\n    movl %r11d, -8(%rbp)\n    movl -8(%rbp), %r10d\n    movl %r10d, -4(%rbp)\n    movl -4(%rbp), %eax\n";
    assert!(text.contains(expected), "{}", text);
}

#[test]
fn division_and_comparison_use_scratch_registers() {
    let text = assembly_text_of("int main(void) { int a = 7; return a / 2 == 3; }");
    assert!(text.contains("    movl -4(%rbp), %eax\n    cdq\n    movl $2, %r10d\n    idivl %r10d\n    movl %eax, -8(%rbp)\n"), "{}", text);
    assert!(text.contains("    cmpl $3, -8(%rbp)\n    sete %al\n    movzbl %al, %eax\n    movl %eax, -12(%rbp)\n"), "{}", text);
}

#[test]
fn calls_go_through_the_plt_unless_defined_here() {
    let text = assembly_text_of("int g(int x); int f(void) { return 1; } int main(void) { return f() + g(5); }");
    assert!(text.contains("    call f \n"), "{}", text);
    assert!(text.contains("    movl $5, %edi\n    call g@PLT\n"), "{}", text);
}

#[test]
fn stack_arguments_are_pushed_in_reverse_with_padding() {
    let text = assembly_text_of(
        "int g(int a, int b, int c, int d, int e, int f, int h); int main(void) { return g(1, 2, 3, 4, 5, 6, 7); }",
    );
    assert!(
        text.contains("    subq $8, %rsp\n    movl $1, %edi\n    movl $2, %esi\n    movl $3, %edx\n    movl $4, %ecx\n    movl $5, %r8d\n    movl $6, %r9d\n    pushq $7 \n    call g@PLT\n    addq $16 ,%rsp\n"),
        "{}",
        text
    );
}

#[test]
fn format_reg_names_each_size() {
    let tables = SymbolTable::new();
    let cg = CodeGenerator::new(&tables);
    assert_eq!(cg.format_reg(&Reg::R8, InstructionSuffix::Byte), "%r8b");
    assert_eq!(cg.format_reg(&Reg::DI, InstructionSuffix::Long), "%edi");
    assert_eq!(cg.format_reg(&Reg::AX, InstructionSuffix::Q), "%rax");
}

#[test]
fn symbol_table_records_functions() {
    let tables = typecheck_source("int f(void); int main(void) { return f(); }").unwrap();
    let f = tables.get(&"f".to_string()).unwrap();
    assert_eq!(
        f,
        SymbolInfo { tpye: CType::FunType { param_count: 0 }, identifier_attrs: IdentifierAttrs::FunAttr { defined: false, global: true } }
    );
    let m = tables.get(&"main".to_string()).unwrap();
    assert_eq!(m.identifier_attrs, IdentifierAttrs::FunAttr { defined: true, global: true });
    assert!(!tables.contains_key(&"g".to_string()));
}

#[test]
fn incompatible_function_declarations_are_rejected() {
    let r = typecheck_source("int f(int a); int f(int a, int b);");
    assert_eq!(r.unwrap_err(), "函数 'f' 的声明不兼容");
}

#[test]
fn functions_defined_twice_are_rejected() {
    let r = typecheck_source("int f(void) { return 1; } int f(void) { return 2; }");
    assert_eq!(r.unwrap_err(), "函数 'f' 被多次定义");
}

#[test]
fn wrong_argument_count_is_reported_with_both_counts() {
    let r = typecheck_source("int f(int a); int main(void) { return f(); }");
    assert_eq!(r.unwrap_err(), "语义错误：函数 'f' 调用时参数数量错误。预期 1 个，实际 0 个。");
}

fn declaration(name: &str, params: &[&str], storage_class: Option<StorageClass>) -> FunDecl {
    FunDecl {
        name: name.to_string(),
        parameters: params.iter().map(|p| p.to_string()).collect(),
        body: None,
        storage_class,
    }
}

#[test]
fn static_function_after_global_one_is_rejected() {
    let ast = Program { declarations: vec![Declaration::Fun(declaration("f", &[], None)), Declaration::Fun(declaration("f", &[], Some(StorageClass::Static)))] };
    let r = TypeChecker::new().typecheck_program(&ast);
    assert_eq!(r.unwrap_err(), "静态函数声明跟在非静态函数声明之后");
}

#[test]
fn static_function_keeps_internal_linkage() {
    let ast = Program { declarations: vec![Declaration::Fun(declaration("f", &[], Some(StorageClass::Static))), Declaration::Fun(declaration("f", &[], None))] };
    let tables = TypeChecker::new().typecheck_program(&ast).unwrap();
    assert_eq!(
        tables.get(&"f".to_string()).unwrap().identifier_attrs,
        IdentifierAttrs::FunAttr { defined: false, global: false }
    );
}

#[test]
fn reslove_var_renames_variables() {
    let ast = parse_source("int main(void) { int a = 1; return a; }");
    let mut g = UniqueNameGenerator::new();
    let out = ResloveVar::new(&mut g).reslove_prgram(&ast).unwrap();
    let body = function_at(&out, 0).body.as_ref().unwrap();
    match &body.0[0] {
        BlockItem::D(ccompiler::frontend::c_ast::Declaration::Variable(v)) => assert_eq!(v.name, "a.0"),
        other => panic!("expected a declaration, got {:?}", other),
    }
}

#[test]
fn reslove_var_has_no_global_scope_for_functions() {
    let ast = parse_source("int f(void); int main(void) { return f(); }");
    let mut g = UniqueNameGenerator::new();
    let r = ResloveVar::new(&mut g).reslove_prgram(&ast);
    assert_eq!(r.unwrap_err(), "未声明函数!");
}

#[test]
fn reslove_var_rejects_duplicates() {
    let ast = parse_source("int main(void) { int a; int a; return 0; }");
    let mut g = UniqueNameGenerator::new();
    assert_eq!(ResloveVar::new(&mut g).reslove_prgram(&ast).unwrap_err(), "Duplicate variable declaration");
    let ast2 = parse_source("int h(int x, int x) { return 0; }");
    let mut g2 = UniqueNameGenerator::new();
    assert_eq!(
        ResloveVar::new(&mut g2).reslove_prgram(&ast2).unwrap_err(),
        "Duplicate variable declaration in h params"
    );
}

#[test]
fn syntax_tree_prints_with_indentation() {
    let ast = parse_source("int main(void) { int x = -1; return x; }");
    assert_eq!(
        lines_of(&ast),
        vec![
            "Program",
            "  FunctionDefinition(name: \"main\", params: [void])",
            "    Block",
            "      VarDeclaration(name: \"x\", with init)",
            "        Unary(op: '-')",
            "          Constant(1)",
            "      Return",
            "        Var(name: \"x\")",
        ]
    );
}

#[test]
fn declarations_print_their_parameters_and_storage() {
    let ast = Program { declarations: vec![Declaration::Fun(declaration("f", &["a", "b"], Some(StorageClass::Static)))] };
    assert_eq!(lines_of(&ast), vec!["Program", "  FunctionDeclaration(name: \"f\", params: [a, b], storage: static)"]);
}

#[test]
fn names_from_ids() {
    assert_eq!(generate_analysis_variable_name(7), "v_7");
    assert_eq!(generate_translator_temp_name(3), "tmp.3");
    assert_eq!(generate_translator_label_name(12), "abel.12");
}

#[test]
fn printers_indent_by_two_spaces() {
    let mut p = ast_printer::PrettyPrinter::new();
    p.indent();
    p.indent();
    assert_eq!(p.prefix(), "    ");
    p.writeln("x");
    p.unindent();
    assert_eq!(p.indent_level, 1);
    assert_eq!(p.lines().clone(), vec!["    x".to_string()]);
    let mut q = PrettyPrinter::new();
    q.unindent();
    assert_eq!(q.indent_level, 0);
}

#[test]
fn counter_names_are_sequential() {
    let mut g = UniqueNameGenerator::new();
    assert_eq!(g.new_temp_var(), "tmp0");
    assert_eq!(g.new_temp_label(), "label1");
    assert_eq!(g.new_label("end"), "end.2");
    assert_eq!(g.new_loop_label("loop"), "loop.3");
    assert_eq!(g.new_variable_name("x".to_string()), "x.4");
}

#[test]
fn tacky_of_short_circuit_in_an_initializer() {
    let ir = tacky_of("int main(void) { int a = 0; int b = 1; int x = a && b; return x; }");
    assert_eq!(
        lines_of(&ir),
        vec![
            "TackyIR_Program",
            "  main:",
            "    Copy 0 a.0",
            "    Copy 1 b.1",
            "    JumpIfZero a.0 label3",
            "    JumpIfZero b.1 label3",
            "    Copy 1 tmp5",
            "    Jump label4",
            "  label3:",
            "    Copy 0 tmp5",
            "  label4:",
            "    Copy tmp5 x.2",
            "    return x.2",
            "    return 0",
            "  ",
        ]
    );
}


#[test]
fn file_scope_variables_parse_and_check() {
    let tokens = Lexer::new().lex("int x = 3; int main(void) { return x; }").unwrap();
    let ast = Parser::new(tokens).parse().unwrap();
    assert_eq!(ast.declarations.len(), 2);
    match &ast.declarations[0] {
        Declaration::Variable(v) => {
            assert_eq!(v.name, "x");
            assert_eq!(format!("{:?}", v.init), "Some(Constant(3))");
        }
        other => panic!("expected a variable, got {:?}", other),
    }
    match &ast.declarations[1] {
        Declaration::Fun(f) => assert_eq!(f.name, "main"),
        other => panic!("expected a function, got {:?}", other),
    }
    let mut g = UniqueNameGenerator::new();
    let resolved = IdentifierResolver::new(&mut g).resolve_program(&ast).unwrap();
    let body = &function_at(&resolved, 0).body.as_ref().unwrap().0;
    match &body[0] {
        BlockItem::S(Statement::Return(e)) => assert_eq!(format!("{:?}", e), "Var(\"x\")"),
        other => panic!("expected a return, got {:?}", other),
    }
    let tables = TypeChecker::new().typecheck_program(&resolved).unwrap();
    assert_eq!(
        tables.get(&"x".to_string()),
        Some(SymbolInfo {
            tpye: CType::Int,
            identifier_attrs: IdentifierAttrs::StaticAttr {
                init_value: ccompiler::frontend::type_checking::InitValue::Initial(3),
                global: true,
            },
        })
    );
}

#[test]
fn file_scope_definitions_merge_in_the_program_checker() {
    let r = typecheck_source("int x; int x = 3; int main(void) { return x; }").unwrap();
    assert!(r.get(&"x".to_string()).is_some());
    let r = typecheck_source("int x = 1; int x = 2;");
    assert_eq!(r.unwrap_err(), "文件作用域变量定义冲突");
}

#[test]
fn counter_after_a_pass_continues() {
    let mut g = UniqueNameGenerator::new();
    let ast = front_end("int main(void) { int a = 1; return a - 5; }", &mut g).unwrap();
    assert_eq!(g.new_variable_name("b".to_string()), "b.1");
    let ir = TackyGenerator::new(&mut g).generate_tacky(&ast).unwrap();
    assert_eq!(ir.functions.len(), 1);
    assert_eq!(g.new_temp_var(), "tmp3");
}

#[test]
fn lowered_code_is_emittable() {
    let ir = tacky_of("int main(void) { int a = 2; return a * 3; }");
    let lowered = AssemblyGenerator::new().generate(ir).unwrap();
    assert!(ccompiler::backend::code_gen::is_emittable(&lowered));
    let bad = ccompiler::backend::assembly_ast::Program {
        functions: vec![ccompiler::backend::assembly_ast::Function {
            name: "f".to_string(),
            instructions: vec![Asm::Mov { src: Operand::Pseudo("x".to_string()), dst: Operand::Register(Reg::AX) }],
            stack_size: 0,
        }],
    };
    assert!(!ccompiler::backend::code_gen::is_emittable(&bad));
}

#[test]
fn printer_reports_its_level() {
    let mut p = PrettyPrinter::new();
    assert_eq!(p.current_level(), 0);
    p.indent();
    p.indent();
    assert_eq!(p.current_level(), 2);
    p.unindent();
    assert_eq!(p.current_level(), 1);
}
