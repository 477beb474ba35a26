pub mod ass_ast;
pub mod ass_gen;
pub mod assembly_ast;
pub mod asm_run;
pub mod assembly_ast_gen;
pub mod code_gen;
pub mod tacky_gen;
pub mod tacky_ir;
pub mod tacky_print;
pub mod tacky_run;
