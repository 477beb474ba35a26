pub mod c_ast;
pub mod c_ast_print;
pub mod loop_labeling;
pub mod parser;
pub mod reslove_var;
pub mod resolve_ident;
pub mod type_checking;
pub mod validate;
