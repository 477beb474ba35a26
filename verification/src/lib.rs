pub mod analysis;
pub mod ast_printer;
pub mod backend;
pub mod codegen;
pub mod common;
pub mod common_ids;
pub mod driver;
pub mod error;
pub mod frontend;
pub mod lexer;
pub mod name_gen;
pub mod parser;
pub mod tacky;
pub mod text;

pub use name_gen::UniqueNameGenerator;
