pub mod assembly_emitter;
pub mod assembly_ir;
pub mod codegen;
