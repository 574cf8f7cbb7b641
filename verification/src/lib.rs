//! Raw code generation for the Vredrs language.

pub mod ast;
pub mod bytes;
pub mod cstar;
pub mod emit_laws;
pub mod emit_llvm;
pub mod error;
pub mod ir;
pub mod llvm_run;
pub mod meaning;
pub mod number_laws;
pub mod static_code;
pub mod text;
