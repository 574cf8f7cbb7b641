//! The C* raw backend: physical code without a runtime.

pub mod advanced;
pub mod annotations;
pub mod codegen;
pub mod filter;
pub mod hardware;
pub mod hash;
pub mod linear;
pub mod llvm;
pub mod llvm_laws;
pub mod lower;
pub mod packages;
pub mod pir;
pub mod program;
pub mod raw;
pub mod value_laws;
