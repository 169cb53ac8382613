//! A compiler from WebAssembly binary modules to x86-64 machine code, with
//! its code generator and linker verified against contracts.

pub mod codegen;
pub mod frontend;
mod emit;
pub mod kernel;
pub mod machine;
pub mod module;
pub mod types;

pub use frontend::X86_64Compiler;
pub use types::Error;
pub use module::{AssembledModule, FunctionIdentifier, FunctionIndex, Module};
