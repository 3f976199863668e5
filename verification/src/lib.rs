//! Volt: a small reactive component language compiled to Wasm-GC.
//!
//! The crate is organised as the compiler pipeline: `syntax` (lexing and
//! parsing), `analysis` (constant folding and reactivity planning) and
//! `codegen` (string table, field layout and Wasm-GC emission).

pub mod text;
pub mod syntax;
pub mod analysis;
pub mod codegen;
pub mod devserver;
