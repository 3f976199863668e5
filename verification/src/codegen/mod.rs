//! Code generation: string layout and Wasm-GC module emission.

pub mod memory_layout;
pub mod wasm;
pub mod model;
pub mod wasm_gc;
pub mod protocol;

pub use memory_layout::StringTable;
pub use wasm_gc::WasmGcCompiler;
