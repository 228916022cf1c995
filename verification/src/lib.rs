//! A slice of a code generator: the stack slots of a function, and the translation of a binary
//! WebAssembly function into the intermediate language.

pub mod frontend;
pub mod ir;
pub mod result;
pub mod text;
pub mod wasm;
