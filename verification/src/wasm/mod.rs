//! The translation of binary WebAssembly functions.

pub mod environ;
pub mod func_translator;
pub mod laws;
pub mod outcome;
pub mod reader;
pub mod state;
