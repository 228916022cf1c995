//! The intermediate language: its value types, entities and functions, and the stack slots of a
//! function.

pub mod entities;
pub mod frame;
pub mod function;
pub mod stackslot;
pub mod types;
