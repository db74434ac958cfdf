//! Core of a small dynamically-typed scripting language: a single-pass,
//! register-based bytecode compiler together with the NaN-boxed value
//! representation shared with the garbage-collected virtual machine.
//!
//! The compiler lowers an abstract syntax tree into [`Program`], a vector of
//! [`chunk::Chunk`]s; registers are allocated with a strict LIFO discipline,
//! identifiers resolve to locals or lazily materialized upvalues, and jump
//! displacements are backpatched in place.

pub mod ast;
pub mod chunk;
pub mod compiler;
pub mod context;
pub mod error;
pub mod registers;
pub mod value;

pub use chunk::{Chunk, ChunkConstant, InstrType};
pub use compiler::{Compiler, Program};
pub use error::{ErrorType, HissyError};
pub use registers::{ChunkRegisters, MAX_REGISTERS};
pub use value::{GCWrapper, Value, ValueModel, ValueType};
