//! A two-stage toolchain for a simple 16-bit stack computer.
//!
//! The assembler half lowers symbolic assembly text to 16-bit binary
//! words, resolving jump labels and variable symbols with a two-pass
//! symbol table.  The translator half lowers stack-machine operations
//! (push, arithmetic, logic, comparison) to the symbolic assembly the
//! assembler consumes.

pub mod assembler;
pub mod parse;
pub mod encode;
pub mod errors;
pub mod ir;
pub mod symbols;
pub mod text;
pub mod vm;
