//! A front end and two back ends for Quantum Kaledioscope, a small imperative
//! language whose values are numbers, bits and references to qubits.
//!
//! A tree of grammar nodes becomes a typed, located syntax tree
//! ([`ast_builder`]); the tree's top-level names are gathered in a function
//! table; the program is then either evaluated ([`interpreter`]), as
//! [`semantics`] says, or lowered ([`codegen`]), as [`lowering`] says, to a
//! native module that keeps every local variable in a stack slot
//! ([`native`]).
pub mod span;
pub mod ast;
pub mod parser;
pub mod error;
pub mod util;
pub mod ast_builder;
pub mod table;
pub mod interpreter;
pub mod semantics;
pub mod native;
pub mod lowering;
pub mod codegen;
