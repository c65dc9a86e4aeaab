//! A simulator for a small quantum assembly language.
//!
//! A program allocates a register of qubits, builds operators from named
//! gates by tensor product and matrix product, applies them to the
//! register, and measures the register or some of its qubits. The result of
//! a run is the measurement log: for every measurement the collapsed state
//! and the outcome in binary digits.
//!
//! The simulator is written for any type of scalars ([`complex::Scalar`]).
//! Of the matrices, the gates, the measurements and the run of a program it
//! is proved for every scalar type which operations of the type give each
//! entry and outcome, and which misuse gives which error ([`outcomes`]).
//! For scalar types whose arithmetic is exact, such as the complex numbers
//! with integer parts ([`complex::C`]), the values themselves are proved:
//! with the draws of its measurements given, a run is a function of the
//! program ([`executor`]).
//!
//! - [`lexer`], [`parser`], [`printer`]: program text, tokens and statements.
//! - [`complex`], [`matrix`], [`algebra`], [`gates`]: scalars, matrices,
//!   their laws, and the gates.
//! - [`quantum_sim`]: probabilities, measurement and collapse.
//! - [`executor`], [`outcomes`], [`determined`], [`quantum_assembler`]: the
//!   run of a program.
//! - [`algorithms`]: factoring by period finding.
//! - [`double_slit`]: the slit experiment as a chain of transitions.
//! - [`util`], [`text`], [`table`], [`prefabs`], [`chance`]: bit sizes and
//!   binary strings, text, the tables of the memory, the numbers in gate
//!   names, and random numbers.

pub mod algebra;
pub mod algorithms;
pub mod chance;
pub mod complex;
pub mod determined;
pub mod double_slit;
pub mod executor;
pub mod gates;
pub mod lexer;
pub mod matrix;
pub mod outcomes;
pub mod parser;
pub mod prefabs;
pub mod printer;
pub mod quantum_assembler;
pub mod quantum_sim;
pub mod table;
pub mod text;
pub mod util;
