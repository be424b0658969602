//! A Prolog compiler for the LAM bytecode, with a reference VM.
//!
//! Pipeline: tokenize, parse, compile, emit `.lam` text, assemble to
//! cells, and run on the reference VM.

pub mod assembler;
pub mod clause_wf;
pub mod compile;
pub mod demos;
pub mod emit;
pub mod laws;
pub mod parse;
pub mod port;
pub mod refvm;
pub mod runner;
pub mod text;
pub mod tokenize;
pub mod ui;
