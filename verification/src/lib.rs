//! The front and middle of a small compiler: tokens, a syntax tree, a linear
//! intermediate representation, the lowering pass that produces it, and an
//! interpreter that runs it, both directly and at compile time.
//!
//! Nothing in here reads or writes files or prints. What the print
//! intrinsic emits is collected, line by line, in an output sink that the
//! caller owns. Single-precision numbers are carried by their bit pattern:
//! reading one from text and showing one as text is left to the caller.
//! Every failure comes back as an error value; no function stops the
//! process.

#![allow(non_camel_case_types)]

pub mod ast;
pub mod codegen;
pub mod compiler;
pub mod comptime;
pub mod ir;
pub mod ir_interpret;
pub mod ir_names;
pub mod ir_parse;
pub mod ir_text;
pub mod lex;
pub mod number;
pub mod optimize;
pub mod parse;
pub mod symtable;
pub mod text;
pub mod token;
pub mod types;
