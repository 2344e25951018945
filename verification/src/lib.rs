//! A tree-walking interpreter for a small dynamically typed scripting
//! language: arithmetic, boolean and string expressions, variables with
//! block-scoped lexical environments, `print` statements and `while` loops.
//!
//! The pipeline is scanner -> parser -> interpreter. Each stage carries a
//! specification-level mirror (`spec` functions over sequences and maps), and
//! every executable stage is proved to agree with its mirror.
//!
//! Numbers in the language are 64-bit signed integers. An arithmetic result
//! that falls outside that range, a division by zero, or an operator applied
//! to operands of the wrong kind all yield the `Nil` value instead of
//! failing, so evaluation only stops on an assignment to an undeclared name
//! or on an exhausted step budget.

pub mod text;

pub mod literal;

pub mod token_type;

pub mod token;

pub mod expression;

pub mod statement;

pub mod environment;

pub mod scanner;

pub mod parser;

pub mod interpreter;

pub mod laws;

