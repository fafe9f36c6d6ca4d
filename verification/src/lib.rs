//! Front end of a small compiled language: a parser from source text to a
//! syntax tree, and a lowering pass from the syntax tree to a backend module
//! of data definitions and functions.
//!
//! - `grammar` says what the language is, `parse` reads it, and `whitespace`
//!   shows where whitespace in a text does not matter.
//! - `compile` lowers a tree to a module of `ir`, and `emit` hands the module
//!   to the `qbe` crate and writes it as text.
//! - `pipeline` runs the stages one after the other on a source text.

pub mod ast;
pub mod compile;
pub mod emit;
pub mod float;
pub mod grammar;
pub mod ir;
pub mod number;
pub mod parse;
pub mod pipeline;
pub mod text;
pub mod whitespace;

pub use ast::{Atom, Expr};
pub use compile::{compile, NodeKind, Place, UnsupportedConstruct};
pub use emit::{emit, to_backend};
pub use grammar::{Failure, ParseError, ParseErrorKind};
pub use pipeline::{artifacts, command, compile_text, Artifacts, Command, Error};
pub use parse::{
    parse_ast, parse_atom, parse_call, parse_constant, parse_declare, parse_expr, parse_float,
    parse_function, parse_name, parse_number, parse_statements, parse_string, parse_symbol,
    skip_space,
};
