//! A compiler for the Adder language: S-expression source text is read into an
//! abstract syntax tree, which is compiled to x86-64 assembly text; and the
//! decisions of the runtime that runs the compiled code.
pub mod text;
pub mod ident;
pub mod ast;
pub mod error;
pub mod sexpr;
pub mod parser;
pub mod assembly;
pub mod env;
pub mod compiler;
pub mod runtime;
pub mod props;
pub mod laws;
pub mod shape;
pub mod layout;
pub mod wellformed;
pub mod meaning;
pub mod words;
