//! A compiler for integer arithmetic expressions: source text is split into
//! tokens, parsed by recursive descent into a syntax tree, and lowered to a
//! stack-machine instruction sequence whose run yields the expression's value.
pub mod ast;
pub mod codegen;
pub mod compiler;
pub mod lexer;
pub mod parser;
