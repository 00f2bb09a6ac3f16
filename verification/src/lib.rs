//! A compiler for an indentation-structured stylesheet language: a lexer
//! built from a fixed chain of matchers, an indentation-aware recursive
//! descent parser, and an emitter that resolves variable references while
//! rendering the nested-brace output.

pub mod ast;
pub mod compiler;
pub mod diagnostic;
pub mod lexer;
pub mod matcher;
pub mod parser;
pub mod paths;
pub mod pipeline;
pub mod scan;
pub mod source;
pub mod token;
pub mod tokenizer;
