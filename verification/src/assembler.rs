//! The assembler: a lexer that turns source text into tokens and a parser
//! that turns tokens into instructions and their bytecode.

pub mod lexer;
pub mod parser;
