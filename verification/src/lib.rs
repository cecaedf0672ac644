//! A small scripting language with Perl-flavoured syntax: a lexer, an
//! assembler that lowers syntax trees to a flat bytecode, a stack machine that
//! runs it, and a backtracking pattern engine embedded in the language.

pub mod assembler;
pub mod ast;
pub mod error;
pub mod eval;

pub mod ident;
pub mod opcode;
pub mod pattern;
pub mod text;
pub mod token;
pub mod value;

pub use error::Error;
