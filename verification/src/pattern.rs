//! The pattern engine: the parser of the pattern mini-language, the
//! specialization of a parsed pattern to concrete text, and the backtracking
//! matcher.

use vstd::prelude::*;
use crate::ident::Ident;

pub mod compile;
pub mod display;
pub mod matcher;
pub mod parse;

verus! {

/// A variable that a pattern interpolates: a local, named as the parser read
/// it or by its slot once the assembler has resolved it, or a global.
#[derive(Debug, PartialEq, Eq)]
#[allow(inconsistent_fields)]
pub enum Var<Local> {
    Local { name: Local },
    Global { name: Ident },
}

/// A pattern as the parser hands it out.
pub type Ast = parse::Ast<Var<Ident>>;

/// A pattern whose locals the assembler has resolved to slots.
pub type Expr = parse::Ast<Var<usize>>;

/// A pattern that is ready to match.
pub type Pattern = compile::Compiled;

} // verus!
