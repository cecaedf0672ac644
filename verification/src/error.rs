//! The errors of the lexer, the assembler, the value domain and the interpreter.

use vstd::prelude::*;
use crate::ident::Ident;
use crate::opcode::Argc;
use crate::text::{nat_text, push_nat, push_str, quote, quote_char, quoted, quoted_char};
use crate::value::Value;

verus! {

/// Everything that can go wrong between source text and a finished run.
#[derive(Debug)]
#[allow(inconsistent_fields)]
pub enum Error {
    StackUnderflow,
    WrongArgc { func: Ident, expected: Argc, found: usize },
    TypeMismatch { expected: &'static str, found: &'static str },
    InvalidIdent { input: String },
    InvalidRegex,
    InvalidEscape,
    IncorrectIndent,
    MalformedString,
    Eof,
    UnimplementedToken { ch: char },
    UnimplementedFeature { feature: &'static str },
    IllegalLvalue,
    IllegalAdd,
    IllegalMultiply,
    DividedByZero,
    NegativeRepetition,
    NegativeIndex,
    IndexOutOfBounds,
    PcOutOfBounds { pc: usize },
    LocalVarOutOfBounds { index: usize },
    ListTooLong,
    MarkTooHigh,
    PoppedLocalVar,
    NoSuchGroup { num: u8 },
    NoSuchGlobal,
    NoSuchLabel,
    NonStaticFunction,
    InternalCompilerErr,
    LabelRedefined,
    VariableRenamed,
    VariableUndefined,
    Assert { expr: String },
    /// A run took more steps than its budget allows.
    OutOfSteps,
    /// The program has called the function that the host keeps under the
    /// number `id`, with the arguments `argv`. The run has stopped for the
    /// host to compute the result and to resume the run with it.
    HostCall { id: usize, argv: Vec<Value> },
    /// A token is out of place: the one that the lexer read from this offset
    /// of the source on.
    Syntax { at: usize },
    WithContext { context: String, cause: Box<Error> },
    WithPosition { cause: Box<Error>, line: usize, column: usize },
}

impl Error {
    /// The human-readable rendering of an error.
    pub open spec fn text(self) -> Seq<char>
        decreases self,
    {
        match self {
            Error::StackUnderflow => "stack underflow"@,
            Error::WrongArgc { func, expected, found } => func@ + " was called with "@
                + expected.text() + " arguments, wanted "@ + nat_text(found as nat),
            Error::TypeMismatch { expected, found } => "expected "@ + expected@ + ", found "@
                + found@,
            Error::InvalidIdent { input } => "invalid identifier "@ + quoted(input@),
            Error::InvalidRegex => "invalid regex"@,
            Error::InvalidEscape => "invalid escape sequence"@,
            Error::IncorrectIndent => "incorrect indentation"@,
            Error::MalformedString => "malformed string"@,
            Error::Eof => "unexpected end of file"@,
            Error::UnimplementedToken { ch } => "token cannot start with "@ + quoted_char(ch),
            Error::UnimplementedFeature { feature } => "feature not implemented: "@ + feature@,
            Error::IllegalLvalue => "illegal lvalue expression"@,
            Error::IllegalAdd => "illegal add"@,
            Error::IllegalMultiply => "illegal multiply"@,
            Error::DividedByZero => "divided by zero"@,
            Error::NegativeRepetition => "negative repetition"@,
            Error::NegativeIndex => "negative index"@,
            Error::IndexOutOfBounds => "index out of bounds"@,
            Error::PcOutOfBounds { pc } => "program counter "@ + nat_text(pc as nat)
                + " out of bounds"@,
            Error::LocalVarOutOfBounds { index } => "local var "@ + nat_text(index as nat)
                + " out of bounds"@,
            Error::ListTooLong => "list too long"@,
            Error::MarkTooHigh => "mark too high"@,
            Error::PoppedLocalVar => "popped a local variable"@,
            Error::NoSuchGroup { num } => "no such group $"@ + nat_text(num as nat),
            Error::NoSuchGlobal => "no such global"@,
            Error::NoSuchLabel => "no such label"@,
            Error::NonStaticFunction => "nested functions are unsupported"@,
            Error::InternalCompilerErr => "internal compiler error"@,
            Error::LabelRedefined => "label redefined"@,
            Error::VariableRenamed => "variable renamed in same scope"@,
            Error::VariableUndefined => "variable not defined"@,
            Error::Assert { expr } => "assertion failed: "@ + expr@,
            Error::OutOfSteps => "step budget exhausted"@,
            Error::HostCall { id, argv } => "call of host function "@ + nat_text(id as nat),
            Error::Syntax { at } => "syntax error at offset "@ + nat_text(at as nat),
            Error::WithContext { context, cause } => "in "@ + context@ + ": "@ + cause.text(),
            Error::WithPosition { cause, line, column } => "line "@ + nat_text(line as nat)
                + ", column "@ + nat_text(column as nat) + ": "@ + cause.text(),
        }
    }

    /// Wraps the error in a breadcrumb that says where it arose.
    pub fn decorate(self, context: String) -> (e: Error)
        ensures
            e == (Error::WithContext { context, cause: Box::new(self) }),
    {
        Error::WithContext { context, cause: Box::new(self) }
    }

    /// Renders the error for a human reader.
    pub fn to_string(&self) -> (s: String)
        ensures
            s@ == self.text(),
        decreases *self,
    {
        let mut s = String::new();
        match self {
            Error::StackUnderflow => push_str(&mut s, "stack underflow"),
            Error::WrongArgc { func, expected, found } => {
                push_str(&mut s, func.as_str());
                push_str(&mut s, " was called with ");
                let e = expected.to_string();
                push_str(&mut s, e.as_str());
                push_str(&mut s, " arguments, wanted ");
                push_nat(&mut s, *found as u64);
            },
            Error::TypeMismatch { expected, found } => {
                push_str(&mut s, "expected ");
                push_str(&mut s, expected);
                push_str(&mut s, ", found ");
                push_str(&mut s, found);
            },
            Error::InvalidIdent { input } => {
                push_str(&mut s, "invalid identifier ");
                let q = quote(input.as_str());
                push_str(&mut s, q.as_str());
            },
            Error::InvalidRegex => push_str(&mut s, "invalid regex"),
            Error::InvalidEscape => push_str(&mut s, "invalid escape sequence"),
            Error::IncorrectIndent => push_str(&mut s, "incorrect indentation"),
            Error::MalformedString => push_str(&mut s, "malformed string"),
            Error::Eof => push_str(&mut s, "unexpected end of file"),
            Error::UnimplementedToken { ch } => {
                push_str(&mut s, "token cannot start with ");
                let q = quote_char(*ch);
                push_str(&mut s, q.as_str());
            },
            Error::UnimplementedFeature { feature } => {
                push_str(&mut s, "feature not implemented: ");
                push_str(&mut s, feature);
            },
            Error::IllegalLvalue => push_str(&mut s, "illegal lvalue expression"),
            Error::IllegalAdd => push_str(&mut s, "illegal add"),
            Error::IllegalMultiply => push_str(&mut s, "illegal multiply"),
            Error::DividedByZero => push_str(&mut s, "divided by zero"),
            Error::NegativeRepetition => push_str(&mut s, "negative repetition"),
            Error::NegativeIndex => push_str(&mut s, "negative index"),
            Error::IndexOutOfBounds => push_str(&mut s, "index out of bounds"),
            Error::PcOutOfBounds { pc } => {
                push_str(&mut s, "program counter ");
                push_nat(&mut s, *pc as u64);
                push_str(&mut s, " out of bounds");
            },
            Error::LocalVarOutOfBounds { index } => {
                push_str(&mut s, "local var ");
                push_nat(&mut s, *index as u64);
                push_str(&mut s, " out of bounds");
            },
            Error::ListTooLong => push_str(&mut s, "list too long"),
            Error::MarkTooHigh => push_str(&mut s, "mark too high"),
            Error::PoppedLocalVar => push_str(&mut s, "popped a local variable"),
            Error::NoSuchGroup { num } => {
                push_str(&mut s, "no such group $");
                push_nat(&mut s, *num as u64);
            },
            Error::NoSuchGlobal => push_str(&mut s, "no such global"),
            Error::NoSuchLabel => push_str(&mut s, "no such label"),
            Error::NonStaticFunction => push_str(&mut s, "nested functions are unsupported"),
            Error::InternalCompilerErr => push_str(&mut s, "internal compiler error"),
            Error::LabelRedefined => push_str(&mut s, "label redefined"),
            Error::VariableRenamed => push_str(&mut s, "variable renamed in same scope"),
            Error::VariableUndefined => push_str(&mut s, "variable not defined"),
            Error::Assert { expr } => {
                push_str(&mut s, "assertion failed: ");
                push_str(&mut s, expr.as_str());
            },
            Error::OutOfSteps => push_str(&mut s, "step budget exhausted"),
            Error::HostCall { id, argv } => {
                push_str(&mut s, "call of host function ");
                push_nat(&mut s, *id as u64);
            },
            Error::Syntax { at } => {
                push_str(&mut s, "syntax error at offset ");
                push_nat(&mut s, *at as u64);
            },
            Error::WithContext { context, cause } => {
                push_str(&mut s, "in ");
                push_str(&mut s, context.as_str());
                push_str(&mut s, ": ");
                let c = cause.to_string();
                push_str(&mut s, c.as_str());
            },
            Error::WithPosition { cause, line, column } => {
                push_str(&mut s, "line ");
                push_nat(&mut s, *line as u64);
                push_str(&mut s, ", column ");
                push_nat(&mut s, *column as u64);
                push_str(&mut s, ": ");
                let c = cause.to_string();
                push_str(&mut s, c.as_str());
            },
        }
        assert(s@ =~= self.text());
        s
    }
}

} // verus!
