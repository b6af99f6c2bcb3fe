//! Compiler-construction infrastructure: a multi-level intermediate
//! representation (IR), dialects that extend the IR with new operations,
//! a textual parser that produces IR from source text, a pass pipeline
//! that rewrites IR from one dialect into another, and a printer that
//! renders IR back to its textual form.

pub mod convert;
pub mod dialect;
pub mod digits;
pub mod ir;
pub mod op;
pub mod parser;
pub mod printer;
pub mod token;

use vstd::prelude::*;

use crate::token::TokenKind;

verus! {

/// Dialects can define new operations, attributes, and types.
/// Each dialect is given a unique namespace that is prefixed.
///
/// Dialects can co-exist and can be produced and consumed by different passes.
pub trait Dialect {
    /// The namespace the dialect owns.
    spec fn spec_name(&self) -> Seq<char>;

    /// What the dialect is for.
    spec fn spec_description(&self) -> Seq<char>;

    fn name(&self) -> (r: &'static str)
        ensures
            r@ == self.spec_name(),
    ;

    fn description(&self) -> (r: &'static str)
        ensures
            r@ == self.spec_description(),
    ;
}

/// What a `SyntaxError` complains about.
#[derive(Debug)]
pub enum SyntaxDetail {
    /// A token of one kind was expected, another was found.
    Expected { expected: TokenKind, found: TokenKind },
    /// A character no token may start with.
    UnexpectedCharacter,
    /// An operation name that no registered dialect owns.
    UnknownOperation { name: String },
    /// A `%name` that is neither a block argument nor a prior result.
    UnboundValue { name: String },
    /// An integer literal too large for the machine.
    LiteralOutOfRange,
}

/// The failure conditions of the library.
#[derive(Debug)]
pub enum IrError {
    /// Malformed or unexpected input during parsing; carries the source
    /// position (a character index) where it was found.
    SyntaxError { detail: SyntaxDetail, pos: usize },
    /// A typed downcast did not match the requested operation kind;
    /// recoverable, used for "try this dialect, then that one" dispatch.
    TypeMismatch { expected: String, found: String },
    /// An arity mismatch between declared and actual results while
    /// constructing an operation.
    MalformedOperation,
    /// A conversion pass met an operation inside its declared scope for
    /// which it has no rule; carries the operation's name and position.
    UnsupportedConversion { name: String, pos: usize },
}

} // verus!
