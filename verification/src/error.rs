//! The errors of tokenizing, parsing and running a program.

use vstd::prelude::*;
use crate::host::{Asked, Request};

verus! {

/// Why a program text was refused or a run was aborted.
#[derive(Clone, Copy, Debug, PartialEq, Eq, Structural)]
pub enum Error {
    /// A piece of an expression that is no token of the language.
    UnrecognizedToken,
    /// A `(` without its `)`, or a `)` without its `(`.
    UnmatchedParenthesis,
    /// A `[` without its `]`, or a `]` without its `[`.
    UnmatchedBracket,
    /// A `{` without its `}`, a `}` without its `{`, or a missing `{`.
    UnmatchedBrace,
    /// An `else` that follows no `if` block.
    UnmatchedElse,
    /// An operand, or a whole expression, is missing.
    EmptyOperand,
    /// An assignment line without `=`.
    MalformedAssignment,
    /// The left side of a vector write is no vector access.
    MalformedVectorWrite,
    /// A variable is read before anything was assigned to it.
    UndeclaredVariable,
    /// An operator is applied to values of the wrong kind.
    TypeMismatch,
    /// A vector index is negative, not finite, or not below the length.
    IndexOutOfRange,
    /// The condition of an `if` or a `while` is no boolean.
    ConditionTypeError,
}

/// Why an evaluation stopped without a value.
#[derive(Debug, PartialEq)]
pub enum Interrupt {
    /// The host has to answer this request before the evaluation can go on.
    Ask(Request),
    /// The evaluation failed for good.
    Fail(Error),
}

/// The mathematical model of an [`Interrupt`].
pub enum Stop {
    Ask(Asked),
    Fail(Error),
}

impl View for Interrupt {
    type V = Stop;

    open spec fn view(&self) -> Stop {
        match self {
            Interrupt::Ask(request) => Stop::Ask(request@),
            Interrupt::Fail(error) => Stop::Fail(*error),
        }
    }
}

} // verus!
