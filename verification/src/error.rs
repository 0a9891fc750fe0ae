//! The failure modes of the pipeline. Each stage returns a `Result`; the
//! first failure short-circuits the later stages and is surfaced verbatim.

use vstd::prelude::*;

verus! {

/// An error raised by one of the pipeline stages.
#[derive(Debug, Clone, PartialEq)]
pub enum Error {
    /// The right operand of a division evaluated to zero.
    DivisionByZero,
    /// The token sequence is empty or otherwise not an expression.
    InvalidExpression(String),
    /// A merged numeral starts or ends with a dot, or holds two dots.
    InvalidNumberLiteral,
    /// An operand slot of the tree was left unset.
    InvalidOperand,
    /// A token appeared where the grammar forbids it.
    InvalidTokenSequence,
    /// A value escaped the range that the evaluator can hold exactly.
    Overflow,
    /// A token in an operand slot is not a number.
    TokenNaN,
    /// The operator slot does not hold an operator token.
    TokenNaO,
    /// A character of the input matches no lexical symbol; carries the
    /// unmatched remainder of the input.
    UndefinedSymbol(String),
}

/// The mathematical shape of an `Error`: message payloads become
/// character sequences.
pub enum ErrorV {
    DivisionByZero,
    InvalidExpression(Seq<char>),
    InvalidNumberLiteral,
    InvalidOperand,
    InvalidTokenSequence,
    Overflow,
    TokenNaN,
    TokenNaO,
    UndefinedSymbol(Seq<char>),
}

impl View for Error {
    type V = ErrorV;

    open spec fn view(&self) -> ErrorV {
        match self {
            Error::DivisionByZero => ErrorV::DivisionByZero,
            Error::InvalidExpression(m) => ErrorV::InvalidExpression(m@),
            Error::InvalidNumberLiteral => ErrorV::InvalidNumberLiteral,
            Error::InvalidOperand => ErrorV::InvalidOperand,
            Error::InvalidTokenSequence => ErrorV::InvalidTokenSequence,
            Error::Overflow => ErrorV::Overflow,
            Error::TokenNaN => ErrorV::TokenNaN,
            Error::TokenNaO => ErrorV::TokenNaO,
            Error::UndefinedSymbol(m) => ErrorV::UndefinedSymbol(m@),
        }
    }
}

impl DeepView for Error {
    type V = ErrorV;

    open spec fn deep_view(&self) -> ErrorV {
        self.view()
    }
}

/// The mathematical shape of a stage result: the payload and the error
/// are both taken to their views.
pub open spec fn result_view<T: DeepView>(r: Result<T, Error>) -> Result<T::V, ErrorV> {
    match r {
        Ok(t) => Ok(t.deep_view()),
        Err(e) => Err(e@),
    }
}

} // verus!
