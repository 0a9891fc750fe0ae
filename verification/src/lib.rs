//! A small calculator library: arithmetic formulas supplied as text are
//! tokenized, parsed into a binary expression tree honoring operator
//! precedence and bracket nesting, evaluated exactly, and rendered back
//! as a decimal string.

pub mod error;
pub mod interpreter;
pub mod parser;
pub mod tokenizer;

use vstd::prelude::*;

use error::{result_view, Error};
use interpreter::spec_run;

verus! {

/// The calculator's entry point.
pub struct Calc;

impl Calc {
    /// Evaluates a formula to its decimal result; see `spec_run`.
    pub fn calculate(formula: String) -> (r: Result<String, Error>)
        ensures
            result_view(r) == spec_run(formula@),
    {
        interpreter::run(formula)
    }
}

} // verus!
