//! The ways in which building or solving a board can fail.

use vstd::prelude::*;

verus! {

/// Why a board could not be built or solved.
#[derive(Clone, Copy, Debug, PartialEq, Eq, Structural)]
pub enum SolveError {
    /// The input is not a 9x9 grid of values between 0 and 9.
    MalformedInput,
    /// No way of filling the empty cells obeys the rules.
    NoSolution,
}

impl SolveError {
    /// The text shown for this error.
    pub fn message(&self) -> (text: &'static str)
        ensures
            text@ == match *self {
                SolveError::MalformedInput => "Malformed input!"@,
                SolveError::NoSolution => "No solution found!"@,
            },
    {
        match self {
            SolveError::MalformedInput => "Malformed input!",
            SolveError::NoSolution => "No solution found!",
        }
    }
}

} // verus!
