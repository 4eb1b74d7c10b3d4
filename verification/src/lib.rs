//! A solver for 9x9 Sudoku puzzles by depth-first search with backtracking.

use crate::grid::{first_solution, flat_well_formed, from_flat, solvable};
use crate::laws::from_flat_inverts_flatten;
use vstd::prelude::*;
use vstd::slice::slice_to_vec;

pub mod board;
pub mod error;
pub mod grid;
pub mod laws;
pub mod lemmas;
pub mod text;

pub use board::Board;
pub use error::SolveError;

verus! {

/// Solves a puzzle given as 81 values, row after row, and gives the solved
/// board back in the same form. Where the values are no board, or the board
/// has no solution, the values come back as they were given: at this
/// boundary a failure shows only in that.
pub fn solve(numbers: &[u8]) -> (out: Vec<u8>)
    ensures
        if flat_well_formed(numbers@) && solvable(from_flat(numbers@)) {
            flat_well_formed(out@) && first_solution(from_flat(numbers@), from_flat(out@))
        } else {
            out@ == numbers@
        },
{
    match Board::new(numbers) {
        Ok(mut board) => match board.solve() {
            Ok(_) => {
                let out = board.get_nums();
                proof {
                    from_flat_inverts_flatten(board@);
                }
                out
            },
            Err(_) => slice_to_vec(numbers),
        },
        Err(_) => slice_to_vec(numbers),
    }
}

} // verus!
