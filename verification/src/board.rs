//! The board: a 9x9 matrix of cells and the operations on it.

use crate::error::SolveError;
use crate::grid::{
    box_start, consistent, empty_count, extends, fills, first_empty, flat_well_formed, flatten,
    from_flat,
    in_bounds, in_box, in_col, in_row, is_full, legal_placement, search_outcome, solvable,
    well_formed, with_cell,
};
use crate::laws::{
    extends_is_transitive, from_flat_inverts_flatten, placement_extends,
    reached_grids_stay_consistent,
};
use crate::lemmas::{
    equal_cells_equal_grids, filling_goes_through_placement, filling_lowers_empty_count,
    first_solution_through_placement, full_grid_is_its_first_solution,
    with_cell_changes_one_cell,
};
use crate::text::{
    digit_text, parse_grid, parsed_grid_is_well_formed, read_grid, render_grid,
};
use vstd::prelude::*;
use vstd::string::{StringExecFns, StringSliceAdditionalSpecFns};

verus! {

/// A Sudoku board. A cell holds 0 when it is empty, else its digit.
#[derive(Debug)]
pub struct Board {
    cells: [[u8; 9]; 9],
}

impl Board {
    #[verifier::type_invariant]
    spec fn cells_in_range(&self) -> bool {
        forall|r: int, c: int| in_bounds(r, c) ==> #[trigger] self.cells[r][c] <= 9
    }

    /// The rows of the board, first to last.
    pub closed spec fn view(&self) -> Seq<Seq<u8>> {
        Seq::new(9, |r: int| self.cells[r]@)
    }

    /// Builds a board from its 81 cells, given row after row. Anything but
    /// 81 values between 0 and 9 is refused.
    pub fn new(data: &[u8]) -> (result: Result<Board, SolveError>)
        ensures
            match result {
                Ok(board) => flat_well_formed(data@) && board@ == from_flat(data@) && well_formed(
                    board@,
                ),
                Err(e) => e == SolveError::MalformedInput && !flat_well_formed(data@),
            },
    {
        if data.len() != 81 {
            return Err(SolveError::MalformedInput);
        }
        let mut cells: [[u8; 9]; 9] = [[0u8; 9]; 9];
        let mut index: usize = 0;
        while index < 81
            invariant
                index <= 81,
                data@.len() == 81,
                forall|r: int, c: int| in_bounds(r, c) ==> #[trigger] cells[r][c] <= 9,
                forall|r: int, c: int|
                    in_bounds(r, c) && 9 * r + c < index ==> #[trigger] cells[r][c] == data@[9 * r
                        + c],
                forall|i: int| 0 <= i < index ==> #[trigger] data@[i] <= 9,
            decreases 81 - index,
        {
            let value = data[index];
            if value > 9 {
                return Err(SolveError::MalformedInput);
            }
            cells[index / 9][index % 9] = value;
            index += 1;
        }
        let board = Board { cells };
        proof {
            assert forall|r: int| 0 <= r < 9 implies #[trigger] board@[r] =~= from_flat(
                data@,
            )[r] by {
                assert forall|c: int| 0 <= c < 9 implies board@[r][c] == from_flat(data@)[r][c] by {}
            }
            board.view_is_well_formed();
        }
        Ok(board)
    }

    /// Reads a board from its text form: nine lines, each of nine values
    /// between 0 and 9 with commas between them. Any other text is refused.
    pub fn from_csv(text: &str) -> (result: Result<Board, SolveError>)
        ensures
            match result {
                Ok(board) => parse_grid(text.spec_bytes()) == Some(board@) && well_formed(board@),
                Err(e) => e == SolveError::MalformedInput && parse_grid(text.spec_bytes()) is None,
            },
    {
        match read_grid(text.as_bytes()) {
            Some(values) => {
                proof {
                    parsed_grid_is_well_formed(text.spec_bytes());
                    from_flat_inverts_flatten(parse_grid(text.spec_bytes()).unwrap());
                }
                Board::new(values.as_slice())
            },
            None => Err(SolveError::MalformedInput),
        }
    }

    /// The 81 cells of the board, row after row.
    pub fn get_nums(&self) -> (nums: Vec<u8>)
        ensures
            nums@ == flatten(self@),
            flat_well_formed(nums@),
    {
        let mut nums: Vec<u8> = Vec::new();
        let mut index: usize = 0;
        while index < 81
            invariant
                index <= 81,
                nums@.len() == index,
                forall|i: int| 0 <= i < index ==> #[trigger] nums@[i] == self@[i / 9][i % 9],
            decreases 81 - index,
        {
            nums.push(self.value_at(index / 9, index % 9));
            index += 1;
        }
        proof {
            use_type_invariant(self);
            self.view_is_well_formed();
            from_flat_inverts_flatten(self@);
        }
        nums
    }

    /// The board as text: one line for each row, and in it each cell as a
    /// space, its digit and a space.
    pub fn render(&self) -> (text: String)
        ensures
            text@ == render_grid(self@),
    {
        let mut text = String::new();
        let mut row: usize = 0;
        while row < 9
            invariant
                row <= 9,
                text@.len() == 28 * row,
                forall|i: int| 0 <= i < text@.len() ==> #[trigger] text@[i] == render_grid(self@)[i],
            decreases 9 - row,
        {
            let mut col: usize = 0;
            while col < 9
                invariant
                    row < 9,
                    col <= 9,
                    text@.len() == 28 * row + 3 * col,
                    forall|i: int|
                        0 <= i < text@.len() ==> #[trigger] text@[i] == render_grid(self@)[i],
                decreases 9 - col,
            {
                let value = self.value_at(row, col);
                proof {
                    reveal_strlit(" ");
                }
                text.append(" ");
                text.append(digit_text(value));
                text.append(" ");
                proof {
                    assert forall|i: int| 0 <= i < text@.len() implies #[trigger] text@[i]
                        == render_grid(self@)[i] by {}
                }
                col += 1;
            }
            proof {
                reveal_strlit("\n");
            }
            text.append("\n");
            proof {
                assert forall|i: int| 0 <= i < text@.len() implies #[trigger] text@[i]
                    == render_grid(self@)[i] by {}
            }
            row += 1;
        }
        text
    }

    /// The value of the cell at (`row`, `col`).
    pub fn value_at(&self, row: usize, col: usize) -> (value: u8)
        requires
            row < 9,
            col < 9,
        ensures
            value == self@[row as int][col as int],
            value <= 9,
    {
        proof {
            use_type_invariant(self);
        }
        self.cells[row][col]
    }

    /// Whether `value` may be written at (`row`, `col`): the cell is on the
    /// board and empty, and its row, its column and its box are free of `value`.
    pub fn valid_move(&self, row: usize, col: usize, value: u8) -> (legal: bool)
        ensures
            legal == legal_placement(self@, row as int, col as int, value),
    {
        if row >= 9 || col >= 9 {
            return false;
        }
        if self.value_at(row, col) != 0 {
            return false;
        }
        !self.in_row(row, value) && !self.in_col(col, value) && !self.in_grid(row, col, value)
    }

    /// Whether a cell of row `row` holds `value`.
    pub fn in_row(&self, row: usize, value: u8) -> (found: bool)
        requires
            row < 9,
        ensures
            found == in_row(self@, row as int, value),
    {
        let mut col: usize = 0;
        while col < 9
            invariant
                row < 9,
                col <= 9,
                forall|c: int| 0 <= c < col ==> #[trigger] self@[row as int][c] != value,
            decreases 9 - col,
        {
            if self.value_at(row, col) == value {
                return true;
            }
            col += 1;
        }
        false
    }

    /// Whether a cell of column `col` holds `value`.
    pub fn in_col(&self, col: usize, value: u8) -> (found: bool)
        requires
            col < 9,
        ensures
            found == in_col(self@, col as int, value),
    {
        let mut row: usize = 0;
        while row < 9
            invariant
                col < 9,
                row <= 9,
                forall|r: int| 0 <= r < row ==> #[trigger] self@[r][col as int] != value,
            decreases 9 - row,
        {
            if self.value_at(row, col) == value {
                return true;
            }
            row += 1;
        }
        false
    }

    /// Whether a cell of the 3x3 box around (`row`, `col`) holds `value`.
    pub fn in_grid(&self, row: usize, col: usize, value: u8) -> (found: bool)
        requires
            row < 9,
            col < 9,
        ensures
            found == in_box(self@, row as int, col as int, value),
    {
        let start_row: usize = row - row % 3;
        let start_col: usize = col - col % 3;
        let mut i: usize = start_row;
        while i < start_row + 3
            invariant
                start_row == box_start(row as int),
                start_col == box_start(col as int),
                start_row <= i <= start_row + 3,
                start_row + 3 <= 9,
                start_col + 3 <= 9,
                forall|r: int, c: int|
                    start_row <= r < i && start_col <= c < start_col + 3 ==> #[trigger] self@[r][c]
                        != value,
            decreases start_row + 3 - i,
        {
            let mut j: usize = start_col;
            while j < start_col + 3
                invariant
                    start_row == box_start(row as int),
                    start_col == box_start(col as int),
                    start_row <= i < start_row + 3,
                    start_col <= j <= start_col + 3,
                    start_row + 3 <= 9,
                    start_col + 3 <= 9,
                    forall|r: int, c: int|
                        start_row <= r < i && start_col <= c < start_col + 3
                            ==> #[trigger] self@[r][c] != value,
                    forall|c: int| start_col <= c < j ==> #[trigger] self@[i as int][c] != value,
                decreases start_col + 3 - j,
            {
                if self.value_at(i, j) == value {
                    return true;
                }
                j += 1;
            }
            i += 1;
        }
        false
    }

    /// Fills the empty cells by depth-first search: the first empty cell,
    /// read row by row, takes the digits 1 to 9 in turn, and the first digit
    /// that leads to a full board stays. On success the board holds the first
    /// solution; on failure it is left as it was.
    pub fn solve(&mut self) -> (result: Result<(), SolveError>)
        ensures
            result == if solvable(old(self)@) {
                Ok::<(), SolveError>(())
            } else {
                Err(SolveError::NoSolution)
            },
            search_outcome(old(self)@, final(self)@, result is Ok),
            is_full(old(self)@) ==> result is Ok && final(self)@ == old(self)@,
            well_formed(old(self)@),
            extends(old(self)@, final(self)@),
            consistent(old(self)@) ==> consistent(final(self)@),
        decreases empty_count(old(self)@),
    {
        proof {
            use_type_invariant(&*self);
            self.view_is_well_formed();
        }
        if self.is_solved() {
            proof {
                full_grid_is_its_first_solution(self@);
            }
            return Ok(());
        }
        let ghost start = self@;
        match self.next_empty() {
            Some((row, col)) => {
                let mut value: u8 = 1;
                while value <= 9
                    invariant
                        1 <= value <= 10,
                        self@ == start,
                        old(self)@ == start,
                        well_formed(start),
                        first_empty(start, row as int, col as int),
                        forall|k: Seq<Seq<u8>>|
                            #[trigger] fills(start, k) ==> k[row as int][col as int] >= value,
                    decreases 10 - value,
                {
                    if self.valid_move(row, col, value) {
                        self.set_num(row, col, value);
                        let ghost placed = self@;
                        proof {
                            filling_lowers_empty_count(start, row as int, col as int, value);
                            placement_extends(start, start, row as int, col as int, value);
                        }
                        assert(extends(start, placed));
                        match self.solve() {
                            Ok(_) => {
                                proof {
                                    first_solution_through_placement(
                                        start,
                                        row as int,
                                        col as int,
                                        value,
                                        self@,
                                    );
                                    extends_is_transitive(start, placed, self@);
                                    if consistent(start) {
                                        reached_grids_stay_consistent(start, self@);
                                    }
                                }
                                return Ok(());
                            },
                            Err(_) => {},
                        }
                        self.set_num(row, col, 0);
                        proof {
                            with_cell_changes_one_cell(start, row as int, col as int, value);
                            with_cell_changes_one_cell(placed, row as int, col as int, 0);
                            equal_cells_equal_grids(self@, start);
                            assert forall|k: Seq<Seq<u8>>| #[trigger] fills(start, k) implies k[row as int][col as int]
                                != value by {
                                filling_goes_through_placement(start, row as int, col as int, k);
                            }
                        }
                    } else {
                        proof {
                            assert forall|k: Seq<Seq<u8>>| #[trigger] fills(start, k) implies k[row as int][col as int]
                                != value by {
                                filling_goes_through_placement(start, row as int, col as int, k);
                            }
                        }
                    }
                    value += 1;
                }
                proof {
                    assert forall|k: Seq<Seq<u8>>| !fills(start, k) by {
                        if fills(start, k) {
                            filling_goes_through_placement(start, row as int, col as int, k);
                        }
                    }
                }
                Err(SolveError::NoSolution)
            },
            None => Err(SolveError::NoSolution),
        }
    }

    /// The board's view has the shape and the values of a grid.
    proof fn view_is_well_formed(&self)
        requires
            self.cells_in_range(),
        ensures
            well_formed(self@),
    {
        assert forall|r: int, c: int| in_bounds(r, c) implies #[trigger] self@[r][c] <= 9 by {}
    }

    /// Whether no cell is empty.
    pub fn is_solved(&self) -> (full: bool)
        ensures
            full == is_full(self@),
    {
        let mut row: usize = 0;
        while row < 9
            invariant
                row <= 9,
                forall|r: int, c: int| 0 <= r < row && 0 <= c < 9 ==> #[trigger] self@[r][c] != 0,
            decreases 9 - row,
        {
            let mut col: usize = 0;
            while col < 9
                invariant
                    row < 9,
                    col <= 9,
                    forall|r: int, c: int|
                        0 <= r < row && 0 <= c < 9 ==> #[trigger] self@[r][c] != 0,
                    forall|c: int| 0 <= c < col ==> #[trigger] self@[row as int][c] != 0,
                decreases 9 - col,
            {
                if self.value_at(row, col) == 0 {
                    return false;
                }
                col += 1;
            }
            row += 1;
        }
        true
    }

    /// The first empty cell, reading the board row by row, if there is one.
    pub fn next_empty(&self) -> (cell: Option<(usize, usize)>)
        ensures
            match cell {
                Some((row, col)) => first_empty(self@, row as int, col as int),
                None => is_full(self@),
            },
    {
        let mut row: usize = 0;
        while row < 9
            invariant
                row <= 9,
                forall|r: int, c: int| 0 <= r < row && 0 <= c < 9 ==> #[trigger] self@[r][c] != 0,
            decreases 9 - row,
        {
            let mut col: usize = 0;
            while col < 9
                invariant
                    row < 9,
                    col <= 9,
                    forall|r: int, c: int|
                        0 <= r < row && 0 <= c < 9 ==> #[trigger] self@[r][c] != 0,
                    forall|c: int| 0 <= c < col ==> #[trigger] self@[row as int][c] != 0,
                decreases 9 - col,
            {
                if self.value_at(row, col) == 0 {
                    return Some((row, col));
                }
                col += 1;
            }
            row += 1;
        }
        None
    }

    /// Overwrites the cell at (`row`, `col`), whatever it holds.
    pub fn set_num(&mut self, row: usize, col: usize, value: u8)
        requires
            row < 9,
            col < 9,
            value <= 9,
        ensures
            final(self)@ == with_cell(old(self)@, row as int, col as int, value),
            well_formed(final(self)@),
    {
        proof {
            use_type_invariant(&*self);
        }
        self.cells[row][col] = value;
    }
}

} // verus!
