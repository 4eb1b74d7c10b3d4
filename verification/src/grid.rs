//! The mathematical model of a Sudoku grid.
//!
//! A grid is a sequence of nine rows of nine cells. A cell holds `0` when it
//! is empty and a digit from 1 to 9 when it is filled. Everything the
//! executable code promises is stated over the functions of this module.

use vstd::prelude::*;

verus! {

/// `true` for the coordinates of a cell of the grid.
pub open spec fn in_bounds(row: int, col: int) -> bool {
    0 <= row < 9 && 0 <= col < 9
}

/// Nine rows of nine cells, each cell between 0 and 9.
pub open spec fn well_formed(g: Seq<Seq<u8>>) -> bool {
    &&& g.len() == 9
    &&& forall|r: int| 0 <= r < 9 ==> (#[trigger] g[r]).len() == 9
    &&& forall|r: int, c: int| in_bounds(r, c) ==> #[trigger] g[r][c] <= 9
}

/// The grid `g` with the cell at (`row`, `col`) overwritten by `value`.
pub open spec fn with_cell(g: Seq<Seq<u8>>, row: int, col: int, value: u8) -> Seq<Seq<u8>> {
    g.update(row, g[row].update(col, value))
}

/// First row, or first column, of the 3x3 box that holds row, or column, `i`.
pub open spec fn box_start(i: int) -> int {
    i - i % 3
}

/// `value` is held by one of the nine cells of row `row`.
pub open spec fn in_row(g: Seq<Seq<u8>>, row: int, value: u8) -> bool {
    exists|c: int| 0 <= c < 9 && #[trigger] g[row][c] == value
}

/// `value` is held by one of the nine cells of column `col`.
pub open spec fn in_col(g: Seq<Seq<u8>>, col: int, value: u8) -> bool {
    exists|r: int| 0 <= r < 9 && #[trigger] g[r][col] == value
}

/// `value` is held by one of the nine cells of the 3x3 box around (`row`, `col`).
pub open spec fn in_box(g: Seq<Seq<u8>>, row: int, col: int, value: u8) -> bool {
    exists|r: int, c: int|
        box_start(row) <= r < box_start(row) + 3 && box_start(col) <= c < box_start(col) + 3
            && #[trigger] g[r][c] == value
}

/// `value` may be written at (`row`, `col`): the cell is inside the grid, it
/// is empty, and neither its row, nor its column, nor its box holds `value`.
pub open spec fn legal_placement(g: Seq<Seq<u8>>, row: int, col: int, value: u8) -> bool {
    &&& in_bounds(row, col)
    &&& g[row][col] == 0
    &&& !in_row(g, row, value)
    &&& !in_col(g, col, value)
    &&& !in_box(g, row, col, value)
}

/// The two cells lie in one row, in one column or in one 3x3 box.
pub open spec fn share_unit(r1: int, c1: int, r2: int, c2: int) -> bool {
    r1 == r2 || c1 == c2 || (box_start(r1) == box_start(r2) && box_start(c1) == box_start(c2))
}

/// Two different cells of one row, one column or one box.
pub open spec fn peers(r1: int, c1: int, r2: int, c2: int) -> bool {
    share_unit(r1, c1, r2, c2) && !(r1 == r2 && c1 == c2)
}

/// No other cell of its row, its column or its box holds what (`row`, `col`) holds.
pub open spec fn unique_in_units(g: Seq<Seq<u8>>, row: int, col: int) -> bool {
    forall|r: int, c: int|
        in_bounds(r, c) && peers(row, col, r, c) ==> #[trigger] g[r][c] != g[row][col]
}

/// No row, column or box holds the same digit twice.
pub open spec fn consistent(g: Seq<Seq<u8>>) -> bool {
    forall|r: int, c: int|
        in_bounds(r, c) && #[trigger] g[r][c] != 0 ==> unique_in_units(g, r, c)
}

/// No cell is empty.
pub open spec fn is_full(g: Seq<Seq<u8>>) -> bool {
    forall|r: int, c: int| in_bounds(r, c) ==> #[trigger] g[r][c] != 0
}

/// (`r1`, `c1`) comes before (`r2`, `c2`) when the grid is read row by row.
pub open spec fn precedes(r1: int, c1: int, r2: int, c2: int) -> bool {
    r1 < r2 || (r1 == r2 && c1 < c2)
}

/// (`row`, `col`) is the first empty cell when the grid is read row by row.
pub open spec fn first_empty(g: Seq<Seq<u8>>, row: int, col: int) -> bool {
    &&& in_bounds(row, col)
    &&& g[row][col] == 0
    &&& forall|r: int, c: int|
        in_bounds(r, c) && precedes(r, c, row, col) ==> #[trigger] g[r][c] != 0
}

/// `h` is what a search can reach from `g`: the cells that `g` has filled are
/// kept, and every other cell is still empty or holds a digit that no other
/// cell of its row, column or box holds.
pub open spec fn extends(g: Seq<Seq<u8>>, h: Seq<Seq<u8>>) -> bool {
    &&& well_formed(h)
    &&& forall|r: int, c: int|
        in_bounds(r, c) ==> if g[r][c] != 0 {
            #[trigger] h[r][c] == g[r][c]
        } else {
            h[r][c] == 0 || unique_in_units(h, r, c)
        }
}

/// `h` fills `g`: it extends `g` and leaves no cell empty.
pub open spec fn fills(g: Seq<Seq<u8>>, h: Seq<Seq<u8>>) -> bool {
    extends(g, h) && is_full(h)
}

/// `h` solves the puzzle `g` in the usual sense: it keeps the digits of
/// `g`, leaves no cell empty and holds no digit twice in a row, a column or
/// a box.
pub open spec fn solves(g: Seq<Seq<u8>>, h: Seq<Seq<u8>>) -> bool {
    &&& well_formed(h)
    &&& is_full(h)
    &&& consistent(h)
    &&& forall|r: int, c: int| in_bounds(r, c) && g[r][c] != 0 ==> #[trigger] h[r][c] == g[r][c]
}

/// Some grid fills `g`.
pub open spec fn solvable(g: Seq<Seq<u8>>) -> bool {
    exists|h: Seq<Seq<u8>>| fills(g, h)
}

/// `h` and `k` hold the same values in every cell before (`row`, `col`).
pub open spec fn agree_before(h: Seq<Seq<u8>>, k: Seq<Seq<u8>>, row: int, col: int) -> bool {
    forall|r: int, c: int|
        in_bounds(r, c) && precedes(r, c, row, col) ==> #[trigger] h[r][c] == #[trigger] k[r][c]
}

/// `h` is `k`, or `h` holds the smaller digit in the first cell, read row by
/// row, where the two differ.
pub open spec fn lex_le(h: Seq<Seq<u8>>, k: Seq<Seq<u8>>) -> bool {
    h == k || exists|r: int, c: int|
        in_bounds(r, c) && #[trigger] agree_before(h, k, r, c) && h[r][c] < k[r][c]
}

/// `h` is the first of the grids that fill `g`, in the order `lex_le`.
pub open spec fn first_solution(g: Seq<Seq<u8>>, h: Seq<Seq<u8>>) -> bool {
    &&& fills(g, h)
    &&& forall|k: Seq<Seq<u8>>| #[trigger] fills(g, k) ==> lex_le(h, k)
}

/// What a search leaves behind: where it succeeds, `after` is the first
/// solution of `before`; where it fails, nothing fills `before` and `after`
/// is `before`.
pub open spec fn search_outcome(before: Seq<Seq<u8>>, after: Seq<Seq<u8>>, solved: bool) -> bool {
    if solved {
        first_solution(before, after)
    } else {
        after == before && !solvable(before)
    }
}

/// Number of empty cells among the first `n` cells of `g`, read row by row.
pub open spec fn empty_among(g: Seq<Seq<u8>>, n: nat) -> nat
    decreases n,
{
    if n == 0 {
        0
    } else {
        let i = (n - 1) as int;
        empty_among(g, (n - 1) as nat) + if g[i / 9][i % 9] == 0 {
            1nat
        } else {
            0nat
        }
    }
}

/// Number of empty cells of `g`.
pub open spec fn empty_count(g: Seq<Seq<u8>>) -> nat {
    empty_among(g, 81)
}

/// The grid whose rows are the nine chunks of nine values of `v`.
pub open spec fn from_flat(v: Seq<u8>) -> Seq<Seq<u8>> {
    Seq::new(9, |r: int| v.subrange(9 * r, 9 * r + 9))
}

/// The 81 cells of `g`, row after row.
pub open spec fn flatten(g: Seq<Seq<u8>>) -> Seq<u8> {
    Seq::new(81, |i: int| g[i / 9][i % 9])
}

/// 81 values, each between 0 and 9.
pub open spec fn flat_well_formed(v: Seq<u8>) -> bool {
    v.len() == 81 && forall|i: int| 0 <= i < 81 ==> #[trigger] v[i] <= 9
}

} // verus!
