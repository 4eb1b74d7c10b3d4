//! Facts about the model on which the search and its laws rest.

use crate::grid::{
    agree_before, empty_among, empty_count, fills, first_empty, first_solution, in_bounds,
    in_box, in_col, in_row, is_full, legal_placement, lex_le, peers, share_unit, well_formed,
    with_cell,
};
use vstd::prelude::*;

verus! {

/// Writing a cell changes that cell and no other, and keeps the shape.
pub proof fn with_cell_changes_one_cell(g: Seq<Seq<u8>>, row: int, col: int, value: u8)
    requires
        well_formed(g),
        in_bounds(row, col),
        value <= 9,
    ensures
        well_formed(with_cell(g, row, col, value)),
        with_cell(g, row, col, value)[row][col] == value,
        forall|r: int, c: int|
            in_bounds(r, c) && !(r == row && c == col) ==> #[trigger] with_cell(
                g,
                row,
                col,
                value,
            )[r][c] == g[r][c],
{
}

/// Two grids of the right shape that agree in every cell are one grid.
pub proof fn equal_cells_equal_grids(g: Seq<Seq<u8>>, h: Seq<Seq<u8>>)
    requires
        well_formed(g),
        well_formed(h),
        forall|r: int, c: int| in_bounds(r, c) ==> #[trigger] g[r][c] == h[r][c],
    ensures
        g == h,
{
    assert forall|r: int| 0 <= r < 9 implies #[trigger] g[r] =~= h[r] by {
        assert forall|c: int| 0 <= c < 9 implies g[r][c] == h[r][c] by {}
    }
}

/// The count of empty cells among the first `n` changes with the one cell written.
proof fn empty_among_after_write(g: Seq<Seq<u8>>, row: int, col: int, value: u8, n: nat)
    requires
        well_formed(g),
        in_bounds(row, col),
        value <= 9,
        n <= 81,
    ensures
        empty_among(with_cell(g, row, col, value), n) + (if n > 9 * row + col && g[row][col] == 0 {
            1int
        } else {
            0int
        }) == empty_among(g, n) + (if n > 9 * row + col && value == 0 {
            1int
        } else {
            0int
        }),
    decreases n,
{
    if n > 0 {
        empty_among_after_write(g, row, col, value, (n - 1) as nat);
        with_cell_changes_one_cell(g, row, col, value);
    }
}

/// Filling an empty cell leaves one empty cell fewer.
pub proof fn filling_lowers_empty_count(g: Seq<Seq<u8>>, row: int, col: int, value: u8)
    requires
        well_formed(g),
        in_bounds(row, col),
        g[row][col] == 0,
        1 <= value <= 9,
    ensures
        empty_count(with_cell(g, row, col, value)) + 1 == empty_count(g),
{
    empty_among_after_write(g, row, col, value, 81);
}

/// A value is kept out of a cell's row, column and box exactly when no cell
/// that shares a unit with it holds the value.
pub proof fn units_free_of_value(g: Seq<Seq<u8>>, row: int, col: int, value: u8)
    requires
        in_bounds(row, col),
    ensures
        (!in_row(g, row, value) && !in_col(g, col, value) && !in_box(g, row, col, value)) <==> (
        forall|r: int, c: int|
            in_bounds(r, c) && share_unit(row, col, r, c) ==> #[trigger] g[r][c] != value),
{
    if !in_row(g, row, value) && !in_col(g, col, value) && !in_box(g, row, col, value) {
        assert forall|r: int, c: int|
            in_bounds(r, c) && share_unit(row, col, r, c) implies #[trigger] g[r][c] != value by {}
    }
}

/// A grid without empty cells is filled by itself and by nothing else.
pub proof fn full_grid_is_its_first_solution(g: Seq<Seq<u8>>)
    requires
        well_formed(g),
        is_full(g),
    ensures
        first_solution(g, g),
{
    assert forall|k: Seq<Seq<u8>>| #[trigger] fills(g, k) implies lex_le(g, k) by {
        assert forall|r: int, c: int| in_bounds(r, c) implies #[trigger] g[r][c] == k[r][c] by {}
        equal_cells_equal_grids(g, k);
    }
}

/// What fills a grid after a legal placement fills the grid before it.
pub proof fn filling_after_placement_fills(
    g: Seq<Seq<u8>>,
    row: int,
    col: int,
    value: u8,
    h: Seq<Seq<u8>>,
)
    requires
        well_formed(g),
        legal_placement(g, row, col, value),
        1 <= value <= 9,
        fills(with_cell(g, row, col, value), h),
    ensures
        fills(g, h),
{
    with_cell_changes_one_cell(g, row, col, value);
    units_free_of_value(g, row, col, value);
    assert forall|r: int, c: int| in_bounds(r, c) && peers(row, col, r, c) implies #[trigger] h[r][c]
        != h[row][col] by {}
}

/// What fills a grid also fills it after the placement, in any empty cell,
/// of the digit that the filled grid holds there; and that placement is legal.
pub proof fn filling_goes_through_placement(g: Seq<Seq<u8>>, row: int, col: int, k: Seq<Seq<u8>>)
    requires
        well_formed(g),
        in_bounds(row, col),
        g[row][col] == 0,
        fills(g, k),
    ensures
        1 <= k[row][col] <= 9,
        legal_placement(g, row, col, k[row][col]),
        fills(with_cell(g, row, col, k[row][col]), k),
{
    let value = k[row][col];
    with_cell_changes_one_cell(g, row, col, value);
    units_free_of_value(g, row, col, value);
    assert forall|r: int, c: int|
        in_bounds(r, c) && share_unit(row, col, r, c) implies #[trigger] g[r][c] != value by {
        if g[r][c] != 0 {
            assert(k[r][c] == g[r][c]);
        }
    }
}

/// The first solution after placing, in the first empty cell, the least
/// digit that any solution holds there is the first solution of the grid.
pub proof fn first_solution_through_placement(
    g: Seq<Seq<u8>>,
    row: int,
    col: int,
    value: u8,
    h: Seq<Seq<u8>>,
)
    requires
        well_formed(g),
        first_empty(g, row, col),
        legal_placement(g, row, col, value),
        1 <= value <= 9,
        first_solution(with_cell(g, row, col, value), h),
        forall|k: Seq<Seq<u8>>| #[trigger] fills(g, k) ==> k[row][col] >= value,
    ensures
        first_solution(g, h),
{
    with_cell_changes_one_cell(g, row, col, value);
    filling_after_placement_fills(g, row, col, value, h);
    assert forall|k: Seq<Seq<u8>>| #[trigger] fills(g, k) implies lex_le(h, k) by {
        filling_goes_through_placement(g, row, col, k);
        if k[row][col] != value {
            assert(agree_before(h, k, row, col));
        }
    }
}

} // verus!
