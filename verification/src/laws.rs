//! The laws of the library: what holds of every search, of every board
//! and of the two ways between a board and its 81 values.

use crate::grid::{
    box_start, consistent, extends, fills, first_solution, flat_well_formed, flatten, from_flat,
    in_bounds, in_box, in_col, in_row, is_full, legal_placement, lex_le, peers, search_outcome,
    solves, unique_in_units, well_formed, with_cell,
};
use crate::lemmas::{
    full_grid_is_its_first_solution, units_free_of_value, with_cell_changes_one_cell,
};
use vstd::prelude::*;
use vstd::set_lib::{lemma_int_range, lemma_map_size, lemma_subset_equality, set_int_range};

verus! {

/// Every grid is reached from itself.
pub proof fn extends_itself(g: Seq<Seq<u8>>)
    requires
        well_formed(g),
    ensures
        extends(g, g),
{
}

/// A legal placement, made in a grid that a search has reached, gives a grid
/// that the search has reached.
pub proof fn placement_extends(
    start: Seq<Seq<u8>>,
    g: Seq<Seq<u8>>,
    row: int,
    col: int,
    value: u8,
)
    requires
        well_formed(start),
        extends(start, g),
        legal_placement(g, row, col, value),
        1 <= value <= 9,
    ensures
        extends(start, with_cell(g, row, col, value)),
{
    let g2 = with_cell(g, row, col, value);
    with_cell_changes_one_cell(g, row, col, value);
    units_free_of_value(g, row, col, value);
    assert forall|r: int, c: int| in_bounds(r, c) && start[r][c] == 0 && #[trigger] g2[r][c]
        != 0 implies unique_in_units(g2, r, c) by {
        assert forall|r2: int, c2: int|
            in_bounds(r2, c2) && peers(r, c, r2, c2) implies #[trigger] g2[r2][c2]
            != g2[r][c] by {}
    }
}

/// Emptying a cell that the start left empty, in a grid that a search has
/// reached, gives a grid that the search has reached.
pub proof fn clearing_extends(start: Seq<Seq<u8>>, g: Seq<Seq<u8>>, row: int, col: int)
    requires
        well_formed(start),
        extends(start, g),
        in_bounds(row, col),
        start[row][col] == 0,
    ensures
        extends(start, with_cell(g, row, col, 0)),
{
    let g2 = with_cell(g, row, col, 0);
    with_cell_changes_one_cell(g, row, col, 0);
    assert forall|r: int, c: int| in_bounds(r, c) && start[r][c] == 0 && #[trigger] g2[r][c]
        != 0 implies unique_in_units(g2, r, c) by {
        assert forall|r2: int, c2: int|
            in_bounds(r2, c2) && peers(r, c, r2, c2) implies #[trigger] g2[r2][c2]
            != g2[r][c] by {}
    }
}

/// What is reached from a reached grid is reached from the start.
pub proof fn extends_is_transitive(a: Seq<Seq<u8>>, b: Seq<Seq<u8>>, c: Seq<Seq<u8>>)
    requires
        extends(a, b),
        extends(b, c),
    ensures
        extends(a, c),
{
    assert forall|row: int, col: int| in_bounds(row, col) && a[row][col] == 0 && #[trigger] c[row][col]
        != 0 implies unique_in_units(c, row, col) by {
        assert forall|r2: int, c2: int|
            in_bounds(r2, c2) && peers(row, col, r2, c2) implies #[trigger] c[r2][c2]
            != c[row][col] by {}
    }
}

/// The legality invariant: where the start holds no digit twice in a row, a
/// column or a box, neither does any grid that a search reaches from it.
pub proof fn reached_grids_stay_consistent(start: Seq<Seq<u8>>, g: Seq<Seq<u8>>)
    requires
        well_formed(start),
        consistent(start),
        extends(start, g),
    ensures
        consistent(g),
{
    assert forall|r: int, c: int| in_bounds(r, c) && #[trigger] g[r][c] != 0 implies unique_in_units(
        g,
        r,
        c,
    ) by {
        assert forall|r2: int, c2: int|
            in_bounds(r2, c2) && peers(r, c, r2, c2) implies #[trigger] g[r2][c2] != g[r][c] by {}
    }
}

/// For a puzzle that holds no digit twice in a row, a column or a box, the
/// grids that fill it are its solutions in the usual sense.
pub proof fn fills_means_solves(g: Seq<Seq<u8>>, h: Seq<Seq<u8>>)
    requires
        well_formed(g),
        consistent(g),
    ensures
        fills(g, h) <==> solves(g, h),
{
    if fills(g, h) {
        reached_grids_stay_consistent(g, h);
    }
}

/// Where a puzzle that holds no digit twice in a row, a column or a box has
/// exactly one solution, the search finds it.
pub proof fn only_solution_is_found(
    g: Seq<Seq<u8>>,
    h: Seq<Seq<u8>>,
    after: Seq<Seq<u8>>,
    solved: bool,
)
    requires
        well_formed(g),
        consistent(g),
        solves(g, h),
        forall|k: Seq<Seq<u8>>| #[trigger] solves(g, k) ==> k == h,
        search_outcome(g, after, solved),
    ensures
        solved,
        after == h,
{
    fills_means_solves(g, h);
    fills_means_solves(g, after);
}

/// Among nine different digits from 1 to 9 each digit is found.
proof fn nine_different_digits_hold(f: spec_fn(int) -> int, d: int)
    requires
        forall|i: int| 0 <= i < 9 ==> 1 <= #[trigger] f(i) <= 9,
        forall|i: int, j: int|
            0 <= i < 9 && 0 <= j < 9 && i != j ==> #[trigger] f(i) != #[trigger] f(j),
        1 <= d <= 9,
    ensures
        exists|i: int| 0 <= i < 9 && #[trigger] f(i) == d,
{
    let places = set_int_range(0, 9);
    let held = places.map(f);
    let digits = set_int_range(1, 10);
    lemma_int_range(0, 9);
    lemma_int_range(1, 10);
    lemma_map_size(places, held, f);
    assert(held.subset_of(digits));
    lemma_subset_equality(held, digits);
    assert(held.contains(d));
}

/// In a full grid that holds no digit twice in a row, a column or a box,
/// the row, the column and the box of every cell hold every digit: each
/// digit stands exactly once in each row, each column and each box.
pub proof fn full_consistent_grid_holds_every_digit(h: Seq<Seq<u8>>, row: int, col: int, d: u8)
    requires
        well_formed(h),
        is_full(h),
        consistent(h),
        in_bounds(row, col),
        1 <= d <= 9,
    ensures
        in_row(h, row, d),
        in_col(h, col, d),
        in_box(h, row, col, d),
{
    let top = box_start(row);
    let left = box_start(col);
    let along_row = |i: int| h[row][i] as int;
    let along_col = |i: int| h[i][col] as int;
    let in_the_box = |i: int| h[top + i / 3][left + i % 3] as int;
    assert forall|i: int, j: int| 0 <= i < 9 && 0 <= j < 9 && i != j implies #[trigger] in_the_box(
        i,
    ) != #[trigger] in_the_box(j) by {
        assert(h[top + j / 3][left + j % 3] != h[top + i / 3][left + i % 3]);
    }
    nine_different_digits_hold(along_row, d as int);
    nine_different_digits_hold(along_col, d as int);
    nine_different_digits_hold(in_the_box, d as int);
    let k = choose|k: int| 0 <= k < 9 && #[trigger] in_the_box(k) == d as int;
    assert(h[top + k / 3][left + k % 3] == d);
}

/// A grid has at most one first solution.
pub proof fn first_solution_is_unique(g: Seq<Seq<u8>>, h1: Seq<Seq<u8>>, h2: Seq<Seq<u8>>)
    requires
        first_solution(g, h1),
        first_solution(g, h2),
    ensures
        h1 == h2,
{
    assert(lex_le(h1, h2) && lex_le(h2, h1));
}

/// Determinism: two searches from one grid end alike, with the same verdict
/// and the same grid.
pub proof fn search_is_deterministic(
    before: Seq<Seq<u8>>,
    after1: Seq<Seq<u8>>,
    solved1: bool,
    after2: Seq<Seq<u8>>,
    solved2: bool,
)
    requires
        search_outcome(before, after1, solved1),
        search_outcome(before, after2, solved2),
    ensures
        solved1 == solved2,
        after1 == after2,
{
    if solved1 && solved2 {
        first_solution_is_unique(before, after1, after2);
    }
}

/// Idempotence: the search of a grid without empty cells succeeds and
/// leaves the grid as it is.
pub proof fn full_grid_is_left_unchanged(before: Seq<Seq<u8>>, after: Seq<Seq<u8>>, solved: bool)
    requires
        well_formed(before),
        is_full(before),
        search_outcome(before, after, solved),
    ensures
        solved,
        after == before,
{
    full_grid_is_its_first_solution(before);
    search_is_deterministic(before, after, solved, before, true);
}

/// The round trip: reading 81 values as a grid and flattening the grid
/// gives the 81 values back.
pub proof fn flatten_inverts_from_flat(v: Seq<u8>)
    requires
        v.len() == 81,
    ensures
        flatten(from_flat(v)) == v,
{
    assert(flatten(from_flat(v)) =~= v);
}

/// The round trip the other way: flattening a grid and reading the values
/// as a grid gives the grid back.
pub proof fn from_flat_inverts_flatten(g: Seq<Seq<u8>>)
    requires
        well_formed(g),
    ensures
        flat_well_formed(flatten(g)),
        from_flat(flatten(g)) == g,
{
    assert forall|r: int| 0 <= r < 9 implies #[trigger] from_flat(flatten(g))[r] =~= g[r] by {
        assert forall|c: int| 0 <= c < 9 implies from_flat(flatten(g))[r][c] == g[r][c] by {}
    }
}

} // verus!
