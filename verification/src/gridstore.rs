//! The cell storage: a 2-D grid from the `grid` crate, seen by the verifier
//! as a flat row-major sequence of cells together with its column count.

use vstd::prelude::*;
use crate::cell::Cell;

verus! {

#[verifier::external_type_specification]
#[verifier::external_body]
#[verifier::reject_recursive_types(T)]
pub struct ExGrid<T>(grid::Grid<T>);

/// The cells the grid holds, row-major: slot `(row, col)` is entry
/// `row * grid_width + col`.
pub uninterp spec fn grid_seq(g: grid::Grid<Cell>) -> Seq<Cell>;

/// The number of columns the grid was built with.
pub uninterp spec fn grid_width(g: grid::Grid<Cell>) -> nat;

/// Relies on grid::Grid::init: builds a rows x cols grid in row-major order
/// with every slot holding the given value.
#[verifier::external_body]
pub(crate) fn grid_init(rows: usize, cols: usize, fill: Cell) -> (g: grid::Grid<Cell>)
    requires
        1 <= rows <= 4096,
        1 <= cols <= 4096,
    ensures
        grid_width(g) == cols,
        grid_seq(g).len() == rows * cols,
        forall|i: int| 0 <= i < grid_seq(g).len() ==> grid_seq(g)[i] == fill,
{
    grid::Grid::init(rows, cols, fill)
}

/// Relies on grid::Grid::get: returns the slot at (row, col), which for a
/// row-major grid is the data entry `row * cols + col`; in bounds by the
/// precondition, so the lookup always succeeds.
#[verifier::external_body]
pub(crate) fn grid_read(g: &grid::Grid<Cell>, row: usize, col: usize) -> (c: Cell)
    requires
        (col as int) < grid_width(*g),
        (row as int) * grid_width(*g) + (col as int) < grid_seq(*g).len(),
    ensures
        c == grid_seq(*g)[(row as int) * grid_width(*g) + (col as int)],
{
    *g.get(row, col).unwrap()
}

/// Relies on grid::Grid::get_mut: writes the slot at (row, col) in place,
/// leaving every other slot and the grid's shape unchanged.
#[verifier::external_body]
pub(crate) fn grid_write(g: &mut grid::Grid<Cell>, row: usize, col: usize, v: Cell)
    requires
        (col as int) < grid_width(*old(g)),
        (row as int) * grid_width(*old(g)) + (col as int) < grid_seq(*old(g)).len(),
    ensures
        grid_width(*final(g)) == grid_width(*old(g)),
        grid_seq(*final(g)) == grid_seq(*old(g)).update(
            (row as int) * grid_width(*old(g)) + (col as int),
            v,
        ),
{
    *g.get_mut(row, col).unwrap() = v;
}

} // verus!
