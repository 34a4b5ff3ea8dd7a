//! The grid: a rectangular container of cell states (alive = 1, dead = 0)
//! with bounds-checked access, stored in an `array2d::Array2D<i8>`.
//!
//! The contents of a grid are modelled by two names: `grid_cells`, the rows of
//! the grid from top to bottom, and `grid_cols`, the number of columns the
//! grid was created with. Every row of a real `Array2D` has exactly
//! `grid_cols` cells; `wf_dims` states that, and the constructor establishes
//! it.

use vstd::prelude::*;
use array2d::Array2D;

verus! {

/// The two-dimensional array type of the `array2d` crate, declared so that
/// verified code can hold and pass grids.
#[verifier::external_type_specification]
#[verifier::external_body]
#[verifier::reject_recursive_types(T)]
pub struct ExArray2D<T>(Array2D<T>);

/// The rows of a grid, top to bottom; each row holds the cell states of that
/// row, left to right.
pub uninterp spec fn grid_cells(g: Array2D<i8>) -> Seq<Seq<i8>>;

/// The number of columns a grid was created with.
pub uninterp spec fn grid_cols(g: Array2D<i8>) -> int;

/// Every row of the grid has exactly `cols` cells.
pub open spec fn wf_dims(cells: Seq<Seq<i8>>, cols: int) -> bool {
    forall|r: int| 0 <= r < cells.len() ==> (#[trigger] cells[r]).len() == cols
}

/// Every cell state is 0 (dead) or 1 (alive).
pub open spec fn wf_states(cells: Seq<Seq<i8>>) -> bool {
    forall|r: int, c: int|
        0 <= r < cells.len() && 0 <= c < (#[trigger] cells[r]).len() ==> #[trigger] cells[r][c] == 0
            || cells[r][c] == 1
}

/// A well-formed grid: rectangular, and every cell dead or alive.
pub open spec fn wf_grid(g: Array2D<i8>) -> bool {
    wf_dims(grid_cells(g), grid_cols(g)) && wf_states(grid_cells(g))
}

/// What can go wrong when the grid API is misused.
#[derive(Clone, Copy, Debug, PartialEq, Eq, Structural)]
pub enum GridError {
    /// A `get`/`set` coordinate outside `[0, rows) x [0, cols)`.
    OutOfBounds,
    /// The two grids of a simulation run differ in `rows` or `cols`.
    DimensionMismatch,
    /// A grid was requested with `rows <= 0` or `cols <= 0`.
    InvalidDimensions,
}

/// Relies on `array2d::Array2D::filled_with`: a `rows x cols` grid with every
/// element the given value.
#[verifier::external_body]
fn filled_grid(value: i8, rows: usize, cols: usize) -> (g: Array2D<i8>)
    requires
        rows * cols <= usize::MAX,
    ensures
        grid_cells(g).len() == rows,
        grid_cols(g) == cols,
        wf_dims(grid_cells(g), cols as int),
        forall|r: int, c: int|
            0 <= r < rows && 0 <= c < cols ==> #[trigger] grid_cells(g)[r][c] == value,
{
    Array2D::filled_with(value, rows, cols)
}

/// Relies on `array2d::Array2D::get`: `Some` of the element at `(row, col)`
/// when both indices are in bounds, `None` otherwise.
#[verifier::external_body]
pub(crate) fn grid_get(g: &Array2D<i8>, row: usize, col: usize) -> (r: Option<i8>)
    ensures
        row < grid_cells(*g).len() && col < grid_cols(*g) ==> r == Some(
            grid_cells(*g)[row as int][col as int],
        ),
        !(row < grid_cells(*g).len() && col < grid_cols(*g)) ==> r is None,
{
    g.get(row, col).copied()
}

/// Relies on `array2d::Array2D::set`: writes the element at `(row, col)`,
/// which succeeds whenever both indices are in bounds.
#[verifier::external_body]
pub(crate) fn grid_set(g: &mut Array2D<i8>, row: usize, col: usize, value: i8)
    requires
        row < grid_cells(*old(g)).len(),
        col < grid_cols(*old(g)),
    ensures
        grid_cells(*final(g)) == grid_cells(*old(g)).update(
            row as int,
            grid_cells(*old(g))[row as int].update(col as int, value),
        ),
        grid_cols(*final(g)) == grid_cols(*old(g)),
{
    let _ = g.set(row, col, value);
}

/// Relies on `array2d::Array2D::num_rows`: the number of rows the grid was
/// created with.
#[verifier::external_body]
pub(crate) fn grid_num_rows(g: &Array2D<i8>) -> (r: usize)
    ensures
        r == grid_cells(*g).len(),
{
    g.num_rows()
}

/// Relies on `array2d::Array2D::num_columns`: the number of columns the grid
/// was created with.
#[verifier::external_body]
pub(crate) fn grid_num_cols(g: &Array2D<i8>) -> (r: usize)
    ensures
        r == grid_cols(*g),
{
    g.num_columns()
}

/// Creates a `rows x cols` grid with every cell dead.
pub fn make_grid(rows: i8, cols: i8) -> (g: Array2D<i8>)
    requires
        rows > 0,
        cols > 0,
    ensures
        grid_cells(g).len() == rows,
        grid_cols(g) == cols,
        wf_grid(g),
        forall|r: int, c: int|
            0 <= r < rows && 0 <= c < cols ==> #[trigger] grid_cells(g)[r][c] == 0,
{
    proof {
        assert((rows as int) * (cols as int) <= 127 * 127) by (nonlinear_arith)
            requires
                0 < rows <= 127,
                0 < cols <= 127,
        ;
    }
    filled_grid(0, rows as usize, cols as usize)
}

/// The number of rows of a grid.
pub fn num_rows(g: &Array2D<i8>) -> (r: usize)
    ensures
        r == grid_cells(*g).len(),
{
    grid_num_rows(g)
}

/// The number of columns of a grid.
pub fn num_columns(g: &Array2D<i8>) -> (r: usize)
    ensures
        r == grid_cols(*g),
{
    grid_num_cols(g)
}

/// Reads one cell; out-of-range coordinates are an error, never a state.
pub fn get_cell(g: &Array2D<i8>, row: usize, col: usize) -> (r: Result<i8, GridError>)
    ensures
        row < grid_cells(*g).len() && col < grid_cols(*g) ==> r == Ok::<i8, GridError>(
            grid_cells(*g)[row as int][col as int],
        ),
        !(row < grid_cells(*g).len() && col < grid_cols(*g)) ==> r == Err::<i8, GridError>(
            GridError::OutOfBounds,
        ),
{
    match grid_get(g, row, col) {
        Some(v) => Ok(v),
        None => Err(GridError::OutOfBounds),
    }
}

/// Writes one cell; out-of-range coordinates are an error and leave the grid
/// unchanged. The state written must be exactly 0 or 1.
pub fn set_cell(g: &mut Array2D<i8>, row: usize, col: usize, value: i8) -> (r: Result<
    (),
    GridError,
>)
    requires
        value == 0 || value == 1,
    ensures
        row < grid_cells(*old(g)).len() && col < grid_cols(*old(g)) ==> r == Ok::<(), GridError>(())
            && grid_cells(*final(g)) == grid_cells(*old(g)).update(
            row as int,
            grid_cells(*old(g))[row as int].update(col as int, value),
        ),
        !(row < grid_cells(*old(g)).len() && col < grid_cols(*old(g))) ==> r == Err::<(), GridError>(
            GridError::OutOfBounds,
        ) && *final(g) == *old(g),
        grid_cols(*final(g)) == grid_cols(*old(g)),
{
    let rows = grid_num_rows(g);
    let cols = grid_num_cols(g);
    if row < rows && col < cols {
        grid_set(g, row, col, value);
        Ok(())
    } else {
        Err(GridError::OutOfBounds)
    }
}

/// Rejects the dimensions of a grid that could not be created: a grid must
/// have at least one row and one column.
pub fn check_dimensions(rows: i8, cols: i8) -> (r: Result<(), GridError>)
    ensures
        r == if rows <= 0 || cols <= 0 {
            Err::<(), GridError>(GridError::InvalidDimensions)
        } else {
            Ok::<(), GridError>(())
        },
{
    if rows <= 0 || cols <= 0 {
        Err(GridError::InvalidDimensions)
    } else {
        Ok(())
    }
}

/// Rejects a pair of grids that do not share their dimensions; the two
/// buffers of a simulation run must agree in `rows` and `cols`.
pub fn check_same_dimensions(a: &Array2D<i8>, b: &Array2D<i8>) -> (r: Result<(), GridError>)
    ensures
        r == if grid_cells(*a).len() == grid_cells(*b).len() && grid_cols(*a) == grid_cols(*b) {
            Ok::<(), GridError>(())
        } else {
            Err::<(), GridError>(GridError::DimensionMismatch)
        },
{
    if grid_num_rows(a) == grid_num_rows(b) && grid_num_cols(a) == grid_num_cols(b) {
        Ok(())
    } else {
        Err(GridError::DimensionMismatch)
    }
}

} // verus!
