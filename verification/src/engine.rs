//! The simulation engine: the cell-state transition rule, neighbor counting
//! with its boundary policy, and the double-buffered generation loop.
//!
//! A generation is one synchronous pass: every cell of the destination grid
//! is computed from the source grid alone, so no cell ever sees a partially
//! updated neighborhood. The two grids swap the source and destination roles
//! each generation.

use vstd::prelude::*;
use array2d::Array2D;
use crate::grid::{grid_cells, grid_cols, grid_get, grid_num_cols, grid_num_rows, grid_set, wf_dims};

verus! {

/// The next state of a cell from its current state and its count of alive
/// neighbors: exactly three alive neighbors means alive (reproduction or
/// survival), exactly two means the state is kept, anything else means dead
/// (underpopulation or overpopulation).
pub open spec fn next_state_spec(current: i8, alive: int) -> i8 {
    if alive == 3 {
        1
    } else if alive == 2 && current == 1 {
        1
    } else {
        0
    }
}

/// Whether position `(r, c)` holds an alive cell; positions outside the grid
/// count as dead.
pub open spec fn alive_at(cells: Seq<Seq<i8>>, r: int, c: int) -> bool {
    0 <= r < cells.len() && 0 <= c < cells[r].len() && cells[r][c] == 1
}

/// 1 if position `(r, c)` holds an alive cell, 0 otherwise.
pub open spec fn alive_flag(cells: Seq<Seq<i8>>, r: int, c: int) -> int {
    if alive_at(cells, r, c) {
        1
    } else {
        0
    }
}

/// The number of alive cells among the 8 positions adjacent to `(r, c)`;
/// positions outside the grid contribute 0.
pub open spec fn neighbor_count_spec(cells: Seq<Seq<i8>>, r: int, c: int) -> int {
    alive_flag(cells, r - 1, c) + alive_flag(cells, r + 1, c) + alive_flag(cells, r, c + 1)
        + alive_flag(cells, r, c - 1) + alive_flag(cells, r - 1, c + 1) + alive_flag(
        cells,
        r - 1,
        c - 1,
    ) + alive_flag(cells, r + 1, c + 1) + alive_flag(cells, r + 1, c - 1)
}

/// The state of position `(r, c)` read from a source grid, with positions
/// outside the grid read as dead.
pub open spec fn source_cell(cells: Seq<Seq<i8>>, r: int, c: int) -> i8 {
    if 0 <= r < cells.len() && 0 <= c < cells[r].len() {
        cells[r][c]
    } else {
        0
    }
}

/// One full generation: every cell replaced by its next state, computed from
/// the grid as it stood before the pass.
pub open spec fn step_spec(cells: Seq<Seq<i8>>) -> Seq<Seq<i8>> {
    Seq::new(
        cells.len(),
        |r: int|
            Seq::new(
                cells[r].len(),
                |c: int| next_state_spec(cells[r][c], neighbor_count_spec(cells, r, c)),
            ),
    )
}

/// The grid after `n` generations.
pub open spec fn run_spec(cells: Seq<Seq<i8>>, n: nat) -> Seq<Seq<i8>>
    decreases n,
{
    if n == 0 {
        cells
    } else {
        run_spec(step_spec(cells), (n - 1) as nat)
    }
}

/// The next state of a cell, by the rule table in priority order: exactly 3
/// alive neighbors reproduce or survive; an alive cell with 2 survives; a
/// dead cell with 2 stays dead; fewer than 2 or more than 3 kill.
pub fn next_state(current: i8, alive: i8) -> (r: i8)
    ensures
        r == next_state_spec(current, alive as int),
{
    match (alive, current) {
        (3, _) => 1,
        (2, 1) => 1,
        (2, 0) => 0,
        _ => 0,
    }
}

/// The position one step from `cell_position` in `move_direction`. A step
/// that would leave the grid on the negative side is mapped to `usize::MAX`,
/// which no grid reaches, rather than being allowed to wrap into a valid
/// index.
pub fn neighbor_position(cell_position: (i8, i8), move_direction: (i8, i8)) -> (r: (usize, usize))
    requires
        -128 <= cell_position.0 + move_direction.0 <= 127,
        -128 <= cell_position.1 + move_direction.1 <= 127,
    ensures
        cell_position.0 + move_direction.0 >= 0 ==> r.0 == cell_position.0 + move_direction.0,
        cell_position.0 + move_direction.0 < 0 ==> r.0 == usize::MAX,
        cell_position.1 + move_direction.1 >= 0 ==> r.1 == cell_position.1 + move_direction.1,
        cell_position.1 + move_direction.1 < 0 ==> r.1 == usize::MAX,
{
    let row = cell_position.0 + move_direction.0;
    let col = cell_position.1 + move_direction.1;
    let row_index = if row >= 0 {
        row as usize
    } else {
        usize::MAX
    };
    let col_index = if col >= 0 {
        col as usize
    } else {
        usize::MAX
    };
    (row_index, col_index)
}

/// 1 if the neighbor of `cell_position` in direction `(dr, dc)` is alive, 0
/// if it is dead or falls outside the grid.
fn neighbor_alive(grid: &Array2D<i8>, cell_position: (i8, i8), dr: i8, dc: i8) -> (r: i8)
    requires
        wf_dims(grid_cells(*grid), grid_cols(*grid)),
        grid_cells(*grid).len() <= 127,
        grid_cols(*grid) <= 127,
        -128 <= cell_position.0 + dr <= 127,
        -128 <= cell_position.1 + dc <= 127,
    ensures
        r == alive_flag(grid_cells(*grid), cell_position.0 + dr, cell_position.1 + dc),
{
    let pos = neighbor_position(cell_position, (dr, dc));
    match grid_get(grid, pos.0, pos.1) {
        Some(v) => if v == 1 {
            1
        } else {
            0
        },
        None => 0,
    }
}

/// The number of alive cells among the 8 neighbors of `cell_position`;
/// neighbors outside the grid count as dead, never as an error.
pub fn number_of_alive_neighbors(cell_position: (i8, i8), grid: &Array2D<i8>) -> (alive: i8)
    requires
        wf_dims(grid_cells(*grid), grid_cols(*grid)),
        grid_cells(*grid).len() <= 127,
        grid_cols(*grid) <= 127,
        -127 <= cell_position.0 <= 126,
        -127 <= cell_position.1 <= 126,
    ensures
        alive == neighbor_count_spec(grid_cells(*grid), cell_position.0 as int, cell_position.1 as int),
        0 <= alive <= 8,
{
    let mut alive: i8 = 0;
    alive = alive + neighbor_alive(grid, cell_position, -1, 0);
    alive = alive + neighbor_alive(grid, cell_position, 1, 0);
    alive = alive + neighbor_alive(grid, cell_position, 0, 1);
    alive = alive + neighbor_alive(grid, cell_position, 0, -1);
    alive = alive + neighbor_alive(grid, cell_position, -1, 1);
    alive = alive + neighbor_alive(grid, cell_position, -1, -1);
    alive = alive + neighbor_alive(grid, cell_position, 1, 1);
    alive = alive + neighbor_alive(grid, cell_position, 1, -1);
    alive
}

/// Law: a cell with exactly 3 alive neighbors is alive in the next
/// generation, whatever its current state.
pub proof fn lemma_rule_reproduction(current: i8)
    ensures
        next_state_spec(current, 3) == 1,
{
}

/// Law: a cell with exactly 2 alive neighbors keeps its current state.
pub proof fn lemma_rule_survival(current: i8)
    requires
        current == 0 || current == 1,
    ensures
        next_state_spec(current, 2) == current,
{
}

/// Law: a cell with fewer than 2 or more than 3 alive neighbors is dead in
/// the next generation, whatever its current state.
pub proof fn lemma_rule_isolation_overcrowding(current: i8, alive: int)
    requires
        alive < 2 || alive > 3,
    ensures
        next_state_spec(current, alive) == 0,
{
}

/// Law: at the corner `(0, 0)` of a grid with at least 2 rows and 2 columns,
/// the neighbor count counts exactly the 3 in-bounds neighbors, so it never
/// exceeds 3.
pub proof fn lemma_corner_neighbor_count(cells: Seq<Seq<i8>>, cols: int)
    requires
        wf_dims(cells, cols),
        cells.len() >= 2,
        cols >= 2,
    ensures
        neighbor_count_spec(cells, 0, 0) == alive_flag(cells, 0, 1) + alive_flag(cells, 1, 0)
            + alive_flag(cells, 1, 1),
        0 <= neighbor_count_spec(cells, 0, 0) <= 3,
{
}

/// Law: at a top-edge cell `(0, c)` that is not a corner, the neighbor count
/// counts exactly the 5 in-bounds neighbors, so it never exceeds 5.
pub proof fn lemma_edge_neighbor_count(cells: Seq<Seq<i8>>, cols: int, c: int)
    requires
        wf_dims(cells, cols),
        cells.len() >= 2,
        0 < c < cols - 1,
    ensures
        neighbor_count_spec(cells, 0, c) == alive_flag(cells, 0, c - 1) + alive_flag(cells, 0, c + 1)
            + alive_flag(cells, 1, c - 1) + alive_flag(cells, 1, c) + alive_flag(cells, 1, c + 1),
        0 <= neighbor_count_spec(cells, 0, c) <= 5,
{
}

/// Law: running the engine for 0 generations leaves the grid unchanged.
pub proof fn lemma_zero_generations(cells: Seq<Seq<i8>>)
    ensures
        run_spec(cells, 0) == cells,
{
}

/// Law: a still life — a grid that one generation maps to itself — is
/// unchanged after any number of generations.
pub proof fn lemma_still_life(cells: Seq<Seq<i8>>, n: nat)
    requires
        step_spec(cells) == cells,
    ensures
        run_spec(cells, n) == cells,
    decreases n,
{
    if n > 0 {
        lemma_still_life(cells, (n - 1) as nat);
    }
}

/// Law: on a grid with at most one alive cell — at `(pr, pc)` if anywhere —
/// every cell is dead after one generation, since every neighbor count is 0
/// or 1.
pub proof fn lemma_lone_cell_dies(cells: Seq<Seq<i8>>, pr: int, pc: int)
    requires
        forall|r: int, c: int| alive_at(cells, r, c) ==> r == pr && c == pc,
    ensures
        forall|r: int, c: int| !alive_at(step_spec(cells), r, c),
{
    assert forall|r: int, c: int| !alive_at(step_spec(cells), r, c) by {
        if 0 <= r < cells.len() && 0 <= c < cells[r].len() {
            assert(neighbor_count_spec(cells, r, c) <= 1);
            assert(step_spec(cells)[r][c] == next_state_spec(
                cells[r][c],
                neighbor_count_spec(cells, r, c),
            ));
        }
    }
}

/// Computes the next state of the cell at `iterator` from `starting_grid`
/// and writes it into `final_grid` at the same position. The read side treats
/// positions outside `starting_grid` as dead; the write side must be in
/// bounds.
pub fn set_grid_values(iterator: (i8, i8), starting_grid: &Array2D<i8>, final_grid: &mut Array2D<
    i8,
>)
    requires
        wf_dims(grid_cells(*starting_grid), grid_cols(*starting_grid)),
        grid_cells(*starting_grid).len() <= 127,
        grid_cols(*starting_grid) <= 127,
        0 <= iterator.0 <= 126,
        0 <= iterator.1 <= 126,
        iterator.0 < grid_cells(*old(final_grid)).len(),
        iterator.1 < grid_cols(*old(final_grid)),
    ensures
        grid_cells(*final(final_grid)) == grid_cells(*old(final_grid)).update(
            iterator.0 as int,
            grid_cells(*old(final_grid))[iterator.0 as int].update(
                iterator.1 as int,
                next_state_spec(
                    source_cell(grid_cells(*starting_grid), iterator.0 as int, iterator.1 as int),
                    neighbor_count_spec(
                        grid_cells(*starting_grid),
                        iterator.0 as int,
                        iterator.1 as int,
                    ),
                ),
            ),
        ),
        grid_cols(*final(final_grid)) == grid_cols(*old(final_grid)),
{
    let alive_neighbors = number_of_alive_neighbors(iterator, starting_grid);
    let current_cell = match grid_get(starting_grid, iterator.0 as usize, iterator.1 as usize) {
        Some(v) => v,
        None => 0,
    };
    let new_value = next_state(current_cell, alive_neighbors);
    grid_set(final_grid, iterator.0 as usize, iterator.1 as usize, new_value);
}

/// Runs one generation: fills `next_grid` with the next state of every cell
/// of `current_grid`, in row-major order.
fn run_generation(current_grid: &Array2D<i8>, next_grid: &mut Array2D<i8>)
    requires
        wf_dims(grid_cells(*current_grid), grid_cols(*current_grid)),
        wf_dims(grid_cells(*old(next_grid)), grid_cols(*old(next_grid))),
        grid_cells(*current_grid).len() <= 127,
        grid_cols(*current_grid) <= 127,
        grid_cells(*old(next_grid)).len() == grid_cells(*current_grid).len(),
        grid_cols(*old(next_grid)) == grid_cols(*current_grid),
    ensures
        grid_cells(*final(next_grid)) == step_spec(grid_cells(*current_grid)),
        grid_cols(*final(next_grid)) == grid_cols(*current_grid),
{
    let ghost src = grid_cells(*current_grid);
    let ghost target = step_spec(src);
    let rows = grid_num_rows(current_grid);
    let cols = grid_num_cols(current_grid);
    let mut row: usize = 0;
    while row < rows
        invariant
            row <= rows,
            rows == src.len() <= 127,
            cols == grid_cols(*current_grid) <= 127,
            src == grid_cells(*current_grid),
            target == step_spec(src),
            wf_dims(src, cols as int),
            grid_cells(*next_grid).len() == src.len(),
            grid_cols(*next_grid) == cols,
            wf_dims(grid_cells(*next_grid), cols as int),
            forall|r: int| 0 <= r < row ==> #[trigger] grid_cells(*next_grid)[r] == target[r],
        decreases rows - row,
    {
        let mut col: usize = 0;
        while col < cols
            invariant
                row < rows,
                col <= cols,
                rows == src.len() <= 127,
                cols == grid_cols(*current_grid) <= 127,
                src == grid_cells(*current_grid),
                target == step_spec(src),
                wf_dims(src, cols as int),
                grid_cells(*next_grid).len() == src.len(),
                grid_cols(*next_grid) == cols,
                wf_dims(grid_cells(*next_grid), cols as int),
                forall|r: int| 0 <= r < row ==> #[trigger] grid_cells(*next_grid)[r] == target[r],
                forall|c: int|
                    0 <= c < col ==> #[trigger] grid_cells(*next_grid)[row as int][c]
                        == target[row as int][c],
            decreases cols - col,
        {
            let ghost before = grid_cells(*next_grid);
            set_grid_values((row as i8, col as i8), current_grid, next_grid);
            proof {
                assert(source_cell(src, row as int, col as int) == src[row as int][col as int]);
                assert(grid_cells(*next_grid)[row as int][col as int] == target[row as int][
                    col as int]);
            }
            col = col + 1;
        }
        proof {
            assert(grid_cells(*next_grid)[row as int] =~= target[row as int]);
        }
        row = row + 1;
    }
    proof {
        assert(grid_cells(*next_grid) =~= target);
    }
}

/// `step_spec` keeps the dimensions of the grid.
pub proof fn lemma_step_preserves_dims(cells: Seq<Seq<i8>>)
    ensures
        step_spec(cells).len() == cells.len(),
        forall|r: int| 0 <= r < cells.len() ==> (#[trigger] step_spec(cells)[r]).len()
            == cells[r].len(),
{
}

/// After one more generation the grid is one step beyond where `n`
/// generations left it.
pub proof fn lemma_run_spec_succ(cells: Seq<Seq<i8>>, n: nat)
    ensures
        run_spec(cells, n + 1) == step_spec(run_spec(cells, n)),
    decreases n,
{
    if n == 0 {
        assert(run_spec(cells, 1) == run_spec(step_spec(cells), 0));
        assert(run_spec(step_spec(cells), 0) == step_spec(cells));
        assert(run_spec(cells, 0) == cells);
    } else {
        assert(run_spec(cells, n + 1) == run_spec(step_spec(cells), n));
        assert(run_spec(cells, n) == run_spec(step_spec(cells), (n - 1) as nat));
        lemma_run_spec_succ(step_spec(cells), (n - 1) as nat);
    }
}

/// Running for `n` generations keeps the dimensions of the grid.
pub proof fn lemma_run_preserves_dims(cells: Seq<Seq<i8>>, n: nat)
    ensures
        run_spec(cells, n).len() == cells.len(),
        forall|r: int| 0 <= r < cells.len() ==> (#[trigger] run_spec(cells, n)[r]).len()
            == cells[r].len(),
    decreases n,
{
    if n > 0 {
        lemma_step_preserves_dims(cells);
        lemma_run_preserves_dims(step_spec(cells), (n - 1) as nat);
    }
}

/// Runs the simulation for `generations` generations, alternating the source
/// and destination roles of the two equally sized grids, and returns the
/// grid holding the final state.
pub fn game_of_life(grid_a: Array2D<i8>, grid_b: Array2D<i8>, generations: usize) -> (r: Array2D<
    i8,
>)
    requires
        wf_dims(grid_cells(grid_a), grid_cols(grid_a)),
        wf_dims(grid_cells(grid_b), grid_cols(grid_b)),
        grid_cells(grid_a).len() == grid_cells(grid_b).len(),
        grid_cols(grid_a) == grid_cols(grid_b),
        grid_cells(grid_a).len() <= 127,
        grid_cols(grid_a) <= 127,
    ensures
        grid_cells(r) == run_spec(grid_cells(grid_a), generations as nat),
        grid_cols(r) == grid_cols(grid_a),
        grid_cells(r).len() == grid_cells(grid_a).len(),
        wf_dims(grid_cells(r), grid_cols(r)),
{
    let mut grid_a = grid_a;
    let mut grid_b = grid_b;
    let ghost init = grid_cells(grid_a);
    let ghost n = grid_cells(grid_a).len() as int;
    let ghost m = grid_cols(grid_a);
    let mut generation: usize = 0;
    while generation < generations
        invariant
            generation <= generations,
            grid_cells(grid_a).len() == n <= 127,
            grid_cells(grid_b).len() == n,
            grid_cols(grid_a) == m <= 127,
            grid_cols(grid_b) == m,
            wf_dims(grid_cells(grid_a), m),
            wf_dims(grid_cells(grid_b), m),
            init.len() == n,
            wf_dims(init, m),
            generation % 2 == 0 ==> grid_cells(grid_a) == run_spec(init, generation as nat),
            generation % 2 == 1 ==> grid_cells(grid_b) == run_spec(init, generation as nat),
        decreases generations - generation,
    {
        proof {
            lemma_run_preserves_dims(init, generation as nat);
            lemma_run_spec_succ(init, generation as nat);
        }
        if generation % 2 == 0 {
            run_generation(&grid_a, &mut grid_b);
        } else {
            run_generation(&grid_b, &mut grid_a);
        }
        generation = generation + 1;
    }
    proof {
        lemma_run_preserves_dims(init, generations as nat);
    }
    if generations % 2 == 0 {
        grid_a
    } else {
        grid_b
    }
}

} // verus!
