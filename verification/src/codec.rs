//! The text encoding of grids: `*` is an alive cell, a space is a dead cell,
//! and a newline ends a row. The loader fills a grid from such a text; the
//! writer emits a grid as one, rows separated by newlines with no trailing
//! separator.

use vstd::prelude::*;
use array2d::Array2D;
use vstd::string::StrSliceExecFns;
use vstd::string::StringExecFns;
use crate::grid::{grid_cells, grid_cols, grid_get, grid_num_cols, grid_num_rows, grid_set, wf_dims, wf_states};

verus! {

/// `cells` with position `(r, c)` set to `v`; positions outside the grid are
/// left as they are.
pub open spec fn cells_set(cells: Seq<Seq<i8>>, r: int, c: int, v: i8) -> Seq<Seq<i8>> {
    if 0 <= r < cells.len() && 0 <= c < cells[r].len() {
        cells.update(r, cells[r].update(c, v))
    } else {
        cells
    }
}

/// The grid that loading `chars` into `cells` leaves behind, with the cursor
/// at row `r`, column `c`: `*` marks the cell alive and moves right, a space
/// moves right, a newline moves to the start of the next row, and any other
/// character is ignored.
pub open spec fn load_fold(chars: Seq<char>, r: int, c: int, cells: Seq<Seq<i8>>) -> Seq<Seq<i8>>
    decreases chars.len(),
{
    if chars.len() == 0 {
        cells
    } else if chars[0] == '*' {
        load_fold(chars.skip(1), r, c + 1, cells_set(cells, r, c, 1))
    } else if chars[0] == ' ' {
        load_fold(chars.skip(1), r, c + 1, cells)
    } else if chars[0] == '\n' {
        load_fold(chars.skip(1), r + 1, 0, cells)
    } else {
        load_fold(chars.skip(1), r, c, cells)
    }
}

/// Whether every `*` of `chars`, loaded with the cursor at row `r`, column
/// `c`, lands inside a `rows x cols` grid.
pub open spec fn loads_within(chars: Seq<char>, r: int, c: int, rows: int, cols: int) -> bool
    decreases chars.len(),
{
    if chars.len() == 0 {
        true
    } else if chars[0] == '*' {
        0 <= r < rows && 0 <= c < cols && loads_within(chars.skip(1), r, c + 1, rows, cols)
    } else if chars[0] == ' ' {
        loads_within(chars.skip(1), r, c + 1, rows, cols)
    } else if chars[0] == '\n' {
        loads_within(chars.skip(1), r + 1, 0, rows, cols)
    } else {
        loads_within(chars.skip(1), r, c, rows, cols)
    }
}

/// Fills `grid` with the state the text describes and returns it. Every `*`
/// of the text must land inside the grid.
pub fn initialize_grid(initial_grid_state: String, grid: Array2D<i8>) -> (r: Array2D<i8>)
    requires
        wf_dims(grid_cells(grid), grid_cols(grid)),
        loads_within(
            initial_grid_state@,
            0,
            0,
            grid_cells(grid).len() as int,
            grid_cols(grid),
        ),
    ensures
        grid_cells(r) == load_fold(initial_grid_state@, 0, 0, grid_cells(grid)),
        grid_cols(r) == grid_cols(grid),
        grid_cells(r).len() == grid_cells(grid).len(),
        wf_dims(grid_cells(r), grid_cols(r)),
{
    let mut grid = grid;
    let ghost init = grid_cells(grid);
    let ghost rows = grid_cells(grid).len() as int;
    let ghost cols = grid_cols(grid);
    let s = initial_grid_state.as_str();
    let n = s.unicode_len();
    let mut i: usize = 0;
    let mut row: usize = 0;
    let mut col: usize = 0;
    proof {
        assert(s@.skip(0) =~= s@);
    }
    while i < n
        invariant
            i <= n,
            n == s@.len(),
            row <= i,
            col <= i,
            grid_cells(grid).len() == init.len(),
            init.len() == rows,
            grid_cols(grid) == cols,
            wf_dims(grid_cells(grid), cols),
            loads_within(s@.skip(i as int), row as int, col as int, rows, cols),
            load_fold(s@, 0, 0, init) == load_fold(
                s@.skip(i as int),
                row as int,
                col as int,
                grid_cells(grid),
            ),
        decreases n - i,
    {
        let ghost rest = s@.skip(i as int);
        proof {
            assert(rest.len() == n - i);
            assert(rest[0] == s@[i as int]);
            assert(rest.skip(1) =~= s@.skip(i as int + 1));
        }
        let ch = s.get_char(i);
        if ch == '*' {
            grid_set(&mut grid, row, col, 1);
            col = col + 1;
        } else if ch == ' ' {
            col = col + 1;
        } else if ch == '\n' {
            col = 0;
            row = row + 1;
        }
        i = i + 1;
    }
    proof {
        assert(s@.skip(n as int) =~= Seq::<char>::empty());
    }
    grid
}

/// One row of a grid as text: `*` for an alive cell, a space for a dead one.
pub open spec fn render_row(row: Seq<i8>) -> Seq<char> {
    Seq::new(
        row.len(),
        |c: int|
            if row[c] == 1 {
                '*'
            } else {
                ' '
            },
    )
}

/// A grid as text: its rows rendered top to bottom, separated by newlines,
/// with no separator after the last row.
pub open spec fn render_spec(cells: Seq<Seq<i8>>) -> Seq<char>
    decreases cells.len(),
{
    if cells.len() == 0 {
        Seq::empty()
    } else if cells.len() == 1 {
        render_row(cells[0])
    } else {
        render_row(cells[0]) + seq!['\n'] + render_spec(cells.skip(1))
    }
}

/// Writes the grid in the text encoding: one row per grid row, rows
/// separated by newlines, no trailing separator.
pub fn grid_to_string(grid: &Array2D<i8>) -> (r: String)
    requires
        wf_dims(grid_cells(*grid), grid_cols(*grid)),
    ensures
        r@ == render_spec(grid_cells(*grid)),
{
    let ghost cells = grid_cells(*grid);
    let rows = grid_num_rows(grid);
    let cols = grid_num_cols(grid);
    let mut out = String::from_str("");
    proof {
        reveal_strlit("");
        reveal_strlit("*");
        reveal_strlit(" ");
        reveal_strlit("\n");
        assert(out@ =~= render_spec(cells.take(0)));
    }
    let mut row: usize = 0;
    while row < rows
        invariant
            row <= rows,
            rows == cells.len(),
            cols == grid_cols(*grid),
            cells == grid_cells(*grid),
            wf_dims(cells, cols as int),
            out@ == render_spec(cells.take(row as int)),
            "*"@ =~= seq!['*'],
            " "@ =~= seq![' '],
            "\n"@ =~= seq!['\n'],
        decreases rows - row,
    {
        if row > 0 {
            out.append("\n");
        }
        let ghost row_start = out@;
        let mut col: usize = 0;
        while col < cols
            invariant
                row < rows,
                col <= cols,
                rows == cells.len(),
                cols == grid_cols(*grid),
                cells == grid_cells(*grid),
                wf_dims(cells, cols as int),
                row_start == out@.take(out@.len() - col),
                out@ == row_start + render_row(cells[row as int]).take(col as int),
                "*"@ =~= seq!['*'],
                " "@ =~= seq![' '],
            decreases cols - col,
        {
            let alive = match grid_get(grid, row, col) {
                Some(v) => v == 1,
                None => false,
            };
            if alive {
                out.append("*");
            } else {
                out.append(" ");
            }
            proof {
                assert(render_row(cells[row as int]).take(col as int + 1) =~= render_row(
                    cells[row as int],
                ).take(col as int).push(render_row(cells[row as int])[col as int]));
                assert(out@.take(out@.len() - (col + 1)) =~= row_start);
            }
            col = col + 1;
        }
        proof {
            assert(render_row(cells[row as int]).take(cols as int) =~= render_row(
                cells[row as int],
            ));
            lemma_render_take_succ(cells, row as int);
        }
        row = row + 1;
    }
    proof {
        assert(cells.take(rows as int) =~= cells);
    }
    out
}

/// Rendering one more row appends a newline separator (after the first row)
/// and the rendered row.
proof fn lemma_render_take_succ(cells: Seq<Seq<i8>>, r: int)
    requires
        0 <= r < cells.len(),
    ensures
        r == 0 ==> render_spec(cells.take(1)) == render_row(cells[0]),
        r > 0 ==> render_spec(cells.take(r + 1)) == render_spec(cells.take(r)) + seq!['\n']
            + render_row(cells[r]),
{
    if r == 0 {
        assert(cells.take(1).len() == 1);
        assert(cells.take(1)[0] == cells[0]);
    } else {
        lemma_render_snoc(cells.take(r + 1));
        assert(cells.take(r + 1).len() == r + 1);
        assert(cells.take(r + 1).take(r) =~= cells.take(r));
        assert(cells.take(r + 1)[r] == cells[r]);
    }
}

/// For a grid of at least two rows, the rendering splits off the last row.
proof fn lemma_render_snoc(cells: Seq<Seq<i8>>)
    requires
        cells.len() >= 2,
    ensures
        render_spec(cells) == render_spec(cells.take(cells.len() - 1)) + seq!['\n'] + render_row(
            cells[cells.len() - 1],
        ),
    decreases cells.len(),
{
    let n = cells.len() as int;
    if n == 2 {
        assert(cells.skip(1) =~= seq![cells[1]]);
        assert(cells.take(1) =~= seq![cells[0]]);
        assert(render_spec(cells.skip(1)) == render_row(cells[1]));
        assert(render_spec(cells.take(1)) == render_row(cells[0]));
    } else {
        lemma_render_snoc(cells.skip(1));
        assert(cells.skip(1).len() == n - 1);
        assert(cells.skip(1).take(n - 2) =~= cells.take(n - 1).skip(1));
        assert(cells.skip(1)[n - 2] == cells[n - 1]);
        assert(cells.take(n - 1)[0] == cells[0]);
        assert(cells.take(n - 1).len() == n - 1);
        assert(render_spec(cells.take(n - 1)) == render_row(cells[0]) + seq!['\n'] + render_spec(
            cells.take(n - 1).skip(1),
        ));
        assert(render_spec(cells) == render_row(cells[0]) + seq!['\n'] + render_spec(
            cells.skip(1),
        ));
        assert(render_spec(cells) =~= render_spec(cells.take(n - 1)) + seq!['\n'] + render_row(
            cells[n - 1],
        ));
    }
}

/// The loader cursor after processing `chars` from row `r`, column `c`.
pub open spec fn pos_after(chars: Seq<char>, r: int, c: int) -> (int, int)
    decreases chars.len(),
{
    if chars.len() == 0 {
        (r, c)
    } else if chars[0] == '*' || chars[0] == ' ' {
        pos_after(chars.skip(1), r, c + 1)
    } else if chars[0] == '\n' {
        pos_after(chars.skip(1), r + 1, 0)
    } else {
        pos_after(chars.skip(1), r, c)
    }
}

/// Loading a concatenation loads the first part, then the second from the
/// cursor the first part leaves behind.
proof fn lemma_load_append(a: Seq<char>, b: Seq<char>, r: int, c: int, acc: Seq<Seq<i8>>)
    ensures
        load_fold(a + b, r, c, acc) == load_fold(
            b,
            pos_after(a, r, c).0,
            pos_after(a, r, c).1,
            load_fold(a, r, c, acc),
        ),
    decreases a.len(),
{
    if a.len() == 0 {
        assert(a + b =~= b);
    } else {
        let rest = a.skip(1);
        assert((a + b).len() > 0);
        assert((a + b)[0] == a[0]);
        assert((a + b).skip(1) =~= rest + b);
        if a[0] == '*' {
            lemma_load_append(rest, b, r, c + 1, cells_set(acc, r, c, 1));
        } else if a[0] == ' ' {
            lemma_load_append(rest, b, r, c + 1, acc);
        } else if a[0] == '\n' {
            lemma_load_append(rest, b, r + 1, 0, acc);
        } else {
            lemma_load_append(rest, b, r, c, acc);
        }
    }
}

/// Loading the rendering of one row, with the cursor at row `r`, column
/// `c0`, writes that row into columns `c0 ..` of row `r` — the alive cells
/// by setting them, the dead cells by leaving the already dead entries as
/// they are — and leaves the cursor after the row.
proof fn lemma_load_row(row: Seq<i8>, r: int, c0: int, acc: Seq<Seq<i8>>)
    requires
        0 <= r < acc.len(),
        0 <= c0,
        c0 + row.len() <= acc[r].len(),
        forall|j: int| 0 <= j < row.len() ==> #[trigger] row[j] == 0 || row[j] == 1,
        forall|j: int| c0 <= j < c0 + row.len() ==> #[trigger] acc[r][j] == 0,
    ensures
        load_fold(render_row(row), r, c0, acc) == acc.update(
            r,
            acc[r].take(c0) + row + acc[r].skip(c0 + row.len()),
        ),
        pos_after(render_row(row), r, c0) == (r, c0 + row.len()),
    decreases row.len(),
{
    let chars = render_row(row);
    if row.len() == 0 {
        assert(chars.len() == 0);
        assert(acc[r].take(c0) + row + acc[r].skip(c0) =~= acc[r]);
        assert(acc.update(r, acc[r]) =~= acc);
    } else {
        assert(chars[0] == if row[0] == 1 {
            '*'
        } else {
            ' '
        });
        assert(chars.skip(1) =~= render_row(row.skip(1)));
        if row[0] == 1 {
            let acc1 = cells_set(acc, r, c0, 1);
            assert(acc1 == acc.update(r, acc[r].update(c0, 1)));
            assert(acc1[r] == acc[r].update(c0, 1));
            lemma_load_row(row.skip(1), r, c0 + 1, acc1);
            assert(acc1[r].take(c0 + 1) + row.skip(1) + acc1[r].skip(c0 + row.len()) =~= acc[
                r
            ].take(c0) + row + acc[r].skip(c0 + row.len()));
            assert(acc1.update(
                r,
                acc1[r].take(c0 + 1) + row.skip(1) + acc1[r].skip(c0 + row.len()),
            ) =~= acc.update(r, acc[r].take(c0) + row + acc[r].skip(c0 + row.len())));
        } else {
            assert(row[0] == 0);
            lemma_load_row(row.skip(1), r, c0 + 1, acc);
            assert(acc[r].take(c0 + 1) + row.skip(1) + acc[r].skip(c0 + row.len()) =~= acc[
                r
            ].take(c0) + row + acc[r].skip(c0 + row.len()));
        }
    }
}

/// Loading the rendering of a whole grid pattern into a grid whose rows
/// `r0 ..` are dead and of matching widths reproduces the pattern in those
/// rows and touches nothing else.
proof fn lemma_load_render(cells: Seq<Seq<i8>>, r0: int, acc: Seq<Seq<i8>>)
    requires
        cells.len() >= 1,
        0 <= r0,
        r0 + cells.len() <= acc.len(),
        forall|i: int| 0 <= i < cells.len() ==> (#[trigger] cells[i]).len() == acc[r0 + i].len(),
        wf_states(cells),
        forall|i: int, j: int|
            r0 <= i < r0 + cells.len() && 0 <= j < (#[trigger] acc[i]).len() ==> #[trigger] acc[i][j]
                == 0,
    ensures
        load_fold(render_spec(cells), r0, 0, acc) == Seq::new(
            acc.len(),
            |i: int|
                if r0 <= i < r0 + cells.len() {
                    cells[i - r0]
                } else {
                    acc[i]
                },
        ),
    decreases cells.len(),
{
    let target = Seq::new(
        acc.len(),
        |i: int|
            if r0 <= i < r0 + cells.len() {
                cells[i - r0]
            } else {
                acc[i]
            },
    );
    let head = cells[0];
    if cells.len() == 1 {
        assert(render_spec(cells) == render_row(head));
        lemma_load_row(head, r0, 0, acc);
        assert(acc[r0].take(0) + head + acc[r0].skip(head.len() as int) =~= head);
        assert(acc.update(r0, acc[r0].take(0) + head + acc[r0].skip(head.len() as int)) =~= target);
    } else {
        let rest = cells.skip(1);
        let a = render_row(head);
        let b = seq!['\n'] + render_spec(rest);
        assert(render_spec(cells) =~= a + b);
        lemma_load_row(head, r0, 0, acc);
        lemma_load_append(a, b, r0, 0, acc);
        let acc1 = acc.update(r0, acc[r0].take(0) + head + acc[r0].skip(head.len() as int));
        assert(load_fold(render_spec(cells), r0, 0, acc) == load_fold(b, r0, head.len() as int, acc1));
        assert(b[0] == '\n');
        assert(b.skip(1) =~= render_spec(rest));
        assert(load_fold(b, r0, head.len() as int, acc1) == load_fold(
            render_spec(rest),
            r0 + 1,
            0,
            acc1,
        ));
        assert(acc1[r0] =~= head);
        lemma_load_render(rest, r0 + 1, acc1);
        let sub = Seq::new(
            acc1.len(),
            |i: int|
                if r0 + 1 <= i < r0 + 1 + rest.len() {
                    rest[i - (r0 + 1)]
                } else {
                    acc1[i]
                },
        );
        assert(sub =~= target);
    }
}

/// Every cell of the grid is dead.
pub open spec fn all_dead(cells: Seq<Seq<i8>>) -> bool {
    forall|r: int, c: int|
        0 <= r < cells.len() && 0 <= c < (#[trigger] cells[r]).len() ==> #[trigger] cells[r][c] == 0
}

/// A `rows x cols` grid pattern: `rows` rows of `cols` cells each, every
/// cell dead or alive.
pub open spec fn grid_pattern(cells: Seq<Seq<i8>>, rows: int, cols: int) -> bool {
    cells.len() == rows && wf_dims(cells, cols) && wf_states(cells)
}

/// A well-formed `rows x cols` encoded text: the rendering of some
/// `rows x cols` grid pattern.
pub open spec fn well_formed_encoding(s: Seq<char>, rows: int, cols: int) -> bool {
    exists|cells: Seq<Seq<i8>>|
        grid_pattern(cells, rows, cols) && s == #[trigger] render_spec(cells)
}

/// Law: writing the grid loaded from a well-formed `rows x cols` encoded
/// text — loaded into an all-dead grid of those dimensions — reproduces the
/// text exactly.
pub proof fn lemma_round_trip(s: Seq<char>, zero: Seq<Seq<i8>>, rows: int, cols: int)
    requires
        rows >= 1,
        well_formed_encoding(s, rows, cols),
        zero.len() == rows,
        wf_dims(zero, cols),
        all_dead(zero),
    ensures
        render_spec(load_fold(s, 0, 0, zero)) == s,
{
    let cells = choose|cells: Seq<Seq<i8>>|
        grid_pattern(cells, rows, cols) && s == #[trigger] render_spec(cells);
    lemma_load_render(cells, 0, zero);
    let target = Seq::new(
        zero.len(),
        |i: int|
            if 0 <= i < cells.len() {
                cells[i]
            } else {
                zero[i]
            },
    );
    assert(target =~= cells);
    assert(load_fold(s, 0, 0, zero) == cells);
}

} // verus!
