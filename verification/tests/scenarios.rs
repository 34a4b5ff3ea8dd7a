use array2d::Array2D;
use game_of_life::codec::{grid_to_string, initialize_grid};
use game_of_life::engine::game_of_life;
use game_of_life::grid::{get_cell, make_grid};

fn grid_from(rows: i8, cols: i8, text: &str) -> Array2D<i8> {
    initialize_grid(String::from(text), make_grid(rows, cols))
}

#[test]
fn zero_generations_leave_the_grid_unchanged() {
    let text = "*  *\n ** \n ** \n*  *";
    let a = grid_from(4, 4, text);
    let b = make_grid(4, 4);
    let out = game_of_life(a, b, 0);
    assert_eq!(grid_to_string(&out), text);
}

#[test]
fn blinker_oscillates() {
    // 5x5, horizontal line in row 2
    let a = grid_from(5, 5, "     \n     \n *** \n     \n     ");
    let b = make_grid(5, 5);
    let out = game_of_life(a, b, 1);
    // after one generation: vertical line through (1,2),(2,2),(3,2)
    for r in 0..5 {
        for c in 0..5 {
            let expected = if c == 2 && (1..=3).contains(&r) { 1 } else { 0 };
            assert_eq!(get_cell(&out, r, c), Ok(expected), "cell ({}, {})", r, c);
        }
    }
}

#[test]
fn blinker_returns_after_two_generations() {
    let a = grid_from(5, 5, "     \n     \n *** \n     \n     ");
    let b = make_grid(5, 5);
    let out = game_of_life(a, b, 2);
    assert_eq!(grid_to_string(&out), "     \n     \n *** \n     \n     ");
}

#[test]
fn block_is_a_still_life() {
    let text = "    \n ** \n ** \n    ";
    for generations in [1, 2, 5, 10] {
        let a = grid_from(4, 4, text);
        let b = make_grid(4, 4);
        let out = game_of_life(a, b, generations);
        assert_eq!(grid_to_string(&out), text, "after {} generations", generations);
    }
}

#[test]
fn lone_cell_dies() {
    let a = grid_from(5, 5, "     \n     \n  *  \n     \n     ");
    let b = make_grid(5, 5);
    let out = game_of_life(a, b, 1);
    assert_eq!(grid_to_string(&out), "     \n     \n     \n     \n     ");
}

#[test]
fn lone_corner_cell_dies() {
    let a = grid_from(3, 3, "*  \n   \n   ");
    let b = make_grid(3, 3);
    let out = game_of_life(a, b, 1);
    assert_eq!(grid_to_string(&out), "   \n   \n   ");
}

#[test]
fn dead_cell_with_three_neighbors_is_born() {
    // an L of three cells: the fourth corner of the square is born, and the
    // result is the block still life
    let a = grid_from(4, 4, "    \n ** \n *  \n    ");
    let b = make_grid(4, 4);
    let out = game_of_life(a, b, 1);
    assert_eq!(grid_to_string(&out), "    \n ** \n ** \n    ");
}

#[test]
fn simulation_works_on_non_square_grids() {
    // blinker on a 3x5 grid
    let a = grid_from(3, 5, "     \n *** \n     ");
    let b = make_grid(3, 5);
    let out = game_of_life(a, b, 1);
    assert_eq!(grid_to_string(&out), "  *  \n  *  \n  *  ");
}

#[test]
fn many_generations_on_a_glider() {
    // a glider moves one cell down-right every 4 generations
    let a = grid_from(6, 6, " *    \n  *   \n***   \n      \n      \n      ");
    let b = make_grid(6, 6);
    let out = game_of_life(a, b, 4);
    assert_eq!(grid_to_string(&out), "      \n  *   \n   *  \n ***  \n      \n      ");
}
