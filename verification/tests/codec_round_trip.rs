use game_of_life::codec::{grid_to_string, initialize_grid};
use game_of_life::grid::{get_cell, make_grid};

#[test]
fn writer_reproduces_loader_input() {
    let cases = [
        (1, 1, "*"),
        (1, 1, " "),
        (2, 2, "**\n**"),
        (3, 3, "* *\n * \n* *"),
        (5, 5, "     \n *** \n * * \n *** \n     "),
        (2, 4, "* * \n ** "),
        (4, 2, "* \n *\n**\n  "),
    ];
    for (rows, cols, text) in cases {
        let g = initialize_grid(String::from(text), make_grid(rows, cols));
        assert_eq!(grid_to_string(&g), text);
    }
}

#[test]
fn loader_places_cells_where_the_text_says() {
    let g = initialize_grid(String::from("*  \n * \n  *"), make_grid(3, 3));
    for r in 0..3 {
        for c in 0..3 {
            let expected = if r == c { 1 } else { 0 };
            assert_eq!(get_cell(&g, r, c), Ok(expected));
        }
    }
}

#[test]
fn loader_ignores_unrecognized_characters_without_advancing() {
    // 'x' is skipped and does not move the cursor, so the '*' still lands at
    // column 0
    let g = initialize_grid(String::from("x*"), make_grid(2, 2));
    assert_eq!(get_cell(&g, 0, 0), Ok(1));
    assert_eq!(get_cell(&g, 0, 1), Ok(0));
    assert_eq!(get_cell(&g, 1, 0), Ok(0));
    assert_eq!(get_cell(&g, 1, 1), Ok(0));
}

#[test]
fn loader_accepts_short_rows() {
    // a newline resets the cursor even if the row was not filled
    let g = initialize_grid(String::from("*\n *"), make_grid(2, 2));
    assert_eq!(get_cell(&g, 0, 0), Ok(1));
    assert_eq!(get_cell(&g, 0, 1), Ok(0));
    assert_eq!(get_cell(&g, 1, 0), Ok(0));
    assert_eq!(get_cell(&g, 1, 1), Ok(1));
}

#[test]
fn writer_emits_no_trailing_newline() {
    let g = make_grid(2, 3);
    assert_eq!(grid_to_string(&g), "   \n   ");
    let h = make_grid(1, 1);
    assert_eq!(grid_to_string(&h), " ");
}
