use game_of_life::grid::{
    check_dimensions, check_same_dimensions, get_cell, make_grid, num_columns, num_rows, set_cell,
    GridError,
};

#[test]
fn make_grid_starts_all_dead() {
    let g = make_grid(3, 4);
    assert_eq!(num_rows(&g), 3);
    assert_eq!(num_columns(&g), 4);
    for r in 0..3 {
        for c in 0..4 {
            assert_eq!(get_cell(&g, r, c), Ok(0));
        }
    }
}

#[test]
fn set_then_get_round_trips() {
    let mut g = make_grid(5, 5);
    assert_eq!(set_cell(&mut g, 2, 3, 1), Ok(()));
    assert_eq!(get_cell(&g, 2, 3), Ok(1));
    assert_eq!(get_cell(&g, 3, 2), Ok(0));
    assert_eq!(set_cell(&mut g, 2, 3, 0), Ok(()));
    assert_eq!(get_cell(&g, 2, 3), Ok(0));
}

#[test]
fn out_of_bounds_access_is_an_error() {
    let mut g = make_grid(3, 3);
    assert_eq!(get_cell(&g, 3, 0), Err(GridError::OutOfBounds));
    assert_eq!(get_cell(&g, 0, 3), Err(GridError::OutOfBounds));
    assert_eq!(set_cell(&mut g, 5, 1, 1), Err(GridError::OutOfBounds));
    assert_eq!(set_cell(&mut g, 1, 5, 1), Err(GridError::OutOfBounds));
    // the failed set left the grid unchanged
    for r in 0..3 {
        for c in 0..3 {
            assert_eq!(get_cell(&g, r, c), Ok(0));
        }
    }
}

#[test]
fn nonpositive_dimensions_are_rejected() {
    assert_eq!(check_dimensions(0, 5), Err(GridError::InvalidDimensions));
    assert_eq!(check_dimensions(5, 0), Err(GridError::InvalidDimensions));
    assert_eq!(check_dimensions(-1, 5), Err(GridError::InvalidDimensions));
    assert_eq!(check_dimensions(1, 1), Ok(()));
    assert_eq!(check_dimensions(127, 127), Ok(()));
}

#[test]
fn differing_dimensions_are_rejected() {
    let a = make_grid(3, 3);
    let b = make_grid(3, 4);
    let c = make_grid(4, 3);
    let d = make_grid(3, 3);
    assert_eq!(check_same_dimensions(&a, &b), Err(GridError::DimensionMismatch));
    assert_eq!(check_same_dimensions(&a, &c), Err(GridError::DimensionMismatch));
    assert_eq!(check_same_dimensions(&a, &d), Ok(()));
}
