use game_of_life::engine::{neighbor_position, next_state, number_of_alive_neighbors};
use game_of_life::grid::{make_grid, set_cell};

#[test]
fn reproduction_three_neighbors_always_alive() {
    assert_eq!(next_state(0, 3), 1);
    assert_eq!(next_state(1, 3), 1);
}

#[test]
fn two_neighbors_keep_state() {
    assert_eq!(next_state(0, 2), 0);
    assert_eq!(next_state(1, 2), 1);
}

#[test]
fn under_and_overpopulation_die() {
    assert_eq!(next_state(1, 0), 0);
    assert_eq!(next_state(1, 1), 0);
    assert_eq!(next_state(0, 0), 0);
    assert_eq!(next_state(0, 1), 0);
    assert_eq!(next_state(1, 4), 0);
    assert_eq!(next_state(0, 4), 0);
    assert_eq!(next_state(1, 8), 0);
    assert_eq!(next_state(0, 8), 0);
}

#[test]
fn neighbor_position_moves_in_bounds() {
    assert_eq!(neighbor_position((2, 3), (1, -1)), (3, 2));
    assert_eq!(neighbor_position((0, 0), (1, 1)), (1, 1));
    assert_eq!(neighbor_position((5, 5), (0, 0)), (5, 5));
}

#[test]
fn neighbor_position_negative_is_out_of_bounds() {
    assert_eq!(neighbor_position((0, 0), (-1, 0)), (usize::MAX, 0));
    assert_eq!(neighbor_position((0, 0), (0, -1)), (0, usize::MAX));
    assert_eq!(neighbor_position((0, 0), (-1, -1)), (usize::MAX, usize::MAX));
}

#[test]
fn corner_counts_only_in_bounds_neighbors() {
    // 2x2 grid, everything but the corner alive: the corner has exactly its
    // 3 in-bounds neighbors alive.
    let mut g = make_grid(2, 2);
    set_cell(&mut g, 0, 1, 1).unwrap();
    set_cell(&mut g, 1, 0, 1).unwrap();
    set_cell(&mut g, 1, 1, 1).unwrap();
    assert_eq!(number_of_alive_neighbors((0, 0), &g), 3);
}

#[test]
fn edge_counts_at_most_five_neighbors() {
    // 3x3 grid fully alive: an edge cell sees 5 neighbors, the center 8.
    let mut g = make_grid(3, 3);
    for r in 0..3 {
        for c in 0..3 {
            set_cell(&mut g, r, c, 1).unwrap();
        }
    }
    assert_eq!(number_of_alive_neighbors((0, 1), &g), 5);
    assert_eq!(number_of_alive_neighbors((1, 1), &g), 8);
    assert_eq!(number_of_alive_neighbors((0, 0), &g), 3);
}

#[test]
fn neighbor_count_ignores_the_cell_itself() {
    let mut g = make_grid(3, 3);
    set_cell(&mut g, 1, 1, 1).unwrap();
    assert_eq!(number_of_alive_neighbors((1, 1), &g), 0);
    assert_eq!(number_of_alive_neighbors((0, 0), &g), 1);
    assert_eq!(number_of_alive_neighbors((2, 1), &g), 1);
}
