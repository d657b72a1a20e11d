use blockwars::grid::is_free_isolated;
use blockwars::grid::occupy;

#[test]
fn empty_grid_is_free_everywhere() {
    let grid: Vec<bool> = vec![false; 25];
    for r in 0..5 {
        for c in 0..5 {
            assert!(is_free_isolated(&grid, 5, 5, c, r));
        }
    }
}

#[test]
fn occupied_cell_blocks_itself_and_neighbours() {
    let mut grid: Vec<bool> = vec![false; 25];
    occupy(&mut grid, 5, 5, 2, 2);
    assert!(grid[2 * 5 + 2]);
    // The cell and its four orthogonal neighbours are no longer free.
    assert!(!is_free_isolated(&grid, 5, 5, 2, 2));
    assert!(!is_free_isolated(&grid, 5, 5, 1, 2));
    assert!(!is_free_isolated(&grid, 5, 5, 3, 2));
    assert!(!is_free_isolated(&grid, 5, 5, 2, 1));
    assert!(!is_free_isolated(&grid, 5, 5, 2, 3));
    // A diagonal neighbour is still acceptable.
    assert!(is_free_isolated(&grid, 5, 5, 1, 1));
    assert!(is_free_isolated(&grid, 5, 5, 3, 3));
}

#[test]
fn borders_do_not_confuse_the_test() {
    let mut grid: Vec<bool> = vec![false; 25];
    occupy(&mut grid, 5, 5, 0, 0);
    assert!(!is_free_isolated(&grid, 5, 5, 0, 0));
    assert!(!is_free_isolated(&grid, 5, 5, 1, 0));
    assert!(!is_free_isolated(&grid, 5, 5, 0, 1));
    // The far corner is unaffected.
    assert!(is_free_isolated(&grid, 5, 5, 4, 4));
}
