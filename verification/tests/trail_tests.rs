use rocket_maze::grid::{Cell, GridState};
use rocket_maze::trail::maybe_deposit_trail_wall;

fn cell(x: usize, y: usize) -> Cell {
    Cell { x, y }
}

#[test]
fn bend_deposits_at_the_middle_cell() {
    // Straight (1,1) -> (2,1) -> (3,1), then a turn to (3,2): the window
    // (2,1), (3,1), (3,2) is non-collinear, so a wall lands on (3,1).
    let mut g = GridState::empty(6, 6);
    let history: Vec<Cell> = vec![cell(1, 1), cell(2, 1), cell(3, 1), cell(3, 2)];
    maybe_deposit_trail_wall(&mut g, &history);
    assert!(g.is_trail_wall(cell(3, 1)));
    assert_eq!(g.trail_walls().len(), 1);
}

#[test]
fn collinear_window_deposits_nothing() {
    let mut g = GridState::empty(6, 6);
    let history: Vec<Cell> = vec![cell(1, 1), cell(2, 1), cell(3, 1)];
    maybe_deposit_trail_wall(&mut g, &history);
    assert!(g.trail_walls().is_empty());
}

#[test]
fn vertical_collinear_window_deposits_nothing() {
    let mut g = GridState::empty(6, 6);
    let history: Vec<Cell> = vec![cell(2, 1), cell(2, 2), cell(2, 3)];
    maybe_deposit_trail_wall(&mut g, &history);
    assert!(g.trail_walls().is_empty());
}

#[test]
fn short_history_deposits_nothing() {
    let mut g = GridState::empty(6, 6);
    let history: Vec<Cell> = vec![cell(1, 1), cell(2, 1)];
    maybe_deposit_trail_wall(&mut g, &history);
    assert!(g.trail_walls().is_empty());
}

#[test]
fn only_the_last_window_is_examined() {
    // An earlier bend in the history does not matter: the last three cells
    // are collinear, so nothing is deposited.
    let mut g = GridState::empty(6, 6);
    let history: Vec<Cell> =
        vec![cell(1, 1), cell(2, 1), cell(2, 2), cell(2, 3), cell(2, 4)];
    maybe_deposit_trail_wall(&mut g, &history);
    assert!(g.trail_walls().is_empty());
}
