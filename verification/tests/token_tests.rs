use rocket_maze::direction::Direction;
use rocket_maze::grid::{Cell, GridState};
use rocket_maze::token::Token;

fn cell(x: usize, y: usize) -> Cell {
    Cell { x, y }
}

#[test]
fn new_token_stands_still_with_full_budget() {
    let t = Token::new(cell(1, 1), 10);
    assert_eq!(t.position(), cell(1, 1));
    assert_eq!(t.direction(), Direction::Neutral);
    assert_eq!(t.turns_remaining(), 10);
    assert_eq!(t.history().len(), 1);
    assert_eq!(t.history()[0], cell(1, 1));
}

#[test]
fn accepted_direction_change_costs_one_turn() {
    let mut t = Token::new(cell(1, 1), 10);
    t.apply_intent(Direction::Right);
    assert_eq!(t.direction(), Direction::Right);
    assert_eq!(t.turns_remaining(), 9);
}

#[test]
fn held_key_with_unchanged_direction_costs_nothing() {
    let mut t = Token::new(cell(1, 1), 10);
    t.apply_intent(Direction::Right);
    t.apply_intent(Direction::Right);
    assert_eq!(t.direction(), Direction::Right);
    assert_eq!(t.turns_remaining(), 9);
}

#[test]
fn reversal_is_rejected_and_costs_nothing() {
    let mut t = Token::new(cell(1, 1), 10);
    t.apply_intent(Direction::Right);
    t.apply_intent(Direction::Left);
    assert_eq!(t.direction(), Direction::Right);
    assert_eq!(t.turns_remaining(), 9);
}

#[test]
fn exhausted_budget_blocks_further_direction_changes() {
    // Budget of one: the first change drains it, the second is ignored.
    let mut t = Token::new(cell(1, 1), 1);
    t.apply_intent(Direction::Right);
    assert_eq!(t.direction(), Direction::Right);
    assert_eq!(t.turns_remaining(), 0);
    t.apply_intent(Direction::Up);
    assert_eq!(t.direction(), Direction::Right);
    assert_eq!(t.turns_remaining(), 0);
}

#[test]
fn advance_moves_onto_free_cell_and_records_history() {
    let g = GridState::empty(5, 5);
    let mut t = Token::new(cell(1, 1), 10);
    t.apply_intent(Direction::Right);
    let moved = t.advance(&g);
    assert!(moved);
    assert_eq!(t.position(), cell(2, 1));
    assert_eq!(t.history().len(), 2);
    assert_eq!(t.history()[1], cell(2, 1));
}

#[test]
fn advance_standing_still_is_a_no_op() {
    let g = GridState::empty(5, 5);
    let mut t = Token::new(cell(1, 1), 10);
    let moved = t.advance(&g);
    assert!(!moved);
    assert_eq!(t.position(), cell(1, 1));
    assert_eq!(t.history().len(), 1);
}

#[test]
fn advance_into_wall_is_a_no_op() {
    let mut g = GridState::empty(5, 5);
    g.add_static_wall(cell(2, 1));
    let mut t = Token::new(cell(1, 1), 10);
    t.apply_intent(Direction::Right);
    let moved = t.advance(&g);
    assert!(!moved);
    assert_eq!(t.position(), cell(1, 1));
    assert_eq!(t.history().len(), 1);
}

#[test]
fn advance_into_trail_wall_is_a_no_op() {
    let mut g = GridState::empty(5, 5);
    g.add_trail_wall(cell(1, 2));
    let mut t = Token::new(cell(1, 1), 10);
    t.apply_intent(Direction::Up);
    let moved = t.advance(&g);
    assert!(!moved);
    assert_eq!(t.position(), cell(1, 1));
}

#[test]
fn advance_is_clamped_at_the_grid_edge() {
    let g = GridState::empty(3, 3);
    let mut t = Token::new(cell(0, 1), 10);
    t.apply_intent(Direction::Left);
    let moved = t.advance(&g);
    // The clamped target is the current (free) cell: the tick still counts
    // as a move and appends the cell to the history again.
    assert!(moved);
    assert_eq!(t.position(), cell(0, 1));
    assert_eq!(t.history().len(), 2);
}

#[test]
fn reset_restores_start_budget_and_history() {
    let g = GridState::empty(5, 5);
    let mut t = Token::new(cell(1, 1), 10);
    t.apply_intent(Direction::Right);
    t.advance(&g);
    t.reset(cell(1, 1), 10);
    assert_eq!(t.position(), cell(1, 1));
    assert_eq!(t.direction(), Direction::Neutral);
    assert_eq!(t.turns_remaining(), 10);
    assert_eq!(t.history().len(), 1);
    assert_eq!(t.history()[0], cell(1, 1));
}
