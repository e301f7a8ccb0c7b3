use rocket_maze::direction::Direction;
use rocket_maze::game::{EntityKind, GameEvent, GameState, InputState, Mode};
use rocket_maze::grid::Cell;
use rocket_maze::levels::{game_over_rows, level_rows};
use rocket_maze::reach::check;

fn cell(x: usize, y: usize) -> Cell {
    Cell { x, y }
}

fn keys(left: bool, down: bool, up: bool, right: bool, reset: bool) -> InputState {
    InputState { left, down, up, right, reset }
}

fn idle() -> InputState {
    keys(false, false, false, false, false)
}

fn right() -> InputState {
    keys(false, false, false, true, false)
}

fn up() -> InputState {
    keys(false, false, true, false, false)
}

fn reset() -> InputState {
    keys(false, false, false, false, true)
}

#[test]
fn reaching_a_goal_resets_the_token_and_counts() {
    let rows: Vec<&str> = vec![" T"];
    let mut gs = GameState::new(&rows);
    assert!(gs.grid().is_goal(cell(2, 1)));
    let events = gs.tick(right());
    assert_eq!(
        events,
        vec![GameEvent::GoalReached, GameEvent::PathCheckRequested]
    );
    assert_eq!(gs.goals_this_attempt(), 1);
    assert_eq!(gs.token().position(), cell(1, 1));
    assert_eq!(gs.token().direction(), Direction::Neutral);
    assert_eq!(gs.token().turns_remaining(), 10);
    assert_eq!(gs.mode(), Mode::Playing);
}

#[test]
fn exceeding_the_goal_threshold_requests_the_next_level() {
    let rows: Vec<&str> = vec![" T"];
    let mut gs = GameState::new(&rows);
    gs.tick(right());
    gs.tick(right());
    assert_eq!(gs.goals_this_attempt(), 2);
    assert_eq!(gs.mode(), Mode::Playing);
    let events = gs.tick(right());
    assert_eq!(
        events,
        vec![GameEvent::GoalReached, GameEvent::NextLevelRequested]
    );
    assert_eq!(gs.goals_this_attempt(), 3);
    assert_eq!(gs.mode(), Mode::Loading);

    // While loading, ticks are a no-op.
    let events = gs.tick(right());
    assert!(events.is_empty());
    assert_eq!(gs.mode(), Mode::Loading);

    // Loading the next level advances the index and resets the attempt.
    let next = level_rows(1);
    gs.load_next_level(&next);
    assert_eq!(gs.level(), 1);
    assert_eq!(gs.goals_this_attempt(), 0);
    assert_eq!(gs.mode(), Mode::Playing);
    assert_eq!(gs.token().position(), cell(1, 1));
}

#[test]
fn bend_in_play_deposits_a_trail_wall() {
    let rows: Vec<&str> = vec!["             T"];
    let mut gs = GameState::new(&rows);
    gs.tick(right());
    gs.tick(right());
    assert_eq!(gs.token().position(), cell(3, 1));
    assert!(gs.grid().trail_walls().is_empty());
    gs.tick(up());
    assert_eq!(gs.token().position(), cell(3, 2));
    assert_eq!(gs.grid().trail_walls().len(), 1);
    assert_eq!(gs.grid().trail_walls()[0], cell(3, 1));
    assert!(!gs.grid().is_free(cell(3, 1)));
}

#[test]
fn straight_travel_deposits_nothing() {
    let rows: Vec<&str> = vec!["             T"];
    let mut gs = GameState::new(&rows);
    gs.tick(right());
    gs.tick(right());
    gs.tick(right());
    assert_eq!(gs.token().position(), cell(4, 1));
    assert!(gs.grid().trail_walls().is_empty());
}

#[test]
fn player_reset_clears_trail_and_restores_the_token() {
    let rows: Vec<&str> = vec!["  T"];
    let mut gs = GameState::new(&rows);
    gs.tick(right());
    gs.tick(up());
    assert_eq!(gs.grid().trail_walls().len(), 1);
    assert_eq!(gs.grid().trail_walls()[0], cell(2, 1));
    assert_eq!(gs.token().turns_remaining(), 8);

    let events = gs.tick(reset());
    assert!(events.contains(&GameEvent::ResetApplied));
    assert!(events.contains(&GameEvent::PathCheckRequested));
    assert!(gs.grid().trail_walls().is_empty());
    assert!(gs.grid().is_free(cell(2, 1)));
    assert_eq!(gs.token().position(), cell(1, 1));
    assert_eq!(gs.token().direction(), Direction::Neutral);
    assert_eq!(gs.token().turns_remaining(), 10);
    // Goals and static walls are untouched.
    assert!(gs.grid().is_goal(cell(3, 1)));
    assert!(gs.grid().is_static_wall(cell(0, 0)));
    assert_eq!(gs.mode(), Mode::Playing);
}

#[test]
fn unreachable_goal_ends_the_game() {
    // The only goal sits inside a complete wall ring.
    let rows: Vec<&str> = vec![" WWW", " WTW", " WWW", ""];
    let mut gs = GameState::new(&rows);
    assert!(gs.grid().is_goal(cell(3, 3)));
    assert_eq!(gs.mode(), Mode::Playing);
    let events = gs.tick(reset());
    assert_eq!(
        events,
        vec![
            GameEvent::ResetApplied,
            GameEvent::PathCheckRequested,
            GameEvent::GameOver
        ]
    );
    assert_eq!(gs.mode(), Mode::GameOver);

    // The terminal state ignores further input.
    let events = gs.tick(right());
    assert!(events.is_empty());
    assert_eq!(gs.mode(), Mode::GameOver);
}

#[test]
fn goal_and_reset_in_one_tick_fire_in_stage_order() {
    let rows: Vec<&str> = vec![" T"];
    let mut gs = GameState::new(&rows);
    let events = gs.tick(keys(false, false, false, true, true));
    assert_eq!(
        events,
        vec![
            GameEvent::GoalReached,
            GameEvent::ResetApplied,
            GameEvent::PathCheckRequested
        ]
    );
    assert_eq!(gs.goals_this_attempt(), 1);
    assert_eq!(gs.mode(), Mode::Playing);
}

#[test]
fn goal_reached_reset_keeps_trail_walls_as_permanent_structure() {
    let rows: Vec<&str> = vec![" T"];
    let mut gs = GameState::new(&rows);
    gs.tick(up());
    gs.tick(right());
    // Window (1,1), (1,2), (2,2): a bend deposited at (1,2).
    assert_eq!(gs.grid().trail_walls().len(), 1);
    assert_eq!(gs.grid().trail_walls()[0], cell(1, 2));
    // Turning down onto the goal bends at (2,2) and then reaches the goal:
    // the attempt resets and both trail walls become permanent.
    let events = gs.tick(keys(false, true, false, false, false));
    assert!(events.contains(&GameEvent::GoalReached));
    assert_eq!(gs.goals_this_attempt(), 1);
    assert_eq!(gs.token().position(), cell(1, 1));
    assert!(gs.grid().trail_walls().is_empty());
    assert!(gs.grid().is_static_wall(cell(1, 2)));
    assert!(gs.grid().is_static_wall(cell(2, 2)));
    // A player reset afterwards does not free the committed walls.
    gs.tick(reset());
    assert!(gs.grid().is_static_wall(cell(1, 2)));
    assert!(gs.grid().is_static_wall(cell(2, 2)));
}

#[test]
fn movement_is_blocked_by_level_walls() {
    // The first level starts in a corridor: the cell above the start is
    // free, the cell to the right is a wall.
    let rows = level_rows(0);
    let mut gs = GameState::new(&rows);
    assert!(gs.grid().is_static_wall(cell(2, 1)));
    gs.tick(right());
    assert_eq!(gs.token().position(), cell(1, 1));
    gs.tick(up());
    assert_eq!(gs.token().position(), cell(1, 2));
}

#[test]
fn built_in_levels_are_solvable_and_the_game_over_board_is_not() {
    for index in 0..5 {
        let rows = level_rows(index);
        assert_eq!(rows.len(), 14);
        let gs = GameState::new(&rows);
        assert!(check(gs.grid(), cell(1, 1)), "level {} must be solvable", index);
    }
    let rows = game_over_rows();
    assert_eq!(rows.len(), 14);
    let gs = GameState::new(&rows);
    assert!(!check(gs.grid(), cell(1, 1)));
}

#[test]
fn first_level_layout_is_read_correctly() {
    let rows = level_rows(0);
    let gs = GameState::new(&rows);
    // The goal sits in the top-right interior corner.
    assert!(gs.grid().is_goal(cell(22, 14)));
    // The start cell and the cell above it are free.
    assert!(gs.grid().is_free(cell(1, 1)));
    assert!(gs.grid().is_free(cell(1, 2)));
    // The border ring is wall.
    assert!(gs.grid().is_static_wall(cell(0, 0)));
    assert!(gs.grid().is_static_wall(cell(23, 15)));
}

#[test]
fn token_is_never_on_a_wall_throughout_play() {
    let rows = level_rows(0);
    let mut gs = GameState::new(&rows);
    let script = [
        up(),
        up(),
        right(),
        up(),
        keys(true, false, false, false, false),
        up(),
        right(),
        reset(),
        up(),
        right(),
    ];
    for inp in script {
        gs.tick(inp);
        let pos = gs.token().position();
        assert!(!gs.grid().is_static_wall(pos));
        assert!(!gs.grid().is_trail_wall(pos));
    }
}

#[test]
fn turn_budget_never_grows_within_an_attempt() {
    let rows = level_rows(0);
    let mut gs = GameState::new(&rows);
    let script = [up(), up(), right(), right(), up(), idle(), up()];
    let mut last = gs.token().turns_remaining();
    for inp in script {
        gs.tick(inp);
        let now = gs.token().turns_remaining();
        assert!(now <= last);
        last = now;
    }
}

#[test]
fn kind_at_reports_the_render_surface() {
    let rows: Vec<&str> = vec!["  T"];
    let mut gs = GameState::new(&rows);
    assert_eq!(gs.kind_at(cell(1, 1)), EntityKind::Token);
    assert_eq!(gs.kind_at(cell(0, 0)), EntityKind::Wall);
    assert_eq!(gs.kind_at(cell(3, 1)), EntityKind::Goal);
    assert_eq!(gs.kind_at(cell(2, 1)), EntityKind::Free);
    gs.tick(right());
    gs.tick(up());
    // The deposited trail wall reports as a wall too.
    assert_eq!(gs.kind_at(cell(2, 1)), EntityKind::Wall);
    assert_eq!(gs.kind_at(cell(2, 2)), EntityKind::Token);
}

#[test]
fn idle_ticks_change_nothing_visible() {
    let rows = level_rows(0);
    let mut gs = GameState::new(&rows);
    let events = gs.tick(idle());
    assert!(events.is_empty());
    assert_eq!(gs.token().position(), cell(1, 1));
    assert_eq!(gs.token().turns_remaining(), 10);
    assert_eq!(gs.mode(), Mode::Playing);
}
