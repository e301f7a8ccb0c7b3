use rocket_maze::grid::{Cell, GridState};

fn cell(x: usize, y: usize) -> Cell {
    Cell { x, y }
}

#[test]
fn empty_grid_has_no_walls_and_no_goals() {
    let g = GridState::empty(4, 3);
    assert_eq!(g.width(), 4);
    assert_eq!(g.height(), 3);
    for x in 0..4 {
        for y in 0..3 {
            assert!(!g.is_static_wall(cell(x, y)));
            assert!(!g.is_trail_wall(cell(x, y)));
            assert!(!g.is_goal(cell(x, y)));
            assert!(g.is_free(cell(x, y)));
        }
    }
    assert!(!g.is_free(cell(4, 0)));
    assert!(!g.is_free(cell(0, 3)));
}

#[test]
fn add_walls_goals_and_trail() {
    let mut g = GridState::empty(5, 5);
    g.add_static_wall(cell(2, 2));
    g.add_goal(cell(3, 3));
    g.add_trail_wall(cell(1, 2));
    assert!(g.is_static_wall(cell(2, 2)));
    assert!(!g.is_free(cell(2, 2)));
    assert!(g.is_goal(cell(3, 3)));
    assert!(g.is_free(cell(3, 3)));
    assert!(g.is_trail_wall(cell(1, 2)));
    assert!(!g.is_free(cell(1, 2)));
    assert_eq!(g.trail_walls().len(), 1);
    assert_eq!(g.trail_walls()[0], cell(1, 2));
}

#[test]
fn undo_clears_trail_but_not_static_walls() {
    let mut g = GridState::empty(5, 5);
    g.add_static_wall(cell(2, 2));
    g.add_trail_wall(cell(1, 2));
    g.add_trail_wall(cell(1, 3));
    g.undo_all_trail_walls();
    assert!(g.trail_walls().is_empty());
    assert!(g.is_free(cell(1, 2)));
    assert!(g.is_free(cell(1, 3)));
    assert!(g.is_static_wall(cell(2, 2)));
}

#[test]
fn commit_makes_trail_walls_permanent() {
    let mut g = GridState::empty(5, 5);
    g.add_trail_wall(cell(1, 2));
    g.commit_trail_walls();
    assert!(g.trail_walls().is_empty());
    assert!(g.is_static_wall(cell(1, 2)));
    assert!(!g.is_free(cell(1, 2)));
    // A later undo no longer frees the committed cell.
    g.undo_all_trail_walls();
    assert!(g.is_static_wall(cell(1, 2)));
}

#[test]
fn border_walls_ring() {
    let mut g = GridState::empty(4, 4);
    g.add_border_walls();
    for x in 0..4 {
        assert!(g.is_static_wall(cell(x, 0)));
        assert!(g.is_static_wall(cell(x, 3)));
    }
    for y in 0..4 {
        assert!(g.is_static_wall(cell(0, y)));
        assert!(g.is_static_wall(cell(3, y)));
    }
    assert!(g.is_free(cell(1, 1)));
    assert!(g.is_free(cell(2, 2)));
}

#[test]
fn from_rows_reads_bottom_to_top_with_border() {
    // Bottom row is the last entry; glyphs sit one cell in from the border.
    let rows: Vec<&str> = vec![" T", "W "];
    let g = GridState::from_rows(6, 5, &rows);
    // Border ring is wall.
    assert!(g.is_static_wall(cell(0, 0)));
    assert!(g.is_static_wall(cell(5, 4)));
    // "W " is the bottom row: wall at (1, 1).
    assert!(g.is_static_wall(cell(1, 1)));
    assert!(!g.is_static_wall(cell(2, 1)));
    // " T" is the row above: goal at (2, 2).
    assert!(g.is_goal(cell(2, 2)));
    assert!(!g.is_goal(cell(1, 2)));
    assert!(g.is_free(cell(2, 2)));
}

#[test]
fn from_rows_ignores_characters_beyond_the_interior() {
    // Interior is x in 1..=3 for width 5: the longer row's tail is ignored
    // and short rows leave the rest free.
    let rows: Vec<&str> = vec!["WWWWWWWWW"];
    let g = GridState::from_rows(5, 4, &rows);
    assert!(g.is_static_wall(cell(1, 1)));
    assert!(g.is_static_wall(cell(2, 1)));
    assert!(g.is_static_wall(cell(3, 1)));
    assert!(g.is_free(cell(1, 2)));
    assert!(g.is_free(cell(2, 2)));
}

#[test]
fn from_rows_other_characters_are_free() {
    let rows: Vec<&str> = vec!["S x."];
    let g = GridState::from_rows(8, 4, &rows);
    for x in 1..5 {
        assert!(g.is_free(cell(x, 1)));
    }
}
