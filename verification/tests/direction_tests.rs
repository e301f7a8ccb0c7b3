use rocket_maze::direction::{direction_from_keys, Direction};

#[test]
fn opposite_pairs() {
    assert_eq!(Direction::Left.opposite(), Direction::Right);
    assert_eq!(Direction::Right.opposite(), Direction::Left);
    assert_eq!(Direction::Up.opposite(), Direction::Down);
    assert_eq!(Direction::Down.opposite(), Direction::Up);
    assert_eq!(Direction::Neutral.opposite(), Direction::Neutral);
}

#[test]
fn opposite_is_involution() {
    let dirs = [
        Direction::Left,
        Direction::Up,
        Direction::Right,
        Direction::Down,
        Direction::Neutral,
    ];
    for d in dirs {
        assert_eq!(d.opposite().opposite(), d);
    }
}

#[test]
fn key_priority_left_over_down_over_up_over_right() {
    let cur = Direction::Neutral;
    assert_eq!(direction_from_keys(true, true, true, true, cur), Direction::Left);
    assert_eq!(direction_from_keys(false, true, true, true, cur), Direction::Down);
    assert_eq!(direction_from_keys(false, false, true, true, cur), Direction::Up);
    assert_eq!(direction_from_keys(false, false, false, true, cur), Direction::Right);
}

#[test]
fn no_key_keeps_current_direction() {
    assert_eq!(
        direction_from_keys(false, false, false, false, Direction::Up),
        Direction::Up
    );
}
