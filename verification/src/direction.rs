//! Movement directions and the input-priority rule that picks one from the
//! currently held movement keys.

use vstd::prelude::*;

verus! {

/// A movement direction of the token. `Neutral` means the token stands still.
#[derive(Clone, Copy, PartialEq, Eq, Structural, Debug)]
pub enum Direction {
    Left,
    Up,
    Right,
    Down,
    Neutral,
}

impl Direction {
    /// The direction pointing the opposite way; `Neutral` is its own opposite.
    pub open spec fn opposite_spec(self) -> Direction {
        match self {
            Direction::Left => Direction::Right,
            Direction::Right => Direction::Left,
            Direction::Up => Direction::Down,
            Direction::Down => Direction::Up,
            Direction::Neutral => Direction::Neutral,
        }
    }

    /// Returns the opposite direction.
    pub fn opposite(self) -> (r: Direction)
        ensures
            r == self.opposite_spec(),
    {
        match self {
            Direction::Left => Direction::Right,
            Direction::Right => Direction::Left,
            Direction::Up => Direction::Down,
            Direction::Down => Direction::Up,
            Direction::Neutral => Direction::Neutral,
        }
    }
}

/// `opposite` is an involution: applying it twice gives the direction back.
pub proof fn lemma_opposite_involution(d: Direction)
    ensures
        d.opposite_spec().opposite_spec() == d,
{
}

/// The direction requested by the held movement keys, with priority
/// Left > Down > Up > Right when several are held at once; when none is
/// held the current direction is kept.
pub open spec fn direction_from_keys_spec(
    left: bool,
    down: bool,
    up: bool,
    right: bool,
    current: Direction,
) -> Direction {
    if left {
        Direction::Left
    } else if down {
        Direction::Down
    } else if up {
        Direction::Up
    } else if right {
        Direction::Right
    } else {
        current
    }
}

/// Picks the requested direction from the held keys under the fixed priority
/// order Left > Down > Up > Right, keeping `current` when no key is held.
pub fn direction_from_keys(
    left: bool,
    down: bool,
    up: bool,
    right: bool,
    current: Direction,
) -> (r: Direction)
    ensures
        r == direction_from_keys_spec(left, down, up, right, current),
{
    if left {
        Direction::Left
    } else if down {
        Direction::Down
    } else if up {
        Direction::Up
    } else if right {
        Direction::Right
    } else {
        current
    }
}

} // verus!
