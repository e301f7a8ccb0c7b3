//! The controllable token: position, facing direction, remaining turn
//! budget and the chronological history of visited cells, with the movement
//! rules that a tick applies to them.

use vstd::prelude::*;

use crate::direction::Direction;
use crate::grid::{adjacent, Cell, GridModel, GridState};

verus! {

/// The mathematical model of the token.
#[verifier::ext_equal]
pub ghost struct TokenModel {
    pub pos: Cell,
    pub dir: Direction,
    pub turns: int,
    pub history: Seq<Cell>,
}

/// One history step: the token either stays in place (a clamped move) or
/// moves to an adjacent cell.
pub open spec fn step_ok(a: Cell, b: Cell) -> bool {
    a == b || adjacent(a, b)
}

impl TokenModel {
    /// Structural well-formedness of a token on its own: a representable,
    /// non-negative turn budget and a non-empty history ending at the
    /// current position whose consecutive entries are single steps.
    pub open spec fn wf(self) -> bool {
        &&& 0 <= self.turns <= u32::MAX
        &&& self.history.len() >= 1
        &&& self.history.last() == self.pos
        &&& forall|i: int|
            1 <= i < self.history.len() ==> step_ok(self.history[i - 1], #[trigger] self.history[i])
    }
}

/// The token after a requested direction is applied. With an exhausted turn
/// budget play input is blocked and nothing changes. Otherwise a request for
/// the exact opposite of the current direction is rejected (no in-place
/// reversal), and the budget goes down by exactly one precisely when the
/// effective direction differs from the one held before.
pub open spec fn apply_intent_model(t: TokenModel, req: Direction) -> TokenModel {
    if t.turns == 0 {
        t
    } else {
        let eff = if req == t.dir.opposite_spec() {
            t.dir
        } else {
            req
        };
        TokenModel {
            dir: eff,
            turns: if eff != t.dir {
                t.turns - 1
            } else {
                t.turns
            },
            ..t
        }
    }
}

/// The cell one step from `pos` along `dir`, clamped so that it never
/// leaves the grid.
pub open spec fn next_cell_model(g: GridModel, pos: Cell, dir: Direction) -> Cell {
    match dir {
        Direction::Left => if pos.x > 0 {
            Cell { x: (pos.x - 1) as usize, y: pos.y }
        } else {
            pos
        },
        Direction::Right => if pos.x + 1 < g.width {
            Cell { x: (pos.x + 1) as usize, y: pos.y }
        } else {
            pos
        },
        Direction::Up => if pos.y + 1 < g.height {
            Cell { x: pos.x, y: (pos.y + 1) as usize }
        } else {
            pos
        },
        Direction::Down => if pos.y > 0 {
            Cell { x: pos.x, y: (pos.y - 1) as usize }
        } else {
            pos
        },
        Direction::Neutral => pos,
    }
}

/// Whether a movement tick moves the token: it does unless it stands
/// still or the clamped target cell is not free.
pub open spec fn advance_moves(g: GridModel, t: TokenModel) -> bool {
    t.dir != Direction::Neutral && g.free(next_cell_model(g, t.pos, t.dir))
}

/// The token after one movement tick: on a move the position becomes the
/// clamped target cell and is appended to the history; a blocked or
/// standing-still tick changes nothing.
pub open spec fn advance_model(g: GridModel, t: TokenModel) -> TokenModel {
    if advance_moves(g, t) {
        let next = next_cell_model(g, t.pos, t.dir);
        TokenModel { pos: next, history: t.history.push(next), ..t }
    } else {
        t
    }
}

/// A freshly reset token: at the start cell, standing still, with a full
/// turn budget and a history holding only the start cell.
pub open spec fn reset_model(start: Cell, max_turns: int) -> TokenModel {
    TokenModel {
        pos: start,
        dir: Direction::Neutral,
        turns: max_turns,
        history: seq![start],
    }
}

/// The controllable token.
pub struct Token {
    pos: Cell,
    dir: Direction,
    turns: u32,
    history: Vec<Cell>,
}

impl View for Token {
    type V = TokenModel;

    closed spec fn view(&self) -> TokenModel {
        TokenModel {
            pos: self.pos,
            dir: self.dir,
            turns: self.turns as int,
            history: self.history@,
        }
    }
}

impl Token {
    pub fn position(&self) -> (r: Cell)
        ensures
            r == self@.pos,
    {
        self.pos
    }

    pub fn direction(&self) -> (r: Direction)
        ensures
            r == self@.dir,
    {
        self.dir
    }

    pub fn turns_remaining(&self) -> (r: u32)
        ensures
            r == self@.turns,
    {
        self.turns
    }

    /// The cells visited since the last reset, in chronological order.
    pub fn history(&self) -> (r: &Vec<Cell>)
        ensures
            r@ == self@.history,
    {
        &self.history
    }

    /// A new token at the start cell with a full turn budget.
    pub fn new(start: Cell, max_turns: u32) -> (t: Token)
        ensures
            t@ == reset_model(start, max_turns as int),
            t@.wf(),
    {
        let mut history: Vec<Cell> = Vec::new();
        history.push(start);
        let t = Token { pos: start, dir: Direction::Neutral, turns: max_turns, history };
        proof {
            assert(t@.history =~= seq![start]);
            assert(t@ =~= reset_model(start, max_turns as int));
        }
        t
    }

    /// Resets the token to the start cell: standing still, full budget,
    /// history restarted at the start cell.
    pub fn reset(&mut self, start: Cell, max_turns: u32)
        ensures
            final(self)@ == reset_model(start, max_turns as int),
            final(self)@.wf(),
    {
        self.pos = start;
        self.dir = Direction::Neutral;
        self.turns = max_turns;
        self.history.clear();
        self.history.push(start);
        proof {
            assert(self@.history =~= seq![start]);
            assert(self@ =~= reset_model(start, max_turns as int));
        }
    }

    /// Applies a requested direction under the no-reversal rule and the turn
    /// budget: see `apply_intent_model`.
    pub fn apply_intent(&mut self, req: Direction)
        ensures
            final(self)@ == apply_intent_model(old(self)@, req),
    {
        if self.turns == 0 {
            return ;
        }
        let eff = if req == self.dir.opposite() {
            self.dir
        } else {
            req
        };
        if eff != self.dir {
            self.turns = self.turns - 1;
            self.dir = eff;
        }
        proof {
            assert(self@ =~= apply_intent_model(old(self)@, req));
        }
    }

    /// One movement tick against the grid: see `advance_model`. Returns
    /// whether the token moved.
    pub fn advance(&mut self, grid: &GridState) -> (moved: bool)
        requires
            grid@.wf(),
        ensures
            final(self)@ == advance_model(grid@, old(self)@),
            moved == advance_moves(grid@, old(self)@),
    {
        let pos = self.pos;
        let next: Cell = match self.dir {
            Direction::Left => if pos.x > 0 {
                Cell { x: pos.x - 1, y: pos.y }
            } else {
                pos
            },
            Direction::Right => if pos.x < grid.width() - 1 {
                Cell { x: pos.x + 1, y: pos.y }
            } else {
                pos
            },
            Direction::Up => if pos.y < grid.height() - 1 {
                Cell { x: pos.x, y: pos.y + 1 }
            } else {
                pos
            },
            Direction::Down => if pos.y > 0 {
                Cell { x: pos.x, y: pos.y - 1 }
            } else {
                pos
            },
            Direction::Neutral => pos,
        };
        proof {
            assert(next == next_cell_model(grid@, old(self)@.pos, old(self)@.dir));
        }
        let standing = match self.dir {
            Direction::Neutral => true,
            _ => false,
        };
        if !standing && grid.is_free(next) {
            self.pos = next;
            self.history.push(next);
            proof {
                assert(self@ =~= advance_model(grid@, old(self)@));
            }
            true
        } else {
            proof {
                assert(self@ =~= advance_model(grid@, old(self)@));
            }
            false
        }
    }
}

/// The clamped target cell is the position itself or an adjacent cell.
pub proof fn lemma_next_cell_step(g: GridModel, pos: Cell, dir: Direction)
    requires
        g.wf(),
    ensures
        step_ok(pos, next_cell_model(g, pos, dir)),
{
    let next = next_cell_model(g, pos, dir);
    assert(g.width <= g.width * g.height && g.height <= g.width * g.height) by (nonlinear_arith)
        requires
            1 <= g.width,
            1 <= g.height,
    ;
    match dir {
        Direction::Left => {
            if pos.x > 0 {
                assert(next.x + 1 == pos.x && next.y == pos.y);
                assert(adjacent(pos, next));
            }
        },
        Direction::Right => {
            if pos.x + 1 < g.width {
                assert(next.x == pos.x + 1 && next.y == pos.y);
                assert(adjacent(pos, next));
            }
        },
        Direction::Up => {
            if pos.y + 1 < g.height {
                assert(next.y == pos.y + 1 && next.x == pos.x);
                assert(adjacent(pos, next));
            }
        },
        Direction::Down => {
            if pos.y > 0 {
                assert(next.y + 1 == pos.y && next.x == pos.x);
                assert(adjacent(pos, next));
            }
        },
        Direction::Neutral => {},
    }
}

/// No-reversal law: a request for the exact opposite of the current
/// direction never changes the direction, whatever the turn budget.
pub proof fn lemma_no_reversal(t: TokenModel)
    ensures
        apply_intent_model(t, t.dir.opposite_spec()).dir == t.dir,
{
}

/// Turn-budget law: the budget never grows and never goes below zero; it
/// drops by exactly one precisely when the effective direction differs from
/// the held one, and a merely held key that keeps the direction unchanged
/// costs nothing.
pub proof fn lemma_turn_budget(t: TokenModel, req: Direction)
    requires
        t.wf(),
    ensures
        apply_intent_model(t, req).turns <= t.turns,
        apply_intent_model(t, req).turns >= 0,
        apply_intent_model(t, req).turns == if apply_intent_model(t, req).dir != t.dir {
            t.turns - 1
        } else {
            t.turns
        },
        apply_intent_model(t, req).dir == t.dir ==> apply_intent_model(t, req).turns == t.turns,
{
}

/// Movement never places the token on an occupied cell: after a tick the
/// position is free unless the token did not move at all.
pub proof fn lemma_advance_free(g: GridModel, t: TokenModel)
    ensures
        advance_moves(g, t) ==> g.free(advance_model(g, t).pos),
        !advance_moves(g, t) ==> advance_model(g, t) == t,
{
}

} // verus!
