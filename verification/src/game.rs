//! The level controller and event router: one game tick applies, in a fixed
//! order, movement input, movement, trail deposit, the goal-reached check,
//! the explicit player reset, the level-advance check and the reachability
//! check, and raises the corresponding events.

use vstd::prelude::*;

use crate::direction::{direction_from_keys, direction_from_keys_spec, Direction};
use crate::grid::{commit_fixed, lemma_commit_fixed_len, level_glyph, on_border, rows_view, Cell,
    GridModel, GridState};
use crate::reach::{check, some_goal_reachable};
use crate::token::{advance_model, advance_moves, apply_intent_model, lemma_next_cell_step,
    reset_model, step_ok, Token, TokenModel};
use crate::trail::{bend_mid, bend_window, deposit_model, lemma_bend_mid_not_last,
    maybe_deposit_trail_wall};

verus! {

/// Width of the playing field, border ring included.
pub const ARENA_WIDTH: usize = 24;

/// Height of the playing field, border ring included.
pub const ARENA_HEIGHT: usize = 16;

/// The full turn budget granted on every token reset.
pub const MAX_TURNS: u32 = 10;

/// A level advances once more goals than this have been reached in one
/// attempt.
pub const GOAL_THRESHOLD: u32 = 2;

/// The fixed start cell of the token, one cell in from the bottom-left
/// corner of the border ring.
pub open spec fn start_cell_spec() -> Cell {
    Cell { x: 1, y: 1 }
}

/// The high-level phase of the game.
#[derive(Clone, Copy, PartialEq, Eq, Structural, Debug)]
pub enum Mode {
    /// Normal play; ticks move the token.
    Playing,
    /// A level advance was requested; the next level's rows must be loaded.
    Loading,
    /// No goal is reachable any more: terminal.
    GameOver,
}

/// The events a tick can raise, in the order the stages fire.
#[derive(Clone, Copy, PartialEq, Eq, Structural, Debug)]
pub enum GameEvent {
    GoalReached,
    ResetApplied,
    NextLevelRequested,
    PathCheckRequested,
    GameOver,
}

/// What the rendering collaborator needs to know of one cell: the semantic
/// kind of the entity standing there.
#[derive(Clone, Copy, PartialEq, Eq, Structural, Debug)]
pub enum EntityKind {
    Token,
    Wall,
    Goal,
    Free,
}

/// The held input keys of one tick: four directional signals and the reset
/// signal, sampled as currently-held booleans.
#[derive(Clone, Copy, PartialEq, Eq, Structural, Debug)]
pub struct InputState {
    pub left: bool,
    pub down: bool,
    pub up: bool,
    pub right: bool,
    pub reset: bool,
}

/// The mathematical model of the whole game state.
#[verifier::ext_equal]
pub ghost struct GameModel {
    pub grid: GridModel,
    pub token: TokenModel,
    pub level: int,
    pub goals_this_attempt: int,
    pub mode: Mode,
    pub start: Cell,
    pub max_turns: int,
    pub goal_threshold: int,
}

impl GameModel {
    /// The game invariant: well-formed grid and token, bounded budgets and
    /// counters, an in-bounds start, a token that stands on a free cell or
    /// on the start cell, and an in-bounds history.
    pub open spec fn wf(self) -> bool {
        &&& self.grid.wf()
        &&& self.token.wf()
        &&& 1 <= self.max_turns <= u32::MAX
        &&& self.token.turns <= self.max_turns
        &&& 0 <= self.goal_threshold < u32::MAX
        &&& 0 <= self.goals_this_attempt <= self.goal_threshold + 1
        &&& (self.mode == Mode::Playing ==> self.goals_this_attempt <= self.goal_threshold)
        &&& 0 <= self.level <= usize::MAX
        &&& self.start == start_cell_spec()
        &&& self.grid.in_bounds(self.start)
        &&& (self.grid.free(self.token.pos) || self.token.pos == self.start)
        &&& forall|i: int|
            0 <= i < self.token.history.len() ==> self.grid.in_bounds(
                #[trigger] self.token.history[i],
            )
    }
}

/// The grid after a goal-reached reset: the trail walls become permanent
/// level structure and the undoable trail sequence empties.
pub open spec fn commit_model(g: GridModel) -> GridModel {
    GridModel { fixed: commit_fixed(g, g.trail.len() as int), trail: Seq::<Cell>::empty(), ..g }
}

/// The grid after an explicit player reset: every trail wall is removed,
/// static walls and goals stay.
pub open spec fn undo_model(g: GridModel) -> GridModel {
    GridModel { trail: Seq::<Cell>::empty(), ..g }
}

/// Stage 1: the direction requested by the held keys.
pub open spec fn requested_dir(m: GameModel, inp: InputState) -> Direction {
    direction_from_keys_spec(inp.left, inp.down, inp.up, inp.right, m.token.dir)
}

/// Stage 1: the token after the input intent is applied.
pub open spec fn token_after_input(m: GameModel, inp: InputState) -> TokenModel {
    apply_intent_model(m.token, requested_dir(m, inp))
}

/// Stage 2: whether the movement tick moves the token.
pub open spec fn moved_this_tick(m: GameModel, inp: InputState) -> bool {
    advance_moves(m.grid, token_after_input(m, inp))
}

/// Stage 2: the token after the movement tick.
pub open spec fn token_after_move(m: GameModel, inp: InputState) -> TokenModel {
    advance_model(m.grid, token_after_input(m, inp))
}

/// Stage 3: the grid after a possible trail deposit.
pub open spec fn grid_after_deposit(m: GameModel, inp: InputState) -> GridModel {
    if moved_this_tick(m, inp) {
        deposit_model(m.grid, token_after_move(m, inp).history)
    } else {
        m.grid
    }
}

/// Stage 4: whether the post-move position lies on a goal cell.
pub open spec fn goal_hit(m: GameModel, inp: InputState) -> bool {
    grid_after_deposit(m, inp).is_goal(token_after_move(m, inp).pos)
}

/// Stage 4: the goal counter after the goal-reached check.
pub open spec fn counter_after_goal(m: GameModel, inp: InputState) -> int {
    if goal_hit(m, inp) {
        m.goals_this_attempt + 1
    } else {
        m.goals_this_attempt
    }
}

/// Stages 4 and 5: the token after the goal-reached reset and the explicit
/// player reset.
pub open spec fn token_after_resets(m: GameModel, inp: InputState) -> TokenModel {
    if goal_hit(m, inp) || inp.reset {
        reset_model(m.start, m.max_turns)
    } else {
        token_after_move(m, inp)
    }
}

/// Stages 4 and 5: the grid after the goal-reached reset (which keeps the
/// trail walls as permanent structure) and the explicit reset (which
/// removes them).
pub open spec fn grid_after_resets(m: GameModel, inp: InputState) -> GridModel {
    let g = if goal_hit(m, inp) {
        commit_model(grid_after_deposit(m, inp))
    } else {
        grid_after_deposit(m, inp)
    };
    if inp.reset {
        undo_model(g)
    } else {
        g
    }
}

/// Stage 6: a level advance is requested when a reset fired and the goal
/// counter exceeds the threshold.
pub open spec fn advance_requested(m: GameModel, inp: InputState) -> bool {
    (goal_hit(m, inp) || inp.reset) && counter_after_goal(m, inp) > m.goal_threshold
}

/// Stage 7: a reachability check is requested when a reset fired without a
/// level advance.
pub open spec fn path_check_requested(m: GameModel, inp: InputState) -> bool {
    (goal_hit(m, inp) || inp.reset) && counter_after_goal(m, inp) <= m.goal_threshold
}

/// Stages 6 to 8: the mode after the tick.
pub open spec fn mode_after(m: GameModel, inp: InputState) -> Mode {
    if advance_requested(m, inp) {
        Mode::Loading
    } else if path_check_requested(m, inp) && !some_goal_reachable(
        grid_after_resets(m, inp),
        m.start,
    ) {
        Mode::GameOver
    } else {
        Mode::Playing
    }
}

/// The whole game state after one tick. Outside of `Playing` the tick is a
/// no-op: `Loading` waits for the next level's rows, `GameOver` is
/// terminal.
pub open spec fn tick_model(m: GameModel, inp: InputState) -> GameModel {
    if m.mode != Mode::Playing {
        m
    } else {
        GameModel {
            grid: grid_after_resets(m, inp),
            token: token_after_resets(m, inp),
            goals_this_attempt: counter_after_goal(m, inp),
            mode: mode_after(m, inp),
            ..m
        }
    }
}

/// The events one tick raises, in stage order.
pub open spec fn tick_events(m: GameModel, inp: InputState) -> Seq<GameEvent> {
    if m.mode != Mode::Playing {
        Seq::<GameEvent>::empty()
    } else {
        let e0 = Seq::<GameEvent>::empty();
        let e1 = if goal_hit(m, inp) {
            e0.push(GameEvent::GoalReached)
        } else {
            e0
        };
        let e2 = if inp.reset {
            e1.push(GameEvent::ResetApplied)
        } else {
            e1
        };
        if advance_requested(m, inp) {
            e2.push(GameEvent::NextLevelRequested)
        } else if path_check_requested(m, inp) {
            let e3 = e2.push(GameEvent::PathCheckRequested);
            if !some_goal_reachable(grid_after_resets(m, inp), m.start) {
                e3.push(GameEvent::GameOver)
            } else {
                e3
            }
        } else {
            e2
        }
    }
}

/// The semantic kind of the entity at a cell: the token where it stands,
/// else a wall — static or trail — else a goal, else free.
pub open spec fn kind_at_spec(m: GameModel, c: Cell) -> EntityKind {
    if m.token.pos == c {
        EntityKind::Token
    } else if m.grid.is_static_wall(c) || m.grid.is_trail_wall(c) {
        EntityKind::Wall
    } else if m.grid.is_goal(c) {
        EntityKind::Goal
    } else {
        EntityKind::Free
    }
}

/// One tick preserves the game invariant.
pub proof fn lemma_tick_wf(m: GameModel, inp: InputState)
    requires
        m.wf(),
    ensures
        tick_model(m, inp).wf(),
{
    if m.mode == Mode::Playing {
        let t1 = token_after_input(m, inp);
        let t2 = token_after_move(m, inp);
        let g2 = grid_after_deposit(m, inp);
        let t5 = token_after_resets(m, inp);
        let g5 = grid_after_resets(m, inp);
        let mm = tick_model(m, inp);
        // The token after input keeps position and history; after the move
        // the history is extended by one step.
        assert(t1.pos == m.token.pos && t1.history == m.token.history);
        lemma_next_cell_step(m.grid, t1.pos, t1.dir);
        assert(t2.wf()) by {
            if advance_moves(m.grid, t1) {
                assert forall|i: int|
                    1 <= i < t2.history.len() implies step_ok(
                    t2.history[i - 1],
                    #[trigger] t2.history[i],
                ) by {
                    if i < t2.history.len() - 1 {
                        assert(step_ok(m.token.history[i - 1], m.token.history[i]));
                    } else {
                        assert(t2.history[i - 1] == m.token.history.last());
                    }
                }
            }
        }
        assert forall|i: int|
            0 <= i < t2.history.len() implies m.grid.in_bounds(#[trigger] t2.history[i]) by {
            if i < m.token.history.len() {
                assert(m.grid.in_bounds(m.token.history[i]));
            }
        }
        // The grids of the later stages keep the dimensions and the mask
        // length, so they stay well-formed.
        lemma_commit_fixed_len(g2, g2.trail.len() as int);
        assert(g5.wf());
        assert(g5.width == m.grid.width && g5.height == m.grid.height);
        // The token ends the tick on a free cell or on the start cell.
        if goal_hit(m, inp) || inp.reset {
            assert(t5.pos == m.start);
        } else {
            assert(t5 == t2 && g5 == g2);
            if moved_this_tick(m, inp) {
                assert(m.grid.free(t2.pos));
                if bend_window(t2.history) {
                    let h = t2.history;
                    assert(step_ok(h[h.len() - 3], h[h.len() - 2]));
                    assert(step_ok(h[h.len() - 2], h[h.len() - 1]));
                    lemma_bend_mid_not_last(h);
                    assert(bend_mid(h) != t2.pos);
                    crate::grid::lemma_push_contains(m.grid.trail, bend_mid(h), t2.pos);
                }
                assert(g2.free(t2.pos));
            } else {
                assert(t2 == t1 && g2 == m.grid);
                assert(t2.pos == m.token.pos);
            }
        }
        // History cells remain in bounds under the final grid's dimensions.
        assert forall|i: int|
            0 <= i < mm.token.history.len() implies mm.grid.in_bounds(
            #[trigger] mm.token.history[i],
        ) by {
            if goal_hit(m, inp) || inp.reset {
                assert(mm.token.history =~= seq![m.start]);
            } else {
                assert(mm.token.history == t2.history);
            }
        }
        assert(mm.wf());
    }
}

/// Token-placement law: whenever the start cell itself carries no wall, the
/// token never stands on a static or a trail wall.
pub proof fn lemma_token_never_on_wall(m: GameModel)
    requires
        m.wf(),
        !m.grid.is_static_wall(m.start),
        !m.grid.is_trail_wall(m.start),
    ensures
        !m.grid.is_static_wall(m.token.pos),
        !m.grid.is_trail_wall(m.token.pos),
{
}

/// Turn-budget law at the tick level: within an attempt the budget never
/// grows; it returns to the full budget exactly on a reset.
pub proof fn lemma_tick_turns_monotone(m: GameModel, inp: InputState)
    requires
        m.wf(),
    ensures
        tick_model(m, inp).token.turns <= m.token.turns || tick_model(m, inp).token.turns
            == m.max_turns,
{
}

/// Bend law at the tick level: a moving tick deposits a trail wall — at
/// the cell the token left two steps ago — iff the last three history
/// cells are non-collinear; a non-moving or collinear tick leaves the
/// trail unchanged (resets aside, which clear or commit it wholesale).
pub proof fn lemma_tick_bend_law(m: GameModel, inp: InputState)
    requires
        m.wf(),
        m.mode == Mode::Playing,
        !goal_hit(m, inp),
        !inp.reset,
    ensures
        tick_model(m, inp).grid.trail == if moved_this_tick(m, inp) && bend_window(
            token_after_move(m, inp).history,
        ) {
            m.grid.trail.push(bend_mid(token_after_move(m, inp).history))
        } else {
            m.grid.trail
        },
{
}

/// A cell already holding a trail wall is never deposited on twice: the
/// deposit lands on the cell the token just left, which was passable —
/// unless it is the start cell, so the start is asked to be unwalled.
pub proof fn lemma_no_duplicate_deposit(m: GameModel, inp: InputState)
    requires
        m.wf(),
        m.mode == Mode::Playing,
        !m.grid.is_trail_wall(m.start),
        moved_this_tick(m, inp),
        bend_window(token_after_move(m, inp).history),
    ensures
        !m.grid.is_trail_wall(bend_mid(token_after_move(m, inp).history)),
{
    let h = token_after_move(m, inp).history;
    assert(bend_mid(h) == m.token.pos);
}

/// The walls/goals disjointness that holds after a level load is kept by a
/// goal-reached reset whenever no trail wall lies on a goal cell.
pub proof fn lemma_commit_keeps_walls_goals_disjoint(g: GridModel)
    requires
        g.wf(),
        g.walls_goals_disjoint(),
        forall|c: Cell| #[trigger] g.is_trail_wall(c) ==> !g.is_goal(c),
    ensures
        commit_model(g).walls_goals_disjoint(),
{
    let gc = commit_model(g);
    assert forall|c: Cell| gc.is_goal(c) implies !gc.is_static_wall(c) by {
        crate::grid::lemma_commit_fixed_wall(g, g.trail.len() as int, c);
        assert(g.trail.take(g.trail.len() as int) =~= g.trail);
        assert(g.is_goal(c));
        assert(!g.is_static_wall(c));
        if g.is_trail_wall(c) {
            assert(!g.is_goal(c));
        }
    }
}

/// The game: grid, token, level bookkeeping and phase, stepped by `tick`.
pub struct GameState {
    grid: GridState,
    token: Token,
    level: usize,
    goals_this_attempt: u32,
    mode: Mode,
    start: Cell,
    max_turns: u32,
    goal_threshold: u32,
}

impl View for GameState {
    type V = GameModel;

    closed spec fn view(&self) -> GameModel {
        GameModel {
            grid: self.grid@,
            token: self.token@,
            level: self.level as int,
            goals_this_attempt: self.goals_this_attempt as int,
            mode: self.mode,
            start: self.start,
            max_turns: self.max_turns as int,
            goal_threshold: self.goal_threshold as int,
        }
    }
}

impl GameState {
    pub fn grid(&self) -> (r: &GridState)
        ensures
            r@ == self@.grid,
    {
        &self.grid
    }

    pub fn token(&self) -> (r: &Token)
        ensures
            r@ == self@.token,
    {
        &self.token
    }

    pub fn level(&self) -> (r: usize)
        ensures
            r == self@.level,
    {
        self.level
    }

    pub fn goals_this_attempt(&self) -> (r: u32)
        ensures
            r == self@.goals_this_attempt,
    {
        self.goals_this_attempt
    }

    pub fn mode(&self) -> (r: Mode)
        ensures
            r == self@.mode,
    {
        self.mode
    }

    pub fn start(&self) -> (r: Cell)
        ensures
            r == self@.start,
    {
        self.start
    }

    /// The semantic kind of the entity at `c`, for display: see
    /// `kind_at_spec`.
    pub fn kind_at(&self, c: Cell) -> (r: EntityKind)
        requires
            self@.wf(),
        ensures
            r == kind_at_spec(self@, c),
    {
        if self.token.position() == c {
            EntityKind::Token
        } else if self.grid.is_static_wall(c) || self.grid.is_trail_wall(c) {
            EntityKind::Wall
        } else if self.grid.is_goal(c) {
            EntityKind::Goal
        } else {
            EntityKind::Free
        }
    }

    /// A new game on the first level, built from that level's text rows.
    pub fn new(rows: &Vec<&str>) -> (gs: GameState)
        ensures
            gs@.wf(),
            gs@.level == 0,
            gs@.goals_this_attempt == 0,
            gs@.mode == Mode::Playing,
            gs@.start == start_cell_spec(),
            gs@.max_turns == MAX_TURNS,
            gs@.goal_threshold == GOAL_THRESHOLD,
            gs@.token == reset_model(start_cell_spec(), MAX_TURNS as int),
            gs@.grid.width == ARENA_WIDTH,
            gs@.grid.height == ARENA_HEIGHT,
            gs@.grid.trail == Seq::<Cell>::empty(),
            forall|d: Cell|
                gs@.grid.is_static_wall(d) == (on_border(gs@.grid, d) || level_glyph(
                    rows_view(rows@),
                    ARENA_WIDTH as int,
                    ARENA_HEIGHT as int,
                    d.x as int,
                    d.y as int,
                    'W',
                )),
            forall|d: Cell|
                gs@.grid.is_goal(d) == level_glyph(
                    rows_view(rows@),
                    ARENA_WIDTH as int,
                    ARENA_HEIGHT as int,
                    d.x as int,
                    d.y as int,
                    'T',
                ),
            gs@.grid.walls_goals_disjoint(),
    {
        let grid = GridState::from_rows(ARENA_WIDTH, ARENA_HEIGHT, rows);
        let start = Cell { x: 1, y: 1 };
        let token = Token::new(start, MAX_TURNS);
        GameState {
            grid,
            token,
            level: 0,
            goals_this_attempt: 0,
            mode: Mode::Playing,
            start,
            max_turns: MAX_TURNS,
            goal_threshold: GOAL_THRESHOLD,
        }
    }

    /// Loads the next level from its text rows: the level index advances,
    /// the goal counter resets, the board is rebuilt wholesale and the token
    /// returns to the start with a full budget. Serves the
    /// `NextLevelRequested` event.
    pub fn load_next_level(&mut self, rows: &Vec<&str>)
        requires
            old(self)@.wf(),
        ensures
            final(self)@.wf(),
            final(self)@.level == if old(self)@.level < usize::MAX {
                old(self)@.level + 1
            } else {
                old(self)@.level
            },
            final(self)@.goals_this_attempt == 0,
            final(self)@.mode == Mode::Playing,
            final(self)@.start == old(self)@.start,
            final(self)@.max_turns == old(self)@.max_turns,
            final(self)@.goal_threshold == old(self)@.goal_threshold,
            final(self)@.token == reset_model(old(self)@.start, old(self)@.max_turns),
            final(self)@.grid.width == ARENA_WIDTH,
            final(self)@.grid.height == ARENA_HEIGHT,
            final(self)@.grid.trail == Seq::<Cell>::empty(),
            forall|d: Cell|
                final(self)@.grid.is_static_wall(d) == (on_border(final(self)@.grid, d)
                    || level_glyph(
                    rows_view(rows@),
                    ARENA_WIDTH as int,
                    ARENA_HEIGHT as int,
                    d.x as int,
                    d.y as int,
                    'W',
                )),
            forall|d: Cell|
                final(self)@.grid.is_goal(d) == level_glyph(
                    rows_view(rows@),
                    ARENA_WIDTH as int,
                    ARENA_HEIGHT as int,
                    d.x as int,
                    d.y as int,
                    'T',
                ),
            final(self)@.grid.walls_goals_disjoint(),
    {
        self.grid = GridState::from_rows(ARENA_WIDTH, ARENA_HEIGHT, rows);
        if self.level < usize::MAX {
            self.level = self.level + 1;
        }
        self.goals_this_attempt = 0;
        self.mode = Mode::Playing;
        let start = self.start;
        let max_turns = self.max_turns;
        self.token.reset(start, max_turns);
    }

    /// One game tick: applies the stages in the fixed order of
    /// `tick_model` and returns the events raised, in stage order.
    pub fn tick(&mut self, inp: InputState) -> (events: Vec<GameEvent>)
        requires
            old(self)@.wf(),
        ensures
            final(self)@ == tick_model(old(self)@, inp),
            events@ == tick_events(old(self)@, inp),
            final(self)@.wf(),
    {
        let ghost m = old(self)@;
        proof {
            lemma_tick_wf(m, inp);
        }
        let mut events: Vec<GameEvent> = Vec::new();
        if !matches!(self.mode, Mode::Playing) {
            proof {
                assert(events@ =~= tick_events(m, inp));
            }
            return events;
        }
        // Stage 1: movement input.
        let req = direction_from_keys(
            inp.left,
            inp.down,
            inp.up,
            inp.right,
            self.token.direction(),
        );
        self.token.apply_intent(req);
        // Stage 2: movement application.
        let moved = self.token.advance(&self.grid);
        proof {
            assert(self.token@ == token_after_move(m, inp));
        }
        // Stage 3: trail deposit.
        if moved {
            proof {
                let h = self.token@.history;
                if bend_window(h) {
                    assert(bend_mid(h) == m.token.pos);
                    assert(self.grid@.in_bounds(bend_mid(h)));
                }
            }
            maybe_deposit_trail_wall(&mut self.grid, self.token.history());
        }
        proof {
            assert(self.grid@ == grid_after_deposit(m, inp));
        }
        // Stage 4: goal-reached check and attempt reset.
        let pos = self.token.position();
        let hit = self.grid.is_goal(pos);
        if hit {
            self.goals_this_attempt = self.goals_this_attempt + 1;
            let start = self.start;
            let max_turns = self.max_turns;
            self.token.reset(start, max_turns);
            self.grid.commit_trail_walls();
            events.push(GameEvent::GoalReached);
            proof {
                assert(self.grid@ =~= commit_model(grid_after_deposit(m, inp)));
            }
        }
        // Stage 5: explicit player reset.
        if inp.reset {
            self.grid.undo_all_trail_walls();
            let start = self.start;
            let max_turns = self.max_turns;
            self.token.reset(start, max_turns);
            events.push(GameEvent::ResetApplied);
        }
        proof {
            assert(self.grid@ =~= grid_after_resets(m, inp));
            assert(self.token@ == token_after_resets(m, inp));
        }
        // Stages 6 to 8: level-advance check, reachability check, and the
        // application of the outcome.
        if hit || inp.reset {
            if self.goals_this_attempt > self.goal_threshold {
                self.mode = Mode::Loading;
                events.push(GameEvent::NextLevelRequested);
            } else {
                events.push(GameEvent::PathCheckRequested);
                let start = self.start;
                let ok = check(&self.grid, start);
                if !ok {
                    self.mode = Mode::GameOver;
                    events.push(GameEvent::GameOver);
                }
            }
        }
        proof {
            assert(self@ =~= tick_model(m, inp));
            assert(events@ =~= tick_events(m, inp));
        }
        events
    }
}

} // verus!
