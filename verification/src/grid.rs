//! Grid cells and the static obstacle map of a level: static walls, the
//! ordered trail-wall sequence, and the goal cells, together with the
//! mathematical model that the contracts speak of.

use vstd::prelude::*;
use vstd::string::*;

verus! {

/// An integer grid coordinate, `0 <= x < width`, `0 <= y < height`.
#[derive(Clone, Copy, PartialEq, Eq, Structural, Debug)]
pub struct Cell {
    pub x: usize,
    pub y: usize,
}

/// Two cells are adjacent when they differ by one step along exactly one axis.
pub open spec fn adjacent(a: Cell, b: Cell) -> bool {
    ||| (a.x == b.x && (a.y + 1 == b.y || b.y + 1 == a.y))
    ||| (a.y == b.y && (a.x + 1 == b.x || b.x + 1 == a.x))
}

/// The mathematical model of a grid: dimensions, a static-wall occupancy
/// sequence in row-major order, the ordered trail-wall deposits, and the
/// goal cells.
pub ghost struct GridModel {
    pub width: int,
    pub height: int,
    pub fixed: Seq<bool>,
    pub trail: Seq<Cell>,
    pub goals: Seq<Cell>,
}

impl GridModel {
    /// Row-major index of a cell.
    pub open spec fn idx(self, c: Cell) -> int {
        c.y * self.width + c.x
    }

    pub open spec fn in_bounds(self, c: Cell) -> bool {
        c.x < self.width && c.y < self.height
    }

    /// Structural well-formedness: positive dimensions that fit the machine
    /// and an occupancy sequence of the right length.
    pub open spec fn wf(self) -> bool {
        &&& 1 <= self.width
        &&& 1 <= self.height
        &&& self.width * self.height <= usize::MAX
        &&& self.fixed.len() == self.width * self.height
    }

    /// A static wall stands at `c`. Trail walls that were made permanent by a
    /// goal-reached reset count as static too.
    pub open spec fn is_static_wall(self, c: Cell) -> bool {
        self.in_bounds(c) && self.fixed[self.idx(c)]
    }

    /// A currently undoable trail wall stands at `c`.
    pub open spec fn is_trail_wall(self, c: Cell) -> bool {
        self.trail.contains(c)
    }

    pub open spec fn is_goal(self, c: Cell) -> bool {
        self.goals.contains(c)
    }

    /// A cell is free when it lies on the grid and carries neither a static
    /// nor a trail wall.
    pub open spec fn free(self, c: Cell) -> bool {
        self.in_bounds(c) && !self.is_static_wall(c) && !self.is_trail_wall(c)
    }

    /// The data-model invariant: no static wall stands on a goal cell.
    pub open spec fn walls_goals_disjoint(self) -> bool {
        forall|c: Cell| self.is_goal(c) ==> !self.is_static_wall(c)
    }
}

/// The row-major index lies within the occupancy sequence.
pub proof fn lemma_idx_bounds(g: GridModel, c: Cell)
    requires
        g.wf(),
        g.in_bounds(c),
    ensures
        0 <= g.idx(c) < g.fixed.len(),
{
    assert(c.y * g.width + c.x < g.width * g.height) by (nonlinear_arith)
        requires
            0 <= c.x < g.width,
            0 <= c.y < g.height,
    ;
}

/// Distinct in-bounds cells have distinct row-major indices.
pub proof fn lemma_idx_injective(g: GridModel, c: Cell, d: Cell)
    requires
        g.wf(),
        g.in_bounds(c),
        g.in_bounds(d),
        g.idx(c) == g.idx(d),
    ensures
        c == d,
{
    assert(c.x == d.x && c.y == d.y) by (nonlinear_arith)
        requires
            0 <= c.x < g.width,
            0 <= d.x < g.width,
            0 <= c.y,
            0 <= d.y,
            c.y * g.width + c.x == d.y * g.width + d.x,
    ;
}

/// Pushing an element onto a sequence adds exactly that element to its
/// membership.
pub proof fn lemma_push_contains<A>(s: Seq<A>, e: A, x: A)
    ensures
        s.push(e).contains(x) <==> (s.contains(x) || x == e),
{
    if s.push(e).contains(x) {
        let i = choose|i: int| 0 <= i < s.push(e).len() && s.push(e)[i] == x;
        if i < s.len() {
            assert(s[i] == x);
        }
    }
    if s.contains(x) {
        let i = choose|i: int| 0 <= i < s.len() && s[i] == x;
        assert(s.push(e)[i] == x);
    }
    if x == e {
        assert(s.push(e)[s.len() as int] == x);
    }
}

/// The static-wall occupancy mask after making the first `n` trail walls of
/// `g` permanent.
pub open spec fn commit_fixed(g: GridModel, n: int) -> Seq<bool>
    decreases n,
{
    if n <= 0 {
        g.fixed
    } else {
        let c = g.trail[n - 1];
        let prev = commit_fixed(g, n - 1);
        if g.in_bounds(c) {
            prev.update(g.idx(c), true)
        } else {
            prev
        }
    }
}

/// Making trail walls permanent does not change the mask's length.
pub proof fn lemma_commit_fixed_len(g: GridModel, n: int)
    requires
        g.wf(),
    ensures
        commit_fixed(g, n).len() == g.fixed.len(),
    decreases n,
{
    if n > 0 {
        lemma_commit_fixed_len(g, n - 1);
        let c = g.trail[n - 1];
        if g.in_bounds(c) {
            lemma_idx_bounds(g, c);
        }
    }
}

/// Pointwise reading of `commit_fixed`: a cell is walled after committing
/// the first `n` trail walls iff it was walled before or is one of them.
pub proof fn lemma_commit_fixed_wall(g: GridModel, n: int, c: Cell)
    requires
        g.wf(),
        0 <= n <= g.trail.len(),
    ensures
        (g.in_bounds(c) && commit_fixed(g, n)[g.idx(c)]) == (g.is_static_wall(c) || (g.in_bounds(c)
            && g.trail.take(n).contains(c))),
    decreases n,
{
    lemma_commit_fixed_len(g, n);
    if g.in_bounds(c) {
        lemma_idx_bounds(g, c);
    }
    if n == 0 {
    } else {
        lemma_commit_fixed_wall(g, n - 1, c);
        lemma_commit_fixed_len(g, n - 1);
        let d = g.trail[n - 1];
        assert(g.trail.take(n) =~= g.trail.take(n - 1).push(d));
        lemma_push_contains(g.trail.take(n - 1), d, c);
        if g.in_bounds(c) && g.in_bounds(d) && g.idx(c) == g.idx(d) {
            lemma_idx_injective(g, c, d);
        }
        if g.in_bounds(d) {
            lemma_idx_bounds(g, d);
        }
    }
}

/// A cell on the outermost ring of the grid; the border is always wall.
pub open spec fn on_border(g: GridModel, c: Cell) -> bool {
    g.in_bounds(c) && (c.x == 0 || c.x == g.width - 1 || c.y == 0 || c.y == g.height - 1)
}

/// The character of the level text that governs interior cell `(x, y)`.
/// Rows are read bottom-to-top and placed one cell in from the border;
/// positions outside the interior, beyond the stored rows or beyond a row's
/// length carry no glyph at all.
pub open spec fn level_glyph(rows: Seq<Seq<char>>, width: int, height: int, x: int, y: int, ch: char) -> bool {
    &&& 1 <= x <= width - 2
    &&& 1 <= y <= height - 2
    &&& 1 <= y <= rows.len()
    &&& 0 <= x - 1 < rows[rows.len() - y].len()
    &&& rows[rows.len() - y][x - 1] == ch
}

/// The rows of a level text as character sequences.
pub open spec fn rows_view(rows: Seq<&str>) -> Seq<Seq<char>> {
    Seq::new(rows.len(), |i: int| rows[i]@)
}

/// The static obstacle map of a level, the ordered trail-wall sequence and
/// the goal cells. `fixed` is a row-major occupancy mask of the cells that a
/// player reset does not clear; `trail` holds the undoable trail walls in the
/// order they were deposited.
pub struct GridState {
    width: usize,
    height: usize,
    fixed: Vec<bool>,
    trail: Vec<Cell>,
    goals: Vec<Cell>,
}

impl View for GridState {
    type V = GridModel;

    closed spec fn view(&self) -> GridModel {
        GridModel {
            width: self.width as int,
            height: self.height as int,
            fixed: self.fixed@,
            trail: self.trail@,
            goals: self.goals@,
        }
    }
}

/// Looks for a cell in a vector of cells.
fn contains_cell(v: &Vec<Cell>, c: Cell) -> (r: bool)
    ensures
        r == v@.contains(c),
{
    let mut i: usize = 0;
    while i < v.len()
        invariant
            0 <= i <= v@.len(),
            forall|j: int| 0 <= j < i ==> v@[j] != c,
        decreases v@.len() - i,
    {
        if v[i] == c {
            return true;
        }
        i = i + 1;
    }
    false
}

impl GridState {
    pub fn width(&self) -> (r: usize)
        ensures
            r == self@.width,
    {
        self.width
    }

    pub fn height(&self) -> (r: usize)
        ensures
            r == self@.height,
    {
        self.height
    }

    pub fn in_bounds(&self, c: Cell) -> (r: bool)
        ensures
            r == self@.in_bounds(c),
    {
        c.x < self.width && c.y < self.height
    }

    /// The row-major index of an in-bounds cell.
    pub fn idx_of(&self, c: Cell) -> (i: usize)
        requires
            self@.wf(),
            self@.in_bounds(c),
        ensures
            i == self@.idx(c),
            i < self@.fixed.len(),
    {
        proof {
            lemma_idx_bounds(self@, c);
        }
        c.y * self.width + c.x
    }

    pub fn is_static_wall(&self, c: Cell) -> (r: bool)
        requires
            self@.wf(),
        ensures
            r == self@.is_static_wall(c),
    {
        if c.x < self.width && c.y < self.height {
            let i = self.idx_of(c);
            self.fixed[i]
        } else {
            false
        }
    }

    pub fn is_trail_wall(&self, c: Cell) -> (r: bool)
        ensures
            r == self@.is_trail_wall(c),
    {
        contains_cell(&self.trail, c)
    }

    pub fn is_goal(&self, c: Cell) -> (r: bool)
        ensures
            r == self@.is_goal(c),
    {
        contains_cell(&self.goals, c)
    }

    pub fn is_free(&self, c: Cell) -> (r: bool)
        requires
            self@.wf(),
        ensures
            r == self@.free(c),
    {
        if !self.in_bounds(c) {
            false
        } else {
            !self.is_static_wall(c) && !self.is_trail_wall(c)
        }
    }

    /// The trail walls in the order they were deposited.
    pub fn trail_walls(&self) -> (r: &Vec<Cell>)
        ensures
            r@ == self@.trail,
    {
        &self.trail
    }

    /// The goal cells of the level.
    pub fn goals(&self) -> (r: &Vec<Cell>)
        ensures
            r@ == self@.goals,
    {
        &self.goals
    }

    /// A grid of the given dimensions with no walls and no goals.
    pub fn empty(width: usize, height: usize) -> (g: GridState)
        requires
            1 <= width,
            1 <= height,
            width * height <= usize::MAX,
        ensures
            g@.wf(),
            g@.width == width,
            g@.height == height,
            g@.trail == Seq::<Cell>::empty(),
            g@.goals == Seq::<Cell>::empty(),
            forall|c: Cell| !g@.is_static_wall(c),
    {
        proof {
            assert(width * height <= usize::MAX) by (nonlinear_arith)
                requires
                    width as int * height as int <= usize::MAX,
            ;
        }
        let n: usize = width * height;
        let mut fixed: Vec<bool> = Vec::new();
        let mut i: usize = 0;
        while i < n
            invariant
                fixed@.len() == i,
                i <= n,
                forall|j: int| 0 <= j < i ==> !fixed@[j],
            decreases n - i,
        {
            fixed.push(false);
            i = i + 1;
        }
        let g = GridState { width, height, fixed, trail: Vec::new(), goals: Vec::new() };
        proof {
            assert forall|c: Cell| !g@.is_static_wall(c) by {
                if g@.in_bounds(c) {
                    lemma_idx_bounds(g@, c);
                }
            }
        }
        g
    }

    /// Places a static wall at `c`; every other cell keeps its state.
    pub fn add_static_wall(&mut self, c: Cell)
        requires
            old(self)@.wf(),
            old(self)@.in_bounds(c),
        ensures
            final(self)@.wf(),
            final(self)@.width == old(self)@.width,
            final(self)@.height == old(self)@.height,
            final(self)@.trail == old(self)@.trail,
            final(self)@.goals == old(self)@.goals,
            final(self)@.fixed == old(self)@.fixed.update(old(self)@.idx(c), true),
            forall|d: Cell|
                final(self)@.is_static_wall(d) == (old(self)@.is_static_wall(d) || d == c),
    {
        let i = self.idx_of(c);
        self.fixed[i] = true;
        proof {
            let oldg = old(self)@;
            let newg = self@;
            assert forall|d: Cell|
                newg.is_static_wall(d) == (oldg.is_static_wall(d) || d == c) by {
                if newg.in_bounds(d) {
                    lemma_idx_bounds(oldg, d);
                    if oldg.idx(d) == oldg.idx(c) {
                        lemma_idx_injective(oldg, d, c);
                    }
                }
            }
        }
    }

    /// Adds a goal cell; walls and dimensions keep their state.
    pub fn add_goal(&mut self, c: Cell)
        requires
            old(self)@.wf(),
            old(self)@.in_bounds(c),
        ensures
            final(self)@.wf(),
            final(self)@.width == old(self)@.width,
            final(self)@.height == old(self)@.height,
            final(self)@.trail == old(self)@.trail,
            final(self)@.fixed == old(self)@.fixed,
            final(self)@.goals == old(self)@.goals.push(c),
    {
        self.goals.push(c);
    }

    /// Deposits a trail wall at `c`: appends it to the ordered trail
    /// sequence. Static walls, goals and dimensions keep their state.
    pub fn add_trail_wall(&mut self, c: Cell)
        requires
            old(self)@.wf(),
            old(self)@.in_bounds(c),
        ensures
            final(self)@.wf(),
            final(self)@.width == old(self)@.width,
            final(self)@.height == old(self)@.height,
            final(self)@.fixed == old(self)@.fixed,
            final(self)@.goals == old(self)@.goals,
            final(self)@.trail == old(self)@.trail.push(c),
    {
        self.trail.push(c);
    }

    /// Walls the whole border ring of the grid; interior cells keep their
    /// state.
    pub fn add_border_walls(&mut self)
        requires
            old(self)@.wf(),
        ensures
            final(self)@.wf(),
            final(self)@.width == old(self)@.width,
            final(self)@.height == old(self)@.height,
            final(self)@.trail == old(self)@.trail,
            final(self)@.goals == old(self)@.goals,
            forall|d: Cell|
                final(self)@.is_static_wall(d) == (old(self)@.is_static_wall(d) || on_border(
                    old(self)@,
                    d,
                )),
    {
        let width = self.width;
        let height = self.height;
        let mut y: usize = 0;
        while y < height
            invariant
                self@.wf(),
                self@.width == old(self)@.width,
                self@.height == old(self)@.height,
                self@.trail == old(self)@.trail,
                self@.goals == old(self)@.goals,
                width == self@.width,
                height == self@.height,
                y <= height,
                forall|d: Cell|
                    self@.is_static_wall(d) == (old(self)@.is_static_wall(d) || (old(
                        self,
                    )@.in_bounds(d) && (d.x == 0 || d.x == width - 1) && d.y < y)),
            decreases height - y,
        {
            self.add_static_wall(Cell { x: 0, y });
            self.add_static_wall(Cell { x: width - 1, y });
            y = y + 1;
        }
        let mut x: usize = 1;
        while x < width
            invariant
                self@.wf(),
                self@.width == old(self)@.width,
                self@.height == old(self)@.height,
                self@.trail == old(self)@.trail,
                self@.goals == old(self)@.goals,
                width == self@.width,
                height == self@.height,
                1 <= x <= width,
                forall|d: Cell|
                    self@.is_static_wall(d) == (old(self)@.is_static_wall(d) || (old(
                        self,
                    )@.in_bounds(d) && ((d.x == 0 || d.x == width - 1) || ((d.y == 0 || d.y
                        == height - 1) && d.x < x)))),
            decreases width - x,
        {
            self.add_static_wall(Cell { x, y: 0 });
            self.add_static_wall(Cell { x, y: height - 1 });
            x = x + 1;
        }
    }

    /// Builds a level grid from its text rows. Rows are read bottom-to-top
    /// and placed one cell in from the always-walled border ring; `W` makes a
    /// static wall, `T` a goal cell, and any other character is free. Rows
    /// beyond the interior height and characters beyond the interior width
    /// are ignored; missing cells are free.
    pub fn from_rows(width: usize, height: usize, rows: &Vec<&str>) -> (g: GridState)
        requires
            2 <= width,
            2 <= height,
            width * height <= usize::MAX,
        ensures
            g@.wf(),
            g@.width == width,
            g@.height == height,
            g@.trail == Seq::<Cell>::empty(),
            forall|d: Cell|
                g@.is_static_wall(d) == (on_border(g@, d) || level_glyph(
                    rows_view(rows@),
                    width as int,
                    height as int,
                    d.x as int,
                    d.y as int,
                    'W',
                )),
            forall|d: Cell|
                g@.is_goal(d) == level_glyph(
                    rows_view(rows@),
                    width as int,
                    height as int,
                    d.x as int,
                    d.y as int,
                    'T',
                ),
            g@.walls_goals_disjoint(),
    {
        let ghost rv = rows_view(rows@);
        let ghost w = width as int;
        let ghost h = height as int;
        let mut g = GridState::empty(width, height);
        g.add_border_walls();
        let nrows = rows.len();
        let mut yy: usize = 1;
        while yy <= nrows && yy <= height - 2
            invariant
                g@.wf(),
                g@.width == w,
                g@.height == h,
                g@.trail == Seq::<Cell>::empty(),
                2 <= width,
                2 <= height,
                w == width,
                h == height,
                rv == rows_view(rows@),
                nrows == rows@.len(),
                1 <= yy,
                forall|d: Cell|
                    g@.is_static_wall(d) == (on_border(g@, d) || (level_glyph(
                        rv,
                        w,
                        h,
                        d.x as int,
                        d.y as int,
                        'W',
                    ) && d.y < yy)),
                forall|d: Cell|
                    g@.is_goal(d) == (level_glyph(rv, w, h, d.x as int, d.y as int, 'T')
                        && d.y < yy),
            decreases height - yy,
        {
            let row: &str = rows[nrows - yy];
            proof {
                assert(rv[nrows - yy] == row@);
            }
            let len = row.unicode_len();
            let mut k: usize = 0;
            while k < len && k + 1 <= width - 2
                invariant
                    g@.wf(),
                    g@.width == w,
                    g@.height == h,
                    g@.trail == Seq::<Cell>::empty(),
                    2 <= width,
                    2 <= height,
                    w == width,
                    h == height,
                    rv == rows_view(rows@),
                    nrows == rows@.len(),
                    1 <= yy <= nrows,
                    yy <= height - 2,
                    row@ == rv[nrows - yy],
                    len == row@.len(),
                    k <= len,
                    forall|d: Cell|
                        g@.is_static_wall(d) == (on_border(g@, d) || (level_glyph(
                            rv,
                            w,
                            h,
                            d.x as int,
                            d.y as int,
                            'W',
                        ) && (d.y < yy || (d.y == yy && d.x <= k)))),
                    forall|d: Cell|
                        g@.is_goal(d) == (level_glyph(rv, w, h, d.x as int, d.y as int, 'T')
                            && (d.y < yy || (d.y == yy && d.x <= k))),
                decreases len - k,
            {
                let ch = row.get_char(k);
                let c = Cell { x: k + 1, y: yy };
                let ghost g0 = g@;
                if ch == 'W' {
                    g.add_static_wall(c);
                } else if ch == 'T' {
                    g.add_goal(c);
                }
                proof {
                    assert(rv[nrows - yy][k as int] == ch);
                    assert forall|d: Cell|
                        g@.is_static_wall(d) == (on_border(g@, d) || (level_glyph(
                            rv,
                            w,
                            h,
                            d.x as int,
                            d.y as int,
                            'W',
                        ) && (d.y < yy || (d.y == yy && d.x <= k + 1)))) by {
                        assert(g0.is_static_wall(d) == (on_border(g0, d) || (level_glyph(
                            rv,
                            w,
                            h,
                            d.x as int,
                            d.y as int,
                            'W',
                        ) && (d.y < yy || (d.y == yy && d.x <= k)))));
                        if d.x == k + 1 && d.y == yy {
                            assert(d == c);
                        }
                    }
                    assert forall|d: Cell|
                        g@.is_goal(d) == (level_glyph(rv, w, h, d.x as int, d.y as int, 'T') && (
                        d.y < yy || (d.y == yy && d.x <= k + 1))) by {
                        assert(g0.is_goal(d) == (level_glyph(rv, w, h, d.x as int, d.y as int, 'T')
                            && (d.y < yy || (d.y == yy && d.x <= k))));
                        lemma_push_contains(g0.goals, c, d);
                        if d.x == k + 1 && d.y == yy {
                            assert(d == c);
                        }
                    }
                }
                k = k + 1;
            }
            yy = yy + 1;
        }
        proof {
            assert forall|d: Cell|
                g@.is_static_wall(d) == (on_border(g@, d) || level_glyph(
                    rv,
                    w,
                    h,
                    d.x as int,
                    d.y as int,
                    'W',
                )) by {
                assert(g@.is_static_wall(d) == (on_border(g@, d) || (level_glyph(
                    rv,
                    w,
                    h,
                    d.x as int,
                    d.y as int,
                    'W',
                ) && d.y < yy)));
            }
            assert forall|d: Cell| g@.is_goal(d) implies !g@.is_static_wall(d) by {
                assert(!on_border(g@, d));
            }
        }
        g
    }

    /// Makes every trail wall permanent: the cells join the static walls and
    /// the undoable trail sequence becomes empty. Used on a goal-reached
    /// reset, which keeps the deposited walls as level structure.
    pub fn commit_trail_walls(&mut self)
        requires
            old(self)@.wf(),
        ensures
            final(self)@.wf(),
            final(self)@.width == old(self)@.width,
            final(self)@.height == old(self)@.height,
            final(self)@.goals == old(self)@.goals,
            final(self)@.trail == Seq::<Cell>::empty(),
            final(self)@.fixed == commit_fixed(old(self)@, old(self)@.trail.len() as int),
            forall|d: Cell|
                final(self)@.is_static_wall(d) == (old(self)@.is_static_wall(d) || (old(
                    self,
                )@.in_bounds(d) && old(self)@.is_trail_wall(d))),
    {
        let ghost tr = old(self)@.trail;
        let n = self.trail.len();
        let mut i: usize = 0;
        while i < n
            invariant
                self@.wf(),
                self@.width == old(self)@.width,
                self@.height == old(self)@.height,
                self@.goals == old(self)@.goals,
                self@.trail == tr,
                tr == old(self)@.trail,
                n == tr.len(),
                i <= n,
                self@.fixed == commit_fixed(old(self)@, i as int),
                forall|d: Cell|
                    self@.is_static_wall(d) == (old(self)@.is_static_wall(d) || (old(
                        self,
                    )@.in_bounds(d) && tr.take(i as int).contains(d))),
            decreases n - i,
        {
            let c = self.trail[i];
            let ghost gpre = self@;
            if c.x < self.width && c.y < self.height {
                self.add_static_wall(c);
            }
            proof {
                assert(tr.take(i + 1) =~= tr.take(i as int).push(tr[i as int]));
                assert forall|d: Cell|
                    self@.is_static_wall(d) == (old(self)@.is_static_wall(d) || (old(
                        self,
                    )@.in_bounds(d) && tr.take(i + 1).contains(d))) by {
                    assert(gpre.is_static_wall(d) == (old(self)@.is_static_wall(d) || (old(
                        self,
                    )@.in_bounds(d) && tr.take(i as int).contains(d))));
                    lemma_push_contains(tr.take(i as int), tr[i as int], d);
                }
            }
            i = i + 1;
        }
        self.trail.clear();
        proof {
            assert(tr.take(n as int) =~= tr);
        }
    }

    /// Removes every trail wall: the cells become free again, static walls
    /// and goals keep their state. Used on explicit player reset.
    pub fn undo_all_trail_walls(&mut self)
        requires
            old(self)@.wf(),
        ensures
            final(self)@.wf(),
            final(self)@.width == old(self)@.width,
            final(self)@.height == old(self)@.height,
            final(self)@.fixed == old(self)@.fixed,
            final(self)@.goals == old(self)@.goals,
            final(self)@.trail == Seq::<Cell>::empty(),
    {
        self.trail.clear();
    }
}

} // verus!
