//! Reachability validation: whether any goal cell can still be reached from
//! the start cell through free cells. All edges of the free-cell adjacency
//! graph have unit weight, so a breadth-first search answers the same
//! question as any uniform-cost shortest-path search and visits each free
//! cell at most once per query.

use vstd::prelude::*;

use crate::grid::{adjacent, lemma_idx_bounds, lemma_idx_injective, Cell, GridModel, GridState};

verus! {

/// A path through the grid: non-empty, every cell free, consecutive cells
/// axis-adjacent.
pub open spec fn is_path(g: GridModel, p: Seq<Cell>) -> bool {
    &&& p.len() >= 1
    &&& forall|i: int| 0 <= i < p.len() ==> g.free(#[trigger] p[i])
    &&& forall|i: int| 1 <= i < p.len() ==> adjacent(p[i - 1], #[trigger] p[i])
}

pub open spec fn is_path_between(g: GridModel, p: Seq<Cell>, s: Cell, t: Cell) -> bool {
    is_path(g, p) && p.first() == s && p.last() == t
}

/// `t` can be reached from `s` through free cells.
pub open spec fn reachable(g: GridModel, s: Cell, t: Cell) -> bool {
    exists|p: Seq<Cell>| is_path_between(g, p, s, t)
}

/// The level remains solvable: some goal cell is reachable from `s`.
pub open spec fn some_goal_reachable(g: GridModel, s: Cell) -> bool {
    exists|i: int| 0 <= i < g.goals.len() && reachable(g, s, #[trigger] g.goals[i])
}

/// A free cell is reachable from itself by the one-cell path.
pub proof fn lemma_reachable_self(g: GridModel, s: Cell)
    requires
        g.free(s),
    ensures
        reachable(g, s, s),
{
    let p = seq![s];
    assert(p[0] == s);
    assert(is_path_between(g, p, s, s));
}

/// Reachability extends across one free adjacent step.
pub proof fn lemma_reachable_step(g: GridModel, s: Cell, c: Cell, d: Cell)
    requires
        reachable(g, s, c),
        adjacent(c, d),
        g.free(d),
    ensures
        reachable(g, s, d),
{
    let p = choose|p: Seq<Cell>| is_path_between(g, p, s, c);
    let q = p.push(d);
    assert forall|i: int| 0 <= i < q.len() implies g.free(#[trigger] q[i]) by {
        if i < p.len() {
            assert(g.free(p[i]));
        }
    }
    assert forall|i: int| 1 <= i < q.len() implies adjacent(q[i - 1], #[trigger] q[i]) by {
        if i < p.len() {
            assert(adjacent(p[i - 1], p[i]));
        } else {
            assert(q[i] == d);
            assert(q[i - 1] == p.last());
        }
    }
    assert(q.first() == s);
    assert(q.last() == d);
    assert(is_path_between(g, q, s, d));
}

/// Two verdicts of the reachability check on an unchanged grid agree: the
/// check's contract pins each verdict to the same predicate of the grid and
/// the start cell alone.
pub proof fn lemma_check_idempotent(g: GridModel, s: Cell, first: bool, second: bool)
    requires
        first == some_goal_reachable(g, s),
        second == some_goal_reachable(g, s),
    ensures
        first == second,
{
}

/// The marked set of the search: `c` is marked in the row-major mask.
pub open spec fn visited_at(g: GridModel, vis: Seq<bool>, c: Cell) -> bool {
    g.in_bounds(c) && vis[g.idx(c)]
}

/// `c` still waits in the queue at or after `head`.
pub open spec fn in_frontier(q: Seq<Cell>, head: int, c: Cell) -> bool {
    exists|i: int| head <= i < q.len() && q[i] == c
}

/// A set that contains the first cell of a path and is closed under free
/// adjacent steps contains the last cell of the path.
proof fn lemma_closed_covers(g: GridModel, vis: Seq<bool>, p: Seq<Cell>)
    requires
        g.wf(),
        is_path(g, p),
        visited_at(g, vis, p.first()),
        forall|c: Cell, d: Cell|
            #![trigger visited_at(g, vis, c), adjacent(c, d)]
            visited_at(g, vis, c) && adjacent(c, d) && g.free(d) ==> visited_at(g, vis, d),
    ensures
        visited_at(g, vis, p.last()),
    decreases p.len(),
{
    if p.len() > 1 {
        let q = p.drop_last();
        assert forall|i: int| 0 <= i < q.len() implies g.free(#[trigger] q[i]) by {
            assert(g.free(p[i]));
        }
        assert forall|i: int| 1 <= i < q.len() implies adjacent(q[i - 1], #[trigger] q[i]) by {
            assert(adjacent(p[i - 1], p[i]));
        }
        lemma_closed_covers(g, vis, q);
        assert(adjacent(p[p.len() - 2], p[p.len() - 1]));
        assert(g.free(p.last()));
    }
}

/// How many entries of a mask are set.
spec fn count_true(s: Seq<bool>) -> nat
    decreases s.len(),
{
    if s.len() == 0 {
        0
    } else {
        count_true(s.drop_last()) + if s.last() {
            1nat
        } else {
            0nat
        }
    }
}

proof fn lemma_count_true_le(s: Seq<bool>)
    ensures
        count_true(s) <= s.len(),
    decreases s.len(),
{
    if s.len() > 0 {
        lemma_count_true_le(s.drop_last());
    }
}

proof fn lemma_count_true_update(s: Seq<bool>, i: int)
    requires
        0 <= i < s.len(),
        !s[i],
    ensures
        count_true(s.update(i, true)) == count_true(s) + 1,
    decreases s.len(),
{
    let t = s.update(i, true);
    if i == s.len() - 1 {
        assert(t.drop_last() =~= s.drop_last());
        assert(t.last());
    } else {
        assert(t.drop_last() =~= s.drop_last().update(i, true));
        lemma_count_true_update(s.drop_last(), i);
        assert(t.last() == s.last());
    }
}

/// Marks and enqueues `d` when it is a free, not yet marked cell. Keeps the
/// search invariants: marked cells are free and reachable from `s`, queue
/// entries from `head` on are marked, and closedness may fail only at the
/// cell `ex` currently being expanded.
fn try_visit(
    grid: &GridState,
    Ghost(s): Ghost<Cell>,
    Ghost(head): Ghost<int>,
    Ghost(ex): Ghost<Cell>,
    visited: &mut Vec<bool>,
    queue: &mut Vec<Cell>,
    nvis: &mut usize,
    d: Cell,
)
    requires
        grid@.wf(),
        old(visited)@.len() == grid@.fixed.len(),
        *old(nvis) == count_true(old(visited)@),
        0 <= head <= old(queue)@.len(),
        grid@.free(d) ==> reachable(grid@, s, d),
        forall|c: Cell| #[trigger]
            visited_at(grid@, old(visited)@, c) ==> grid@.free(c) && reachable(grid@, s, c),
        forall|i: int|
            head <= i < old(queue)@.len() ==> visited_at(
                grid@,
                old(visited)@,
                #[trigger] old(queue)@[i],
            ),
        forall|c: Cell, dd: Cell|
            #![trigger visited_at(grid@, old(visited)@, c), adjacent(c, dd)]
            visited_at(grid@, old(visited)@, c) && c != ex && !in_frontier(old(queue)@, head, c)
                && adjacent(c, dd) && grid@.free(dd) ==> visited_at(grid@, old(visited)@, dd),
    ensures
        final(visited)@.len() == old(visited)@.len(),
        *final(nvis) == count_true(final(visited)@),
        old(queue)@.len() <= final(queue)@.len(),
        head <= final(queue)@.len(),
        grid@.free(d) ==> visited_at(grid@, final(visited)@, d),
        forall|c: Cell| #[trigger]
            visited_at(grid@, old(visited)@, c) ==> visited_at(grid@, final(visited)@, c),
        forall|c: Cell| #[trigger]
            visited_at(grid@, final(visited)@, c) ==> grid@.free(c) && reachable(grid@, s, c),
        forall|i: int|
            head <= i < final(queue)@.len() ==> visited_at(
                grid@,
                final(visited)@,
                #[trigger] final(queue)@[i],
            ),
        forall|c: Cell, dd: Cell|
            #![trigger visited_at(grid@, final(visited)@, c), adjacent(c, dd)]
            visited_at(grid@, final(visited)@, c) && c != ex && !in_frontier(
                final(queue)@,
                head,
                c,
            ) && adjacent(c, dd) && grid@.free(dd) ==> visited_at(grid@, final(visited)@, dd),
        (final(visited)@ == old(visited)@ && final(queue)@ == old(queue)@ && *final(nvis) == *old(
            nvis,
        )) || (final(queue)@ == old(queue)@.push(d) && *final(nvis) == *old(nvis) + 1),
{
    let ghost g = grid@;
    if grid.is_free(d) {
        let i = grid.idx_of(d);
        if !visited[i] {
            proof {
                lemma_count_true_update(visited@, i as int);
                lemma_count_true_le(visited@.update(i as int, true));
            }
            visited[i] = true;
            *nvis = *nvis + 1;
            queue.push(d);
            proof {
                let vis0 = old(visited)@;
                let vis1 = visited@;
                let q0 = old(queue)@;
                let q1 = queue@;
                assert(visited_at(g, vis1, d));
                assert forall|c: Cell| #[trigger]
                    visited_at(g, vis0, c) implies visited_at(g, vis1, c) by {
                    lemma_idx_bounds(g, c);
                }
                assert forall|c: Cell| #[trigger]
                    visited_at(g, vis1, c) implies g.free(c) && reachable(g, s, c) by {
                    if c != d {
                        lemma_idx_bounds(g, c);
                        if g.idx(c) == g.idx(d) {
                            lemma_idx_injective(g, c, d);
                        }
                        assert(visited_at(g, vis0, c));
                    }
                }
                assert forall|i2: int| head <= i2 < q1.len() implies visited_at(
                    g,
                    vis1,
                    #[trigger] q1[i2],
                ) by {
                    if i2 < q0.len() {
                        assert(visited_at(g, vis0, q0[i2]));
                    } else {
                        assert(q1[i2] == d);
                    }
                }
                assert(in_frontier(q1, head, d)) by {
                    assert(q1[q0.len() as int] == d);
                }
                assert forall|c: Cell, dd: Cell|
                    #![trigger visited_at(g, vis1, c), adjacent(c, dd)]
                    visited_at(g, vis1, c) && c != ex && !in_frontier(q1, head, c) && adjacent(
                        c,
                        dd,
                    ) && g.free(dd) implies visited_at(g, vis1, dd) by {
                    if c != d {
                        lemma_idx_bounds(g, c);
                        if g.idx(c) == g.idx(d) {
                            lemma_idx_injective(g, c, d);
                        }
                        assert(visited_at(g, vis0, c));
                        assert(!in_frontier(q0, head, c)) by {
                            if in_frontier(q0, head, c) {
                                let j = choose|j: int| head <= j < q0.len() && q0[j] == c;
                                assert(q1[j] == c);
                            }
                        }
                        assert(visited_at(g, vis0, dd));
                    }
                }
            }
        }
    }
}

/// Answers whether any goal cell of the grid is still reachable from
/// `start` through free cells, by breadth-first search over the free-cell
/// adjacency graph; each free cell is visited at most once per query.
///
/// The verdict is a function of the grid and the start cell alone, so two
/// checks of the same unchanged grid return the same answer.
pub fn check(grid: &GridState, start: Cell) -> (solvable: bool)
    requires
        grid@.wf(),
    ensures
        solvable == some_goal_reachable(grid@, start),
{
    let ghost g = grid@;
    if !grid.is_free(start) {
        proof {
            assert forall|i: int| 0 <= i < g.goals.len() implies !reachable(
                g,
                start,
                #[trigger] g.goals[i],
            ) by {
                if reachable(g, start, g.goals[i]) {
                    let p = choose|p: Seq<Cell>| is_path_between(g, p, start, g.goals[i]);
                    assert(g.free(p[0]));
                }
            }
        }
        return false;
    }
    let n: usize = grid.width() * grid.height();
    let mut visited: Vec<bool> = Vec::new();
    let mut i0: usize = 0;
    while i0 < n
        invariant
            visited@.len() == i0,
            i0 <= n,
            count_true(visited@) == 0,
            forall|j: int| 0 <= j < i0 ==> !visited@[j],
        decreases n - i0,
    {
        proof {
            assert(visited@.push(false).drop_last() =~= visited@);
        }
        visited.push(false);
        i0 = i0 + 1;
    }
    let mut queue: Vec<Cell> = Vec::new();
    let mut nvis: usize = 0;
    let mut head: usize = 0;
    proof {
        lemma_reachable_self(g, start);
        assert forall|c: Cell| !visited_at(g, visited@, c) by {
            if g.in_bounds(c) {
                lemma_idx_bounds(g, c);
            }
        }
    }
    try_visit(
        grid,
        Ghost(start),
        Ghost(0int),
        Ghost(start),
        &mut visited,
        &mut queue,
        &mut nvis,
        start,
    );
    proof {
        lemma_count_true_le(visited@);
        assert(visited_at(g, visited@, start));
        assert(in_frontier(queue@, 0, start)) by {
            assert(queue@[0] == start);
        }
    }
    while head < queue.len()
        invariant
            grid@ == g,
            g.wf(),
            g.free(start),
            visited@.len() == g.fixed.len(),
            nvis == count_true(visited@),
            nvis <= visited@.len(),
            head <= queue@.len(),
            visited_at(g, visited@, start),
            forall|c: Cell| #[trigger]
                visited_at(g, visited@, c) ==> g.free(c) && reachable(g, start, c),
            forall|i: int|
                head <= i < queue@.len() ==> visited_at(g, visited@, #[trigger] queue@[i]),
            forall|c: Cell, d: Cell|
                #![trigger visited_at(g, visited@, c), adjacent(c, d)]
                visited_at(g, visited@, c) && !in_frontier(queue@, head as int, c) && adjacent(
                    c,
                    d,
                ) && g.free(d) ==> visited_at(g, visited@, d),
        decreases visited@.len() - nvis, queue@.len() - head,
    {
        let c = queue[head];
        let ghost vis_e = visited@;
        let ghost q_e = queue@;
        let ghost head_e = head as int;
        let ghost nv_e = nvis as int;
        head = head + 1;
        proof {
            assert(visited_at(g, vis_e, c));
            assert(g.free(c) && reachable(g, start, c));
            assert forall|cc: Cell, dd: Cell|
                #![trigger visited_at(g, vis_e, cc), adjacent(cc, dd)]
                visited_at(g, vis_e, cc) && cc != c && !in_frontier(q_e, head as int, cc)
                    && adjacent(cc, dd) && g.free(dd) implies visited_at(g, vis_e, dd) by {
                assert(!in_frontier(q_e, head_e, cc)) by {
                    if in_frontier(q_e, head_e, cc) {
                        let j = choose|j: int| head_e <= j < q_e.len() && q_e[j] == cc;
                        if j == head_e {
                            assert(cc == c);
                        } else {
                            assert(head as int <= j < q_e.len() && q_e[j] == cc);
                        }
                    }
                }
            }
        }
        let width = grid.width();
        let height = grid.height();
        if c.x + 1 < width {
            let d = Cell { x: c.x + 1, y: c.y };
            proof {
                if g.free(d) {
                    lemma_reachable_step(g, start, c, d);
                }
            }
            try_visit(
                grid,
                Ghost(start),
                Ghost(head as int),
                Ghost(c),
                &mut visited,
                &mut queue,
                &mut nvis,
                d,
            );
        }
        if c.x > 0 {
            let d = Cell { x: c.x - 1, y: c.y };
            proof {
                if g.free(d) {
                    lemma_reachable_step(g, start, c, d);
                }
            }
            try_visit(
                grid,
                Ghost(start),
                Ghost(head as int),
                Ghost(c),
                &mut visited,
                &mut queue,
                &mut nvis,
                d,
            );
        }
        if c.y + 1 < height {
            let d = Cell { x: c.x, y: c.y + 1 };
            proof {
                if g.free(d) {
                    lemma_reachable_step(g, start, c, d);
                }
            }
            try_visit(
                grid,
                Ghost(start),
                Ghost(head as int),
                Ghost(c),
                &mut visited,
                &mut queue,
                &mut nvis,
                d,
            );
        }
        if c.y > 0 {
            let d = Cell { x: c.x, y: c.y - 1 };
            proof {
                if g.free(d) {
                    lemma_reachable_step(g, start, c, d);
                }
            }
            try_visit(
                grid,
                Ghost(start),
                Ghost(head as int),
                Ghost(c),
                &mut visited,
                &mut queue,
                &mut nvis,
                d,
            );
        }
        proof {
            lemma_count_true_le(visited@);
            assert forall|cc: Cell, dd: Cell|
                #![trigger visited_at(g, visited@, cc), adjacent(cc, dd)]
                visited_at(g, visited@, cc) && !in_frontier(queue@, head as int, cc) && adjacent(
                    cc,
                    dd,
                ) && g.free(dd) implies visited_at(g, visited@, dd) by {
                if cc == c {
                    assert(g.in_bounds(dd));
                    if dd.y == c.y && dd.x == c.x + 1 {
                        assert(visited_at(g, visited@, dd));
                    } else if dd.y == c.y && dd.x + 1 == c.x {
                        assert(dd == Cell { x: (c.x - 1) as usize, y: c.y });
                        assert(visited_at(g, visited@, dd));
                    } else if dd.x == c.x && dd.y == c.y + 1 {
                        assert(visited_at(g, visited@, dd));
                    } else {
                        assert(dd.x == c.x && dd.y + 1 == c.y);
                        assert(dd == Cell { x: c.x, y: (c.y - 1) as usize });
                        assert(visited_at(g, visited@, dd));
                    }
                }
            }
            if nvis == nv_e {
                assert(queue@ == q_e);
            }
        }
    }
    // The queue is exhausted: the marked set is closed, so it contains every
    // cell reachable from the start. The verdict is whether a goal is marked.
    let ghost vis_f = visited@;
    let goals = grid.goals();
    let mut gi: usize = 0;
    while gi < goals.len()
        invariant
            grid@ == g,
            g.wf(),
            g.free(start),
            goals@ == g.goals,
            visited@ == vis_f,
            visited@.len() == g.fixed.len(),
            visited_at(g, vis_f, start),
            forall|c: Cell| #[trigger]
                visited_at(g, vis_f, c) ==> g.free(c) && reachable(g, start, c),
            forall|c: Cell, d: Cell|
                #![trigger visited_at(g, vis_f, c), adjacent(c, d)]
                visited_at(g, vis_f, c) && adjacent(c, d) && g.free(d) ==> visited_at(g, vis_f, d),
            gi <= goals@.len(),
            forall|j: int| 0 <= j < gi ==> !visited_at(g, vis_f, #[trigger] g.goals[j]),
        decreases goals@.len() - gi,
    {
        let gc = goals[gi];
        if gc.x < grid.width() && gc.y < grid.height() {
            let ii = grid.idx_of(gc);
            if visited[ii] {
                proof {
                    assert(visited_at(g, vis_f, gc));
                    assert(reachable(g, start, g.goals[gi as int]));
                }
                return true;
            }
        }
        gi = gi + 1;
    }
    proof {
        assert forall|i: int| 0 <= i < g.goals.len() implies !reachable(
            g,
            start,
            #[trigger] g.goals[i],
        ) by {
            if reachable(g, start, g.goals[i]) {
                let p = choose|p: Seq<Cell>| is_path_between(g, p, start, g.goals[i]);
                lemma_closed_covers(g, vis_f, p);
                assert(!visited_at(g, vis_f, g.goals[i]));
            }
        }
    }
    false
}

} // verus!
