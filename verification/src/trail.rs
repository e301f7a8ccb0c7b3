//! Trail deposits: after every successful movement tick the last three
//! history cells are examined, and when they bend — change movement axis —
//! a permanent obstacle is deposited at the middle cell.

use vstd::prelude::*;

use crate::grid::{Cell, GridModel, GridState};
use crate::token::step_ok;

verus! {

/// Three points bend when the outer two agree on neither axis, that is,
/// they are not collinear along a row or a column.
pub open spec fn is_bend(prev: Cell, last: Cell) -> bool {
    prev.x != last.x && prev.y != last.y
}

/// The last three history entries form a bend.
pub open spec fn bend_window(h: Seq<Cell>) -> bool {
    h.len() >= 3 && is_bend(h[h.len() - 3], h[h.len() - 1])
}

/// The middle cell of the three-entry window: where a bend deposits.
pub open spec fn bend_mid(h: Seq<Cell>) -> Cell
    recommends
        h.len() >= 2,
{
    h[h.len() - 2]
}

/// The grid after a possible trail deposit: when the history window bends,
/// the middle cell is appended to the trail walls; otherwise nothing
/// changes.
pub open spec fn deposit_model(g: GridModel, h: Seq<Cell>) -> GridModel {
    if bend_window(h) {
        GridModel { trail: g.trail.push(bend_mid(h)), ..g }
    } else {
        g
    }
}

/// Examines the last three history entries and deposits a trail wall at the
/// middle one iff they bend: see `deposit_model`. This is the only writer
/// of the trail sequence.
pub fn maybe_deposit_trail_wall(grid: &mut GridState, history: &Vec<Cell>)
    requires
        old(grid)@.wf(),
        bend_window(history@) ==> old(grid)@.in_bounds(bend_mid(history@)),
    ensures
        final(grid)@ == deposit_model(old(grid)@, history@),
{
    if history.len() >= 3 {
        let prev = history[history.len() - 3];
        let mid = history[history.len() - 2];
        let last = history[history.len() - 1];
        if prev.x != last.x && prev.y != last.y {
            grid.add_trail_wall(mid);
            proof {
                assert(grid@ =~= deposit_model(old(grid)@, history@));
            }
        }
    }
}

/// Bend law: the trail grows — by exactly the middle cell of the window —
/// iff the window's outer cells disagree on both axes; a collinear window
/// never deposits.
pub proof fn lemma_bend_law(g: GridModel, h: Seq<Cell>)
    ensures
        bend_window(h) ==> deposit_model(g, h).trail == g.trail.push(bend_mid(h)),
        !bend_window(h) ==> deposit_model(g, h) == g,
        h.len() >= 3 && !is_bend(h[h.len() - 3], h[h.len() - 1]) ==> deposit_model(g, h) == g,
{
}

/// A bend never deposits on the cell the token stands on: when consecutive
/// window entries are single steps, a bending window's middle cell differs
/// from its last cell.
pub proof fn lemma_bend_mid_not_last(h: Seq<Cell>)
    requires
        h.len() >= 3,
        step_ok(h[h.len() - 3], h[h.len() - 2]),
        step_ok(h[h.len() - 2], h[h.len() - 1]),
        bend_window(h),
    ensures
        bend_mid(h) != h[h.len() - 1],
{
    let prev = h[h.len() - 3];
    let mid = h[h.len() - 2];
    let last = h[h.len() - 1];
    if mid == last {
        assert(step_ok(prev, mid));
        assert(is_bend(prev, last));
        assert(false);
    }
}

} // verus!
