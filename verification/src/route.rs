//! Routes over the cells of the region that the search explores: what a step
//! costs, what a route is and costs, and what holds of the cheapest ones.

use crate::geometry::{Pos, GRID_MAX, LARGE};
use crate::hazard::{lethal, Snake};
use vstd::prelude::*;
use vstd::set_lib::{lemma_int_range, lemma_len_subset, set_int_range};

verus! {

/// Smallest coordinate of the region that the search explores.
pub const REGION_MIN: i32 = -11;

/// Largest coordinate of the region that the search explores.
pub const REGION_MAX: i32 = 21;

impl Pos {
    /// Whether the cell lies in the region that the search explores: the grid
    /// and a margin as wide as the grid on each side.
    pub open spec fn in_region(self) -> bool {
        REGION_MIN <= self.0 <= REGION_MAX && REGION_MIN <= self.1 <= REGION_MAX
    }

    /// What a step into the cell costs: 1, and the penalties of the cell.
    pub open spec fn step_cost(self, snakes: Seq<Snake>, own: u32) -> nat {
        1 + self.grid_penalty() + self.snake_penalty(snakes, own)
    }
}

/// Whether the search may step from `from` to `to`: the two are neighbours and
/// `to` lies in the region.
pub open spec fn is_step(from: Pos, to: Pos) -> bool {
    from.manhattan(to) == 1 && to.in_region()
}

/// Whether the search may step from the cell at `i` to the next one.
pub open spec fn step_at(cells: Seq<Pos>, i: int) -> bool {
    is_step(cells[i], cells[i + 1])
}

/// Whether `cells` leads from `start` to `goal` by steps that the search may
/// take.
pub open spec fn is_route(cells: Seq<Pos>, start: Pos, goal: Pos) -> bool {
    &&& cells.len() >= 1
    &&& cells[0] == start
    &&& cells[cells.len() - 1] == goal
    &&& forall|i: int| 0 <= i < cells.len() - 1 ==> #[trigger] step_at(cells, i)
}

/// What a route costs: the sum of the costs of its steps.
pub open spec fn route_cost(cells: Seq<Pos>, snakes: Seq<Snake>, own: u32) -> nat
    decreases cells.len(),
{
    if cells.len() <= 1 {
        0
    } else {
        route_cost(cells.drop_last(), snakes, own) + cells.last().step_cost(snakes, own)
    }
}

/// Whether some route leads from `start` to `goal`.
pub open spec fn reachable(start: Pos, goal: Pos) -> bool {
    exists|cells: Seq<Pos>| is_route(cells, start, goal)
}

/// Whether `cells` is a route from `start` to `goal` and no route between the
/// two costs less.
pub open spec fn is_cheapest_route(
    cells: Seq<Pos>,
    start: Pos,
    goal: Pos,
    snakes: Seq<Snake>,
    own: u32,
) -> bool {
    &&& is_route(cells, start, goal)
    &&& forall|other: Seq<Pos>| #[trigger]
        is_route(other, start, goal) ==> route_cost(cells, snakes, own) <= route_cost(
            other,
            snakes,
            own,
        )
}

/// Whether a route enters only cells of the grid that are not lethal.
pub open spec fn is_safe_route(cells: Seq<Pos>, snakes: Seq<Snake>, own: u32) -> bool {
    forall|i: int|
        0 < i < cells.len() ==> (#[trigger] cells[i]).on_grid() && !lethal(cells[i], snakes, own)
}

/// Whether some route from `start` to `goal` enters only cells of the grid
/// that are not lethal.
pub open spec fn safely_reachable(start: Pos, goal: Pos, snakes: Seq<Snake>, own: u32) -> bool {
    exists|cells: Seq<Pos>| #[trigger]
        is_route(cells, start, goal) && is_safe_route(cells, snakes, own)
}

/// The place of a cell of the grid when the cells are counted column by
/// column.
pub open spec fn grid_index(cell: Pos) -> int {
    cell.0 * (GRID_MAX + 1) + cell.1
}

/// Whether no cell of the grid is lethal.
pub open spec fn grid_is_safe(snakes: Seq<Snake>, own: u32) -> bool {
    forall|cell: Pos| cell.on_grid() ==> !lethal(cell, snakes, own)
}

/// Whether `cell` lies between `a` and `b` on both axes.
pub open spec fn between(cell: Pos, a: Pos, b: Pos) -> bool {
    &&& a.0 <= cell.0 <= b.0 || b.0 <= cell.0 <= a.0
    &&& a.1 <= cell.1 <= b.1 || b.1 <= cell.1 <= a.1
}

/// The neighbour of `from` that is one step closer to `to`, along `x` while
/// the two differ there, then along `y`; `from` itself where the two are the
/// same cell.
pub open spec fn toward(from: Pos, to: Pos) -> Pos {
    if from.0 < to.0 {
        Pos((from.0 + 1) as i32, from.1)
    } else if from.0 > to.0 {
        Pos((from.0 - 1) as i32, from.1)
    } else if from.1 < to.1 {
        Pos(from.0, (from.1 + 1) as i32)
    } else if from.1 > to.1 {
        Pos(from.0, (from.1 - 1) as i32)
    } else {
        from
    }
}

/// A route from `start` to `goal` that never moves away from the goal: it
/// ends with the steps along `x`, after those along `y`.
pub open spec fn straight(start: Pos, goal: Pos) -> Seq<Pos>
    decreases goal.manhattan(start),
{
    if goal == start {
        seq![start]
    } else {
        straight(start, toward(goal, start)).push(goal)
    }
}

/// A route has at least as many steps as its ends are apart, and costs at
/// least 1 for each step.
pub proof fn lemma_route_bounds(
    cells: Seq<Pos>,
    start: Pos,
    goal: Pos,
    snakes: Seq<Snake>,
    own: u32,
)
    requires
        is_route(cells, start, goal),
    ensures
        start.manhattan(goal) <= cells.len() - 1 <= route_cost(cells, snakes, own),
    decreases cells.len(),
{
    if cells.len() > 1 {
        let front = cells.drop_last();
        let mid = front.last();
        assert forall|i: int| 0 <= i < front.len() - 1 implies #[trigger] step_at(front, i) by {
            assert(step_at(cells, i));
        }
        lemma_route_bounds(front, start, mid, snakes, own);
        assert(step_at(cells, cells.len() - 2));
    }
}

/// Between two cells of the region the straight route is a route. It has one
/// step for each unit of distance and stays between its ends; where no cell
/// between them has a penalty, it costs the distance.
pub proof fn lemma_straight_route(start: Pos, goal: Pos, snakes: Seq<Snake>, own: u32)
    requires
        start.in_region(),
        goal.in_region(),
    ensures
        is_route(straight(start, goal), start, goal),
        straight(start, goal).len() == start.manhattan(goal) + 1,
        forall|i: int|
            0 <= i < straight(start, goal).len() ==> between(
                #[trigger] straight(start, goal)[i],
                start,
                goal,
            ),
        (forall|cell: Pos| between(cell, start, goal) ==> #[trigger] cell.step_cost(snakes, own) == 1)
            ==> route_cost(straight(start, goal), snakes, own) == start.manhattan(goal),
    decreases goal.manhattan(start),
{
    let route = straight(start, goal);
    if goal != start {
        let mid = toward(goal, start);
        let front = straight(start, mid);
        lemma_straight_route(start, mid, snakes, own);
        assert(route == front.push(goal));
        assert(route.drop_last() == front);
        assert forall|i: int| 0 <= i < route.len() - 1 implies #[trigger] step_at(route, i) by {
            if i < front.len() - 1 {
                assert(step_at(front, i));
            }
        }
        assert forall|i: int| 0 <= i < route.len() implies between(#[trigger] route[i], start, goal) by {
            if i < front.len() {
                assert(between(front[i], start, mid));
            }
        }
        if forall|cell: Pos| between(cell, start, goal) ==> #[trigger] cell.step_cost(snakes, own) == 1 {
            assert forall|cell: Pos| between(cell, start, mid) implies #[trigger] cell.step_cost(
                snakes,
                own,
            ) == 1 by {
                assert(between(cell, start, goal));
            }
            assert(between(goal, start, goal));
        }
    }
}

/// Any two cells of the region are joined by a route.
pub proof fn lemma_region_is_connected(start: Pos, goal: Pos)
    requires
        start.in_region(),
        goal.in_region(),
    ensures
        reachable(start, goal),
{
    lemma_straight_route(start, goal, Seq::empty(), 0);
}

/// What a route costs is the cost of its first step and of the rest.
pub proof fn lemma_cost_from_front(cells: Seq<Pos>, snakes: Seq<Snake>, own: u32)
    requires
        cells.len() >= 2,
    ensures
        route_cost(cells, snakes, own) == cells[1].step_cost(snakes, own) + route_cost(
            cells.skip(1),
            snakes,
            own,
        ),
    decreases cells.len(),
{
    let front = cells.drop_last();
    if cells.len() == 2 {
        assert(route_cost(front, snakes, own) == 0);
        assert(route_cost(cells.skip(1), snakes, own) == 0);
    } else {
        lemma_cost_from_front(front, snakes, own);
        assert(front.skip(1) == cells.skip(1).drop_last());
        assert(cells.skip(1).last() == cells.last());
    }
}

/// A route between two distinct cells that costs no more than their distance
/// begins with a step that brings it closer to the goal, into a cell without
/// penalty.
pub proof fn lemma_first_step_approaches(
    cells: Seq<Pos>,
    start: Pos,
    goal: Pos,
    snakes: Seq<Snake>,
    own: u32,
)
    requires
        is_route(cells, start, goal),
        start != goal,
        route_cost(cells, snakes, own) <= start.manhattan(goal),
    ensures
        cells.len() >= 2,
        cells[1].manhattan(goal) + 1 == start.manhattan(goal),
        cells[1].step_cost(snakes, own) == 1,
{
    lemma_route_bounds(cells, start, goal, snakes, own);
    let rest = cells.skip(1);
    assert(step_at(cells, 0));
    assert forall|i: int| 0 <= i < rest.len() - 1 implies #[trigger] step_at(rest, i) by {
        assert(step_at(cells, i + 1));
    }
    assert(is_route(rest, cells[1], goal));
    lemma_route_bounds(rest, cells[1], goal, snakes, own);
    lemma_cost_from_front(cells, snakes, own);
}

/// A route that costs less than the penalty enters no cell off the grid and
/// no lethal cell.
pub proof fn lemma_cheap_route_is_safe(
    cells: Seq<Pos>,
    start: Pos,
    goal: Pos,
    snakes: Seq<Snake>,
    own: u32,
)
    requires
        is_route(cells, start, goal),
        route_cost(cells, snakes, own) < LARGE,
    ensures
        is_safe_route(cells, snakes, own),
    decreases cells.len(),
{
    if cells.len() > 1 {
        let front = cells.drop_last();
        assert forall|i: int| 0 <= i < front.len() - 1 implies #[trigger] step_at(front, i) by {
            assert(step_at(cells, i));
        }
        lemma_cheap_route_is_safe(front, start, front.last(), snakes, own);
        assert forall|i: int| 0 < i < cells.len() implies (#[trigger] cells[i]).on_grid() && !lethal(
            cells[i],
            snakes,
            own,
        ) by {
            if i < front.len() {
                assert(cells[i] == front[i]);
            }
        }
    }
}

/// A route that enters only cells of the grid that are not lethal costs 1 for
/// each step.
pub proof fn lemma_safe_route_cost(cells: Seq<Pos>, snakes: Seq<Snake>, own: u32)
    requires
        cells.len() >= 1,
        is_safe_route(cells, snakes, own),
    ensures
        route_cost(cells, snakes, own) == cells.len() - 1,
    decreases cells.len(),
{
    if cells.len() > 1 {
        let front = cells.drop_last();
        assert forall|i: int| 0 < i < front.len() implies (#[trigger] front[i]).on_grid() && !lethal(
            front[i],
            snakes,
            own,
        ) by {
            assert(front[i] == cells[i]);
        }
        lemma_safe_route_cost(front, snakes, own);
        assert(cells.last() == cells[cells.len() - 1]);
    }
}

/// The grid holds 121 cells: no more can stand in a sequence without one of
/// them standing there twice.
pub proof fn lemma_grid_holds_few_cells(cells: Seq<Pos>)
    requires
        cells.no_duplicates(),
        forall|i: int| 0 <= i < cells.len() ==> (#[trigger] cells[i]).on_grid(),
    ensures
        cells.len() <= 121,
{
    let places = Seq::new(cells.len(), |i: int| grid_index(cells[i]));
    assert forall|i: int, j: int|
        0 <= i < places.len() && 0 <= j < places.len() && i != j implies places[i] != places[j] by {
        assert(cells[i].on_grid() && cells[j].on_grid());
        assert(cells[i] != cells[j]);
    }
    places.unique_seq_to_set();
    lemma_int_range(0, 121);
    assert forall|place: int| places.to_set().contains(place) implies set_int_range(0, 121).contains(
        place,
    ) by {
        let i = choose|i: int| 0 <= i < places.len() && places[i] == place;
        assert(cells[i].on_grid());
    }
    lemma_len_subset(places.to_set(), set_int_range(0, 121));
}

/// A route that enters only cells of the grid that are not lethal can be cut
/// down to one that enters no cell twice.
pub proof fn lemma_cut_loops(
    cells: Seq<Pos>,
    start: Pos,
    goal: Pos,
    snakes: Seq<Snake>,
    own: u32,
) -> (short: Seq<Pos>)
    requires
        is_route(cells, start, goal),
        is_safe_route(cells, snakes, own),
    ensures
        is_route(short, start, goal),
        is_safe_route(short, snakes, own),
        short.no_duplicates(),
    decreases cells.len(),
{
    if cells.no_duplicates() {
        cells
    } else {
        let (a, b) = choose|a: int, b: int|
            0 <= a < cells.len() && 0 <= b < cells.len() && a != b && cells[a] == cells[b];
        let i = if a < b {
            a
        } else {
            b
        };
        let j = if a < b {
            b
        } else {
            a
        };
        let cut = cells.subrange(0, i + 1) + cells.subrange(j + 1, cells.len() as int);
        assert forall|k: int| 0 <= k < cut.len() - 1 implies #[trigger] step_at(cut, k) by {
            if k < i {
                assert(step_at(cells, k));
            } else if k == i {
                assert(step_at(cells, j));
            } else {
                assert(step_at(cells, k + (j - i)));
            }
        }
        assert forall|k: int| 0 < k < cut.len() implies (#[trigger] cut[k]).on_grid() && !lethal(
            cut[k],
            snakes,
            own,
        ) by {
            if k <= i {
                assert(cut[k] == cells[k]);
            } else {
                assert(cut[k] == cells[k + (j - i)]);
            }
        }
        lemma_cut_loops(cut, start, goal, snakes, own)
    }
}

/// Where a route from a cell of the grid enters only cells of the grid that
/// are not lethal, some route between its ends costs less than the penalty.
pub proof fn lemma_safe_route_is_cheap(
    cells: Seq<Pos>,
    start: Pos,
    goal: Pos,
    snakes: Seq<Snake>,
    own: u32,
) -> (short: Seq<Pos>)
    requires
        is_route(cells, start, goal),
        is_safe_route(cells, snakes, own),
        start.on_grid(),
    ensures
        is_route(short, start, goal),
        route_cost(short, snakes, own) < LARGE,
{
    let short = lemma_cut_loops(cells, start, goal, snakes, own);
    assert forall|i: int| 0 <= i < short.len() implies (#[trigger] short[i]).on_grid() by {
        if i == 0 {
            assert(short[0] == start);
        }
    }
    lemma_grid_holds_few_cells(short);
    lemma_safe_route_cost(short, snakes, own);
    short
}

} // verus!
