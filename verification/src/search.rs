//! The search for a cheapest route between two cells. Every step costs 1 plus
//! the penalties of the cell it enters, and no step leaves the region that the
//! search explores.

use crate::geometry::{Pos, LARGE};
use crate::hazard::Snake;
use crate::route::{
    between, grid_is_safe, is_cheapest_route, is_route, is_safe_route, is_step,
    lemma_cheap_route_is_safe, lemma_region_is_connected, lemma_route_bounds,
    lemma_safe_route_is_cheap, lemma_straight_route, reachable, route_cost, safely_reachable,
    straight, REGION_MAX, REGION_MIN,
};
use pathfinding::prelude::astar;
use vstd::prelude::*;

verus! {

/// A route and what it costs.
#[derive(Debug)]
pub struct Path {
    /// The cells of the route, from the start to the goal.
    pub cells: Vec<Pos>,
    /// The sum of the costs of its steps.
    pub cost: u64,
}

impl Pos {
    /// A neighbour as the search sees it: nothing if it lies outside the
    /// region, else the neighbour with the full cost of the step.
    pub open spec fn option_of(step: (Pos, u32), snakes: Seq<Snake>, own: u32) -> Seq<(Pos, u64)> {
        if step.0.in_region() {
            seq![(step.0, (step.1 + step.0.grid_penalty() + step.0.snake_penalty(snakes, own)) as u64)]
        } else {
            Seq::empty()
        }
    }

    /// The steps that the search may take from a cell, each with its cost.
    pub open spec fn options(self, snakes: Seq<Snake>, own: u32) -> Seq<(Pos, u64)> {
        if self.has_neighbours() {
            Self::option_of(self.steps()[0], snakes, own) + Self::option_of(
                self.steps()[1],
                snakes,
                own,
            ) + Self::option_of(self.steps()[2], snakes, own) + Self::option_of(
                self.steps()[3],
                snakes,
                own,
            )
        } else {
            Seq::empty()
        }
    }

    /// Whether the cell lies in the region that the search explores.
    pub fn within_region(&self) -> (inside: bool)
        ensures
            inside == self.in_region(),
    {
        REGION_MIN <= self.0 && self.0 <= REGION_MAX && REGION_MIN <= self.1 && self.1
            <= REGION_MAX
    }

    /// Appends a neighbour to `out` as the search sees it.
    fn add_option(out: &mut Vec<(Pos, u64)>, step: (Pos, u32), snakes: &Vec<Snake>, length: u32)
        ensures
            final(out)@ == old(out)@ + Self::option_of(step, snakes@, length),
    {
        let (cell, unit) = step;
        if cell.within_region() {
            let cost: u64 = unit as u64 + cell.in_grid() as u64 + cell.in_snake(snakes, length) as u64;
            out.push((cell, cost));
            assert(out@ =~= old(out)@ + Self::option_of(step, snakes@, length));
        } else {
            assert(out@ =~= old(out)@ + Self::option_of(step, snakes@, length));
        }
    }

    /// The steps that the search may take from the cell: those of its four
    /// neighbours that lie in the region, each at 1 plus its penalties.
    pub fn step_options(&self, snakes: &Vec<Snake>, length: u32) -> (out: Vec<(Pos, u64)>)
        ensures
            out@ == self.options(snakes@, length),
    {
        let mut out: Vec<(Pos, u64)> = Vec::new();
        if self.0 == i32::MIN || self.0 == i32::MAX || self.1 == i32::MIN || self.1 == i32::MAX {
            return out;
        }
        let all = self.successors();
        Self::add_option(&mut out, all[0], snakes, length);
        Self::add_option(&mut out, all[1], snakes, length);
        Self::add_option(&mut out, all[2], snakes, length);
        Self::add_option(&mut out, all[3], snakes, length);
        assert(out@ =~= self.options(snakes@, length));
        out
    }
}

/// Whether the steps that `options` offers from `from` are the steps to its
/// neighbours in the region, each at the cost of the cell that it enters.
pub open spec fn offers_steps(from: Pos, snakes: Seq<Snake>, own: u32) -> bool {
    &&& forall|k: int|
        0 <= k < from.options(snakes, own).len() ==> is_step(
            from,
            (#[trigger] from.options(snakes, own)[k]).0,
        ) && from.options(snakes, own)[k].1 == from.options(snakes, own)[k].0.step_cost(
            snakes,
            own,
        )
    &&& forall|to: Pos| #[trigger]
        is_step(from, to) ==> exists|k: int|
            0 <= k < from.options(snakes, own).len() && (#[trigger] from.options(
                snakes,
                own,
            )[k]).0 == to
}

/// Whether `options` offers from every cell the steps to its neighbours in
/// the region.
pub open spec fn options_are_steps(snakes: Seq<Snake>, own: u32) -> bool {
    forall|from: Pos| #[trigger] offers_steps(from, snakes, own)
}

/// Whether the distance to `goal` never exceeds what a route to it costs.
pub open spec fn distance_is_admissible(goal: Pos, snakes: Seq<Snake>, own: u32) -> bool {
    forall|cells: Seq<Pos>, from: Pos| #[trigger]
        is_route(cells, from, goal) ==> from.manhattan(goal) <= route_cost(cells, snakes, own)
}

/// The steps that the search may take from a cell are the steps to its
/// neighbours in the region, each at the cost of the cell that it enters.
pub proof fn lemma_options_are_steps(from: Pos, snakes: Seq<Snake>, own: u32)
    ensures
        offers_steps(from, snakes, own),
{
    let all = from.options(snakes, own);
    if from.has_neighbours() {
        let s0 = Pos::option_of(from.steps()[0], snakes, own);
        let s1 = Pos::option_of(from.steps()[1], snakes, own);
        let s2 = Pos::option_of(from.steps()[2], snakes, own);
        let s3 = Pos::option_of(from.steps()[3], snakes, own);
        assert(all == s0 + s1 + s2 + s3);
        assert forall|to: Pos| #[trigger] is_step(from, to) implies exists|k: int|
            0 <= k < all.len() && (#[trigger] all[k]).0 == to by {
            if to == from.steps()[0].0 {
                assert(all[0].0 == to);
            } else if to == from.steps()[1].0 {
                assert(all[s0.len() as int].0 == to);
            } else if to == from.steps()[2].0 {
                assert(all[(s0.len() + s1.len()) as int].0 == to);
            } else {
                assert(to == from.steps()[3].0);
                assert(all[(s0.len() + s1.len() + s2.len()) as int].0 == to);
            }
        }
    }
}

/// Calls `pathfinding::directed::astar::astar` from `start`, with
/// `step_options` for the successors of a cell, the distance to `goal` for the
/// estimate of what is left, and `goal` as the only cell that ends the search.
///
/// `astar` is documented to return a cheapest path from `start` to a cell that
/// ends the search, with the sum of the costs of its moves and with no cell
/// twice, and `None` where there is no path, provided that the estimate never
/// exceeds what is left. `requires` holds that proviso, and that the successors
/// are the steps of which the contract speaks. The search is told of finitely
/// many cells, those of the region and `start`, so it returns.
#[verifier::external_body]
fn cheapest_route(start: &Pos, goal: &Pos, snakes: &Vec<Snake>, length: u32) -> (found: Option<
    (Vec<Pos>, u64),
>)
    requires
        options_are_steps(snakes@, length),
        distance_is_admissible(*goal, snakes@, length),
    ensures
        match found {
            Some((cells, cost)) => {
                &&& is_cheapest_route(cells@, *start, *goal, snakes@, length)
                &&& cost == route_cost(cells@, snakes@, length)
                &&& cells@.no_duplicates()
            },
            None => !reachable(*start, *goal),
        },
{
    astar(start, |p| p.step_options(snakes, length), |p| p.distance(goal), |p| p.is_at(goal))
}

/// Searches a cheapest route from `start` to `goal`, where a step costs 1 plus
/// the penalties of the cell that it enters and no step leaves the region.
///
/// It finds one exactly when a route exists, as it does between any two cells
/// of the region. Where the goal can be reached from a cell of the grid
/// without leaving the grid or entering a lethal cell, the route that it finds
/// does so. On a grid without lethal cells the route between two cells of the
/// grid costs their distance and has one step for each unit of it.
pub fn find_path(start: &Pos, goal: &Pos, snakes: &Vec<Snake>, length: u32) -> (found: Option<Path>)
    ensures
        found is Some <==> reachable(*start, *goal),
        start.in_region() && goal.in_region() ==> found is Some,
        found matches Some(route) ==> {
            &&& is_cheapest_route(route.cells@, *start, *goal, snakes@, length)
            &&& route.cost == route_cost(route.cells@, snakes@, length)
            &&& route.cells@.no_duplicates()
            &&& start.manhattan(*goal) <= route.cells@.len() - 1 <= route.cost
            &&& route.cost < LARGE ==> is_safe_route(route.cells@, snakes@, length)
            &&& start.on_grid() && safely_reachable(*start, *goal, snakes@, length) ==> route.cost
                < LARGE
            &&& start.on_grid() && goal.on_grid() && grid_is_safe(snakes@, length) ==> {
                &&& route.cost == start.manhattan(*goal)
                &&& route.cells@.len() == start.manhattan(*goal) + 1
            }
        },
{
    proof {
        if start.in_region() && goal.in_region() {
            lemma_region_is_connected(*start, *goal);
        }
        assert forall|from: Pos| #[trigger] offers_steps(from, snakes@, length) by {
            lemma_options_are_steps(from, snakes@, length);
        }
        assert forall|cells: Seq<Pos>, from: Pos| #[trigger] is_route(cells, from, *goal) implies from.manhattan(
            *goal,
        ) <= route_cost(cells, snakes@, length) by {
            lemma_route_bounds(cells, from, *goal, snakes@, length);
        }
    }
    match cheapest_route(start, goal, snakes, length) {
        Some((cells, cost)) => {
            proof {
                lemma_route_bounds(cells@, *start, *goal, snakes@, length);
                if cost < LARGE {
                    lemma_cheap_route_is_safe(cells@, *start, *goal, snakes@, length);
                }
                if start.on_grid() && safely_reachable(*start, *goal, snakes@, length) {
                    let safe = choose|safe: Seq<Pos>| #[trigger]
                        is_route(safe, *start, *goal) && is_safe_route(safe, snakes@, length);
                    let short = lemma_safe_route_is_cheap(safe, *start, *goal, snakes@, length);
                    assert(is_route(short, *start, *goal));
                }
                if start.on_grid() && goal.on_grid() && grid_is_safe(snakes@, length) {
                    lemma_straight_route(*start, *goal, snakes@, length);
                    assert forall|cell: Pos| between(cell, *start, *goal) implies #[trigger] cell.step_cost(
                        snakes@,
                        length,
                    ) == 1 by {
                        assert(cell.on_grid());
                    }
                    assert(is_route(straight(*start, *goal), *start, *goal));
                }
            }
            Some(Path { cells, cost })
        },
        None => None,
    }
}

} // verus!
