//! One decision per turn: from a snapshot of the board to a move.

use crate::geometry::{Pos, LARGE};
use crate::goal::{is_goal, is_nearest};
use crate::hazard::Snake;
use crate::moves::{first_move, heading, resolve_move, DecisionError, Move, Movement};
use crate::route::{
    between, grid_is_safe, is_cheapest_route, is_route, is_safe_route, lemma_cheap_route_is_safe,
    lemma_first_step_approaches, lemma_region_is_connected, lemma_route_bounds,
    lemma_safe_route_is_cheap, lemma_straight_route, reachable, route_cost, safely_reachable,
    step_at, straight,
};
use crate::search::find_path;
use vstd::prelude::*;

verus! {

/// The agent that the decision is for.
#[derive(Debug)]
pub struct Agent {
    pub head: Pos,
    pub length: u32,
}

/// What lies on the board.
#[derive(Debug)]
pub struct Board {
    pub food: Vec<Pos>,
    pub snakes: Vec<Snake>,
}

/// The snapshot of one turn.
#[derive(Debug)]
pub struct Turn {
    pub you: Agent,
    pub board: Board,
}

impl Snake {
    /// Whether the rival has a body, and the body begins at the head.
    pub open spec fn is_valid(self) -> bool {
        self.body@.len() > 0 && self.body@[0] == self.head
    }

    /// Whether the rival has a body, and the body begins at the head.
    pub fn validate(&self) -> (valid: bool)
        ensures
            valid == self.is_valid(),
    {
        self.body.len() > 0 && self.body[0] == self.head
    }
}

impl Turn {
    /// Whether the snapshot describes a turn: the agent's head and all food
    /// are on the grid, and every rival is valid.
    pub open spec fn is_valid(self) -> bool {
        &&& self.you.head.on_grid()
        &&& forall|j: int| 0 <= j < self.board.food@.len() ==> (#[trigger] self.board.food@[j]).on_grid()
        &&& forall|i: int| 0 <= i < self.board.snakes@.len() ==> (#[trigger] self.board.snakes@[i]).is_valid()
    }

    /// Whether the snapshot describes a turn.
    pub fn validate(&self) -> (valid: bool)
        ensures
            valid == self.is_valid(),
    {
        if self.you.head.in_grid() != 0 {
            return false;
        }
        let mut j: usize = 0;
        while j < self.board.food.len()
            invariant
                j <= self.board.food@.len(),
                forall|k: int| 0 <= k < j ==> (#[trigger] self.board.food@[k]).on_grid(),
            decreases self.board.food@.len() - j,
        {
            if self.board.food[j].in_grid() != 0 {
                return false;
            }
            j += 1;
        }
        let mut i: usize = 0;
        while i < self.board.snakes.len()
            invariant
                i <= self.board.snakes@.len(),
                forall|k: int| 0 <= k < i ==> (#[trigger] self.board.snakes@[k]).is_valid(),
            decreases self.board.snakes@.len() - i,
        {
            if !self.board.snakes[i].validate() {
                return false;
            }
            i += 1;
        }
        true
    }
}

impl Pos {
    /// The neighbour in direction `dir`, where its coordinates fit in `i32`:
    /// up is towards larger `y`, right towards larger `x`.
    pub open spec fn neighbour(self, dir: Movement) -> Option<Pos> {
        match dir {
            Movement::Up => if self.1 < i32::MAX {
                Some(Pos(self.0, (self.1 + 1) as i32))
            } else {
                None
            },
            Movement::Down => if self.1 > i32::MIN {
                Some(Pos(self.0, (self.1 - 1) as i32))
            } else {
                None
            },
            Movement::Left => if self.0 > i32::MIN {
                Some(Pos((self.0 - 1) as i32, self.1))
            } else {
                None
            },
            Movement::Right => if self.0 < i32::MAX {
                Some(Pos((self.0 + 1) as i32, self.1))
            } else {
                None
            },
        }
    }

    /// The neighbour in direction `dir`, where its coordinates fit in `i32`.
    pub fn step(&self, dir: Movement) -> (to: Option<Pos>)
        ensures
            to == self.neighbour(dir),
    {
        match dir {
            Movement::Up => if self.1 < i32::MAX {
                Some(Pos(self.0, self.1 + 1))
            } else {
                None
            },
            Movement::Down => if self.1 > i32::MIN {
                Some(Pos(self.0, self.1 - 1))
            } else {
                None
            },
            Movement::Left => if self.0 > i32::MIN {
                Some(Pos(self.0 - 1, self.1))
            } else {
                None
            },
            Movement::Right => if self.0 < i32::MAX {
                Some(Pos(self.0 + 1, self.1))
            } else {
                None
            },
        }
    }
}

/// The penalties of the cell that a move from `from` in direction `dir`
/// enters. A cell whose coordinates do not fit in `i32` is off the grid.
pub open spec fn move_penalty(from: Pos, dir: Movement, snakes: Seq<Snake>, own: u32) -> nat {
    match from.neighbour(dir) {
        Some(to) => to.grid_penalty() + to.snake_penalty(snakes, own),
        None => LARGE as nat,
    }
}

/// The place of a direction in the order in which the fallback tries them.
pub open spec fn rank(dir: Movement) -> int {
    match dir {
        Movement::Up => 0,
        Movement::Down => 1,
        Movement::Left => 2,
        Movement::Right => 3,
    }
}

/// Whether `dir` enters a cell of least penalty, and is the first direction
/// that does.
pub open spec fn is_safest(dir: Movement, from: Pos, snakes: Seq<Snake>, own: u32) -> bool {
    forall|other: Movement|
        {
            &&& move_penalty(from, dir, snakes, own) <= #[trigger] move_penalty(
                from,
                other,
                snakes,
                own,
            )
            &&& rank(other) < rank(dir) ==> move_penalty(from, dir, snakes, own) < move_penalty(
                from,
                other,
                snakes,
                own,
            )
        }
}

/// Whether heading for `goal` may give `r`: the first move of a cheapest
/// route, or `NoPathFound` where there is no route or the route has no step.
pub open spec fn leads_toward(turn: Turn, goal: Pos, r: Result<Move, DecisionError>) -> bool {
    if reachable(turn.you.head, goal) {
        exists|cells: Seq<Pos>|
            #[trigger] is_cheapest_route(
                cells,
                turn.you.head,
                goal,
                turn.board.snakes@,
                turn.you.length,
            ) && r == first_move(cells)
    } else {
        r == Err::<Move, DecisionError>(DecisionError::NoPathFound)
    }
}

/// Whether `r` may be decided for `turn`: `MalformedSnapshot` for a snapshot
/// that is not valid, else what heading for a goal gives.
pub open spec fn may_decide(turn: Turn, r: Result<Move, DecisionError>) -> bool {
    if turn.is_valid() {
        exists|goal: Pos|
            is_goal(goal, turn.you.head, turn.board.food@) && #[trigger] leads_toward(turn, goal, r)
    } else {
        r == Err::<Move, DecisionError>(DecisionError::MalformedSnapshot)
    }
}

/// Whether `m` is the move for `turn` after the decision `r`: the move that
/// was decided, or the safest one where none was.
pub open spec fn settles(turn: Turn, r: Result<Move, DecisionError>, m: Move) -> bool {
    match r {
        Ok(decided) => m == decided,
        Err(_) => is_safest(m.movement, turn.you.head, turn.board.snakes@, turn.you.length),
    }
}

/// The penalties of the cell that a move from `from` in direction `dir`
/// enters.
pub fn penalty_of_move(from: &Pos, dir: Movement, snakes: &Vec<Snake>, length: u32) -> (penalty:
    u32)
    ensures
        penalty == move_penalty(*from, dir, snakes@, length),
{
    match from.step(dir) {
        Some(to) => to.in_grid() + to.in_snake(snakes, length),
        None => LARGE,
    }
}

/// The move for a turn on which nothing was decided: the one that enters a
/// cell of least penalty, and among several the first of up, down, left,
/// right.
pub fn fallback_move(from: &Pos, snakes: &Vec<Snake>, length: u32) -> (m: Move)
    ensures
        is_safest(m.movement, *from, snakes@, length),
{
    let mut best: Movement = Movement::Up;
    let mut least: u32 = penalty_of_move(from, Movement::Up, snakes, length);
    let down: u32 = penalty_of_move(from, Movement::Down, snakes, length);
    if down < least {
        best = Movement::Down;
        least = down;
    }
    let left: u32 = penalty_of_move(from, Movement::Left, snakes, length);
    if left < least {
        best = Movement::Left;
        least = left;
    }
    let right: u32 = penalty_of_move(from, Movement::Right, snakes, length);
    if right < least {
        best = Movement::Right;
    }
    Move::new(best)
}

/// The move towards `goal`: the first step of a cheapest route from the
/// agent's head. Where no route exists, or the agent is at the goal already,
/// it is `NoPathFound`.
pub fn head_for(turn: &Turn, goal: &Pos) -> (r: Result<Move, DecisionError>)
    ensures
        leads_toward(*turn, *goal, r),
        r is Err ==> r == Err::<Move, DecisionError>(DecisionError::NoPathFound),
        turn.you.head.in_region() && goal.in_region() ==> (r is Ok <==> *goal != turn.you.head),
{
    match find_path(&turn.you.head, goal, &turn.board.snakes, turn.you.length) {
        Some(route) => {
            proof {
                let head = turn.you.head;
                if *goal == head {
                    let stay = seq![head];
                    assert(is_route(stay, head, head));
                    assert(route_cost(stay, turn.board.snakes@, turn.you.length) == 0);
                }
            }
            resolve_move(&route.cells)
        },
        None => Err(DecisionError::NoPathFound),
    }
}

/// Decides the move for a turn: towards the nearest food, or towards a cell
/// of the grid drawn at random where there is no food. A snapshot that is not
/// valid gives `MalformedSnapshot`, and an agent that is at its goal already
/// `NoPathFound`.
pub fn decide(turn: &Turn) -> (r: Result<Move, DecisionError>)
    ensures
        may_decide(*turn, r),
        r == Err::<Move, DecisionError>(DecisionError::MalformedSnapshot) <==> !turn.is_valid(),
        turn.is_valid() && r is Err ==> r == Err::<Move, DecisionError>(DecisionError::NoPathFound),
        turn.is_valid() && turn.board.food@.len() > 0 ==> (r is Ok <==> !turn.board.food@.contains(
            turn.you.head,
        )),
{
    if !turn.validate() {
        return Err(DecisionError::MalformedSnapshot);
    }
    let goal: Pos = turn.you.head.closest_food(&turn.board.food);
    let r = head_for(turn, &goal);
    proof {
        let head = turn.you.head;
        let food = turn.board.food@;
        if food.len() > 0 {
            let k = choose|k: int| is_nearest(food, head, k) && goal == food[k];
            if food.contains(head) {
                let j = choose|j: int| 0 <= j < food.len() && food[j] == head;
                assert(head.manhattan(food[k]) <= head.manhattan(food[j]));
            }
        }
    }
    r
}

/// The move for a turn: the one that was decided, or the safest one where
/// none could be.
pub fn movement(turn: &Turn) -> (m: Move)
    ensures
        exists|r: Result<Move, DecisionError>| #[trigger] may_decide(*turn, r) && settles(*turn, r, m),
{
    let r = decide(turn);
    let m: Move = match r {
        Ok(decided) => decided,
        Err(_) => fallback_move(&turn.you.head, &turn.board.snakes, turn.you.length),
    };
    assert(settles(*turn, r, m));
    m
}

/// Whether the move `m` from `from` enters a cell that is one step closer to
/// `goal`.
pub open spec fn approaches(from: Pos, m: Move, goal: Pos) -> bool {
    from.neighbour(m.movement) matches Some(to) && to.manhattan(goal) + 1 == from.manhattan(goal)
}

/// A step to a neighbour resolves to the direction in which the neighbour
/// lies.
pub proof fn lemma_heading_of_neighbour(from: Pos, dir: Movement)
    requires
        from.neighbour(dir) is Some,
    ensures
        heading(from, from.neighbour(dir).unwrap()) == dir,
{
}

/// On a grid without lethal cells, an agent that heads for another cell of
/// the grid gets a move, and the move brings it one step closer.
pub proof fn lemma_decision_approaches(turn: Turn, goal: Pos, r: Result<Move, DecisionError>)
    requires
        leads_toward(turn, goal, r),
        turn.you.head.on_grid(),
        goal.on_grid(),
        goal != turn.you.head,
        grid_is_safe(turn.board.snakes@, turn.you.length),
    ensures
        r matches Ok(m) && approaches(turn.you.head, m, goal),
{
    let head = turn.you.head;
    let snakes = turn.board.snakes@;
    let own = turn.you.length;
    lemma_region_is_connected(head, goal);
    let cells = choose|cells: Seq<Pos>| #[trigger]
        is_cheapest_route(cells, head, goal, snakes, own) && r == first_move(cells);
    lemma_straight_route(head, goal, snakes, own);
    assert forall|cell: Pos| between(cell, head, goal) implies #[trigger] cell.step_cost(snakes, own)
        == 1 by {
        assert(cell.on_grid());
    }
    assert(is_route(straight(head, goal), head, goal));
    lemma_first_step_approaches(cells, head, goal, snakes, own);
    assert(step_at(cells, 0));
}

/// Where the goal can be reached from the agent's head, on the grid, without
/// leaving the grid or entering a lethal cell, an agent that heads for it gets
/// a move, and the move enters a cell without penalty.
pub proof fn lemma_decision_is_safe(turn: Turn, goal: Pos, r: Result<Move, DecisionError>)
    requires
        leads_toward(turn, goal, r),
        turn.you.head.on_grid(),
        goal != turn.you.head,
        safely_reachable(turn.you.head, goal, turn.board.snakes@, turn.you.length),
    ensures
        r matches Ok(m) && move_penalty(turn.you.head, m.movement, turn.board.snakes@, turn.you.length)
            == 0,
{
    let head = turn.you.head;
    let snakes = turn.board.snakes@;
    let own = turn.you.length;
    let safe = choose|safe: Seq<Pos>| #[trigger]
        is_route(safe, head, goal) && is_safe_route(safe, snakes, own);
    let short = lemma_safe_route_is_cheap(safe, head, goal, snakes, own);
    let cells = choose|cells: Seq<Pos>| #[trigger]
        is_cheapest_route(cells, head, goal, snakes, own) && r == first_move(cells);
    assert(is_route(short, head, goal));
    lemma_cheap_route_is_safe(cells, head, goal, snakes, own);
    lemma_route_bounds(cells, head, goal, snakes, own);
    assert(step_at(cells, 0));
    assert(cells[1].on_grid());
}

} // verus!
