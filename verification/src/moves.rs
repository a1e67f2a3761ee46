//! The four moves, and how the first step of a route becomes one of them.

use crate::geometry::Pos;
use vstd::prelude::*;

verus! {

/// One of the four directions in which the agent can move.
#[derive(Clone, Copy, Debug, PartialEq, Eq, Hash, Structural)]
pub enum Movement {
    Up,
    Down,
    Left,
    Right,
}

/// The answer for one turn.
#[derive(Clone, Copy, Debug, PartialEq, Eq, Hash, Structural)]
pub struct Move {
    pub movement: Movement,
}

/// Why no move could be decided.
#[derive(Clone, Copy, Debug, PartialEq, Eq, Hash, Structural)]
pub enum DecisionError {
    /// The search found no route that leaves the agent's cell.
    NoPathFound,
    /// The snapshot does not describe a turn.
    MalformedSnapshot,
}

/// The direction of a step from `start` to `end`: left or right where `x`
/// changes; else up where `y` grows; else down.
pub open spec fn heading(start: Pos, end: Pos) -> Movement {
    if end.0 < start.0 {
        Movement::Left
    } else if end.0 > start.0 {
        Movement::Right
    } else if end.1 > start.1 {
        Movement::Up
    } else {
        Movement::Down
    }
}

/// The move that a route begins with, if it has a first step.
pub open spec fn first_move(cells: Seq<Pos>) -> Result<Move, DecisionError> {
    if cells.len() >= 2 {
        Ok(Move { movement: heading(cells[0], cells[1]) })
    } else {
        Err(DecisionError::NoPathFound)
    }
}

impl Move {
    /// The answer that moves in direction `movement`.
    pub fn new(movement: Movement) -> (m: Move)
        ensures
            m.movement == movement,
    {
        Move { movement }
    }
}

/// The move that leads from `start` towards `end`.
pub fn get_movement(start: &Pos, end: &Pos) -> (m: Move)
    ensures
        m.movement == heading(*start, *end),
{
    if end.0 < start.0 {
        return Move::new(Movement::Left);
    }
    if end.0 > start.0 {
        return Move::new(Movement::Right);
    }
    if end.1 > start.1 {
        return Move::new(Movement::Up);
    }
    Move::new(Movement::Down)
}

/// The move from the first cell of a route to its second. A route of fewer
/// than two cells has no first step, and gives `NoPathFound`.
pub fn resolve_move(cells: &Vec<Pos>) -> (r: Result<Move, DecisionError>)
    ensures
        r == first_move(cells@),
{
    if cells.len() < 2 {
        return Err(DecisionError::NoPathFound);
    }
    Ok(get_movement(&cells[0], &cells[1]))
}

} // verus!
