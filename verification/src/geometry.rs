//! Cells of the grid, the distance between them, the grid's bounds and the
//! four steps that lead from a cell to its neighbours.

use pathfinding::prelude::absdiff;
use vstd::prelude::*;

verus! {

/// Largest coordinate of the grid on either axis. The smallest is 0.
pub const GRID_MAX: i32 = 10;

/// Penalty of a cell that should not be entered. It is larger than the cost of
/// any route that stays on the grid and meets no hazard.
pub const LARGE: u32 = 1000;

/// A cell: its `x` coordinate, then its `y` coordinate.
#[derive(Clone, Copy, Debug, PartialEq, Eq, PartialOrd, Ord, Hash, Structural)]
pub struct Pos(pub i32, pub i32);

/// Distance between two coordinates on one axis.
pub open spec fn gap(a: int, b: int) -> nat {
    if a < b {
        (b - a) as nat
    } else {
        (a - b) as nat
    }
}

/// Calls `pathfinding::utils::absdiff` on the two coordinates widened to 64
/// bits, where neither subtraction can overflow. `absdiff(x, y)` is `y - x`
/// where `x < y` and `x - y` otherwise, which is what the contract says.
#[verifier::external_body]
fn axis_gap(a: i32, b: i32) -> (d: u64)
    ensures
        d == gap(a as int, b as int),
{
    absdiff(a as i64, b as i64) as u64
}

impl Pos {
    /// Manhattan distance between two cells.
    pub open spec fn manhattan(self, other: Pos) -> nat {
        gap(self.0 as int, other.0 as int) + gap(self.1 as int, other.1 as int)
    }

    /// Whether the cell lies on the grid.
    pub open spec fn on_grid(self) -> bool {
        0 <= self.0 <= GRID_MAX && 0 <= self.1 <= GRID_MAX
    }

    /// What entering the cell costs on account of the grid's bounds.
    pub open spec fn grid_penalty(self) -> nat {
        if self.on_grid() {
            0
        } else {
            LARGE as nat
        }
    }

    /// Whether each of the four neighbours has coordinates that fit in `i32`.
    pub open spec fn has_neighbours(self) -> bool {
        i32::MIN < self.0 < i32::MAX && i32::MIN < self.1 < i32::MAX
    }

    /// The four neighbours of a cell, each with the cost of the step: to the
    /// right, up, to the left, down.
    pub open spec fn steps(self) -> Seq<(Pos, u32)> {
        seq![
            (Pos((self.0 + 1) as i32, self.1), 1u32),
            (Pos(self.0, (self.1 + 1) as i32), 1u32),
            (Pos((self.0 - 1) as i32, self.1), 1u32),
            (Pos(self.0, (self.1 - 1) as i32), 1u32),
        ]
    }

    /// Manhattan distance to `other`.
    pub fn distance(&self, other: &Pos) -> (d: u64)
        ensures
            d == self.manhattan(*other),
    {
        axis_gap(self.0, other.0) + axis_gap(self.1, other.1)
    }

    /// Whether the cell is `other`.
    pub fn is_at(&self, other: &Pos) -> (same: bool)
        ensures
            same == (*self == *other),
    {
        self.0 == other.0 && self.1 == other.1
    }

    /// 0 for a cell on the grid, `LARGE` for any other.
    pub fn in_grid(&self) -> (penalty: u32)
        ensures
            penalty == self.grid_penalty(),
    {
        if self.0 < 0 || self.0 > GRID_MAX || self.1 < 0 || self.1 > GRID_MAX {
            return LARGE;
        }
        0
    }

    /// The four neighbours of the cell, each at cost 1.
    pub fn successors(&self) -> (out: Vec<(Pos, u32)>)
        requires
            self.has_neighbours(),
        ensures
            out@ == self.steps(),
    {
        let x: i32 = self.0;
        let y: i32 = self.1;
        let mut out: Vec<(Pos, u32)> = Vec::new();
        out.push((Pos(x + 1, y), 1));
        out.push((Pos(x, y + 1), 1));
        out.push((Pos(x - 1, y), 1));
        out.push((Pos(x, y - 1), 1));
        assert(out@ =~= self.steps());
        out
    }
}

/// The distance from `a` to `b` is the distance from `b` to `a`.
pub proof fn lemma_distance_symmetric(a: Pos, b: Pos)
    ensures
        a.manhattan(b) == b.manhattan(a),
{
}

/// The distance from `a` to `c` is at most the distance from `a` to `b` plus
/// the distance from `b` to `c`.
pub proof fn lemma_distance_triangle(a: Pos, b: Pos, c: Pos)
    ensures
        a.manhattan(c) <= a.manhattan(b) + b.manhattan(c),
{
}

/// No two cells of the grid are as far apart as the penalty is large.
pub proof fn lemma_penalty_exceeds_grid_distance(a: Pos, b: Pos)
    requires
        a.on_grid(),
        b.on_grid(),
    ensures
        a.manhattan(b) < LARGE,
{
}

} // verus!
