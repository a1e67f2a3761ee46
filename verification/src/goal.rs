//! The choice of the cell to head for: the nearest food, or any cell of the
//! grid where there is no food.

use crate::geometry::{Pos, GRID_MAX};
use rand::distributions::{Distribution, Uniform};
use vstd::prelude::*;

verus! {

/// Whether `food[k]` is the nearest food to `from`, and the first in the list
/// among those equally near.
pub open spec fn is_nearest(food: Seq<Pos>, from: Pos, k: int) -> bool {
    &&& 0 <= k < food.len()
    &&& forall|j: int| 0 <= j < food.len() ==> from.manhattan(food[k]) <= from.manhattan(#[trigger] food[j])
    &&& forall|j: int| 0 <= j < k ==> from.manhattan(food[k]) < from.manhattan(#[trigger] food[j])
}

/// Whether `goal` is a cell that may be headed for from `from`: with food, the
/// nearest; without, any cell of the grid.
pub open spec fn is_goal(goal: Pos, from: Pos, food: Seq<Pos>) -> bool {
    if food.len() > 0 {
        exists|k: int| is_nearest(food, from, k) && goal == food[k]
    } else {
        goal.on_grid()
    }
}

/// Draws a number from `rand`'s thread-local generator, by
/// `rand::distributions::Uniform` over `low..high`, which is documented to
/// sample the half-open range. `Uniform::from` panics on an empty range, which
/// `requires` leaves out.
#[verifier::external_body]
fn sample_in(low: i32, high: i32) -> (n: i32)
    requires
        low < high,
    ensures
        low <= n < high,
{
    let mut rng = rand::thread_rng();
    Uniform::from(low..high).sample(&mut rng)
}

/// A cell of the grid, drawn at random.
pub fn random_pos() -> (cell: Pos)
    ensures
        cell.on_grid(),
{
    let x: i32 = sample_in(0, GRID_MAX + 1);
    let y: i32 = sample_in(0, GRID_MAX + 1);
    Pos(x, y)
}

impl Pos {
    /// The index of the nearest food, and of the first among those equally
    /// near.
    pub fn nearest(&self, food: &Vec<Pos>) -> (k: usize)
        requires
            food@.len() > 0,
        ensures
            is_nearest(food@, *self, k as int),
    {
        let mut best: usize = 0;
        let mut least: u64 = self.distance(&food[0]);
        let mut i: usize = 1;
        while i < food.len()
            invariant
                1 <= i <= food@.len(),
                best < i,
                least == self.manhattan(food@[best as int]),
                forall|j: int| 0 <= j < i ==> least <= self.manhattan(#[trigger] food@[j]),
                forall|j: int| 0 <= j < best ==> least < self.manhattan(#[trigger] food@[j]),
            decreases food@.len() - i,
        {
            let d: u64 = self.distance(&food[i]);
            if d < least {
                best = i;
                least = d;
            }
            i += 1;
        }
        best
    }

    /// The cell to head for: the nearest food, and the first in the list among
    /// those equally near; a cell of the grid drawn at random where there is
    /// no food.
    pub fn closest_food(&self, food: &Vec<Pos>) -> (goal: Pos)
        ensures
            is_goal(goal, *self, food@),
            food@.len() > 0 ==> food@.contains(goal),
            food@.len() == 0 ==> goal.on_grid(),
    {
        if food.len() == 0 {
            return random_pos();
        }
        let k: usize = self.nearest(food);
        food[k]
    }
}

/// At most one food is the nearest and the first among those equally near.
pub proof fn lemma_nearest_is_unique(food: Seq<Pos>, from: Pos, j: int, k: int)
    requires
        is_nearest(food, from, j),
        is_nearest(food, from, k),
    ensures
        j == k,
{
    assert(from.manhattan(food[j]) <= from.manhattan(food[k]));
    assert(from.manhattan(food[k]) <= from.manhattan(food[j]));
}

} // verus!
