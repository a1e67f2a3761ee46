//! Which cells are lethal, given the bodies of the rivals and how long they
//! are compared with the agent.

use crate::geometry::{Pos, LARGE};
use vstd::prelude::*;

verus! {

/// A rival: the cell of its head, the cells of its body from the head on, and
/// its length.
#[derive(Debug)]
pub struct Snake {
    pub head: Pos,
    pub body: Vec<Pos>,
    pub length: u32,
}

impl Snake {
    /// Whether a segment of the body lies on `cell`.
    pub open spec fn covers(self, cell: Pos) -> bool {
        exists|j: int| 0 <= j < self.body@.len() && self.body@[j] == cell
    }

    /// Whether `cell` is the rival's head and the rival is strictly shorter
    /// than an agent of length `own`: a meeting there is one the agent wins.
    pub open spec fn yields_at(self, cell: Pos, own: u32) -> bool {
        self.head == cell && self.length < own
    }

    /// Whether the rival makes `cell` lethal for an agent of length `own`.
    pub open spec fn threatens(self, cell: Pos, own: u32) -> bool {
        self.covers(cell) && !self.yields_at(cell, own)
    }

    /// Whether a segment of the body lies on `cell`.
    fn occupies(&self, cell: &Pos) -> (found: bool)
        ensures
            found == self.covers(*cell),
    {
        let mut j: usize = 0;
        while j < self.body.len()
            invariant
                j <= self.body@.len(),
                forall|k: int| 0 <= k < j ==> self.body@[k] != *cell,
            decreases self.body@.len() - j,
        {
            if self.body[j] == *cell {
                return true;
            }
            j += 1;
        }
        false
    }
}

/// Whether some rival makes `cell` lethal for an agent of length `own`.
pub open spec fn lethal(cell: Pos, snakes: Seq<Snake>, own: u32) -> bool {
    exists|i: int| 0 <= i < snakes.len() && #[trigger] snakes[i].threatens(cell, own)
}

impl Pos {
    /// What entering the cell costs on account of the rivals.
    pub open spec fn snake_penalty(self, snakes: Seq<Snake>, own: u32) -> nat {
        if lethal(self, snakes, own) {
            LARGE as nat
        } else {
            0
        }
    }

    /// `LARGE` for a cell that a rival's body covers, 0 for any other. A rival
    /// whose head is on the cell and which is strictly shorter than `length`
    /// does not count.
    pub fn in_snake(&self, snakes: &Vec<Snake>, length: u32) -> (penalty: u32)
        ensures
            penalty == self.snake_penalty(snakes@, length),
    {
        let mut i: usize = 0;
        while i < snakes.len()
            invariant
                i <= snakes@.len(),
                forall|k: int| 0 <= k < i ==> !(#[trigger] snakes@[k].threatens(*self, length)),
            decreases snakes@.len() - i,
        {
            let snake = &snakes[i];
            let yields = snake.head == *self && snake.length < length;
            if !yields && snake.occupies(self) {
                assert(snakes@[i as int].threatens(*self, length));
                return LARGE;
            }
            i += 1;
        }
        0
    }
}

/// A cell is free of penalty exactly when every rival that covers it has its
/// head there and is strictly shorter than the agent.
pub proof fn lemma_safe_cell(cell: Pos, snakes: Seq<Snake>, own: u32)
    ensures
        cell.snake_penalty(snakes, own) == 0 <==> forall|i: int|
            0 <= i < snakes.len() && #[trigger] snakes[i].covers(cell) ==> snakes[i].head == cell
                && snakes[i].length < own,
{
    if cell.snake_penalty(snakes, own) != 0 {
        let i = choose|i: int| 0 <= i < snakes.len() && #[trigger] snakes[i].threatens(cell, own);
        assert(snakes[i].covers(cell));
    } else {
        assert forall|i: int| 0 <= i < snakes.len() && #[trigger] snakes[i].covers(cell) implies 
            snakes[i].head == cell && snakes[i].length < own by {
            assert(!snakes[i].threatens(cell, own));
        }
    }
}

/// A rival that covers a cell makes it cost `LARGE`, unless the rival's head is
/// there and the rival is strictly shorter than the agent.
pub proof fn lemma_overlap_is_lethal(cell: Pos, snakes: Seq<Snake>, own: u32, i: int)
    requires
        0 <= i < snakes.len(),
        snakes[i].covers(cell),
        !(snakes[i].head == cell && snakes[i].length < own),
    ensures
        cell.snake_penalty(snakes, own) == LARGE,
{
    assert(snakes[i].threatens(cell, own));
}

} // verus!
