use vstd::prelude::*;
use crate::pos::{Cell, Pos, cell_of};

verus! {

/// A horizontal direction.
#[derive(Clone, Copy, Debug, PartialEq, Eq, Structural)]
pub enum LR {
    Left,
    Right,
}

impl LR {
    /// The same direction among the three directions a piece can move in.
    pub fn to_lrd(&self) -> (lrd: LRD)
        ensures
            lrd == match *self {
                LR::Left => LRD::Left,
                LR::Right => LRD::Right,
            },
    {
        match self {
            LR::Left => LRD::Left,
            LR::Right => LRD::Right,
        }
    }
}

/// A direction a piece can move in: sideways or down.
#[derive(Clone, Copy, Debug, PartialEq, Eq, Structural)]
pub enum LRD {
    Left,
    Right,
    Down,
}

impl LRD {
    /// The unit step of this direction in the model.
    pub open spec fn step(self) -> Cell {
        match self {
            LRD::Left => Cell { x: -1, y: 0 },
            LRD::Right => Cell { x: 1, y: 0 },
            LRD::Down => Cell { x: 0, y: 1 },
        }
    }

    /// The unit step of this direction.
    pub fn delta(&self) -> (d: Pos)
        ensures
            cell_of(d) == self.step(),
    {
        match self {
            LRD::Left => (-1, 0),
            LRD::Right => (1, 0),
            LRD::Down => (0, 1),
        }
    }
}

} // verus!
