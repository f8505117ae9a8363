use vstd::prelude::*;

verus! {

/// A position or an offset on the playfield, as `(x, y)`. `x` grows to the
/// right and `y` grows downwards; row 0 is the top row.
pub type Pos = (i32, i32);

/// A position of the mathematical model: unbounded coordinates.
pub struct Cell {
    pub x: int,
    pub y: int,
}

impl Cell {
    /// This position moved by `(dx, dy)`.
    pub open spec fn offset(self, dx: int, dy: int) -> Cell {
        Cell { x: self.x + dx, y: self.y + dy }
    }
}

/// The model position that an executable position stands for.
pub open spec fn cell_of(p: Pos) -> Cell {
    Cell { x: p.0 as int, y: p.1 as int }
}

/// The model positions of a list of executable positions, in order.
pub open spec fn cells_of(ps: Seq<Pos>) -> Seq<Cell> {
    Seq::new(ps.len(), |i: int| cell_of(ps[i]))
}

} // verus!
