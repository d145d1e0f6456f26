use vstd::prelude::*;

verus! {

/// A cell of the playfield: `x` is the column (growing rightward) and `y` the
/// row (growing downward, row 0 at the top).
#[derive(Clone, Copy, PartialEq, Eq, Structural, Debug)]
pub struct Position {
    pub x: i32,
    pub y: i32,
}

impl Position {
    /// The pair of mathematical integers this position stands for.
    pub open spec fn view(&self) -> (int, int) {
        (self.x as int, self.y as int)
    }

    /// This position translated by the relative offset `d` (columns, rows).
    pub fn add(self, d: (i32, i32)) -> (r: Position)
        requires
            i32::MIN <= self.x + d.0 <= i32::MAX,
            i32::MIN <= self.y + d.1 <= i32::MAX,
        ensures
            r@ == (self.x + d.0, self.y + d.1),
    {
        Position { x: self.x + d.0, y: self.y + d.1 }
    }
}

/// An axis-aligned rectangle of cells, bounds included on all four sides.
#[derive(Clone, Copy, PartialEq, Eq, Structural, Debug)]
pub struct Rect {
    pub x1: i32,
    pub y1: i32,
    pub x2: i32,
    pub y2: i32,
}

impl Rect {
    /// The bounds as mathematical integers: (x1, y1, x2, y2).
    pub open spec fn view(&self) -> (int, int, int, int) {
        (self.x1 as int, self.y1 as int, self.x2 as int, self.y2 as int)
    }
}

/// The cells of a sequence of positions, as pairs of integers.
pub open spec fn cells_of(v: Seq<Position>) -> Seq<(int, int)> {
    v.map_values(|p: Position| p@)
}

} // verus!
