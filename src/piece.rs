use vstd::prelude::*;
use crate::geometry::{Position, Rect, cells_of};

verus! {

/// How far from zero a piece's origin may lie for its cells and bounding box
/// to be computed: every cell is within two of the origin, so it still fits
/// an `i32`.
pub const COORD_LIMIT: i32 = 2_147_483_645;

/// The seven kinds of piece.
#[derive(Clone, Copy, PartialEq, Eq, Structural, Debug)]
pub enum Shape {
    Line,
    Square,
    LLeft,
    LRight,
    ZLeft,
    ZRight,
    Triangle,
}

/// Orientation of a piece. Which values a shape takes depends on its
/// symmetry: the square has only `Single`; the line and both Z shapes take
/// `Horizontal` and `Vertical`; both L shapes and the triangle take `Up`,
/// `Down`, `Left` and `Right`.
#[derive(Clone, Copy, PartialEq, Eq, Structural, Debug)]
pub enum Orientation {
    Single,
    Horizontal,
    Vertical,
    Up,
    Down,
    Left,
    Right,
}

/// The shape numbered `i` in the order Line, Square, LLeft, LRight, ZLeft,
/// ZRight, Triangle.
pub open spec fn shape_at(i: int) -> Shape {
    if i == 0 {
        Shape::Line
    } else if i == 1 {
        Shape::Square
    } else if i == 2 {
        Shape::LLeft
    } else if i == 3 {
        Shape::LRight
    } else if i == 4 {
        Shape::ZLeft
    } else if i == 5 {
        Shape::ZRight
    } else {
        Shape::Triangle
    }
}

impl Shape {
    /// The shape numbered `i` (see `shape_at`).
    pub fn from_index(i: u32) -> (r: Shape)
        requires
            i < 7,
        ensures
            r == shape_at(i as int),
    {
        if i == 0 {
            Shape::Line
        } else if i == 1 {
            Shape::Square
        } else if i == 2 {
            Shape::LLeft
        } else if i == 3 {
            Shape::LRight
        } else if i == 4 {
            Shape::ZLeft
        } else if i == 5 {
            Shape::ZRight
        } else {
            Shape::Triangle
        }
    }
}

/// The shapes with two orientations.
pub open spec fn is_two_state(s: Shape) -> bool {
    s == Shape::Line || s == Shape::ZLeft || s == Shape::ZRight
}

/// The shapes with four orientations.
pub open spec fn is_four_state(s: Shape) -> bool {
    s == Shape::LLeft || s == Shape::LRight || s == Shape::Triangle
}

/// Whether `o` is one of the orientations of shape `s`.
pub open spec fn valid_orientation(s: Shape, o: Orientation) -> bool {
    if s == Shape::Square {
        o == Orientation::Single
    } else if is_two_state(s) {
        o == Orientation::Horizontal || o == Orientation::Vertical
    } else {
        o == Orientation::Up || o == Orientation::Down || o == Orientation::Left
            || o == Orientation::Right
    }
}

/// The orientation a new piece of shape `s` starts in.
pub open spec fn default_orientation(s: Shape) -> Orientation {
    match s {
        Shape::Square => Orientation::Single,
        Shape::Line => Orientation::Vertical,
        Shape::ZLeft | Shape::ZRight => Orientation::Horizontal,
        _ => Orientation::Up,
    }
}

/// Turning to the left: the two-state orientations toggle, the four-state
/// ones cycle Up, Left, Down, Right, Up.
pub open spec fn rotated_left(o: Orientation) -> Orientation {
    match o {
        Orientation::Single => Orientation::Single,
        Orientation::Horizontal => Orientation::Vertical,
        Orientation::Vertical => Orientation::Horizontal,
        Orientation::Up => Orientation::Left,
        Orientation::Left => Orientation::Down,
        Orientation::Down => Orientation::Right,
        Orientation::Right => Orientation::Up,
    }
}

/// Turning to the right: the reverse cycle of `rotated_left`.
pub open spec fn rotated_right(o: Orientation) -> Orientation {
    match o {
        Orientation::Single => Orientation::Single,
        Orientation::Horizontal => Orientation::Vertical,
        Orientation::Vertical => Orientation::Horizontal,
        Orientation::Up => Orientation::Right,
        Orientation::Right => Orientation::Down,
        Orientation::Down => Orientation::Left,
        Orientation::Left => Orientation::Up,
    }
}

/// The four cells of a shape in an orientation, as (column, row) offsets
/// from the piece's origin.
pub open spec fn offsets(s: Shape, o: Orientation) -> Seq<(int, int)> {
    match s {
        Shape::Line => match o {
            Orientation::Horizontal => seq![(-1, 0), (0, 0), (1, 0), (2, 0)],
            _ => seq![(0, -1), (0, 0), (0, 1), (0, 2)],
        },
        Shape::Square => seq![(0, 0), (0, 1), (1, 0), (1, 1)],
        Shape::LLeft => match o {
            Orientation::Down => seq![(1, -1), (0, -1), (0, 0), (0, 1)],
            Orientation::Left => seq![(-1, 0), (0, 0), (1, 0), (1, 1)],
            Orientation::Right => seq![(-1, -1), (-1, 0), (0, 0), (1, 0)],
            _ => seq![(-1, 1), (0, 1), (0, 0), (0, -1)],
        },
        Shape::LRight => match o {
            Orientation::Down => seq![(-1, -1), (0, -1), (0, 0), (0, 1)],
            Orientation::Left => seq![(-1, 0), (0, 0), (1, 0), (1, -1)],
            Orientation::Right => seq![(-1, 1), (-1, 0), (0, 0), (1, 0)],
            _ => seq![(1, 1), (0, 1), (0, 0), (0, -1)],
        },
        Shape::ZLeft => match o {
            Orientation::Vertical => seq![(0, -1), (0, 0), (-1, 0), (-1, 1)],
            _ => seq![(-1, 0), (0, 0), (0, 1), (1, 1)],
        },
        Shape::ZRight => match o {
            Orientation::Vertical => seq![(0, -1), (0, 0), (1, 0), (1, 1)],
            _ => seq![(1, 0), (0, 0), (0, 1), (-1, 1)],
        },
        Shape::Triangle => match o {
            Orientation::Down => seq![(-1, 0), (0, 0), (1, 0), (0, 1)],
            Orientation::Left => seq![(0, -1), (0, 0), (0, 1), (-1, 0)],
            Orientation::Right => seq![(0, -1), (0, 0), (0, 1), (1, 0)],
            _ => seq![(-1, 0), (0, 0), (1, 0), (0, -1)],
        },
    }
}

/// The bounding box of a shape in an orientation, as offsets
/// (x1, y1, x2, y2) from the piece's origin.
pub open spec fn box_offsets(s: Shape, o: Orientation) -> (int, int, int, int) {
    match s {
        Shape::Line => match o {
            Orientation::Horizontal => (-1, 0, 2, 0),
            _ => (0, -1, 0, 2),
        },
        Shape::Square => (0, 0, 1, 1),
        Shape::LLeft => match o {
            Orientation::Down => (0, -1, 1, 1),
            Orientation::Left => (-1, 0, 1, 1),
            Orientation::Right => (-1, -1, 1, 0),
            _ => (-1, -1, 0, 1),
        },
        Shape::LRight => match o {
            Orientation::Down => (-1, -1, 0, 1),
            Orientation::Left => (-1, -1, 1, 0),
            Orientation::Right => (-1, 0, 1, 1),
            _ => (0, -1, 1, 1),
        },
        Shape::ZLeft => match o {
            Orientation::Vertical => (-1, -1, 0, 1),
            _ => (-1, 0, 1, 1),
        },
        Shape::ZRight => match o {
            Orientation::Vertical => (0, -1, 1, 1),
            _ => (-1, 0, 1, 1),
        },
        Shape::Triangle => match o {
            Orientation::Down => (-1, 0, 1, 1),
            Orientation::Left => (-1, -1, 0, 1),
            Orientation::Right => (0, -1, 1, 1),
            _ => (-1, -1, 1, 0),
        },
    }
}

/// The least of four integers.
pub open spec fn min4(a: int, b: int, c: int, d: int) -> int {
    let ab = if a <= b { a } else { b };
    let cd = if c <= d { c } else { d };
    if ab <= cd { ab } else { cd }
}

/// The greatest of four integers.
pub open spec fn max4(a: int, b: int, c: int, d: int) -> int {
    let ab = if a >= b { a } else { b };
    let cd = if c >= d { c } else { d };
    if ab >= cd { ab } else { cd }
}

/// The smallest rectangle (x1, y1, x2, y2) that holds the first four cells
/// of `c`.
pub open spec fn envelope(c: Seq<(int, int)>) -> (int, int, int, int) {
    (
        min4(c[0].0, c[1].0, c[2].0, c[3].0),
        min4(c[0].1, c[1].1, c[2].1, c[3].1),
        max4(c[0].0, c[1].0, c[2].0, c[3].0),
        max4(c[0].1, c[1].1, c[2].1, c[3].1),
    )
}

/// The offset table of a shape holds four distinct cells, each inside the
/// shape's box offsets.
proof fn lemma_offsets_in_box(s: Shape, o: Orientation)
    ensures
        offsets(s, o).len() == 4,
        forall|i: int, j: int|
            0 <= i < 4 && 0 <= j < 4 && i != j ==> #[trigger] offsets(s, o)[i] != #[trigger] offsets(
                s,
                o,
            )[j],
        forall|i: int|
            0 <= i < 4 ==> {
                let b = box_offsets(s, o);
                let d = #[trigger] offsets(s, o)[i];
                b.0 <= d.0 <= b.2 && b.1 <= d.1 <= b.3
            },
        box_offsets(s, o) == envelope(offsets(s, o)),
{
}

/// Every piece covers exactly four distinct cells, and its bounding box is
/// the smallest rectangle that holds them.
pub proof fn mask_is_four_cells_in_box(p: Piece)
    requires
        p.wf(),
    ensures
        p.cells().len() == 4,
        forall|i: int, j: int|
            0 <= i < 4 && 0 <= j < 4 && i != j ==> #[trigger] p.cells()[i] != #[trigger] p.cells()[j],
        forall|i: int|
            0 <= i < 4 ==> {
                let e = p.extent();
                let c = #[trigger] p.cells()[i];
                e.0 <= c.0 <= e.2 && e.1 <= c.1 <= e.3
            },
        p.extent() == envelope(p.cells()),
{
    lemma_offsets_in_box(p.shape, p.orientation);
    assert forall|i: int, j: int|
        0 <= i < 4 && 0 <= j < 4 && i != j implies #[trigger] p.cells()[i] != #[trigger] p.cells()[j] by {
        assert(offsets(p.shape, p.orientation)[i] != offsets(p.shape, p.orientation)[j]);
    }
    assert forall|i: int| 0 <= i < 4 implies {
        let e = p.extent();
        let c = #[trigger] p.cells()[i];
        e.0 <= c.0 <= e.2 && e.1 <= c.1 <= e.3
    } by {
        let d = offsets(p.shape, p.orientation)[i];
        assert(p.cells()[i] == (p.origin.x + d.0, p.origin.y + d.1));
    }
}

/// Turning left and turning right undo each other and keep the orientation
/// one that the shape has. Turning the square changes nothing; turning a
/// two-state shape left twice, or a four-state shape left four times, gives
/// back the orientation it started in.
pub proof fn rotation_round_trips(p: Piece)
    requires
        p.wf(),
    ensures
        rotated_right(rotated_left(p.orientation)) == p.orientation,
        rotated_left(rotated_right(p.orientation)) == p.orientation,
        valid_orientation(p.shape, rotated_left(p.orientation)),
        valid_orientation(p.shape, rotated_right(p.orientation)),
        p.shape == Shape::Square ==> rotated_left(p.orientation) == p.orientation
            && rotated_right(p.orientation) == p.orientation,
        is_two_state(p.shape) ==> rotated_left(rotated_left(p.orientation)) == p.orientation,
        is_four_state(p.shape) ==> rotated_left(
            rotated_left(rotated_left(rotated_left(p.orientation))),
        ) == p.orientation,
{
}

/// The offsets of `offsets(s, o)`, as machine integers.
fn offset_table(s: Shape, o: Orientation) -> (r: [(i32, i32); 4])
    ensures
        forall|i: int|
            0 <= i < 4 ==> (r@[i].0 as int, r@[i].1 as int) == #[trigger] offsets(s, o)[i],
{
    let r = match s {
        Shape::Line => match o {
            Orientation::Horizontal => [(-1, 0), (0, 0), (1, 0), (2, 0)],
            _ => [(0, -1), (0, 0), (0, 1), (0, 2)],
        },
        Shape::Square => [(0, 0), (0, 1), (1, 0), (1, 1)],
        Shape::LLeft => match o {
            Orientation::Down => [(1, -1), (0, -1), (0, 0), (0, 1)],
            Orientation::Left => [(-1, 0), (0, 0), (1, 0), (1, 1)],
            Orientation::Right => [(-1, -1), (-1, 0), (0, 0), (1, 0)],
            _ => [(-1, 1), (0, 1), (0, 0), (0, -1)],
        },
        Shape::LRight => match o {
            Orientation::Down => [(-1, -1), (0, -1), (0, 0), (0, 1)],
            Orientation::Left => [(-1, 0), (0, 0), (1, 0), (1, -1)],
            Orientation::Right => [(-1, 1), (-1, 0), (0, 0), (1, 0)],
            _ => [(1, 1), (0, 1), (0, 0), (0, -1)],
        },
        Shape::ZLeft => match o {
            Orientation::Vertical => [(0, -1), (0, 0), (-1, 0), (-1, 1)],
            _ => [(-1, 0), (0, 0), (0, 1), (1, 1)],
        },
        Shape::ZRight => match o {
            Orientation::Vertical => [(0, -1), (0, 0), (1, 0), (1, 1)],
            _ => [(1, 0), (0, 0), (0, 1), (-1, 1)],
        },
        Shape::Triangle => match o {
            Orientation::Down => [(-1, 0), (0, 0), (1, 0), (0, 1)],
            Orientation::Left => [(0, -1), (0, 0), (0, 1), (-1, 0)],
            Orientation::Right => [(0, -1), (0, 0), (0, 1), (1, 0)],
            _ => [(-1, 0), (0, 0), (1, 0), (0, -1)],
        },
    };
    r
}

/// The offsets of `box_offsets(s, o)`, as machine integers.
fn box_table(s: Shape, o: Orientation) -> (r: (i32, i32, i32, i32))
    ensures
        (r.0 as int, r.1 as int, r.2 as int, r.3 as int) == box_offsets(s, o),
{
    match s {
        Shape::Line => match o {
            Orientation::Horizontal => (-1, 0, 2, 0),
            _ => (0, -1, 0, 2),
        },
        Shape::Square => (0, 0, 1, 1),
        Shape::LLeft => match o {
            Orientation::Down => (0, -1, 1, 1),
            Orientation::Left => (-1, 0, 1, 1),
            Orientation::Right => (-1, -1, 1, 0),
            _ => (-1, -1, 0, 1),
        },
        Shape::LRight => match o {
            Orientation::Down => (-1, -1, 0, 1),
            Orientation::Left => (-1, -1, 1, 0),
            Orientation::Right => (-1, 0, 1, 1),
            _ => (0, -1, 1, 1),
        },
        Shape::ZLeft => match o {
            Orientation::Vertical => (-1, -1, 0, 1),
            _ => (-1, 0, 1, 1),
        },
        Shape::ZRight => match o {
            Orientation::Vertical => (0, -1, 1, 1),
            _ => (-1, 0, 1, 1),
        },
        Shape::Triangle => match o {
            Orientation::Down => (-1, 0, 1, 1),
            Orientation::Left => (-1, -1, 0, 1),
            Orientation::Right => (0, -1, 1, 1),
            _ => (-1, -1, 1, 0),
        },
    }
}

/// A piece: a shape, its current orientation and the cell its geometry is
/// anchored at. Pieces are small values; they are changed by copying,
/// transforming the copy and keeping it or throwing it away.
#[derive(Clone, Copy, PartialEq, Eq, Structural, Debug)]
pub struct Piece {
    pub shape: Shape,
    pub orientation: Orientation,
    pub origin: Position,
}

impl Piece {
    /// The orientation is one that the shape has.
    pub open spec fn wf(&self) -> bool {
        valid_orientation(self.shape, self.orientation)
    }

    /// The origin lies within `COORD_LIMIT` of zero on both axes.
    pub open spec fn in_range(&self) -> bool {
        -COORD_LIMIT <= self.origin.x <= COORD_LIMIT && -COORD_LIMIT <= self.origin.y
            <= COORD_LIMIT
    }

    /// The four cells the piece occupies, in the order of its offset table.
    pub open spec fn cells(&self) -> Seq<(int, int)> {
        offsets(self.shape, self.orientation).map_values(
            |d: (int, int)| (self.origin.x + d.0, self.origin.y + d.1),
        )
    }

    /// The piece's bounding box (x1, y1, x2, y2), bounds included.
    pub open spec fn extent(&self) -> (int, int, int, int) {
        let b = box_offsets(self.shape, self.orientation);
        (self.origin.x + b.0, self.origin.y + b.1, self.origin.x + b.2, self.origin.y + b.3)
    }

    /// This piece with its origin replaced by (x, y).
    pub open spec fn at(&self, x: int, y: int) -> Piece {
        Piece { origin: Position { x: x as i32, y: y as i32 }, ..*self }
    }

    /// This piece with its orientation replaced by `o`.
    pub open spec fn turned(&self, o: Orientation) -> Piece {
        Piece { orientation: o, ..*self }
    }

    /// A piece of shape `shape` in the shape's first orientation, anchored at
    /// (x, y).
    pub fn new(shape: Shape, x: i32, y: i32) -> (r: Piece)
        ensures
            r.shape == shape,
            r.orientation == default_orientation(shape),
            r.origin == (Position { x, y }),
            r.wf(),
    {
        let orientation = match shape {
            Shape::Square => Orientation::Single,
            Shape::Line => Orientation::Vertical,
            Shape::ZLeft | Shape::ZRight => Orientation::Horizontal,
            _ => Orientation::Up,
        };
        Piece { shape, orientation, origin: Position { x, y } }
    }

    pub fn get_origin(&self) -> (r: Position)
        ensures
            r == self.origin,
    {
        self.origin
    }

    /// Whether the origin lies within `COORD_LIMIT` of zero, so that `mask`
    /// and `bounding_box` can be computed.
    pub fn is_in_range(&self) -> (r: bool)
        ensures
            r == self.in_range(),
    {
        -COORD_LIMIT <= self.origin.x && self.origin.x <= COORD_LIMIT && -COORD_LIMIT
            <= self.origin.y && self.origin.y <= COORD_LIMIT
    }

    /// Moves the origin to (x, y), keeping shape and orientation.
    pub fn set_origin(&mut self, x: i32, y: i32)
        ensures
            *final(self) == old(self).at(x as int, y as int),
    {
        self.origin = Position { x, y };
    }

    /// The four cells the piece occupies.
    pub fn mask(&self) -> (r: Vec<Position>)
        requires
            self.in_range(),
        ensures
            cells_of(r@) == self.cells(),
            r@.len() == 4,
    {
        let t = offset_table(self.shape, self.orientation);
        let mut r: Vec<Position> = Vec::new();
        let mut i: usize = 0;
        while i < 4
            invariant
                self.in_range(),
                i <= 4,
                r@.len() == i,
                forall|k: int| 0 <= k < 4 ==> (t@[k].0 as int, t@[k].1 as int) == #[trigger] offsets(
                    self.shape,
                    self.orientation,
                )[k],
                forall|k: int| 0 <= k < i ==> r@[k]@ == #[trigger] self.cells()[k],
            decreases 4 - i,
        {
            assert(offsets(self.shape, self.orientation).len() == 4);
            let d = t[i];
            assert((d.0 as int, d.1 as int) == offsets(self.shape, self.orientation)[i as int]);
            assert(-2 <= d.0 <= 2 && -2 <= d.1 <= 2);
            r.push(self.origin.add(d));
            i += 1;
        }
        assert(cells_of(r@) =~= self.cells());
        r
    }

    /// The smallest rectangle that holds the piece's cells.
    pub fn bounding_box(&self) -> (r: Rect)
        requires
            self.in_range(),
        ensures
            r@ == self.extent(),
    {
        let b = box_table(self.shape, self.orientation);
        Rect {
            x1: self.origin.x + b.0,
            y1: self.origin.y + b.1,
            x2: self.origin.x + b.2,
            y2: self.origin.y + b.3,
        }
    }

    /// Turns the piece to the left (see `rotated_left`); the square does not
    /// change.
    pub fn rotate_left(&mut self)
        ensures
            *final(self) == old(self).turned(rotated_left(old(self).orientation)),
    {
        self.orientation = match self.orientation {
            Orientation::Single => Orientation::Single,
            Orientation::Horizontal => Orientation::Vertical,
            Orientation::Vertical => Orientation::Horizontal,
            Orientation::Up => Orientation::Left,
            Orientation::Left => Orientation::Down,
            Orientation::Down => Orientation::Right,
            Orientation::Right => Orientation::Up,
        };
    }

    /// Turns the piece to the right (see `rotated_right`); the square does
    /// not change.
    pub fn rotate_right(&mut self)
        ensures
            *final(self) == old(self).turned(rotated_right(old(self).orientation)),
    {
        self.orientation = match self.orientation {
            Orientation::Single => Orientation::Single,
            Orientation::Horizontal => Orientation::Vertical,
            Orientation::Vertical => Orientation::Horizontal,
            Orientation::Up => Orientation::Right,
            Orientation::Right => Orientation::Down,
            Orientation::Down => Orientation::Left,
            Orientation::Left => Orientation::Up,
        };
    }

    /// Shifts the piece one column to the left. No bounds are checked here.
    pub fn move_left(&mut self)
        requires
            old(self).origin.x > i32::MIN,
        ensures
            *final(self) == old(self).at(old(self).origin.x - 1, old(self).origin.y as int),
    {
        self.origin.x = self.origin.x - 1;
    }

    /// Shifts the piece one column to the right. No bounds are checked here.
    pub fn move_right(&mut self)
        requires
            old(self).origin.x < i32::MAX,
        ensures
            *final(self) == old(self).at(old(self).origin.x + 1, old(self).origin.y as int),
    {
        self.origin.x = self.origin.x + 1;
    }
}

} // verus!
