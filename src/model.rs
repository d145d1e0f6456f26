use vstd::prelude::*;
use crate::piece::{
    Orientation, Piece, Shape, box_offsets, default_orientation, mask_is_four_cells_in_box,
    rotated_left, rotated_right,
};
use crate::geometry::Position;

verus! {

/// The least number of rows and of columns a board has: a new piece, placed
/// at its spawn point, then always lies inside the board.
pub const MIN_DIM: i32 = 4;

/// The greatest number of rows and of columns a board has: every origin a
/// piece takes on or beside such a board (at most three columns past it)
/// stays within `COORD_LIMIT`.
pub const MAX_DIM: i32 = 2_147_483_642;

/// How long, in ticks, gravity waits before it moves the active piece down
/// one row.
pub const DROP_INTERVAL: u64 = 50000;

/// What a complete row adds to the score.
pub const ROW_SCORE: u64 = 1000;

/// The actions a player can ask for.
#[derive(Clone, Copy, PartialEq, Eq, Structural, Debug)]
pub enum Command {
    RotateLeft,
    RotateRight,
    MoveLeft,
    MoveRight,
    HardDrop,
}

impl Command {
    /// The command a raw input token stands for, if any.
    pub fn parse(token: &String) -> (r: Option<Command>)
        ensures
            r == command_of(token@),
    {
        if *token == "ArrowUp".to_owned() {
            Some(Command::RotateLeft)
        } else if *token == "ArrowDown".to_owned() {
            Some(Command::RotateRight)
        } else if *token == "ArrowLeft".to_owned() {
            Some(Command::MoveLeft)
        } else if *token == "ArrowRight".to_owned() {
            Some(Command::MoveRight)
        } else if *token == "Enter".to_owned() {
            Some(Command::HardDrop)
        } else {
            None
        }
    }
}

/// The action a raw input token stands for, if any: the arrow keys turn and
/// shift the piece, Enter drops it.
pub open spec fn command_of(token: Seq<char>) -> Option<Command> {
    if token == "ArrowUp"@ {
        Some(Command::RotateLeft)
    } else if token == "ArrowDown"@ {
        Some(Command::RotateRight)
    } else if token == "ArrowLeft"@ {
        Some(Command::MoveLeft)
    } else if token == "ArrowRight"@ {
        Some(Command::MoveRight)
    } else if token == "Enter"@ {
        Some(Command::HardDrop)
    } else {
        None
    }
}

/// The whole state of a game, in mathematical terms.
pub ghost struct BoardModel {
    pub rows: int,
    pub cols: int,
    /// Occupancy, indexed `grid[row][column]`.
    pub grid: Seq<Seq<bool>>,
    /// The piece under the player's control; once the game is over, the last
    /// piece that was.
    pub piece: Piece,
    /// Raw input tokens not yet applied, oldest first.
    pub keys: Seq<Seq<char>>,
    pub paused: bool,
    pub over: bool,
    pub paused_at: int,
    pub last_tick: int,
    /// When the piece last fell by gravity; 0 stands for "not yet".
    pub last_drop: int,
    pub score: int,
    /// The rows cleared by the last update, bottom row first.
    pub cleared: Seq<int>,
}

/// Whether a cell is occupied.
pub open spec fn occupied(grid: Seq<Seq<bool>>, c: (int, int)) -> bool {
    grid[c.1][c.0]
}

/// Whether any of `cells` is occupied.
pub open spec fn collides(grid: Seq<Seq<bool>>, cells: Seq<(int, int)>) -> bool {
    exists|i: int| 0 <= i < cells.len() && #[trigger] occupied(grid, cells[i])
}

/// `grid` with each of `cells` occupied.
pub open spec fn freeze(grid: Seq<Seq<bool>>, cells: Seq<(int, int)>) -> Seq<Seq<bool>> {
    Seq::new(
        grid.len(),
        |r: int| Seq::new(grid[r].len(), |c: int| grid[r][c] || cells.contains((c, r))),
    )
}

/// Whether every cell of a row is occupied.
pub open spec fn full_row(row: Seq<bool>) -> bool {
    forall|c: int| 0 <= c < row.len() ==> row[c]
}

/// The complete rows among rows `y` and below, bottom row first.
pub open spec fn full_rows_from(grid: Seq<Seq<bool>>, y: int) -> Seq<int>
    decreases grid.len() - y,
{
    if y < 0 || y >= grid.len() {
        seq![]
    } else if full_row(grid[y]) {
        full_rows_from(grid, y + 1).push(y)
    } else {
        full_rows_from(grid, y + 1)
    }
}

/// The rows that are not complete among rows `y` and below, top to bottom.
pub open spec fn kept_rows_from(grid: Seq<Seq<bool>>, y: int) -> Seq<Seq<bool>>
    decreases grid.len() - y,
{
    if y < 0 || y >= grid.len() {
        seq![]
    } else if full_row(grid[y]) {
        kept_rows_from(grid, y + 1)
    } else {
        seq![grid[y]] + kept_rows_from(grid, y + 1)
    }
}

/// A row of `cols` empty cells.
pub open spec fn empty_row(cols: int) -> Seq<bool> {
    Seq::new(cols as nat, |j: int| false)
}

/// `n` empty rows of `cols` cells.
pub open spec fn empty_rows(n: int, cols: int) -> Seq<Seq<bool>> {
    Seq::new(n as nat, |i: int| empty_row(cols))
}

/// `score` raised by `n` row bonuses, held at the largest `u64`.
pub open spec fn add_bonus(score: int, n: int) -> int {
    if score + n * ROW_SCORE <= u64::MAX {
        score + n * ROW_SCORE
    } else {
        u64::MAX as int
    }
}

/// `p` with its origin moved by `dx` columns and `dy` rows.
pub open spec fn shifted(p: Piece, dx: int, dy: int) -> Piece {
    p.at(p.origin.x + dx, p.origin.y + dy)
}

/// `p` moved left until its right edge is on a board of `cols` columns.
pub open spec fn kicked_left(cols: int, p: Piece) -> Piece {
    let e = p.extent();
    if e.2 >= cols {
        shifted(p, cols - 1 - e.2, 0)
    } else {
        p
    }
}

/// `p` after the wall correction of a rotation: moved left until its right
/// edge is on the board, then right until its left edge is.
pub open spec fn kicked(cols: int, p: Piece) -> Piece {
    let after_left = kicked_left(cols, p);
    let e_left = after_left.extent();
    if e_left.0 < 0 {
        shifted(after_left, -e_left.0, 0)
    } else {
        after_left
    }
}

/// The piece a spawn of shape `s` puts at the top of a board of `cols`
/// columns.
pub open spec fn spawn_piece(cols: int, s: Shape) -> Piece {
    Piece {
        shape: s,
        orientation: default_orientation(s),
        origin: Position { x: (cols / 2) as i32, y: 1 },
    }
}

impl BoardModel {
    /// Whether a rectangle (x1, y1, x2, y2) lies on the board.
    pub open spec fn inside(&self, e: (int, int, int, int)) -> bool {
        0 <= e.0 && e.2 < self.cols && 0 <= e.1 && e.3 < self.rows
    }

    /// Whether `p` lies on the board and covers no occupied cell.
    pub open spec fn fits(&self, p: Piece) -> bool {
        self.inside(p.extent()) && !collides(self.grid, p.cells())
    }

    /// The shape of a legal state: sizes, an active piece on the board, the
    /// ranges of the timers, the score and the reported rows.
    pub open spec fn well_formed(&self) -> bool {
        &&& MIN_DIM <= self.rows <= MAX_DIM
        &&& MIN_DIM <= self.cols <= MAX_DIM
        &&& self.grid.len() == self.rows
        &&& forall|r: int| 0 <= r < self.rows ==> (#[trigger] self.grid[r]).len() == self.cols
        &&& self.piece.wf()
        &&& self.inside(self.piece.extent())
        &&& 0 <= self.last_drop <= u64::MAX
        &&& 0 <= self.paused_at <= self.last_tick <= u64::MAX
        &&& 0 <= self.score <= u64::MAX
        &&& forall|i: int| 0 <= i < self.cleared.len() ==> 0 <= #[trigger] self.cleared[i] < self.rows
    }

    /// What every reachable state satisfies: it is well formed, and while
    /// the game goes on the active piece covers no occupied cell.
    pub open spec fn inv(&self) -> bool {
        &&& self.well_formed()
        &&& !self.over ==> !collides(self.grid, self.piece.cells())
    }

    /// The board with `p` as the active piece if it fits, else unchanged.
    pub open spec fn try_commit(self, p: Piece) -> BoardModel {
        if self.fits(p) {
            BoardModel { piece: p, ..self }
        } else {
            self
        }
    }

    /// A sideways move by `dx` columns.
    pub open spec fn apply_move(self, dx: int) -> BoardModel {
        self.try_commit(shifted(self.piece, dx, 0))
    }

    /// A rotation to orientation `o`, with wall correction.
    pub open spec fn apply_rotate(self, o: Orientation) -> BoardModel {
        self.try_commit(kicked(self.cols, self.piece.turned(o)))
    }

    /// The row the active piece lands on when it falls straight down from
    /// row `y`.
    pub open spec fn landing_row(&self, y: int) -> int
        decreases self.rows - y,
    {
        if y + 1 < self.rows && self.fits(self.piece.at(self.piece.origin.x as int, y + 1)) {
            self.landing_row(y + 1)
        } else {
            y
        }
    }

    /// The active piece where a hard drop puts it.
    pub open spec fn projection(&self) -> Piece {
        self.piece.at(self.piece.origin.x as int, self.landing_row(self.piece.origin.y as int))
    }

    /// A new piece of shape `s` at the spawn point; the game is over instead
    /// if that piece would cover an occupied cell. The drop timer restarts.
    pub open spec fn spawn(self, s: Shape) -> BoardModel {
        let p = spawn_piece(self.cols, s);
        if collides(self.grid, p.cells()) {
            BoardModel { over: true, last_drop: 0, ..self }
        } else {
            BoardModel { piece: p, last_drop: 0, ..self }
        }
    }

    /// A hard drop: the projection becomes part of the grid and a piece of
    /// shape `s` is spawned.
    pub open spec fn apply_place(self, s: Shape) -> BoardModel {
        BoardModel { grid: freeze(self.grid, self.projection().cells()), ..self }.spawn(s)
    }

    /// One input token, with `s` the shape a spawn would use. Nothing
    /// happens once the game is over, nor for a token that stands for no
    /// command.
    pub open spec fn apply_key(self, token: Seq<char>, s: Shape) -> BoardModel {
        if self.over {
            self
        } else {
            match command_of(token) {
                Some(Command::RotateLeft) => self.apply_rotate(rotated_left(self.piece.orientation)),
                Some(Command::RotateRight) => self.apply_rotate(
                    rotated_right(self.piece.orientation),
                ),
                Some(Command::MoveLeft) => self.apply_move(-1),
                Some(Command::MoveRight) => self.apply_move(1),
                Some(Command::HardDrop) => self.apply_place(s),
                None => self,
            }
        }
    }

    /// The tokens `keys` applied in order; token `i` spawns `draws[i]` if it
    /// spawns at all.
    pub open spec fn run_keys(self, keys: Seq<Seq<char>>, draws: Seq<Shape>) -> BoardModel
        decreases keys.len(),
    {
        if keys.len() == 0 {
            self
        } else {
            let n = keys.len() - 1;
            self.run_keys(keys.take(n), draws).apply_key(keys[n], draws[n])
        }
    }

    /// One step of gravity: the piece falls a row if it fits there; else it
    /// becomes part of the grid where it is and a piece of shape `s` is
    /// spawned.
    pub open spec fn drop_step(self, s: Shape) -> BoardModel {
        let p = shifted(self.piece, 0, 1);
        if self.fits(p) {
            BoardModel { piece: p, ..self }
        } else {
            BoardModel { grid: freeze(self.grid, self.piece.cells()), ..self }.spawn(s)
        }
    }

    /// Gravity at time `time`: the first update after a spawn starts the
    /// timer; after that the piece drops once more than `DROP_INTERVAL`
    /// ticks have passed since the last drop. A timer that a resume moved
    /// past `time` means no drop is due.
    pub open spec fn gravity(self, time: int, s: Shape) -> BoardModel {
        if self.last_drop == 0 {
            BoardModel { last_drop: time, ..self }
        } else if time - self.last_drop > DROP_INTERVAL {
            BoardModel { last_drop: time, ..self.drop_step(s) }
        } else {
            self
        }
    }

    /// Line clearing: every complete row is removed, empty rows come in at
    /// the top, each complete row adds `ROW_SCORE`, and the complete rows
    /// are reported bottom row first. Should the rows that moved down now
    /// lie under the active piece, that piece can no longer be placed and
    /// the game is over.
    pub open spec fn clear_lines(self) -> BoardModel {
        let full = full_rows_from(self.grid, 0);
        let grid = empty_rows(full.len() as int, self.cols) + kept_rows_from(self.grid, 0);
        BoardModel {
            grid,
            score: add_bonus(self.score, full.len() as int),
            cleared: full,
            over: self.over || collides(grid, self.piece.cells()),
            ..self
        }
    }

    /// One frame at time `time`. The tick is always recorded; a paused or
    /// finished game does nothing more. Otherwise the queued tokens are
    /// applied, then gravity, then line clearing. Spawns by token `i` use
    /// `draws[i]`, a spawn by gravity uses `draws[keys.len()]`.
    pub open spec fn update(self, time: int, draws: Seq<Shape>) -> BoardModel {
        let m0 = BoardModel { last_tick: time, cleared: seq![], ..self };
        if self.paused || self.over {
            m0
        } else {
            let m1 = BoardModel { keys: seq![], ..m0 }.run_keys(self.keys, draws);
            let m2 = if m1.over {
                m1
            } else {
                m1.gravity(time, draws[self.keys.len() as int])
            };
            m2.clear_lines()
        }
    }

    /// A token from the player: queued, unless the game is paused or over.
    pub open spec fn keydown(self, token: Seq<char>) -> BoardModel {
        if self.paused || self.over {
            self
        } else {
            BoardModel { keys: self.keys.push(token), ..self }
        }
    }

    /// Pausing: remembers when, unless the game is over.
    pub open spec fn pause(self) -> BoardModel {
        if self.over {
            self
        } else {
            BoardModel { paused: true, paused_at: self.last_tick, ..self }
        }
    }

    /// Resuming, unless the game is over: the drop timer moves on by the
    /// time since the pause, `last_drop = last_tick - (paused_at -
    /// last_drop)`, so that the time left until the next drop is what it was
    /// when paused. The timer is held at the largest `u64`.
    pub open spec fn resume(self) -> BoardModel {
        if self.over {
            self
        } else {
            BoardModel {
                paused: false,
                last_drop: resumed_drop(self.last_tick, self.paused_at, self.last_drop),
                ..self
            }
        }
    }
}

/// The drop timer after resuming at `last_tick` from a pause that began at
/// `paused_at`, held at the largest `u64`.
pub open spec fn resumed_drop(last_tick: int, paused_at: int, last_drop: int) -> int {
    let t = last_tick - (paused_at - last_drop);
    if t <= u64::MAX {
        t
    } else {
        u64::MAX as int
    }
}

/// Every bounding box holds the piece's origin and reaches at most two cells
/// from it.
pub(crate) proof fn lemma_extent_holds_origin(p: Piece)
    ensures
        p.extent().0 <= p.origin.x <= p.extent().2,
        p.extent().1 <= p.origin.y <= p.extent().3,
        p.origin.x - 2 <= p.extent().0,
        p.extent().2 <= p.origin.x + 2,
        p.origin.y - 2 <= p.extent().1,
        p.extent().3 <= p.origin.y + 2,
{
    let b = box_offsets(p.shape, p.orientation);
    assert(b.0 <= 0 <= b.2 && b.1 <= 0 <= b.3);
    assert(-2 <= b.0 && b.2 <= 2 && -2 <= b.1 && b.3 <= 2);
}

/// A well-formed piece whose bounding box lies on a board of legal size has
/// its origin in range and each of its cells on the board.
pub(crate) proof fn lemma_inside_cells(m: BoardModel, p: Piece)
    requires
        MIN_DIM <= m.rows <= MAX_DIM,
        MIN_DIM <= m.cols <= MAX_DIM,
        p.wf(),
        m.inside(p.extent()),
    ensures
        p.in_range(),
        0 <= p.origin.x < m.cols,
        0 <= p.origin.y < m.rows,
        p.cells().len() == 4,
        forall|i: int|
            0 <= i < 4 ==> 0 <= (#[trigger] p.cells()[i]).0 < m.cols && 0 <= p.cells()[i].1
                < m.rows,
{
    lemma_extent_holds_origin(p);
    mask_is_four_cells_in_box(p);
}

/// A fresh game of `rows` by `cols` with a first piece of shape `s`.
pub open spec fn initial(rows: int, cols: int, s: Shape) -> BoardModel {
    BoardModel {
        rows,
        cols,
        grid: empty_rows(rows, cols),
        piece: spawn_piece(cols, s),
        keys: seq![],
        paused: false,
        over: false,
        paused_at: 0,
        last_tick: 0,
        last_drop: 0,
        score: 0,
        cleared: seq![],
    }
}

} // verus!
