use vstd::prelude::*;
use rand::Rng;
use crate::geometry::{Position, Rect, cells_of};
use crate::piece::{Piece, Shape, rotated_left, rotated_right, rotation_round_trips};
use crate::model::{
    resumed_drop,
    BoardModel, Command, DROP_INTERVAL, MAX_DIM, MIN_DIM, ROW_SCORE, add_bonus, collides,
    empty_row, empty_rows, freeze, full_row, full_rows_from, initial, kept_rows_from, kicked,
    kicked_left, lemma_extent_holds_origin, lemma_inside_cells, occupied, spawn_piece,
};

verus! {

/// What a sequence holds after a push.
proof fn lemma_push_contains<A>(s: Seq<A>, a: A, v: A)
    ensures
        s.push(a).contains(v) <==> s.contains(v) || v == a,
{
    if s.push(a).contains(v) {
        let i = choose|i: int| 0 <= i < s.push(a).len() && s.push(a)[i] == v;
        if i < s.len() {
            assert(s[i] == v);
        }
    }
    if s.contains(v) {
        let i = choose|i: int| 0 <= i < s.len() && s[i] == v;
        assert(s.push(a)[i] == v);
    }
    if v == a {
        assert(s.push(a)[s.len() as int] == v);
    }
}

/// Relies on rand::thread_rng and rand::Rng::gen_range: a value drawn from
/// `0..bound`.
#[verifier::external_body]
fn random_below(bound: u32) -> (r: u32)
    requires
        0 < bound,
    ensures
        r < bound,
{
    rand::thread_rng().gen_range(0, bound)
}

/// A shape drawn at random, each of the seven equally likely.
fn random_shape() -> Shape {
    Shape::from_index(random_below(7))
}

/// The spawn piece of any shape lies on a board of legal size.
proof fn lemma_spawn_inside(m: BoardModel, s: Shape)
    requires
        MIN_DIM <= m.rows <= MAX_DIM,
        MIN_DIM <= m.cols <= MAX_DIM,
    ensures
        spawn_piece(m.cols, s).wf(),
        m.inside(spawn_piece(m.cols, s).extent()),
{
    let p = spawn_piece(m.cols, s);
    assert(p.origin.x == m.cols / 2);
}

/// Each row kept by line clearing is a row of the grid, so it has the
/// grid's width.
proof fn lemma_kept_rows_width(g: Seq<Seq<bool>>, y: int, cols: int)
    requires
        forall|r: int| 0 <= r < g.len() ==> (#[trigger] g[r]).len() == cols,
    ensures
        forall|i: int|
            0 <= i < kept_rows_from(g, y).len() ==> (#[trigger] kept_rows_from(g, y)[i]).len()
                == cols,
    decreases g.len() - y,
{
    if y < 0 || y >= g.len() {
    } else {
        lemma_kept_rows_width(g, y + 1, cols);
        let k = kept_rows_from(g, y + 1);
        if !full_row(g[y]) {
            assert forall|i: int|
                0 <= i < kept_rows_from(g, y).len() implies (#[trigger] kept_rows_from(
                g,
                y,
            )[i]).len() == cols by {
                if i > 0 {
                    assert(kept_rows_from(g, y)[i] == k[i - 1]);
                }
            }
        }
    }
}

/// Every row reported by line clearing is a row of the grid.
proof fn lemma_full_rows_range(g: Seq<Seq<bool>>, y: int)
    requires
        0 <= y,
    ensures
        forall|i: int|
            0 <= i < full_rows_from(g, y).len() ==> y <= #[trigger] full_rows_from(g, y)[i]
                < g.len(),
    decreases g.len() - y,
{
    if y < g.len() {
        lemma_full_rows_range(g, y + 1);
        let f = full_rows_from(g, y + 1);
        assert forall|i: int|
            0 <= i < full_rows_from(g, y).len() implies y <= #[trigger] full_rows_from(g, y)[i]
                < g.len() by {
            if i < f.len() {
                assert(full_rows_from(g, y)[i] == f[i]);
            }
        }
    }
}

/// A sideways move.
enum Move {
    Left,
    Right,
}

/// A turn.
enum Rotation {
    Left,
    Right,
}

/// The game: the playfield, the active piece, the timers, the score and the
/// queue of input tokens. It changes only through `keydown`, `update` (or
/// `update_with`), `pause` and `resume`.
pub struct Board {
    rows: i32,
    cols: i32,
    /// Occupancy, indexed `cells[row][column]`.
    cells: Vec<Vec<bool>>,
    active_piece: Piece,
    keys: Vec<String>,
    is_paused: bool,
    paused_at: u64,
    last_processed_tick: u64,
    is_game_over: bool,
    score: u64,
    last_drop: u64,
    line_clears: Vec<usize>,
}

impl Board {
    /// The state of the game in mathematical terms.
    pub closed spec fn view(&self) -> BoardModel {
        BoardModel {
            rows: self.rows as int,
            cols: self.cols as int,
            grid: self.cells@.map_values(|r: Vec<bool>| r@),
            piece: self.active_piece,
            keys: self.keys@.map_values(|k: String| k@),
            paused: self.is_paused,
            over: self.is_game_over,
            paused_at: self.paused_at as int,
            last_tick: self.last_processed_tick as int,
            last_drop: self.last_drop as int,
            score: self.score as int,
            cleared: self.line_clears@.map_values(|i: usize| i as int),
        }
    }

    pub open spec fn wf(&self) -> bool {
        self@.inv()
    }

    /// A row of `cols` empty cells.
    fn empty_row(cols: i32) -> (r: Vec<bool>)
        requires
            0 <= cols,
        ensures
            r@ == empty_row(cols as int),
    {
        let mut r: Vec<bool> = Vec::new();
        let mut j: i32 = 0;
        while j < cols
            invariant
                0 <= j <= cols,
                r@ == Seq::new(j as nat, |k: int| false),
            decreases cols - j,
        {
            r.push(false);
            j += 1;
            assert(r@ =~= Seq::new(j as nat, |k: int| false));
        }
        assert(r@ =~= empty_row(cols as int));
        r
    }

    /// A game on an empty board of `rows` by `cols` whose first piece has
    /// shape `shape`.
    pub fn with_shape(rows: i32, cols: i32, shape: Shape) -> (r: Board)
        requires
            MIN_DIM <= rows <= MAX_DIM,
            MIN_DIM <= cols <= MAX_DIM,
        ensures
            r.wf(),
            r@ == initial(rows as int, cols as int, shape),
    {
        let mut cells: Vec<Vec<bool>> = Vec::new();
        let mut i: i32 = 0;
        while i < rows
            invariant
                0 <= i <= rows,
                MIN_DIM <= cols <= MAX_DIM,
                cells@.len() == i,
                forall|k: int| 0 <= k < i ==> (#[trigger] cells@[k])@ == empty_row(cols as int),
            decreases rows - i,
        {
            let row = Board::empty_row(cols);
            cells.push(row);
            i += 1;
        }
        assert(cells@.map_values(|r: Vec<bool>| r@) =~= empty_rows(rows as int, cols as int));
        let r = Board {
            rows,
            cols,
            cells,
            active_piece: Piece::new(shape, cols / 2, 1),
            keys: Vec::new(),
            is_paused: false,
            paused_at: 0,
            last_processed_tick: 0,
            is_game_over: false,
            score: 0,
            last_drop: 0,
            line_clears: Vec::new(),
        };
        proof {
            lemma_spawn_inside(r@, shape);
            assert(r@.keys =~= seq![]);
            assert(r@.cleared =~= seq![]);
            assert(r@ == initial(rows as int, cols as int, shape));
        }
        r
    }

    /// A game on an empty board of `rows` by `cols` whose first piece has a
    /// shape drawn at random.
    pub fn new(rows: i32, cols: i32) -> (r: Board)
        requires
            MIN_DIM <= rows <= MAX_DIM,
            MIN_DIM <= cols <= MAX_DIM,
        ensures
            r.wf(),
            exists|s: Shape| r@ == #[trigger] initial(rows as int, cols as int, s),
    {
        Board::with_shape(rows, cols, random_shape())
    }

    /// Whether a rectangle lies on the board.
    fn is_inside_board(&self, bb: &Rect) -> (r: bool)
        ensures
            r == self@.inside(bb@),
    {
        !(bb.x1 < 0 || bb.x2 >= self.cols || bb.y1 < 0 || bb.y2 >= self.rows)
    }

    /// Whether any cell of `mask` is occupied.
    fn is_colliding(&self, mask: &Vec<Position>) -> (r: bool)
        requires
            self@.well_formed(),
            forall|i: int|
                0 <= i < mask@.len() ==> 0 <= (#[trigger] mask@[i]).x < self@.cols && 0
                    <= mask@[i].y < self@.rows,
        ensures
            r == collides(self@.grid, cells_of(mask@)),
    {
        let mut i: usize = 0;
        while i < mask.len()
            invariant
                self@.well_formed(),
                i <= mask@.len(),
                forall|k: int|
                    0 <= k < mask@.len() ==> 0 <= (#[trigger] mask@[k]).x < self@.cols && 0
                        <= mask@[k].y < self@.rows,
                forall|k: int| 0 <= k < i ==> !occupied(self@.grid, #[trigger] cells_of(mask@)[k]),
            decreases mask@.len() - i,
        {
            let item = mask[i];
            let row = &self.cells[item.y as usize];
            assert(row@ == self@.grid[item.y as int]);
            if row[item.x as usize] {
                assert(occupied(self@.grid, cells_of(mask@)[i as int]));
                return true;
            }
            i += 1;
        }
        false
    }

    /// Whether `p` lies on the board and covers no occupied cell.
    fn piece_fits(&self, p: &Piece) -> (r: bool)
        requires
            self@.well_formed(),
            p.wf(),
            p.in_range(),
        ensures
            r == self@.fits(*p),
    {
        let bb = p.bounding_box();
        if !self.is_inside_board(&bb) {
            return false;
        }
        let mask = p.mask();
        proof {
            lemma_inside_cells(self@, *p);
            assert forall|i: int| 0 <= i < mask@.len() implies 0 <= (#[trigger] mask@[i]).x
                < self@.cols && 0 <= mask@[i].y < self@.rows by {
                assert(cells_of(mask@)[i] == mask@[i]@);
            }
        }
        !self.is_colliding(&mask)
    }

    /// Marks each cell of `mask` as occupied.
    fn freeze_mask(&mut self, mask: &Vec<Position>)
        requires
            old(self)@.well_formed(),
            forall|i: int|
                0 <= i < mask@.len() ==> 0 <= (#[trigger] mask@[i]).x < old(self)@.cols && 0
                    <= mask@[i].y < old(self)@.rows,
        ensures
            final(self)@ == (BoardModel { grid: freeze(old(self)@.grid, cells_of(mask@)), ..old(self)@ }),
            final(self)@.well_formed(),
    {
        let ghost g0 = self@.grid;
        let ghost cs = cells_of(mask@);
        proof {
            assert forall|r: int| 0 <= r < g0.len() implies #[trigger] freeze(g0, cs.take(0))[r]
                =~= g0[r] by {}
            assert(freeze(g0, cs.take(0)) =~= g0);
            assert(self@ == (BoardModel { grid: freeze(g0, cs.take(0)), ..old(self)@ }));
        }
        let mut k: usize = 0;
        while k < mask.len()
            invariant
                old(self)@.well_formed(),
                self.cells@.len() == g0.len(),
                forall|r: int| 0 <= r < g0.len() ==> (#[trigger] self.cells@[r])@.len() == g0[r].len(),
                k <= mask@.len(),
                g0 == old(self)@.grid,
                cs == cells_of(mask@),
                forall|i: int|
                    0 <= i < mask@.len() ==> 0 <= (#[trigger] mask@[i]).x < old(self)@.cols && 0
                        <= mask@[i].y < old(self)@.rows,
                self@ == (BoardModel { grid: freeze(g0, cs.take(k as int)), ..old(self)@ }),
            decreases mask@.len() - k,
        {
            let item = mask[k];
            assert(self.cells@[item.y as int]@.len() == g0[item.y as int].len());
            let ghost before = self@.grid;
            self.cells[item.y as usize][item.x as usize] = true;
            proof {
                let y = item.y as int;
                let x = item.x as int;
                assert(self@.grid =~= before.update(y, before[y].update(x, true)));
                let after = freeze(g0, cs.take(k + 1));
                assert forall|r: int| 0 <= r < g0.len() implies #[trigger] self@.grid[r] =~= after[r] by {
                    assert forall|c: int| 0 <= c < after[r].len() implies self@.grid[r][c] == after[r][c] by {
                        assert(cs.take(k + 1) =~= cs.take(k as int).push(cs[k as int]));
                        assert(cs[k as int] == (x, y));
                        lemma_push_contains(cs.take(k as int), cs[k as int], (c, r));
                        if r == y && c == x {
                        } else {
                            assert(self@.grid[r][c] == before[r][c]);
                        }
                    }
                }
                assert(self@.grid =~= after);
            }
            k += 1;
        }
        assert(cs.take(mask@.len() as int) =~= cs);
    }

    /// Puts a new piece of shape `shape` at the spawn point, or ends the game
    /// if it would cover an occupied cell. The drop timer restarts.
    fn new_active_piece(&mut self, shape: Shape)
        requires
            old(self)@.well_formed(),
        ensures
            final(self)@ == old(self)@.spawn(shape),
            final(self).wf(),
    {
        let next = Piece::new(shape, self.cols / 2, 1);
        self.last_drop = 0;
        proof {
            lemma_spawn_inside(self@, shape);
            lemma_inside_cells(self@, next);
        }
        let mask = next.mask();
        proof {
            assert forall|i: int| 0 <= i < mask@.len() implies 0 <= (#[trigger] mask@[i]).x
                < self@.cols && 0 <= mask@[i].y < self@.rows by {
                assert(cells_of(mask@)[i] == mask@[i]@);
            }
        }
        if self.is_colliding(&mask) {
            self.is_game_over = true;
        } else {
            self.active_piece = next;
        }
    }

    /// Shifts the active piece one column, if it fits there.
    fn move_sideways(&mut self, direction: Move)
        requires
            old(self).wf(),
        ensures
            final(self)@ == old(self)@.apply_move(
                match direction {
                    Move::Left => -1int,
                    Move::Right => 1int,
                },
            ),
            final(self).wf(),
    {
        let mut attempt = self.active_piece;
        proof {
            lemma_inside_cells(self@, attempt);
        }
        match direction {
            Move::Left => attempt.move_left(),
            Move::Right => attempt.move_right(),
        }
        if self.piece_fits(&attempt) {
            self.active_piece = attempt;
        }
    }

    /// Turns the active piece, moving it back onto the board if the turn
    /// pushed it over a side wall; nothing changes if the result does not
    /// fit.
    fn rotate(&mut self, rotation: Rotation)
        requires
            old(self).wf(),
        ensures
            final(self)@ == old(self)@.apply_rotate(
                match rotation {
                    Rotation::Left => rotated_left(old(self)@.piece.orientation),
                    Rotation::Right => rotated_right(old(self)@.piece.orientation),
                },
            ),
            final(self).wf(),
    {
        let mut attempt = self.active_piece;
        proof {
            lemma_inside_cells(self@, attempt);
        }
        match rotation {
            Rotation::Left => attempt.rotate_left(),
            Rotation::Right => attempt.rotate_right(),
        }
        let ghost turned = attempt;
        proof {
            lemma_extent_holds_origin(turned);
            rotation_round_trips(self.active_piece);
        }
        let mut bb = attempt.bounding_box();
        if !self.is_inside_board(&bb) {
            while bb.x2 >= self.cols
                invariant
                    self.wf(),
                    attempt == turned.at(attempt.origin.x as int, turned.origin.y as int),
                    -3 <= attempt.origin.x <= turned.origin.x,
                    0 <= turned.origin.x < self@.cols,
                    0 <= turned.origin.y < self@.rows,
                    bb@ == attempt.extent(),
                    attempt.origin.x < turned.origin.x ==> bb.x2 >= self.cols - 1,
                decreases attempt.origin.x + 3,
            {
                proof {
                    lemma_extent_holds_origin(attempt);
                }
                attempt.move_left();
                proof {
                    lemma_extent_holds_origin(attempt);
                }
                bb = attempt.bounding_box();
            }
            let ghost after_left = attempt;
            proof {
                lemma_extent_holds_origin(turned);
                lemma_extent_holds_origin(after_left);
            }
            assert(after_left == kicked_left(self@.cols, turned));
            assert(0 <= after_left.origin.x);
            while bb.x1 < 0
                invariant
                    self.wf(),
                    attempt == after_left.at(attempt.origin.x as int, after_left.origin.y as int),
                    after_left.origin.x <= attempt.origin.x <= after_left.origin.x + 2,
                    0 <= after_left.origin.x < self@.cols,
                    after_left.extent().0 >= -2,
                    0 <= after_left.origin.y < self@.rows,
                    bb@ == attempt.extent(),
                    attempt.origin.x > after_left.origin.x ==> bb.x1 <= 0,
                decreases after_left.origin.x + 2 - attempt.origin.x,
            {
                proof {
                    lemma_extent_holds_origin(attempt);
                }
                attempt.move_right();
                proof {
                    lemma_extent_holds_origin(attempt);
                }
                bb = attempt.bounding_box();
            }
            assert(attempt == kicked(self@.cols, turned)) by {
                lemma_extent_holds_origin(after_left);
                lemma_extent_holds_origin(attempt);
            }
            if !self.is_inside_board(&bb) {
                return;
            }
        } else {
            assert(attempt == kicked(self@.cols, turned));
        }
        proof {
            lemma_inside_cells(self@, attempt);
        }
        let mask = attempt.mask();
        proof {
            assert forall|i: int| 0 <= i < mask@.len() implies 0 <= (#[trigger] mask@[i]).x
                < self@.cols && 0 <= mask@[i].y < self@.rows by {
                assert(cells_of(mask@)[i] == mask@[i]@);
            }
        }
        if self.is_colliding(&mask) {
            return;
        }
        self.active_piece = attempt;
    }

    /// Whether the active piece, moved to row `y` of its column, fits.
    fn fits_at_row(&self, y: i32) -> (r: bool)
        requires
            self@.well_formed(),
            0 <= y < self@.rows,
        ensures
            r == self@.fits(self@.piece.at(self@.piece.origin.x as int, y as int)),
    {
        let mut p = self.active_piece;
        proof {
            lemma_inside_cells(self@, p);
        }
        p.set_origin(p.origin.x, y);
        self.piece_fits(&p)
    }

    /// The cells the active piece would cover after falling straight down as
    /// far as it fits: the landing spot of a hard drop, also shown to the
    /// player as a preview.
    pub fn project_piece(&self) -> (r: Vec<Position>)
        requires
            self.wf(),
            !self@.over,
        ensures
            cells_of(r@) == self@.projection().cells(),
            forall|i: int|
                0 <= i < r@.len() ==> 0 <= (#[trigger] r@[i]).x < self@.cols && 0 <= r@[i].y
                    < self@.rows,
    {
        let mut placed = self.active_piece;
        proof {
            lemma_inside_cells(self@, placed);
        }
        let x = placed.origin.x;
        let mut y = placed.origin.y;
        while y + 1 < self.rows && self.fits_at_row(y + 1)
            invariant
                self.wf(),
                x == self@.piece.origin.x,
                self@.piece.origin.y <= y < self@.rows,
                self@.landing_row(y as int) == self@.landing_row(self@.piece.origin.y as int),
                self@.inside(self@.piece.at(x as int, y as int).extent()),
            decreases self@.rows - y,
        {
            y += 1;
        }
        placed.set_origin(x, y);
        proof {
            lemma_inside_cells(self@, placed);
        }
        let r = placed.mask();
        proof {
            assert forall|i: int| 0 <= i < r@.len() implies 0 <= (#[trigger] r@[i]).x
                < self@.cols && 0 <= r@[i].y < self@.rows by {
                assert(cells_of(r@)[i] == r@[i]@);
            }
        }
        r
    }

    /// A hard drop: the active piece becomes part of the grid where it
    /// lands, and a piece of shape `shape` is spawned.
    fn place_piece(&mut self, shape: Shape)
        requires
            old(self).wf(),
            !old(self)@.over,
        ensures
            final(self)@ == old(self)@.apply_place(shape),
            final(self).wf(),
    {
        let mask = self.project_piece();
        self.freeze_mask(&mask);
        self.new_active_piece(shape);
    }

    /// One step of gravity: the active piece falls one row if it fits there;
    /// else it becomes part of the grid where it is and a piece of shape
    /// `shape` is spawned.
    fn try_drop(&mut self, shape: Shape)
        requires
            old(self).wf(),
        ensures
            final(self)@ == old(self)@.drop_step(shape),
            final(self).wf(),
    {
        let current = self.active_piece;
        proof {
            lemma_inside_cells(self@, current);
        }
        let mut moved = current;
        moved.set_origin(current.origin.x, current.origin.y + 1);
        if self.piece_fits(&moved) {
            self.active_piece = moved;
            return;
        }
        let mask = current.mask();
        proof {
            assert forall|i: int| 0 <= i < mask@.len() implies 0 <= (#[trigger] mask@[i]).x
                < self@.cols && 0 <= mask@[i].y < self@.rows by {
                assert(cells_of(mask@)[i] == mask@[i]@);
            }
        }
        self.freeze_mask(&mask);
        self.new_active_piece(shape);
    }

    /// Applies the queued input tokens in the order they came, and empties
    /// the queue. A hard drop by token `i` spawns a piece of shape
    /// `draws[i]`.
    fn process_input(&mut self, draws: &Vec<Shape>)
        requires
            old(self).wf(),
            draws@.len() >= old(self)@.keys.len(),
        ensures
            final(self)@ == (BoardModel { keys: seq![], ..old(self)@ }).run_keys(
                old(self)@.keys,
                draws@,
            ),
            final(self)@.last_tick == old(self)@.last_tick,
            final(self)@.paused == old(self)@.paused,
            final(self).wf(),
    {
        let mut keys: Vec<String> = Vec::new();
        std::mem::swap(&mut self.keys, &mut keys);
        let ghost m0 = self@;
        let ghost all = old(self)@.keys;
        proof {
            assert(self@.keys =~= seq![]);
            assert(m0 == (BoardModel { keys: seq![], ..old(self)@ }));
            assert(all =~= keys@.map_values(|k: String| k@));
            assert(all.take(0) =~= seq![]);
        }
        let mut i: usize = 0;
        while i < keys.len()
            invariant
                self.wf(),
                i <= keys@.len(),
                all == keys@.map_values(|k: String| k@),
                draws@.len() >= all.len(),
                self@ == m0.run_keys(all.take(i as int), draws@),
                self@.last_tick == m0.last_tick,
                self@.paused == m0.paused,
            decreases keys@.len() - i,
        {
            let ghost before = self@;
            if !self.is_game_over {
                match Command::parse(&keys[i]) {
                    Some(Command::RotateLeft) => self.rotate(Rotation::Left),
                    Some(Command::RotateRight) => self.rotate(Rotation::Right),
                    Some(Command::MoveLeft) => self.move_sideways(Move::Left),
                    Some(Command::MoveRight) => self.move_sideways(Move::Right),
                    Some(Command::HardDrop) => self.place_piece(draws[i]),
                    None => {},
                }
            }
            proof {
                assert(all.take(i + 1).take(i as int) =~= all.take(i as int));
                assert(all.take(i + 1)[i as int] == keys@[i as int]@);
                assert(self@ == before.apply_key(keys@[i as int]@, draws@[i as int]));
            }
            i += 1;
        }
        assert(all.take(keys@.len() as int) =~= all);
    }

    /// Whether every cell of `row` is occupied.
    fn is_full(row: &Vec<bool>) -> (r: bool)
        ensures
            r == full_row(row@),
    {
        let mut c: usize = 0;
        while c < row.len()
            invariant
                c <= row@.len(),
                forall|k: int| 0 <= k < c ==> row@[k],
            decreases row@.len() - c,
        {
            if !row[c] {
                return false;
            }
            c += 1;
        }
        true
    }

    /// Removes every complete row, bottom row first, and lets an empty row
    /// in at the top for each; adds `ROW_SCORE` per row, held at the largest
    /// `u64`, and records the rows removed.
    fn clear_complete_rows(&mut self)
        requires
            old(self).wf(),
        ensures
            final(self)@ == old(self)@.clear_lines(),
            final(self).wf(),
    {
        let ghost g = self@.grid;
        let ghost m0 = self@;
        let mut cleared: Vec<usize> = Vec::new();
        let mut j: usize = self.rows as usize;
        let mut k: usize = 0;
        proof {
            assert(g.take(j as int) =~= g);
            assert(empty_rows(0, m0.cols) =~= seq![]);
            assert(self@.grid =~= empty_rows(0, m0.cols) + g.take(j as int) + kept_rows_from(g, j as int));
            assert(cleared@.map_values(|i: usize| i as int) =~= full_rows_from(g, j as int));
        }
        while j > 0
            invariant
                m0.inv(),
                m0.grid == g,
                j <= g.len(),
                k + j <= g.len(),
                k == full_rows_from(g, j as int).len(),
                self.cells@.len() == g.len(),
                self@.grid == empty_rows(k as int, m0.cols) + g.take(j as int) + kept_rows_from(g, j as int),
                cleared@.map_values(|i: usize| i as int) == full_rows_from(g, j as int),
                self@ == (BoardModel { grid: self@.grid, score: add_bonus(m0.score, k as int), ..m0 }),
            decreases j,
        {
            let idx = k + j - 1;
            let ghost cur = self@.grid;
            proof {
                assert(cur[idx as int] == g[j - 1]);
                assert(self.cells@[idx as int]@ == cur[idx as int]);
            }
            let full = Board::is_full(&self.cells[idx]);
            proof {
                assert(g.take(j as int) =~= g.take(j - 1).push(g[j - 1]));
            }
            if full {
                self.cells.remove(idx);
                let row = Board::empty_row(self.cols);
                self.cells.insert(0, row);
                cleared.push(j - 1);
                self.score = if self.score <= u64::MAX - ROW_SCORE {
                    self.score + ROW_SCORE
                } else {
                    u64::MAX
                };
                proof {
                    assert(self@.grid =~= cur.remove(idx as int).insert(0, row@));
                    assert(self@.grid =~= empty_rows(k + 1, m0.cols) + g.take(j - 1) + kept_rows_from(g, j - 1));
                    assert(cleared@.map_values(|i: usize| i as int) =~= full_rows_from(g, j - 1));
                }
                k += 1;
            } else {
                proof {
                    assert(self@.grid =~= empty_rows(k as int, m0.cols) + g.take(j - 1) + kept_rows_from(g, j - 1));
                }
            }
            j -= 1;
        }
        self.line_clears = cleared;
        proof {
            assert(g.take(0) =~= seq![]);
            assert(self@.grid =~= empty_rows(k as int, m0.cols) + kept_rows_from(g, 0));
            lemma_kept_rows_width(g, 0, m0.cols);
            lemma_full_rows_range(g, 0);
            assert forall|r: int| 0 <= r < self@.rows implies (#[trigger] self@.grid[r]).len() == self@.cols by {
                if r >= k {
                    assert(self@.grid[r] == kept_rows_from(g, 0)[r - k]);
                }
            }
        }
        if !self.is_game_over {
            let mask = self.active_piece.mask();
            proof {
                lemma_inside_cells(self@, self.active_piece);
                assert forall|i: int| 0 <= i < mask@.len() implies 0 <= (#[trigger] mask@[i]).x
                    < self@.cols && 0 <= mask@[i].y < self@.rows by {
                    assert(cells_of(mask@)[i] == mask@[i]@);
                }
            }
            if self.is_colliding(&mask) {
                self.is_game_over = true;
            }
        }
    }

    /// One frame at time `time` (see `BoardModel::update`), with the shapes
    /// that spawns use given: a hard drop by queued token `i` spawns
    /// `draws[i]`, a spawn by gravity `draws[n]` for `n` queued tokens.
    pub fn update_with(&mut self, time: u64, draws: &Vec<Shape>)
        requires
            old(self).wf(),
            old(self)@.last_tick <= time,
            draws@.len() == old(self)@.keys.len() + 1,
        ensures
            final(self)@ == old(self)@.update(time as int, draws@),
            final(self).wf(),
            !final(self)@.over ==> final(self)@.fits(final(self)@.piece),
    {
        self.last_processed_tick = time;
        self.line_clears = Vec::new();
        proof {
            assert(self@.cleared =~= seq![]);
        }
        if self.is_paused || self.is_game_over {
            return;
        }
        let n = self.keys.len();
        self.process_input(draws);
        if !self.is_game_over {
            if self.last_drop == 0 {
                self.last_drop = time;
            } else if time > self.last_drop && time - self.last_drop > DROP_INTERVAL {
                self.try_drop(draws[n]);
                self.last_drop = time;
            }
        }
        self.clear_complete_rows();
    }

    /// One frame at time `time`: records the tick; unless the game is paused
    /// or over, applies the queued input tokens, then gravity, then line
    /// clearing. New pieces get a shape drawn at random.
    pub fn update(&mut self, time: u64)
        requires
            old(self).wf(),
            old(self)@.last_tick <= time,
        ensures
            exists|draws: Seq<Shape>|
                draws.len() == old(self)@.keys.len() + 1 && final(self)@ == #[trigger] old(
                    self,
                )@.update(time as int, draws),
            final(self).wf(),
            !final(self)@.over ==> final(self)@.fits(final(self)@.piece),
    {
        let n = self.keys.len();
        let mut draws: Vec<Shape> = Vec::new();
        let mut i: usize = 0;
        while i < n
            invariant
                i <= n,
                draws@.len() == i,
            decreases n - i,
        {
            draws.push(random_shape());
            i += 1;
        }
        draws.push(random_shape());
        self.update_with(time, &draws);
    }

    /// Queues a raw input token (a key code such as "ArrowLeft"), unless the
    /// game is paused or over. Tokens that stand for no command are queued
    /// too and ignored when applied.
    pub fn keydown(&mut self, code: String)
        requires
            old(self).wf(),
        ensures
            final(self)@ == old(self)@.keydown(code@),
            final(self).wf(),
    {
        if self.is_paused || self.is_game_over {
            return;
        }
        let ghost code_view = code@;
        self.keys.push(code);
        proof {
            assert(self@.keys =~= old(self)@.keys.push(code_view));
        }
    }

    /// Pauses the game, unless it is over, and remembers when.
    pub fn pause(&mut self)
        requires
            old(self).wf(),
        ensures
            final(self)@ == old(self)@.pause(),
            final(self).wf(),
    {
        if self.is_game_over {
            return;
        }
        self.is_paused = true;
        self.paused_at = self.last_processed_tick;
    }

    /// Resumes the game, unless it is over. The drop timer moves on by the
    /// time since the pause began (see `BoardModel::resume`), so the piece
    /// does not fall sooner for the pause.
    pub fn resume(&mut self)
        requires
            old(self).wf(),
        ensures
            final(self)@ == old(self)@.resume(),
            final(self).wf(),
    {
        if self.is_game_over {
            return;
        }
        self.is_paused = false;
        let paused_for = self.last_processed_tick - self.paused_at;
        self.last_drop = if self.last_drop <= u64::MAX - paused_for {
            self.last_drop + paused_for
        } else {
            u64::MAX
        };
    }

    pub fn is_paused(&self) -> (r: bool)
        ensures
            r == self@.paused,
    {
        self.is_paused
    }

    pub fn is_game_over(&self) -> (r: bool)
        ensures
            r == self@.over,
    {
        self.is_game_over
    }

    pub fn score(&self) -> (r: u64)
        ensures
            r == self@.score,
    {
        self.score
    }

    /// The time of the last update; the next update must not come earlier.
    pub fn last_tick(&self) -> (r: u64)
        ensures
            r == self@.last_tick,
    {
        self.last_processed_tick
    }

    pub fn rows(&self) -> (r: i32)
        ensures
            r == self@.rows,
    {
        self.rows
    }

    pub fn cols(&self) -> (r: i32)
        ensures
            r == self@.cols,
    {
        self.cols
    }

    /// Occupancy of the grid, indexed `[row][column]`.
    pub fn cells(&self) -> (r: &Vec<Vec<bool>>)
        ensures
            r@.map_values(|row: Vec<bool>| row@) == self@.grid,
    {
        &self.cells
    }

    /// The piece under the player's control (once the game is over, the last
    /// one that was).
    pub fn active_piece(&self) -> (r: Piece)
        ensures
            r == self@.piece,
    {
        self.active_piece
    }

    /// The input tokens waiting for the next update, oldest first.
    pub fn pending_commands(&self) -> (r: &Vec<String>)
        ensures
            r@.map_values(|k: String| k@) == self@.keys,
    {
        &self.keys
    }

    /// The rows the last update cleared, bottom row first, as they were
    /// numbered before the clearing.
    pub fn line_clears(&self) -> (r: &Vec<usize>)
        ensures
            r@.map_values(|i: usize| i as int) == self@.cleared,
    {
        &self.line_clears
    }
}

} // verus!
