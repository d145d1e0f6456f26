use vstd::prelude::*;
use crate::geometry::Position;
use crate::piece::Shape;
use crate::model::{
    BoardModel, Command, DROP_INTERVAL, ROW_SCORE, add_bonus, collides, command_of, empty_row,
    empty_rows,
    freeze, full_row, full_rows_from, kept_rows_from, lemma_inside_cells, occupied,
    resumed_drop, shifted, spawn_piece,
};

verus! {

/// A move or a turn that is kept leaves the active piece on the board and
/// over no occupied cell: each of its cells lies in the grid and is empty.
/// The grid itself does not change.
pub proof fn committed_move_fits(m: BoardModel, token: Seq<char>, s: Shape)
    requires
        m.inv(),
        command_of(token) != Some(Command::HardDrop),
    ensures
        m.apply_key(token, s).grid == m.grid,
        m.apply_key(token, s).piece != m.piece ==> {
            let p = m.apply_key(token, s).piece;
            &&& p.cells().len() == 4
            &&& forall|i: int|
                0 <= i < 4 ==> {
                    let c = #[trigger] p.cells()[i];
                    &&& 0 <= c.0 < m.cols
                    &&& 0 <= c.1 < m.rows
                    &&& !occupied(m.grid, c)
                }
        },
{
    let r = m.apply_key(token, s);
    if r.piece != m.piece {
        let p = r.piece;
        assert(m.fits(p));
        lemma_inside_cells(m, p);
        assert forall|i: int| 0 <= i < 4 implies !occupied(m.grid, #[trigger] p.cells()[i]) by {
            if occupied(m.grid, p.cells()[i]) {
                assert(collides(m.grid, p.cells()));
            }
        }
    }
}

/// When gravity is due and the active piece has no room one row down, the
/// piece's cells, where they are, become part of the grid and nothing else
/// does; the next piece then stands at the spawn point, column `cols / 2`
/// of row 1, unless it would cover an occupied cell, which ends the game.
pub proof fn blocked_drop_freezes_and_spawns(m: BoardModel, time: int, s: Shape)
    requires
        m.inv(),
        !m.over,
        m.last_drop != 0,
        time - m.last_drop > DROP_INTERVAL,
        !m.fits(shifted(m.piece, 0, 1)),
    ensures
        ({
            let r = m.gravity(time, s);
            &&& r.grid == freeze(m.grid, m.piece.cells())
            &&& forall|row: int, col: int|
                0 <= row < m.rows && 0 <= col < m.cols ==> (#[trigger] r.grid[row][col] <==> (
                m.grid[row][col] || m.piece.cells().contains((col, row))))
            &&& r.over <==> collides(r.grid, spawn_piece(m.cols, s).cells())
            &&& !r.over ==> r.piece == spawn_piece(m.cols, s) && r.piece.origin == (Position {
                x: (m.cols / 2) as i32,
                y: 1,
            })
            &&& r.last_drop == time
        }),
{
}

/// The complete rows among rows `y` and below, when `row` is the only
/// complete row of the grid.
proof fn lemma_single_full_row(g: Seq<Seq<bool>>, row: int, y: int)
    requires
        0 <= row < g.len(),
        0 <= y <= g.len(),
        full_row(g[row]),
        forall|r: int| 0 <= r < g.len() && r != row ==> !full_row(#[trigger] g[r]),
    ensures
        full_rows_from(g, y) == (if y <= row {
            seq![row]
        } else {
            seq![]
        }),
        kept_rows_from(g, y) == (if y <= row {
            g.subrange(y, g.len() as int).remove(row - y)
        } else {
            g.subrange(y, g.len() as int)
        }),
    decreases g.len() - y,
{
    if y < g.len() {
        lemma_single_full_row(g, row, y + 1);
        if y == row {
            assert(seq![row] =~= seq![].push(row));
            assert(g.subrange(y, g.len() as int).remove(0) =~= g.subrange(y + 1, g.len() as int));
        } else if y < row {
            assert(seq![g[y]] + g.subrange(y + 1, g.len() as int).remove(row - y - 1)
                =~= g.subrange(y, g.len() as int).remove(row - y));
        } else {
            assert(seq![g[y]] + g.subrange(y + 1, g.len() as int) =~= g.subrange(
                y,
                g.len() as int,
            ));
        }
    } else {
        assert(g.subrange(y, g.len() as int) =~= seq![]);
    }
}

/// A frame on a board whose row `row` is its only complete row, with no
/// input queued and no drop due, removes that row: the rows above it move
/// down one, an empty row comes in at the top, the score grows by
/// `ROW_SCORE` (held at the largest `u64`), and `row` is reported.
pub proof fn complete_row_cleared(m: BoardModel, time: int, draws: Seq<Shape>, row: int)
    requires
        m.inv(),
        !m.paused,
        !m.over,
        m.keys.len() == 0,
        draws.len() == 1,
        m.last_tick <= time,
        m.last_drop == 0 || time - m.last_drop <= DROP_INTERVAL,
        0 <= row < m.rows,
        full_row(m.grid[row]),
        forall|r: int| 0 <= r < m.rows && r != row ==> !full_row(#[trigger] m.grid[r]),
    ensures
        ({
            let r = m.update(time, draws);
            &&& r.grid == seq![empty_row(m.cols)] + m.grid.remove(row)
            &&& r.score == add_bonus(m.score, 1)
            &&& m.score + ROW_SCORE <= u64::MAX ==> r.score == m.score + ROW_SCORE
            &&& r.cleared == seq![row]
            &&& r.piece == m.piece
        }),
{
    let g = m.grid;
    lemma_single_full_row(g, row, 0);
    assert(g.subrange(0, g.len() as int) =~= g);
    let m0 = BoardModel { last_tick: time, cleared: seq![], ..m };
    let m1 = BoardModel { keys: seq![], ..m0 };
    assert(m1.run_keys(m.keys, draws) == m1);
    let r = m.update(time, draws);
    assert(r.grid =~= seq![empty_row(m.cols)] + m.grid.remove(row));
}

/// Time spent paused does not count toward gravity. Pause, let frames pass
/// while paused, resume: the next frame leaves the active piece where it
/// was so long as the running time before the pause and after it together
/// do not exceed `DROP_INTERVAL`.
pub proof fn pause_does_not_hasten_drop(
    m: BoardModel,
    t_paused: int,
    t: int,
    d1: Seq<Shape>,
    d2: Seq<Shape>,
)
    requires
        m.inv(),
        !m.paused,
        !m.over,
        m.keys.len() == 0,
        m.last_tick <= t_paused <= t <= u64::MAX,
        d1.len() == 1,
        d2.len() == 1,
        (m.last_tick - m.last_drop) + (t - t_paused) <= DROP_INTERVAL,
    ensures
        ({
            let r = m.pause().update(t_paused, d1).resume().update(t, d2);
            &&& r.piece == m.piece
            &&& !r.paused
        }),
{
    let m3 = m.pause().update(t_paused, d1).resume();
    assert(m3.last_drop == resumed_drop(t_paused, m.last_tick, m.last_drop));
    let m0 = BoardModel { last_tick: t, cleared: seq![], ..m3 };
    let m1 = BoardModel { keys: seq![], ..m0 };
    assert(m1.run_keys(m3.keys, d2) == m1);
}

/// A spawn whose new piece would cover an occupied cell ends the game and
/// leaves the grid and the active piece as they were.
pub proof fn blocked_spawn_ends_game(m: BoardModel, s: Shape)
    requires
        m.inv(),
        collides(m.grid, spawn_piece(m.cols, s).cells()),
    ensures
        m.spawn(s).over,
        m.spawn(s).grid == m.grid,
        m.spawn(s).piece == m.piece,
{
}

/// Once the game is over it stays over: an update only records the tick
/// (and reports no cleared rows), and input, pausing and resuming change
/// nothing.
pub proof fn game_over_is_final(m: BoardModel, time: int, draws: Seq<Shape>, token: Seq<char>)
    requires
        m.over,
    ensures
        m.update(time, draws) == (BoardModel { last_tick: time, cleared: seq![], ..m }),
        m.keydown(token) == m,
        m.pause() == m,
        m.resume() == m,
{
}

/// Input tokens never change the score.
proof fn lemma_run_keys_score(m: BoardModel, keys: Seq<Seq<char>>, draws: Seq<Shape>)
    ensures
        m.run_keys(keys, draws).score == m.score,
    decreases keys.len(),
{
    if keys.len() > 0 {
        lemma_run_keys_score(m, keys.take(keys.len() - 1), draws);
    }
}

/// The score never goes down: an update keeps it or raises it.
pub proof fn score_never_decreases(m: BoardModel, time: int, draws: Seq<Shape>)
    requires
        m.inv(),
    ensures
        m.update(time, draws).score >= m.score,
{
    let m0 = BoardModel { last_tick: time, cleared: seq![], keys: seq![], ..m };
    lemma_run_keys_score(m0, m.keys, draws);
}

/// Line clearing on a grid without a complete row keeps the grid, the score
/// and reports no row.
proof fn lemma_no_full_row(g: Seq<Seq<bool>>, y: int)
    requires
        0 <= y <= g.len(),
        forall|r: int| 0 <= r < g.len() ==> !full_row(#[trigger] g[r]),
    ensures
        full_rows_from(g, y) == Seq::<int>::empty(),
        kept_rows_from(g, y) == g.subrange(y, g.len() as int),
    decreases g.len() - y,
{
    if y < g.len() {
        lemma_no_full_row(g, y + 1);
        assert(seq![g[y]] + g.subrange(y + 1, g.len() as int) =~= g.subrange(y, g.len() as int));
    } else {
        assert(g.subrange(y, g.len() as int) =~= seq![]);
    }
}

/// A whole frame in which gravity is due and the active piece has no room
/// one row down, with no input queued and no row completed by it: the
/// piece's cells, where they were, join the grid and nothing else does. The
/// game then goes on with a new piece at the spawn point, column `cols / 2`
/// of row 1, exactly when that piece covers no occupied cell; otherwise the
/// game is over and the grid stays as the frozen piece left it.
pub proof fn blocked_drop_in_frame(m: BoardModel, time: int, draws: Seq<Shape>)
    requires
        m.inv(),
        !m.paused,
        !m.over,
        m.keys.len() == 0,
        draws.len() == 1,
        m.last_drop != 0,
        time - m.last_drop > DROP_INTERVAL,
        !m.fits(shifted(m.piece, 0, 1)),
        forall|r: int|
            0 <= r < m.rows ==> !full_row(#[trigger] freeze(m.grid, m.piece.cells())[r]),
    ensures
        ({
            let r = m.update(time, draws);
            let frozen = freeze(m.grid, m.piece.cells());
            let next = spawn_piece(m.cols, draws[0]);
            &&& r.grid == frozen
            &&& r.score == m.score
            &&& r.cleared.len() == 0
            &&& r.over <==> collides(frozen, next.cells())
            &&& !r.over ==> r.piece == next && r.piece.origin == (Position {
                x: (m.cols / 2) as i32,
                y: 1,
            })
            &&& r.over ==> r.piece == m.piece
        }),
{
    let m0 = BoardModel { last_tick: time, cleared: seq![], ..m };
    let m1 = BoardModel { keys: seq![], ..m0 };
    assert(m1.run_keys(m.keys, draws) == m1);
    let frozen = freeze(m.grid, m.piece.cells());
    lemma_no_full_row(frozen, 0);
    assert(frozen.subrange(0, frozen.len() as int) =~= frozen);
    assert(empty_rows(0, m.cols) =~= seq![]);
    let r = m.update(time, draws);
    assert(r.grid =~= frozen);
}

} // verus!
