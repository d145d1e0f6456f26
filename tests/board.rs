use tetris::board::Board;
use tetris::geometry::Position;
use tetris::model::{DROP_INTERVAL, ROW_SCORE};
use tetris::piece::{Orientation, Shape};

/// Queues `keys`, then runs one frame at `time` in which every spawn uses
/// `shape`.
fn frame(b: &mut Board, time: u64, keys: &[&str], shape: Shape) {
    for k in keys {
        b.keydown(k.to_string());
    }
    let draws = vec![shape; b.pending_commands().len() + 1];
    b.update_with(time, &draws);
}

fn occupied(b: &Board) -> Vec<(usize, usize)> {
    let mut r = Vec::new();
    for (y, row) in b.cells().iter().enumerate() {
        for (x, v) in row.iter().enumerate() {
            if *v {
                r.push((x, y));
            }
        }
    }
    r
}

#[test]
fn new_board_is_empty_with_spawned_piece() {
    let b = Board::new(20, 10);
    assert_eq!(b.rows(), 20);
    assert_eq!(b.cols(), 10);
    assert_eq!(b.cells().len(), 20);
    assert!(b.cells().iter().all(|r| r.len() == 10 && r.iter().all(|c| !*c)));
    assert_eq!(b.active_piece().get_origin(), Position { x: 5, y: 1 });
    assert_eq!(b.score(), 0);
    assert!(!b.is_paused());
    assert!(!b.is_game_over());
}

#[test]
fn two_left_moves_of_a_square() {
    let mut b = Board::with_shape(20, 10, Shape::Square);
    assert_eq!(b.active_piece().get_origin(), Position { x: 5, y: 1 });
    frame(&mut b, 1, &["ArrowLeft", "ArrowLeft"], Shape::Square);
    assert_eq!(b.active_piece().get_origin(), Position { x: 3, y: 1 });
    assert!(occupied(&b).is_empty());
    assert!(!b.is_game_over());
    assert!(b.pending_commands().is_empty());
}

#[test]
fn moves_stop_at_the_wall() {
    let mut b = Board::with_shape(20, 10, Shape::Square);
    frame(&mut b, 1, &["ArrowRight"; 6], Shape::Square);
    assert_eq!(b.active_piece().get_origin(), Position { x: 8, y: 1 });
    frame(&mut b, 2, &["ArrowLeft"; 12], Shape::Square);
    assert_eq!(b.active_piece().get_origin(), Position { x: 0, y: 1 });
}

#[test]
fn unknown_tokens_are_ignored() {
    let mut b = Board::with_shape(20, 10, Shape::LLeft);
    let before = b.active_piece();
    frame(&mut b, 1, &["KeyQ", "Space"], Shape::LLeft);
    assert_eq!(b.active_piece(), before);
    assert!(b.pending_commands().is_empty());
}

#[test]
fn rotation_against_the_wall_is_corrected() {
    let mut b = Board::with_shape(20, 10, Shape::Line);
    frame(&mut b, 1, &["ArrowRight"; 4], Shape::Line);
    assert_eq!(b.active_piece().get_origin(), Position { x: 9, y: 1 });
    frame(&mut b, 2, &["ArrowUp"], Shape::Line);
    let p = b.active_piece();
    assert_eq!(p.orientation, Orientation::Horizontal);
    assert_eq!(p.get_origin(), Position { x: 7, y: 1 });
    let bb = p.bounding_box();
    assert_eq!((bb.x1, bb.x2), (6, 9));

    let mut c = Board::with_shape(20, 10, Shape::Line);
    frame(&mut c, 1, &["ArrowLeft"; 5], Shape::Line);
    assert_eq!(c.active_piece().get_origin(), Position { x: 0, y: 1 });
    frame(&mut c, 2, &["ArrowDown"], Shape::Line);
    let p = c.active_piece();
    assert_eq!(p.orientation, Orientation::Horizontal);
    assert_eq!(p.get_origin(), Position { x: 1, y: 1 });
}

#[test]
fn projection_and_hard_drop() {
    let mut b = Board::with_shape(20, 10, Shape::Square);
    let proj: Vec<(i32, i32)> = b.project_piece().iter().map(|c| (c.x, c.y)).collect();
    assert_eq!(proj, vec![(5, 18), (5, 19), (6, 18), (6, 19)]);
    assert_eq!(b.active_piece().get_origin(), Position { x: 5, y: 1 });
    frame(&mut b, 1, &["Enter"], Shape::Triangle);
    let mut cells = occupied(&b);
    cells.sort();
    assert_eq!(cells, vec![(5, 18), (5, 19), (6, 18), (6, 19)]);
    let p = b.active_piece();
    assert_eq!(p.shape, Shape::Triangle);
    assert_eq!(p.get_origin(), Position { x: 5, y: 1 });
    assert_eq!(b.score(), 0);
}

#[test]
fn gravity_waits_for_the_interval() {
    let mut b = Board::with_shape(20, 10, Shape::Square);
    frame(&mut b, 100, &[], Shape::Square);
    assert_eq!(b.active_piece().get_origin().y, 1);
    frame(&mut b, 100 + DROP_INTERVAL, &[], Shape::Square);
    assert_eq!(b.active_piece().get_origin().y, 1);
    frame(&mut b, 101 + DROP_INTERVAL, &[], Shape::Square);
    assert_eq!(b.active_piece().get_origin().y, 2);
}

#[test]
fn blocked_drop_freezes_piece_and_spawns() {
    let mut b = Board::with_shape(20, 10, Shape::Square);
    let mut t: u64 = 1;
    frame(&mut b, t, &[], Shape::Square);
    // fall until the square rests on the floor (rows 18 and 19)
    for _ in 0..17 {
        t += DROP_INTERVAL + 1;
        frame(&mut b, t, &[], Shape::Line);
    }
    assert_eq!(b.active_piece().get_origin(), Position { x: 5, y: 18 });
    assert!(occupied(&b).is_empty());
    t += DROP_INTERVAL + 1;
    frame(&mut b, t, &[], Shape::Line);
    let mut cells = occupied(&b);
    cells.sort();
    assert_eq!(cells, vec![(5, 18), (5, 19), (6, 18), (6, 19)]);
    let p = b.active_piece();
    assert_eq!(p.shape, Shape::Line);
    assert_eq!(p.get_origin(), Position { x: 5, y: 1 });
}

#[test]
fn pause_does_not_cause_an_extra_drop() {
    let mut b = Board::with_shape(20, 10, Shape::Square);
    frame(&mut b, 1, &[], Shape::Square);
    frame(&mut b, 40001, &[], Shape::Square);
    b.pause();
    assert!(b.is_paused());
    b.keydown("ArrowLeft".to_string());
    assert!(b.pending_commands().is_empty());
    frame(&mut b, 100000, &[], Shape::Square);
    b.resume();
    assert!(!b.is_paused());
    // 40000 ticks ran before the pause, 9000 after it
    frame(&mut b, 109000, &[], Shape::Square);
    assert_eq!(b.active_piece().get_origin(), Position { x: 5, y: 1 });
    frame(&mut b, 110001, &[], Shape::Square);
    assert_eq!(b.active_piece().get_origin(), Position { x: 5, y: 2 });
}

#[test]
fn paused_update_only_records_the_tick() {
    let mut b = Board::with_shape(20, 10, Shape::Square);
    b.keydown("ArrowLeft".to_string());
    b.pause();
    frame(&mut b, 5, &[], Shape::Square);
    assert_eq!(b.active_piece().get_origin(), Position { x: 5, y: 1 });
    assert_eq!(b.pending_commands().len(), 1);
    b.resume();
    frame(&mut b, 6, &[], Shape::Square);
    assert_eq!(b.active_piece().get_origin(), Position { x: 4, y: 1 });
}

/// Fills row 19 in every column but 0: a horizontal line on columns 4 to 7,
/// a square on columns 8 and 9, an L on columns 1 to 3 (also covering
/// column 3 of row 18).
fn bottom_row_open_at_column_zero() -> Board {
    let mut b = Board::with_shape(20, 10, Shape::Line);
    frame(&mut b, 1, &["ArrowUp", "Enter"], Shape::Square);
    frame(&mut b, 2, &["ArrowRight", "ArrowRight", "ArrowRight", "Enter"], Shape::LRight);
    frame(&mut b, 3, &["ArrowUp", "ArrowLeft", "ArrowLeft", "ArrowLeft", "Enter"], Shape::Line);
    b
}

#[test]
fn completing_the_bottom_row_clears_it() {
    let mut b = bottom_row_open_at_column_zero();
    assert_eq!(b.score(), 0);
    assert_eq!(b.cells()[19], vec![false, true, true, true, true, true, true, true, true, true]);
    assert_eq!(b.active_piece().shape, Shape::Line);
    frame(&mut b, 4, &["ArrowLeft"; 5], Shape::Line);
    assert_eq!(b.active_piece().get_origin(), Position { x: 0, y: 1 });
    frame(&mut b, 5, &["Enter"], Shape::Square);
    assert_eq!(b.score(), ROW_SCORE);
    assert_eq!(b.score(), 1000);
    assert_eq!(b.line_clears(), &vec![19]);
    assert!(b.cells()[0].iter().all(|c| !*c));
    // old row 18 moved down to the bottom
    assert_eq!(b.cells()[19], vec![true, false, false, true, false, false, false, false, true, true]);
    assert_eq!(b.cells()[18], vec![true, false, false, false, false, false, false, false, false, false]);
    assert_eq!(b.cells()[17], vec![true, false, false, false, false, false, false, false, false, false]);
    assert!(b.cells()[16].iter().all(|c| !*c));
    // the report lasts one update
    frame(&mut b, 6, &[], Shape::Square);
    assert!(b.line_clears().is_empty());
    assert_eq!(b.score(), 1000);
}

#[test]
fn two_complete_rows_clear_together() {
    let mut b = Board::with_shape(20, 10, Shape::Square);
    // five squares side by side fill rows 18 and 19
    frame(&mut b, 1, &["ArrowLeft"; 5], Shape::Square);
    frame(&mut b, 2, &["Enter"], Shape::Square);
    frame(&mut b, 3, &["ArrowLeft", "ArrowLeft", "ArrowLeft", "Enter"], Shape::Square);
    frame(&mut b, 4, &["ArrowLeft", "Enter"], Shape::Square);
    frame(&mut b, 5, &["ArrowRight", "Enter"], Shape::Square);
    assert_eq!(b.score(), 0);
    frame(&mut b, 6, &["ArrowRight", "ArrowRight", "ArrowRight", "Enter"], Shape::Square);
    assert_eq!(b.score(), 2 * ROW_SCORE);
    assert_eq!(b.line_clears(), &vec![19, 18]);
    assert!(occupied(&b).is_empty());
}

#[test]
fn blocked_spawn_ends_the_game() {
    let mut b = Board::with_shape(20, 10, Shape::Line);
    frame(&mut b, 1, &["Enter"; 4], Shape::Line);
    assert!(!b.is_game_over());
    assert_eq!(occupied(&b).len(), 16);
    frame(&mut b, 2, &["Enter", "Enter", "ArrowLeft"], Shape::Line);
    assert!(b.is_game_over());
    let mut cells = occupied(&b);
    cells.sort();
    let column: Vec<(usize, usize)> = (0..20).map(|y| (5, y)).collect();
    assert_eq!(cells, column);
    assert_eq!(b.active_piece().get_origin(), Position { x: 5, y: 1 });
    // nothing more happens
    b.keydown("ArrowLeft".to_string());
    assert!(b.pending_commands().is_empty());
    b.pause();
    assert!(!b.is_paused());
    frame(&mut b, 2 + 10 * DROP_INTERVAL, &[], Shape::Line);
    assert_eq!(occupied(&b).len(), 20);
    assert!(b.is_game_over());
}

#[test]
fn random_spawns_start_at_the_spawn_point() {
    let mut b = Board::new(20, 10);
    for (i, t) in (1..=3u64).enumerate() {
        b.keydown("Enter".to_string());
        b.update(t);
        assert_eq!(occupied(&b).len(), 4 * (i + 1));
        let p = b.active_piece();
        assert_eq!(p.get_origin(), Position { x: 5, y: 1 });
        assert_eq!(b.last_tick(), t);
        assert!(!b.is_game_over());
    }
}

#[test]
fn score_is_kept_while_nothing_clears() {
    let mut b = Board::with_shape(20, 10, Shape::ZRight);
    frame(&mut b, 1, &["ArrowDown", "Enter"], Shape::ZLeft);
    frame(&mut b, 2, &["ArrowLeft", "ArrowLeft", "Enter"], Shape::Triangle);
    assert_eq!(b.score(), 0);
    assert!(b.line_clears().is_empty());
    assert_eq!(occupied(&b).len(), 8);
}

#[test]
fn resume_without_pause_moves_the_drop_timer() {
    let mut b = Board::with_shape(20, 10, Shape::Square);
    frame(&mut b, 1, &[], Shape::Square);
    frame(&mut b, 30001, &[], Shape::Square);
    // never paused: the pause is taken to have begun at tick 0
    b.resume();
    assert!(!b.is_paused());
    frame(&mut b, 80002, &[], Shape::Square);
    assert_eq!(b.active_piece().get_origin(), Position { x: 5, y: 1 });
    frame(&mut b, 80003, &[], Shape::Square);
    assert_eq!(b.active_piece().get_origin(), Position { x: 5, y: 2 });
}

#[test]
fn resume_after_game_over_changes_nothing() {
    let mut b = Board::with_shape(20, 10, Shape::Line);
    frame(&mut b, 1, &["Enter"; 6], Shape::Line);
    assert!(b.is_game_over());
    let before = b.active_piece();
    b.resume();
    assert!(b.is_game_over());
    assert!(!b.is_paused());
    assert_eq!(b.active_piece(), before);
}
