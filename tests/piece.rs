use tetris::geometry::Position;
use tetris::model::Command;
use tetris::piece::{COORD_LIMIT, Orientation, Piece, Shape};

const ALL_SHAPES: [Shape; 7] = [
    Shape::Line,
    Shape::Square,
    Shape::LLeft,
    Shape::LRight,
    Shape::ZLeft,
    Shape::ZRight,
    Shape::Triangle,
];

fn cells(p: &Piece) -> Vec<(i32, i32)> {
    p.mask().iter().map(|c| (c.x, c.y)).collect()
}

#[test]
fn every_orientation_has_four_distinct_cells_in_its_box() {
    for shape in ALL_SHAPES {
        let mut p = Piece::new(shape, 5, 5);
        for _ in 0..4 {
            let m = cells(&p);
            assert_eq!(m.len(), 4);
            for i in 0..4 {
                for j in 0..4 {
                    if i != j {
                        assert_ne!(m[i], m[j]);
                    }
                }
            }
            let bb = p.bounding_box();
            for (x, y) in &m {
                assert!(bb.x1 <= *x && *x <= bb.x2 && bb.y1 <= *y && *y <= bb.y2);
            }
            // the box is tight
            assert!(m.iter().any(|c| c.0 == bb.x1));
            assert!(m.iter().any(|c| c.0 == bb.x2));
            assert!(m.iter().any(|c| c.1 == bb.y1));
            assert!(m.iter().any(|c| c.1 == bb.y2));
            p.rotate_left();
        }
    }
}

#[test]
fn new_pieces_start_in_first_orientation() {
    assert_eq!(Piece::new(Shape::Line, 1, 2).orientation, Orientation::Vertical);
    assert_eq!(Piece::new(Shape::Square, 1, 2).orientation, Orientation::Single);
    assert_eq!(Piece::new(Shape::LLeft, 1, 2).orientation, Orientation::Up);
    assert_eq!(Piece::new(Shape::LRight, 1, 2).orientation, Orientation::Up);
    assert_eq!(Piece::new(Shape::ZLeft, 1, 2).orientation, Orientation::Horizontal);
    assert_eq!(Piece::new(Shape::ZRight, 1, 2).orientation, Orientation::Horizontal);
    assert_eq!(Piece::new(Shape::Triangle, 1, 2).orientation, Orientation::Up);
    assert_eq!(Piece::new(Shape::Triangle, 1, 2).get_origin(), Position { x: 1, y: 2 });
}

#[test]
fn line_masks() {
    let mut p = Piece::new(Shape::Line, 5, 1);
    assert_eq!(cells(&p), vec![(5, 0), (5, 1), (5, 2), (5, 3)]);
    let bb = p.bounding_box();
    assert_eq!((bb.x1, bb.y1, bb.x2, bb.y2), (5, 0, 5, 3));
    p.rotate_left();
    assert_eq!(p.orientation, Orientation::Horizontal);
    assert_eq!(cells(&p), vec![(4, 1), (5, 1), (6, 1), (7, 1)]);
    let bb = p.bounding_box();
    assert_eq!((bb.x1, bb.y1, bb.x2, bb.y2), (4, 1, 7, 1));
}

#[test]
fn square_l_z_and_triangle_masks() {
    assert_eq!(cells(&Piece::new(Shape::Square, 0, 0)), vec![(0, 0), (0, 1), (1, 0), (1, 1)]);
    assert_eq!(cells(&Piece::new(Shape::LLeft, 0, 0)), vec![(-1, 1), (0, 1), (0, 0), (0, -1)]);
    assert_eq!(cells(&Piece::new(Shape::LRight, 0, 0)), vec![(1, 1), (0, 1), (0, 0), (0, -1)]);
    assert_eq!(cells(&Piece::new(Shape::ZLeft, 0, 0)), vec![(-1, 0), (0, 0), (0, 1), (1, 1)]);
    assert_eq!(cells(&Piece::new(Shape::ZRight, 0, 0)), vec![(1, 0), (0, 0), (0, 1), (-1, 1)]);
    let mut t = Piece::new(Shape::Triangle, 0, 0);
    assert_eq!(cells(&t), vec![(-1, 0), (0, 0), (1, 0), (0, -1)]);
    t.rotate_left();
    assert_eq!(t.orientation, Orientation::Left);
    assert_eq!(cells(&t), vec![(0, -1), (0, 0), (0, 1), (-1, 0)]);
    let mut l = Piece::new(Shape::LLeft, 2, 3);
    l.rotate_right();
    assert_eq!(l.orientation, Orientation::Right);
    assert_eq!(cells(&l), vec![(1, 2), (1, 3), (2, 3), (3, 3)]);
    let bb = l.bounding_box();
    assert_eq!((bb.x1, bb.y1, bb.x2, bb.y2), (1, 2, 3, 3));
}

#[test]
fn two_state_shapes_toggle() {
    for shape in [Shape::Line, Shape::ZLeft, Shape::ZRight] {
        let start = Piece::new(shape, 4, 4);
        let mut p = start;
        p.rotate_left();
        assert_ne!(p.orientation, start.orientation);
        p.rotate_left();
        assert_eq!(p, start);
    }
}

#[test]
fn four_state_shapes_cycle() {
    for shape in [Shape::LLeft, Shape::LRight, Shape::Triangle] {
        let start = Piece::new(shape, 4, 4);
        let mut p = start;
        let mut seen = vec![p.orientation];
        for _ in 0..3 {
            p.rotate_left();
            seen.push(p.orientation);
        }
        assert_eq!(
            seen,
            vec![Orientation::Up, Orientation::Left, Orientation::Down, Orientation::Right]
        );
        p.rotate_left();
        assert_eq!(p, start);
        p.rotate_right();
        assert_eq!(p.orientation, Orientation::Right);
        p.rotate_left();
        assert_eq!(p, start);
    }
}

#[test]
fn square_ignores_rotation() {
    let start = Piece::new(Shape::Square, 3, 3);
    let mut p = start;
    p.rotate_left();
    assert_eq!(p, start);
    p.rotate_right();
    assert_eq!(p, start);
}

#[test]
fn moves_change_only_the_column() {
    let mut p = Piece::new(Shape::ZLeft, 3, 7);
    p.move_left();
    assert_eq!(p.get_origin(), Position { x: 2, y: 7 });
    p.move_right();
    p.move_right();
    assert_eq!(p.get_origin(), Position { x: 4, y: 7 });
    assert_eq!(p.orientation, Orientation::Horizontal);
    p.set_origin(-1, 0);
    assert_eq!(p.get_origin(), Position { x: -1, y: 0 });
    assert_eq!(Position { x: 1, y: 2 }.add((3, -4)), Position { x: 4, y: -2 });
}

#[test]
fn shapes_by_index() {
    for (i, s) in ALL_SHAPES.iter().enumerate() {
        assert_eq!(Shape::from_index(i as u32), *s);
    }
}

#[test]
fn tokens_map_to_commands() {
    assert_eq!(Command::parse(&"ArrowUp".to_string()), Some(Command::RotateLeft));
    assert_eq!(Command::parse(&"ArrowDown".to_string()), Some(Command::RotateRight));
    assert_eq!(Command::parse(&"ArrowLeft".to_string()), Some(Command::MoveLeft));
    assert_eq!(Command::parse(&"ArrowRight".to_string()), Some(Command::MoveRight));
    assert_eq!(Command::parse(&"Enter".to_string()), Some(Command::HardDrop));
    assert_eq!(Command::parse(&"Space".to_string()), None);
    assert_eq!(Command::parse(&"".to_string()), None);
}

#[test]
fn masks_near_the_coordinate_limit() {
    let p = Piece::new(Shape::Line, COORD_LIMIT, -COORD_LIMIT);
    assert!(p.is_in_range());
    let mut q = p;
    q.rotate_left();
    assert_eq!(
        cells(&q),
        vec![
            (COORD_LIMIT - 1, -COORD_LIMIT),
            (COORD_LIMIT, -COORD_LIMIT),
            (COORD_LIMIT + 1, -COORD_LIMIT),
            (COORD_LIMIT + 2, -COORD_LIMIT)
        ]
    );
    assert_eq!(q.bounding_box().x2, i32::MAX);
    let mut r = Piece::new(Shape::Square, i32::MAX - 1, 0);
    assert!(!r.is_in_range());
    r.move_right();
    assert_eq!(r.get_origin().x, i32::MAX);
}
