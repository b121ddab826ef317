use tetris_core::active::ActivePiece;
use tetris_core::board::Board;
use tetris_core::cells::Cells;
use tetris_core::geom::point;
use tetris_core::piece::Piece;

#[test]
fn empty_board_collides_only_outside() {
    let c = Cells::new(10, 20);
    assert!(c.collide(point(-1, 5)));
    assert!(c.collide(point(10, 5)));
    assert!(c.collide(point(5, 20)));
    assert!(c.collide(point(0, 25)));
    assert!(!c.collide(point(0, 0)));
    assert!(!c.collide(point(9, 19)));
    assert!(!c.collide(point(5, -1)));
    assert!(!c.collide(point(0, -100)));
    assert!(c.collide(point(-1, -1)));
}

#[test]
fn set_and_get_roundtrip() {
    let mut c = Cells::new(10, 20);
    c.set(point(4, 7), Some(Piece::Z));
    assert_eq!(c.get(point(4, 7)), Some(Piece::Z));
    assert_eq!(c.get(point(4, 8)), None);
    assert!(c.collide(point(4, 7)));
    c.set(point(4, 7), None);
    assert!(!c.collide(point(4, 7)));
    c.set(point(-1, 5), Some(Piece::Z));
    assert_eq!(c.get(point(-1, 5)), None);
}

#[test]
fn freeze_makes_every_shape_cell_collide() {
    let mut b = Board::new(10, 20);
    let mut ap = ActivePiece::new(Piece::T);
    ap.position = point(3, 10);
    b.freeze(&ap);
    for p in ap.shape() {
        assert!(b.cells.collide(p));
        assert_eq!(b.cells.get(p), Some(Piece::T));
    }
    assert!(!b.cells.collide(point(0, 0)));
}

#[test]
fn clear_wipes_the_grid() {
    let mut b = Board::new(10, 20);
    let mut ap = ActivePiece::new(Piece::S);
    ap.position = point(2, 12);
    b.freeze(&ap);
    b.clear();
    for x in 0..10 {
        for y in 0..20 {
            assert_eq!(b.cells.get(point(x, y)), None);
        }
    }
}

#[test]
fn one_full_row_clears_and_shifts_down() {
    let mut c = Cells::new(10, 20);
    for x in 0..10 {
        c.set(point(x, 19), Some(Piece::I));
    }
    c.set(point(3, 18), Some(Piece::L));
    let cleared = c.clear_lines();
    assert_eq!(cleared, 1);
    assert_eq!(c.get(point(3, 19)), Some(Piece::L));
    for x in 0..10 {
        if x != 3 {
            assert_eq!(c.get(point(x, 19)), None);
        }
        assert_eq!(c.get(point(x, 18)), None);
        assert_eq!(c.get(point(x, 0)), None);
    }
}

#[test]
fn two_full_rows_clear_together() {
    let mut c = Cells::new(10, 20);
    for x in 0..10 {
        c.set(point(x, 19), Some(Piece::I));
        c.set(point(x, 17), Some(Piece::O));
    }
    c.set(point(6, 18), Some(Piece::J));
    assert_eq!(c.clear_lines(), 2);
    assert_eq!(c.get(point(6, 19)), Some(Piece::J));
    for x in 0..10 {
        assert_eq!(c.get(point(x, 18)), None);
        if x != 6 {
            assert_eq!(c.get(point(x, 19)), None);
        }
    }
}

#[test]
fn no_full_row_clears_nothing() {
    let mut c = Cells::new(10, 20);
    for x in 0..9 {
        c.set(point(x, 19), Some(Piece::I));
    }
    assert_eq!(c.clear_lines(), 0);
    assert_eq!(c.get(point(0, 19)), Some(Piece::I));
}

#[test]
fn drop_cells_empty_when_piece_already_collides() {
    let mut b = Board::new(10, 20);
    let mut frozen = ActivePiece::new(Piece::O);
    frozen.position = point(3, 10);
    b.freeze(&frozen);
    let mut ap = ActivePiece::new(Piece::O);
    ap.position = point(3, 10);
    assert!(b.collide(&ap));
    assert!(b.drop_cells(&ap).is_empty());
}

#[test]
fn drop_cells_settle_on_the_floor() {
    let b = Board::new(10, 20);
    let ap = ActivePiece::new(Piece::I);
    let cells = b.drop_cells(&ap);
    assert_eq!(cells.len(), 4);
    let max_y = cells.iter().map(|p| p.y).max().unwrap();
    assert_eq!(max_y, 19);
}

#[test]
fn drop_piece_rests_on_frozen_stack() {
    let mut b = Board::new(10, 20);
    let mut base = ActivePiece::new(Piece::O);
    base.position = point(3, 15);
    b.freeze(&base);
    let mut ap = ActivePiece::new(Piece::O);
    ap.position = point(3, 0);
    let rest = b.drop_piece(&ap);
    assert_eq!(rest.position, point(3, 13));
}

#[test]
fn board_points_report_frozen_cells() {
    let mut b = Board::new(10, 20);
    let mut ap = ActivePiece::new(Piece::Z);
    ap.position = point(0, 10);
    b.freeze(&ap);
    let pts = b.points();
    assert_eq!(pts.len(), 4);
    for (p, kind) in pts {
        assert_eq!(kind, Piece::Z);
        assert!(b.cells.collide(p));
    }
}

#[test]
fn freeze_absorbs_cells_above_the_field() {
    let mut b = Board::new(10, 20);
    let ap = ActivePiece::new(Piece::T);
    b.freeze(&ap);
    assert_eq!(b.points().len(), 3);
    assert_eq!(b.cells.get(point(4, 0)), Some(Piece::T));
    assert_eq!(b.cells.get(point(5, 0)), Some(Piece::T));
    assert_eq!(b.cells.get(point(6, 0)), Some(Piece::T));
    assert!(!b.cells.collide(point(5, -1)));
}
