use tetris_core::active::ActivePiece;
use tetris_core::geom::point;
use tetris_core::piece::Piece;

fn all_pieces() -> Vec<Piece> {
    vec![Piece::I, Piece::O, Piece::T, Piece::S, Piece::Z, Piece::J, Piece::L]
}

#[test]
fn rotation_state_counts() {
    assert_eq!(Piece::I.shapes().len(), 2);
    assert_eq!(Piece::O.shapes().len(), 1);
    assert_eq!(Piece::T.shapes().len(), 4);
    assert_eq!(Piece::S.shapes().len(), 2);
    assert_eq!(Piece::Z.shapes().len(), 2);
    assert_eq!(Piece::J.shapes().len(), 4);
    assert_eq!(Piece::L.shapes().len(), 4);
}

#[test]
fn every_rotation_state_has_four_distinct_cells() {
    for piece in all_pieces() {
        for state in piece.shapes() {
            assert_eq!(state.len(), 4);
            for i in 0..4 {
                for j in 0..4 {
                    if i != j {
                        assert_ne!(state[i], state[j]);
                    }
                }
            }
        }
    }
}

#[test]
fn shape_offsets_stay_in_local_frame() {
    for piece in all_pieces() {
        for state in piece.shapes() {
            for p in state {
                assert!(0 <= p.x && p.x <= 3);
                assert!(0 <= p.y && p.y <= 3);
            }
        }
    }
}

#[test]
fn shape_adds_position_to_offsets() {
    let mut ap = ActivePiece::new(Piece::O);
    ap.position = point(2, 5);
    let cells = ap.shape();
    assert_eq!(cells.len(), 4);
    assert!(cells.contains(&point(3, 7)));
    assert!(cells.contains(&point(3, 8)));
    assert!(cells.contains(&point(4, 7)));
    assert!(cells.contains(&point(4, 8)));
}

#[test]
fn counterclockwise_from_zero_wraps_to_last_state() {
    let t = ActivePiece::new(Piece::T);
    assert_eq!(t.rotation, 0);
    assert_eq!(t.rotate_counterclockwise().rotation, 3);
    let i = ActivePiece::new(Piece::I);
    assert_eq!(i.rotate_counterclockwise().rotation, 1);
    let o = ActivePiece::new(Piece::O);
    assert_eq!(o.rotate_counterclockwise().rotation, 0);
}

#[test]
fn clockwise_steps_through_states_and_wraps() {
    let t = ActivePiece::new(Piece::T);
    let t1 = t.rotate_clockwise();
    assert_eq!(t1.rotation, 1);
    let t3 = t1.rotate_clockwise().rotate_clockwise();
    assert_eq!(t3.rotation, 3);
    assert_eq!(t3.rotate_clockwise().rotation, 0);
}

#[test]
fn display_uses_half_cell_units() {
    let cells = Piece::I.display();
    assert_eq!(cells.len(), 4);
    assert!(cells.contains(&point(4, 1)));
    assert!(cells.contains(&point(4, 3)));
    assert!(cells.contains(&point(4, 5)));
    assert!(cells.contains(&point(4, 7)));
}

#[test]
fn transformations_are_pure() {
    let ap = ActivePiece::new(Piece::J);
    let moved = ap.do_move(point(1, 0));
    assert_eq!(ap.position, point(3, -3));
    assert_eq!(moved.position, point(4, -3));
    let lowered = ap.lower();
    assert_eq!(lowered.position, point(3, -2));
    assert_eq!(lowered.fine_steps, 0);
    let dropped = ap.drop();
    assert!(dropped.dropping);
    assert!(!ap.dropping);
}
