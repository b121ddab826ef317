use tetris_core::game::{key, Input, Tetris};
use tetris_core::piece::Piece;
use tetris_core::sack::PieceSack;

#[test]
fn key_names_map_to_inputs() {
    assert_eq!(key("ArrowUp"), Some(Input::Clockwise));
    assert_eq!(key("ArrowLeft"), Some(Input::Left));
    assert_eq!(key("ArrowRight"), Some(Input::Right));
    assert_eq!(key("ArrowDown"), Some(Input::Down));
    assert_eq!(key("Shift"), Some(Input::CounterClockwise));
    assert_eq!(key("Enter"), Some(Input::Drop));
    assert_eq!(key("Space"), None);
    assert_eq!(key(""), None);
}

fn kinds(sack: &mut PieceSack, n: usize) -> Vec<Piece> {
    (0..n).map(|_| sack.next()).collect()
}

#[test]
fn first_seven_draws_hold_each_kind_once() {
    let mut sack = PieceSack::new();
    let drawn = kinds(&mut sack, 7);
    for kind in [Piece::I, Piece::O, Piece::T, Piece::S, Piece::Z, Piece::J, Piece::L] {
        assert_eq!(drawn.iter().filter(|p| **p == kind).count(), 1);
    }
}

#[test]
fn every_refill_holds_each_kind_once() {
    let mut sack = PieceSack::new();
    for _ in 0..5 {
        let drawn = kinds(&mut sack, 7);
        for kind in [Piece::I, Piece::O, Piece::T, Piece::S, Piece::Z, Piece::J, Piece::L] {
            assert_eq!(drawn.iter().filter(|p| **p == kind).count(), 1);
        }
    }
}

#[test]
fn fresh_game_has_empty_board_and_default_speed() {
    let t = Tetris::new();
    assert_eq!(t.speed, 5);
    assert_eq!(t.drop_timer, 5);
    assert!(t.get_blocks().data.is_empty());
    assert_eq!(t.get_active_piece().data.len(), 4);
    assert_eq!(t.get_next_piece().data.len(), 4);
}

#[test]
fn speed_mapping_from_normalized_input() {
    // The embedding layer maps a normalized speed in [0, 1] through
    // round(21 - speed * 20).
    let fast: i32 = (21.0 - 1.0f64 * 20.0).round() as i32;
    assert_eq!(fast, 1);
    let slow: i32 = (21.0 - 0.0f64 * 20.0).round() as i32;
    assert_eq!(slow, 21);
    let mut t = Tetris::new();
    t.set_speed(fast);
    assert_eq!(t.speed, 1);
    assert_eq!(t.drop_timer, 1);
    t.set_speed(slow);
    assert_eq!(t.speed, 21);
    assert_eq!(t.drop_timer, 21);
}

#[test]
fn hard_drop_freezes_at_the_lowest_row() {
    let mut t = Tetris::new();
    t.handle_input(Input::Drop);
    let r = t.tick();
    assert!(r.frozen);
    assert_eq!(r.lines, 0);
    let blocks = t.get_blocks().data;
    assert_eq!(blocks.len(), 4);
    let max_y = blocks.iter().map(|b| b.point.y).max().unwrap();
    assert_eq!(max_y, 19);
}

#[test]
fn quiet_ticks_do_not_freeze_on_an_empty_board() {
    let mut t = Tetris::new();
    for _ in 0..30 {
        let r = t.tick();
        assert!(!r.frozen);
        assert_eq!(r.lines, 0);
    }
}

#[test]
fn gravity_lowers_the_piece_when_the_countdown_runs_out() {
    let mut t = Tetris::new();
    let y0 = t.active_piece.position.y;
    for _ in 0..5 {
        t.tick();
    }
    assert_eq!(t.active_piece.position.y, y0);
    t.tick();
    assert_eq!(t.active_piece.position.y, y0 + 1);
}

#[test]
fn blocked_moves_are_discarded() {
    let mut t = Tetris::new();
    let x0 = t.active_piece.position.x;
    for _ in 0..20 {
        t.handle_input(Input::Left);
    }
    t.tick();
    let cells = t.get_active_piece().data;
    let min_x = cells.iter().map(|b| b.point.x).min().unwrap();
    assert_eq!(min_x, 0);
    assert!(t.active_piece.position.x < x0);
}

#[test]
fn soft_drop_lowers_once_per_event() {
    let mut t = Tetris::new();
    let y0 = t.active_piece.position.y;
    t.handle_input(Input::Down);
    t.handle_input(Input::Down);
    let r = t.tick();
    assert!(!r.frozen);
    assert_eq!(t.active_piece.position.y, y0 + 2);
}

#[test]
fn drop_preview_rests_on_the_floor() {
    let t = Tetris::new();
    let ghost = t.get_drop_piece().data;
    assert_eq!(ghost.len(), 4);
    let max_y = ghost.iter().map(|b| b.point.y).max().unwrap();
    assert_eq!(max_y, 19);
}

#[test]
fn handle_input_queues_until_the_next_tick() {
    let mut t = Tetris::new();
    t.handle_input(Input::Right);
    assert_eq!(t.events.len(), 1);
    let x0 = t.active_piece.position.x;
    t.tick();
    assert!(t.events.is_empty());
    assert_eq!(t.active_piece.position.x, x0 + 1);
}

#[test]
fn animation_counter_advances_each_tick_and_resets_on_lowering() {
    let mut t = Tetris::new();
    assert_eq!(t.active_piece.fine_steps, 0);
    t.tick();
    assert_eq!(t.active_piece.fine_steps, 1);
    for _ in 0..4 {
        t.tick();
    }
    assert_eq!(t.active_piece.fine_steps, 5);
    t.tick();
    assert_eq!(t.active_piece.fine_steps, 0);
}
