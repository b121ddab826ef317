use vstd::prelude::*;

use crate::active::{pos_fits, rot_of, shape_abs, spec_lower, spec_spawn, ActivePiece};
use crate::board::{
    grid_drop, grid_piece_collides, lemma_noncolliding_bounds, lemma_settle_props, spec_freeze,
    Board,
};
use crate::cells::{empty_grid, full_rows, spec_cleared, spec_points};
use crate::geom::{padd, Point};
use crate::piece::{rot_count, spec_display, Piece};
use crate::sack::{full_bag, sack_fold, sack_step, PieceSack};

verus! {

/// One queued player input, consumed once per tick.
#[derive(Copy, Clone, PartialEq, Eq, Structural, Debug)]
pub enum Input {
    Left,
    Right,
    Down,
    Drop,
    Clockwise,
    CounterClockwise,
}

/// One rendered cell: a grid position and the piece kind occupying it.
#[derive(Copy, Clone, PartialEq, Eq, Structural, Debug)]
pub struct Block {
    pub point: Point,
    pub piece: Piece,
}

/// A render-facing list of cells, recomputed on demand.
pub struct BlockData {
    pub data: Vec<Block>,
}

/// What one tick reports: how many rows were cleared and whether a piece
/// froze into the board.
#[derive(Copy, Clone, PartialEq, Eq, Structural, Debug)]
pub struct TickState {
    pub lines: u32,
    pub frozen: bool,
}

/// The whole game state that one tick transforms, as mathematical values
/// (the piece sack stands outside: its draws enter the tick relation as
/// explicit witnesses).
#[verifier::ext_equal]
pub struct GameView {
    pub board: Seq<Option<Piece>>,
    pub active: ActivePiece,
    pub next: Piece,
    pub speed: i32,
    pub timer: i32,
}

/// The game controller: board, piece sack, queued next piece, active piece,
/// pending inputs, and the gravity countdown.
pub struct Tetris {
    pub sack: PieceSack,
    pub next_piece: Piece,
    pub active_piece: ActivePiece,
    pub events: Vec<Input>,
    pub board: Board,
    pub speed: i32,
    pub drop_timer: i32,
}

/// The active piece's anchor never leaves a small margin around the
/// 10 x 20 field.
pub open spec fn piece_ok(ap: ActivePiece) -> bool {
    -3 <= ap.position.x <= 9 && -3 <= ap.position.y <= 20
}

/// The candidate transformation an input asks for, applied to the current
/// active piece.
pub open spec fn spec_candidate(ap: ActivePiece, ev: Input) -> ActivePiece {
    match ev {
        Input::Left => ActivePiece { position: padd(ap.position, Point { x: -1i32, y: 0 }), ..ap },
        Input::Right => ActivePiece { position: padd(ap.position, Point { x: 1, y: 0 }), ..ap },
        Input::Down => spec_lower(ap),
        Input::Drop => ActivePiece { dropping: true, ..ap },
        Input::Clockwise => ActivePiece {
            rotation: ((rot_of(ap) + 1) % rot_count(ap.piece)) as u32,
            ..ap
        },
        Input::CounterClockwise => ActivePiece {
            rotation: ((rot_of(ap) + rot_count(ap.piece) - 1) % rot_count(ap.piece)) as u32,
            ..ap
        },
    }
}

/// The piece swap after a freeze: the queued piece spawns, a fresh piece is
/// drawn, the gravity countdown restarts, and a spawn that immediately
/// collides resets the whole board.
pub open spec fn spec_swap(v: GameView, drawn: Piece) -> GameView {
    GameView {
        board: if grid_piece_collides(v.board, 10, 20, spec_spawn(v.next)) {
            empty_grid(200)
        } else {
            v.board
        },
        active: spec_spawn(v.next),
        next: drawn,
        speed: v.speed,
        timer: v.speed,
    }
}

/// A hard drop: the candidate settles to its resting row, freezes there,
/// and the piece swap follows, with `drawn` the freshly drawn piece.
pub open spec fn spec_hard_drop(v: GameView, cand: ActivePiece, drawn: Piece) -> GameView {
    spec_swap(
        GameView { board: spec_freeze(v.board, 10, grid_drop(v.board, 10, 20, cand)), ..v },
        drawn,
    )
}

/// How many hard-drop events a queue holds; each consumes one draw from the
/// sack.
pub open spec fn count_drops(evs: Seq<Input>) -> int
    decreases evs.len(),
{
    if evs.len() == 0 {
        0
    } else {
        (if evs[0] == Input::Drop {
            1int
        } else {
            0int
        }) + count_drops(evs.drop_first())
    }
}

/// Folds the queued inputs over the game state, in arrival order: a
/// hard-drop candidate settles, freezes and swaps (consuming the next
/// draw); any other candidate is committed when it does not collide and
/// discarded when it does. Returns the new state and whether a piece froze.
pub open spec fn spec_inputs(v: GameView, evs: Seq<Input>, draws: Seq<Piece>) -> (GameView, bool)
    decreases evs.len(),
{
    if evs.len() == 0 {
        (v, false)
    } else {
        let cand = spec_candidate(v.active, evs[0]);
        if cand.dropping {
            let v2 = spec_hard_drop(v, cand, draws.first());
            let r = spec_inputs(v2, evs.drop_first(), draws.drop_first());
            (r.0, true)
        } else if !grid_piece_collides(v.board, 10, 20, cand) {
            spec_inputs(GameView { active: cand, ..v }, evs.drop_first(), draws)
        } else {
            spec_inputs(v, evs.drop_first(), draws)
        }
    }
}

/// The gravity phase of one tick: the countdown decrements and the cosmetic
/// interpolation advances one step; when the countdown has run out, the
/// piece either drops one row or — when the row below is blocked — freezes
/// and swaps (`drawn` being the fresh draw), and the countdown restarts.
pub open spec fn spec_gravity(v: GameView, drawn: Piece) -> (GameView, bool) {
    let t = (v.timer - 1) as i32;
    let animated = ActivePiece {
        fine_steps: if v.active.fine_steps < u32::MAX {
            (v.active.fine_steps + 1) as u32
        } else {
            u32::MAX
        },
        ..v.active
    };
    let lowered = spec_lower(v.active);
    if t < 0 {
        if grid_piece_collides(v.board, 10, 20, lowered) {
            (spec_swap(GameView { board: spec_freeze(v.board, 10, animated), ..v }, drawn), true)
        } else {
            (GameView { active: lowered, timer: v.speed, ..v }, false)
        }
    } else {
        (GameView { active: animated, timer: t, ..v }, false)
    }
}

/// One whole tick: inputs folded in order, then gravity, then line
/// clearing. Returns the final state, the cleared-row count and whether any
/// piece froze.
pub open spec fn spec_tick(v: GameView, evs: Seq<Input>, draws: Seq<Piece>, gdraw: Piece) -> (
    GameView,
    int,
    bool,
) {
    let r_in = spec_inputs(v, evs, draws);
    let r_g = spec_gravity(r_in.0, gdraw);
    let lines = full_rows(r_g.0.board, 10, 20);
    let v3 = GameView { board: spec_cleared(r_g.0.board, 10, 20), ..r_g.0 };
    (v3, lines, r_in.1 || r_g.1)
}

impl Tetris {
    /// Well-formedness: a 10 x 20 board, an active piece near the field
    /// with no pending hard-drop intent, and countdown values whose
    /// decrement cannot underflow.
    pub open spec fn wf(self) -> bool {
        &&& self.board.wf()
        &&& self.board.cells.width == 10
        &&& self.board.cells.height == 20
        &&& piece_ok(self.active_piece)
        &&& self.active_piece.dropping == false
        &&& self.speed > i32::MIN
        &&& self.drop_timer > i32::MIN
    }

    /// This state as mathematical values.
    pub open spec fn gw(self) -> GameView {
        GameView {
            board: self.board.cells.grid@,
            active: self.active_piece,
            next: self.next_piece,
            speed: self.speed,
            timer: self.drop_timer,
        }
    }

    /// A fresh game: empty 10 x 20 board, default speed of 5 ticks per
    /// drop, and an active and a queued piece drawn from a fresh sack — the
    /// two of them plus the pending sack are exactly one full bag.
    pub fn new() -> (r: Tetris)
        ensures
            r.wf(),
            r.events@.len() == 0,
            r.speed == 5,
            r.drop_timer == 5,
            r.board.cells.grid@ == empty_grid(200),
            r.active_piece == spec_spawn(r.active_piece.piece),
            r.sack.pieces@.to_multiset().insert(r.next_piece).insert(r.active_piece.piece)
                == full_bag(),
    {
        let mut sack = PieceSack::new();
        let speed: i32 = 5;
        let width: usize = 10;
        let height: usize = 20;
        let first = sack.next();
        let ghost pending1 = sack.pieces@;
        let second = sack.next();
        proof {
            broadcast use vstd::seq_lib::group_to_multiset_ensures;

            assert(pending1.contains(second));
            assert(pending1.to_multiset().count(second) >= 1);
            assert(pending1.remove(0).to_multiset() == pending1.to_multiset().remove(second));
            assert(pending1.remove(0) =~= pending1.subrange(1, pending1.len() as int));
            assert(sack.pieces@.to_multiset() == pending1.to_multiset().remove(second));
            assert(sack.pieces@.to_multiset().insert(second) =~= pending1.to_multiset());
        }
        Tetris {
            active_piece: ActivePiece::new(first),
            next_piece: second,
            events: Vec::new(),
            board: Board::new(width, height),
            speed,
            drop_timer: speed,
            sack,
        }
    }

    /// Sets the gravity speed (ticks per drop; smaller is faster) and
    /// restarts the countdown from it at once.
    pub fn set_speed(&mut self, speed: i32)
        requires
            speed > i32::MIN,
        ensures
            *final(self) == (Tetris { speed, drop_timer: speed, ..*old(self) }),
    {
        self.speed = speed;
        self.drop_timer = speed;
    }

    /// Appends one input to the queue for the next tick.
    pub fn handle_input(&mut self, input: Input)
        ensures
            final(self).events@ == old(self).events@.push(input),
            *final(self) == (Tetris { events: final(self).events, ..*old(self) }),
    {
        self.events.push(input);
    }

    /// The piece swap after a freeze: the queued piece spawns, a new next
    /// piece is drawn from the sack, the countdown restarts, and a spawn
    /// that immediately collides resets the whole board.
    pub fn swap_piece(&mut self)
        requires
            old(self).board.wf(),
            old(self).board.cells.width == 10,
            old(self).board.cells.height == 20,
            old(self).speed > i32::MIN,
        ensures
            final(self).wf(),
            final(self).gw() == spec_swap(old(self).gw(), final(self).next_piece),
            final(self).events@ == old(self).events@,
            final(self).speed == old(self).speed,
            sack_step(old(self).sack.pieces@, final(self).next_piece, final(self).sack.pieces@),
    {
        self.active_piece = ActivePiece::new(self.next_piece);
        self.next_piece = self.sack.next();
        self.drop_timer = self.speed;
        if self.board.collide(&self.active_piece) {
            self.board.clear();
        }
        proof {
            assert(self.gw() =~= spec_swap(old(self).gw(), self.next_piece));
        }
    }
}

} // verus!

verus! {

/// Appending one event adds its hard-drop count.
proof fn lemma_count_drops_snoc(evs: Seq<Input>, e: Input)
    ensures
        count_drops(evs.push(e)) == count_drops(evs) + if e == Input::Drop {
            1int
        } else {
            0int
        },
    decreases evs.len(),
{
    reveal_with_fuel(count_drops, 3);
    if evs.len() == 0 {
        assert(evs.push(e)[0] == e);
        assert(evs.push(e).drop_first() =~= Seq::<Input>::empty());
    } else {
        assert(evs.push(e)[0] == evs[0]);
        assert(evs.push(e).drop_first() =~= evs.drop_first().push(e));
        lemma_count_drops_snoc(evs.drop_first(), e);
    }
}

/// A queue never holds a negative number of hard drops.
proof fn lemma_count_drops_nonneg(evs: Seq<Input>)
    ensures
        count_drops(evs) >= 0,
    decreases evs.len(),
{
    if evs.len() > 0 {
        lemma_count_drops_nonneg(evs.drop_first());
    }
}

/// Folding a queue splits at any point: the second part starts from where
/// the first part ended, with the draws split accordingly.
proof fn lemma_inputs_append(
    v: GameView,
    evs1: Seq<Input>,
    evs2: Seq<Input>,
    draws1: Seq<Piece>,
    draws2: Seq<Piece>,
)
    requires
        v.active.dropping == false,
        draws1.len() == count_drops(evs1),
    ensures
        spec_inputs(v, evs1 + evs2, draws1 + draws2).0 == spec_inputs(
            spec_inputs(v, evs1, draws1).0,
            evs2,
            draws2,
        ).0,
        spec_inputs(v, evs1 + evs2, draws1 + draws2).1 == (spec_inputs(v, evs1, draws1).1
            || spec_inputs(spec_inputs(v, evs1, draws1).0, evs2, draws2).1),
    decreases evs1.len(),
{
    if evs1.len() == 0 {
        assert(draws1 =~= Seq::<Piece>::empty());
        assert(evs1 + evs2 =~= evs2);
        assert(draws1 + draws2 =~= draws2);
    } else {
        let cand = spec_candidate(v.active, evs1[0]);
        assert((evs1 + evs2)[0] == evs1[0]);
        assert((evs1 + evs2).drop_first() =~= evs1.drop_first() + evs2);
        if cand.dropping {
            assert(evs1[0] == Input::Drop);
            lemma_count_drops_nonneg(evs1.drop_first());
            assert(count_drops(evs1) == 1 + count_drops(evs1.drop_first()));
            assert(draws1.len() >= 1);
            assert((draws1 + draws2).first() == draws1.first());
            assert((draws1 + draws2).drop_first() =~= draws1.drop_first() + draws2);
            let v2 = spec_hard_drop(v, cand, draws1.first());
            assert(v2.active.dropping == false);
            lemma_inputs_append(v2, evs1.drop_first(), evs2, draws1.drop_first(), draws2);
        } else {
            assert(evs1[0] != Input::Drop);
            assert(count_drops(evs1) == count_drops(evs1.drop_first()));
            if !grid_piece_collides(v.board, 10, 20, cand) {
                let v2 = GameView { active: cand, ..v };
                assert(v2.active.dropping == false);
                lemma_inputs_append(v2, evs1.drop_first(), evs2, draws1, draws2);
            } else {
                lemma_inputs_append(v, evs1.drop_first(), evs2, draws1, draws2);
            }
        }
    }
}

/// All the draws one tick makes: one per hard drop, plus one more when the
/// gravity phase froze the piece.
pub open spec fn spec_tick_draws(
    v: GameView,
    evs: Seq<Input>,
    draws: Seq<Piece>,
    gdraw: Piece,
) -> Seq<Piece> {
    if spec_gravity(spec_inputs(v, evs, draws).0, gdraw).1 {
        draws.push(gdraw)
    } else {
        draws
    }
}

impl Tetris {
    /// One frame: drains the queued inputs in order (committing,
    /// discarding, or hard-dropping as each asks), then advances gravity —
    /// lowering the piece, or freezing and swapping it when the row below
    /// is blocked once the countdown runs out — and finally clears full
    /// rows. The result reports the cleared-row count and whether a piece
    /// froze. The new state is `spec_tick` of the old, for some sequence of
    /// sack draws.
    pub fn tick(&mut self) -> (r: TickState)
        requires
            old(self).wf(),
        ensures
            final(self).wf(),
            final(self).events@.len() == 0,
            exists|draws: Seq<Piece>, gdraw: Piece|
                {
                    let t = #[trigger] spec_tick(old(self).gw(), old(self).events@, draws, gdraw);
                    &&& draws.len() == count_drops(old(self).events@)
                    &&& final(self).gw() == t.0
                    &&& r.lines as int == t.1
                    &&& r.frozen == t.2
                    &&& sack_fold(
                        old(self).sack.pieces@,
                        spec_tick_draws(old(self).gw(), old(self).events@, draws, gdraw),
                        final(self).sack.pieces@,
                    )
                },
    {
        let ghost v0 = self.gw();
        let ghost evs0 = self.events@;
        let ghost pend0 = self.sack.pieces@;
        let mut frozen = false;
        let ghost mut draws: Seq<Piece> = Seq::empty();
        let n = self.events.len();
        let mut i: usize = 0;
        proof {
            assert(evs0.subrange(0, 0) =~= Seq::<Input>::empty());
        }
        while i < n
            invariant
                self.wf(),
                n == self.events@.len(),
                self.events@ == evs0,
                i <= n,
                v0.active.dropping == false,
                draws.len() == count_drops(evs0.subrange(0, i as int)),
                spec_inputs(v0, evs0.subrange(0, i as int), draws).0 == self.gw(),
                spec_inputs(v0, evs0.subrange(0, i as int), draws).1 == frozen,
                sack_fold(pend0, draws, self.sack.pieces@),
            decreases n - i,
        {
            let ev = self.events[i];
            let ghost pre = self.gw();
            let ghost draws_pre = draws;
            let ghost frozen_pre = frozen;
            let cand = match ev {
                Input::Left => self.active_piece.do_move(crate::geom::move_left()),
                Input::Right => self.active_piece.do_move(crate::geom::move_right()),
                Input::Down => self.active_piece.lower(),
                Input::Drop => self.active_piece.drop(),
                Input::Clockwise => self.active_piece.rotate_clockwise(),
                Input::CounterClockwise => self.active_piece.rotate_counterclockwise(),
            };
            proof {
                assert(cand == spec_candidate(pre.active, ev));
            }
            let ghost draws_sack_state = self.sack.pieces@;
            if cand.dropping {
                let settled = self.board.drop_piece(&cand);
                proof {
                    if !crate::board::piece_collides(self.board.cells, cand) {
                        lemma_settle_props(self.board.cells, cand);
                    }
                    assert(pos_fits(settled.position));
                    assert(settled == grid_drop(pre.board, 10, 20, cand));
                }
                self.board.freeze(&settled);
                let ghost pend_pre = draws_sack_state;
                self.swap_piece();
                frozen = true;
                proof {
                    crate::sack::lemma_sack_fold_snoc(
                        pend0,
                        draws,
                        pend_pre,
                        self.next_piece,
                        self.sack.pieces@,
                    );
                    draws = draws.push(self.next_piece);
                    assert(self.gw() =~= spec_hard_drop(pre, cand, self.next_piece));
                }
            } else {
                if !self.board.collide(&cand) {
                    proof {
                        lemma_noncolliding_bounds(self.board.cells, cand);
                    }
                    self.active_piece = cand;
                }
            }
            proof {
                let ghost dl: Seq<Piece> = if cand.dropping {
                    seq![draws.last()]
                } else {
                    Seq::<Piece>::empty()
                };
                let evs_i = evs0.subrange(0, i as int);
                lemma_count_drops_snoc(evs_i, ev);
                assert(evs0.subrange(0, i as int + 1) =~= evs_i.push(ev));
                assert(evs_i.push(ev) =~= evs_i + seq![ev]);
                assert(draws =~= draws_pre + dl);
                lemma_inputs_append(v0, evs_i, seq![ev], draws_pre, dl);
                reveal_with_fuel(spec_inputs, 3);
                assert(seq![ev][0] == ev);
                assert(seq![ev].drop_first() =~= Seq::<Input>::empty());
                assert(seq![ev].drop_first().len() == 0);
                let r2 = spec_inputs(pre, seq![ev], dl);
                if cand.dropping {
                    assert(dl.first() == draws.last());
                    assert(r2.0 == spec_hard_drop(pre, cand, draws.last()));
                    assert(r2.1 == true);
                } else if !grid_piece_collides(pre.board, 10, 20, cand) {
                    assert(r2.0 == (GameView { active: cand, ..pre }));
                    assert(self.gw() =~= (GameView { active: cand, ..pre }));
                    assert(r2.1 == false);
                } else {
                    assert(r2.0 == pre);
                    assert(r2.1 == false);
                }
                assert(spec_inputs(v0, evs0.subrange(0, i as int + 1), draws).0 == self.gw());
                assert(spec_inputs(v0, evs0.subrange(0, i as int + 1), draws).1 == frozen);
            }
            i += 1;
        }
        proof {
            assert(evs0.subrange(0, n as int) =~= evs0);
        }
        self.events.clear();
        let ghost vmid = self.gw();
        let ghost frozen_in = frozen;
        self.drop_timer = self.drop_timer - 1;
        let piece = self.active_piece.lower();
        let blocked = self.board.collide(&piece);
        self.active_piece.animate_lower();
        let ghost animated = self.active_piece;
        let ghost pend_mid = self.sack.pieces@;
        if self.drop_timer < 0 {
            if blocked {
                self.board.freeze(&self.active_piece);
                self.swap_piece();
                frozen = true;
                proof {
                    crate::sack::lemma_sack_fold_snoc(
                        pend0,
                        draws,
                        pend_mid,
                        self.next_piece,
                        self.sack.pieces@,
                    );
                }
            } else {
                proof {
                    lemma_noncolliding_bounds(self.board.cells, piece);
                }
                self.active_piece = piece;
            }
            self.drop_timer = self.speed;
        }
        let ghost gdraw = self.next_piece;
        proof {
            assert(piece == spec_lower(vmid.active));
            if ((vmid.timer - 1) as i32) < 0 {
                if grid_piece_collides(vmid.board, 10, 20, piece) {
                    assert(self.gw() =~= spec_swap(
                        GameView { board: spec_freeze(vmid.board, 10, animated), ..vmid },
                        gdraw,
                    ));
                    assert(self.gw() =~= spec_gravity(vmid, gdraw).0);
                } else {
                    assert(self.gw() =~= spec_gravity(vmid, gdraw).0);
                }
            } else {
                assert(self.gw() =~= spec_gravity(vmid, gdraw).0);
            }
            assert(frozen == (frozen_in || spec_gravity(vmid, gdraw).1));
        }
        let ghost vg = self.gw();
        let lines = self.board.clear_lines();
        proof {
            let t = spec_tick(v0, evs0, draws, gdraw);
            assert(spec_inputs(v0, evs0, draws).0 == vmid);
            assert(spec_gravity(vmid, gdraw).0 == vg);
            assert(self.gw() =~= t.0);
            assert(lines as int == t.1);
            assert(frozen == t.2);
            if spec_gravity(vmid, gdraw).1 {
                assert(spec_tick_draws(v0, evs0, draws, gdraw) == draws.push(gdraw));
            } else {
                assert(spec_tick_draws(v0, evs0, draws, gdraw) == draws);
            }
            assert(sack_fold(pend0, spec_tick_draws(v0, evs0, draws, gdraw), self.sack.pieces@));
        }
        TickState { lines, frozen }
    }
}

} // verus!

verus! {

/// Relies on `str`'s `PartialEq`: two string slices are equal exactly when
/// their character sequences are.
#[verifier::external_body]
fn str_eq(a: &str, b: &str) -> (r: bool)
    ensures
        r == (a@ == b@),
{
    a == b
}

/// Which input event a key name maps to; unrecognized names map to none.
pub open spec fn spec_key(s: Seq<char>) -> Option<Input> {
    if s == "ArrowUp"@ {
        Some(Input::Clockwise)
    } else if s == "ArrowLeft"@ {
        Some(Input::Left)
    } else if s == "ArrowRight"@ {
        Some(Input::Right)
    } else if s == "ArrowDown"@ {
        Some(Input::Down)
    } else if s == "Shift"@ {
        Some(Input::CounterClockwise)
    } else if s == "Enter"@ {
        Some(Input::Drop)
    } else {
        None
    }
}

/// Maps a key name to the input event it stands for; unrecognized names
/// yield nothing and are so silently ignored.
pub fn key(name: &str) -> (r: Option<Input>)
    ensures
        r == spec_key(name@),
{
    if str_eq(name, "ArrowUp") {
        Some(Input::Clockwise)
    } else if str_eq(name, "ArrowLeft") {
        Some(Input::Left)
    } else if str_eq(name, "ArrowRight") {
        Some(Input::Right)
    } else if str_eq(name, "ArrowDown") {
        Some(Input::Down)
    } else if str_eq(name, "Shift") {
        Some(Input::CounterClockwise)
    } else if str_eq(name, "Enter") {
        Some(Input::Drop)
    } else {
        None
    }
}

/// The active piece with its interpolation counter zeroed, as the drop
/// preview starts from it.
pub open spec fn drop_shadow(ap: ActivePiece) -> ActivePiece {
    ActivePiece { fine_steps: 0, ..ap }
}

/// Builds one render block per point, all of one kind.
fn blocks_of(points: &Vec<Point>, kind: Piece) -> (r: Vec<Block>)
    ensures
        r@ == points@.map(|i: int, p: Point| Block { point: p, piece: kind }),
{
    let mut data: Vec<Block> = Vec::new();
    let mut i: usize = 0;
    while i < points.len()
        invariant
            i <= points@.len(),
            data@ == points@.map(|j: int, p: Point| Block { point: p, piece: kind }).subrange(
                0,
                i as int,
            ),
        decreases points@.len() - i,
    {
        data.push(Block { point: points[i], piece: kind });
        proof {
            assert(data@ =~= points@.map(|j: int, p: Point| Block { point: p, piece: kind })
                .subrange(0, i as int + 1));
        }
        i += 1;
    }
    proof {
        assert(data@ =~= points@.map(|j: int, p: Point| Block { point: p, piece: kind }));
    }
    data
}

impl Tetris {
    /// The active piece's four cells, each with its kind; the renderer
    /// offsets them vertically by the interpolation fraction minus one row.
    pub fn get_active_piece(&self) -> (r: BlockData)
        requires
            self.wf(),
        ensures
            r.data@ == shape_abs(self.active_piece).map(
                |i: int, p: Point| Block { point: p, piece: self.active_piece.piece },
            ),
    {
        let cells = self.active_piece.shape();
        BlockData { data: blocks_of(&cells, self.active_piece.piece) }
    }

    /// The ghost/drop-preview cells: the resting shape of the active piece
    /// (taken with a zeroed interpolation counter), or no cells at all when
    /// the piece's current position already collides.
    pub fn get_drop_piece(&self) -> (r: BlockData)
        requires
            self.wf(),
        ensures
            grid_piece_collides(self.gw().board, 10, 20, drop_shadow(self.active_piece))
                ==> r.data@.len() == 0,
            !grid_piece_collides(self.gw().board, 10, 20, drop_shadow(self.active_piece))
                ==> r.data@ == shape_abs(
                crate::board::grid_settle(self.gw().board, 10, 20, drop_shadow(self.active_piece)),
            ).map(|i: int, p: Point| Block { point: p, piece: self.active_piece.piece }),
    {
        let shadow = ActivePiece { fine_steps: 0, ..self.active_piece };
        let cells = self.board.drop_cells(&shadow);
        proof {
            if !grid_piece_collides(self.gw().board, 10, 20, shadow) {
                assert(cells@ == shape_abs(
                    crate::board::grid_settle(self.gw().board, 10, 20, shadow),
                ));
            }
        }
        BlockData { data: blocks_of(&cells, self.active_piece.piece) }
    }

    /// The next-piece preview cells, in half-cell units, each with the
    /// queued piece's kind.
    pub fn get_next_piece(&self) -> (r: BlockData)
        ensures
            r.data@ == spec_display(self.next_piece).map(
                |i: int, p: Point| Block { point: p, piece: self.next_piece },
            ),
    {
        let cells = self.next_piece.display();
        BlockData { data: blocks_of(&cells, self.next_piece) }
    }

    /// Every frozen cell of the board with its kind, in row-major order.
    pub fn get_blocks(&self) -> (r: BlockData)
        requires
            self.wf(),
        ensures
            r.data@ == spec_points(self.gw().board, 10, 200).map(
                |i: int, pr: (Point, Piece)| Block { point: pr.0, piece: pr.1 },
            ),
    {
        let pts = self.board.points();
        let mut data: Vec<Block> = Vec::new();
        let mut i: usize = 0;
        proof {
            assert(self.gw().board.len() == 200);
        }
        while i < pts.len()
            invariant
                i <= pts@.len(),
                pts@ == spec_points(self.gw().board, 10, 200),
                data@ == pts@.map(|j: int, pr: (Point, Piece)| Block { point: pr.0, piece: pr.1 })
                    .subrange(0, i as int),
            decreases pts@.len() - i,
        {
            let (p, kind) = pts[i];
            data.push(Block { point: p, piece: kind });
            proof {
                assert(data@ =~= pts@.map(
                    |j: int, pr: (Point, Piece)| Block { point: pr.0, piece: pr.1 },
                ).subrange(0, i as int + 1));
            }
            i += 1;
        }
        proof {
            assert(data@ =~= pts@.map(
                |j: int, pr: (Point, Piece)| Block { point: pr.0, piece: pr.1 },
            ));
        }
        BlockData { data }
    }
}

} // verus!
