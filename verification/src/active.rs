use vstd::prelude::*;

use crate::geom::{padd, add_fits, Point};
use crate::piece::{rot_count, shape_offsets, Piece};

verus! {

/// The piece currently under player control. Every transformation returns a
/// fresh value, so a candidate move can be collision-tested and discarded
/// without touching the committed state.
///
/// `fine_steps` counts how many ticks of cosmetic sub-cell interpolation have
/// passed since the piece last settled on a new row; the renderer divides it
/// by the current speed to recover the fractional row offset. It never
/// affects collision.
#[derive(Copy, Clone, PartialEq, Eq, Structural, Debug)]
pub struct ActivePiece {
    pub piece: Piece,
    pub position: Point,
    pub rotation: u32,
    pub dropping: bool,
    pub fine_steps: u32,
}

/// The rotation state the piece is in: its stored index modulo the kind's
/// rotation-state count.
pub open spec fn rot_of(ap: ActivePiece) -> int {
    ap.rotation as int % rot_count(ap.piece)
}

/// The four absolute grid cells of the piece: its rotation state's local
/// cells shifted by its position.
pub open spec fn shape_abs(ap: ActivePiece) -> Seq<Point> {
    shape_offsets(ap.piece, rot_of(ap)).map(|i: int, q: Point| padd(q, ap.position))
}

/// True when shifting any local cell (coordinates in `[0, 3]`) by `p` stays
/// within `i32`.
pub open spec fn pos_fits(p: Point) -> bool {
    p.x + 3 <= i32::MAX && p.y + 3 <= i32::MAX
}

/// The spawn state of a freshly activated piece of kind `p`.
pub open spec fn spec_spawn(p: Piece) -> ActivePiece {
    ActivePiece {
        piece: p,
        position: Point { x: 3, y: -3i32 },
        rotation: 0,
        dropping: false,
        fine_steps: 0,
    }
}

impl ActivePiece {
    /// A freshly spawned piece of kind `piece`, at the default spawn
    /// position and rotation.
    pub fn new(piece: Piece) -> (r: ActivePiece)
        ensures
            r == spec_spawn(piece),
    {
        ActivePiece {
            piece,
            position: Point { x: 3, y: -3 },
            rotation: 0,
            dropping: false,
            fine_steps: 0,
        }
    }

    /// The four absolute grid cells of the piece.
    pub fn shape(&self) -> (r: Vec<Point>)
        requires
            pos_fits(self.position),
        ensures
            r@ == shape_abs(*self),
    {
        let shapes = self.piece.shapes();
        let count = shapes.len();
        let rot = (self.rotation as usize) % count;
        let state = &shapes[rot];
        proof {
            crate::piece::lemma_shape_table(self.piece, rot as int);
        }
        let mut out: Vec<Point> = Vec::new();
        let mut i: usize = 0;
        while i < state.len()
            invariant
                state@ == shape_offsets(self.piece, rot_of(*self)),
                state@.len() == 4,
                pos_fits(self.position),
                forall|j: int|
                    0 <= j < 4 ==> 0 <= (#[trigger] shape_offsets(self.piece, rot_of(*self))[j]).x <= 3
                        && 0 <= shape_offsets(self.piece, rot_of(*self))[j].y <= 3,
                i <= state@.len(),
                out@ == shape_abs(*self).subrange(0, i as int),
            decreases state@.len() - i,
        {
            let q = state[i];
            out.push(Point { x: q.x + self.position.x, y: q.y + self.position.y });
            proof {
                assert(out@ =~= shape_abs(*self).subrange(0, i + 1));
            }
            i += 1;
        }
        proof {
            assert(out@ =~= shape_abs(*self));
        }
        out
    }

    /// The same piece with its hard-drop intent flag set.
    pub fn drop(&self) -> (r: ActivePiece)
        ensures
            r == (ActivePiece { dropping: true, ..*self }),
    {
        ActivePiece { dropping: true, ..*self }
    }

    /// The piece shifted by `offset`.
    pub fn do_move(&self, offset: Point) -> (r: ActivePiece)
        requires
            add_fits(self.position, offset),
        ensures
            r == (ActivePiece { position: padd(self.position, offset), ..*self }),
    {
        ActivePiece { position: crate::geom::add(self.position, offset), ..*self }
    }

    /// One more tick of cosmetic sub-cell interpolation (saturating; the
    /// counter is reset whenever the piece settles on a new row).
    pub fn animate_lower(&mut self)
        ensures
            *final(self) == (ActivePiece {
                fine_steps: if old(self).fine_steps < u32::MAX { (old(self).fine_steps + 1) as u32 } else { u32::MAX },
                ..*old(self)
            }),
    {
        if self.fine_steps < u32::MAX {
            self.fine_steps = self.fine_steps + 1;
        }
    }

    /// The piece one cell further down, with the cosmetic interpolation
    /// counter reset.
    pub fn lower(&self) -> (r: ActivePiece)
        requires
            self.position.y < i32::MAX,
        ensures
            r == spec_lower(*self),
    {
        ActivePiece {
            position: Point { x: self.position.x, y: self.position.y + 1 },
            fine_steps: 0,
            ..*self
        }
    }

    /// The piece advanced to its next rotation state. The stored index is
    /// first reduced modulo the kind's rotation-state count, so the result
    /// is always a valid state index.
    pub fn rotate_clockwise(&self) -> (r: ActivePiece)
        ensures
            r == (ActivePiece {
                rotation: ((rot_of(*self) + 1) % rot_count(self.piece)) as u32,
                ..*self
            }),
    {
        let count = self.piece.rotation_count();
        let rot = self.rotation % count;
        ActivePiece { rotation: (rot + 1) % count, ..*self }
    }

    /// The piece moved back to its previous rotation state; from state 0
    /// this wraps to the last valid state of the kind, never to a negative
    /// or out-of-range index.
    pub fn rotate_counterclockwise(&self) -> (r: ActivePiece)
        ensures
            r == (ActivePiece {
                rotation: ((rot_of(*self) + rot_count(self.piece) - 1) % rot_count(self.piece)) as u32,
                ..*self
            }),
            rot_of(r) == (rot_of(*self) + rot_count(self.piece) - 1) % rot_count(self.piece),
    {
        let count = self.piece.rotation_count();
        let rot = self.rotation % count;
        let r = ActivePiece { rotation: (rot + count - 1) % count, ..*self };
        proof {
            assert(r.rotation < rot_count(r.piece));
            assert(rot_of(r) == r.rotation as int);
        }
        r
    }
}

/// The piece one cell further down, with the cosmetic counter reset.
pub open spec fn spec_lower(ap: ActivePiece) -> ActivePiece {
    ActivePiece {
        position: Point { x: ap.position.x, y: (ap.position.y + 1) as i32 },
        fine_steps: 0,
        ..ap
    }
}

/// The absolute cells of any piece are exactly 4 pairwise-distinct points.
pub proof fn lemma_shape_distinct(ap: ActivePiece)
    requires
        pos_fits(ap.position),
    ensures
        shape_abs(ap).len() == 4,
        forall|i: int, j: int|
            0 <= i < 4 && 0 <= j < 4 && i != j ==> shape_abs(ap)[i] != shape_abs(ap)[j],
{
    crate::piece::lemma_shape_table(ap.piece, rot_of(ap));
    assert forall|i: int, j: int|
        0 <= i < 4 && 0 <= j < 4 && i != j implies shape_abs(ap)[i] != shape_abs(ap)[j] by {
        let a = shape_offsets(ap.piece, rot_of(ap))[i];
        let b = shape_offsets(ap.piece, rot_of(ap))[j];
        assert(a != b);
        assert(shape_abs(ap)[i] == padd(a, ap.position));
        assert(shape_abs(ap)[j] == padd(b, ap.position));
    }
}

} // verus!
