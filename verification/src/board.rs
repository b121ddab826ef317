use vstd::prelude::*;

use crate::active::{pos_fits, shape_abs, spec_lower, ActivePiece};
use crate::cells::{coord_of, grid_collide, lemma_coord_index, lemma_index_coord, Cells};
use crate::geom::Point;
use crate::piece::Piece;

verus! {

/// Owner of the play-field grid; collision, freezing and line clearing work
/// on whole pieces here.
pub struct Board {
    pub cells: Cells,
}

/// True when some cell of the piece's shape collides with a `w x h` grid.
pub open spec fn grid_piece_collides(g: Seq<Option<Piece>>, w: int, h: int, ap: ActivePiece) -> bool {
    exists|i: int|
        0 <= i < shape_abs(ap).len() && grid_collide(g, w, h, #[trigger] shape_abs(ap)[i])
}

/// True when some cell of the piece's shape collides with the field.
pub open spec fn piece_collides(c: Cells, ap: ActivePiece) -> bool {
    grid_piece_collides(c.grid@, c.width as int, c.height as int, ap)
}

/// The grid after writing the piece's kind into every in-field cell of its
/// shape (cells above the field are absorbed silently).
pub open spec fn spec_freeze(g: Seq<Option<Piece>>, w: int, ap: ActivePiece) -> Seq<
    Option<Piece>,
> {
    Seq::new(
        g.len(),
        |i: int|
            if shape_abs(ap).contains(coord_of(i, w)) {
                Some(ap.piece)
            } else {
                g[i]
            },
    )
}

/// The freeze image restricted to the first `k` cells of `pts`.
pub open spec fn freeze_upto(
    g: Seq<Option<Piece>>,
    w: int,
    pts: Seq<Point>,
    k: int,
    kind: Piece,
) -> Seq<Option<Piece>> {
    Seq::new(
        g.len(),
        |i: int|
            if pts.subrange(0, k).contains(coord_of(i, w)) {
                Some(kind)
            } else {
                g[i]
            },
    )
}

/// Writing one more shape cell extends the freeze image by one point.
proof fn lemma_freeze_step(
    g: Seq<Option<Piece>>,
    w: int,
    h: int,
    pts: Seq<Point>,
    k: int,
    before: Seq<Option<Piece>>,
    after: Seq<Option<Piece>>,
    kind: Piece,
)
    requires
        1 <= w <= i32::MAX,
        1 <= h <= i32::MAX,
        g.len() == w * h,
        0 <= k < pts.len(),
        before == freeze_upto(g, w, pts, k, kind),
        after == if 0 <= pts[k].x < w && 0 <= pts[k].y < h {
            before.update(pts[k].y * w + pts[k].x, Some(kind))
        } else {
            before
        },
    ensures
        after == freeze_upto(g, w, pts, k + 1, kind),
{
    assert(pts.subrange(0, k + 1) =~= pts.subrange(0, k).push(pts[k]));
    if 0 <= pts[k].x < w && 0 <= pts[k].y < h {
        lemma_coord_index(w, h, pts[k].x as int, pts[k].y as int);
    }
    assert forall|i: int| 0 <= i < g.len() implies after[i] == freeze_upto(g, w, pts, k + 1, kind)[i]
        by {
        lemma_index_coord(w, h, i);
        let q = coord_of(i, w);
        if pts.subrange(0, k + 1).contains(q) {
            if pts.subrange(0, k).contains(q) {
                assert(before[i] == Some(kind));
            } else {
                assert(q == pts[k]);
                assert(after[i] == Some(kind));
            }
        } else {
            assert(pts.subrange(0, k + 1)[k] == pts[k]);
            assert(q != pts[k]);
            if 0 <= pts[k].x < w && 0 <= pts[k].y < h {
                assert(coord_of(pts[k].y * w + pts[k].x, w) == pts[k]);
                assert(i != pts[k].y * w + pts[k].x);
            }
            assert(after[i] == g[i]);
        }
    }
    assert(after =~= freeze_upto(g, w, pts, k + 1, kind));
}

impl Board {
    /// Well-formedness of the backing grid.
    pub open spec fn wf(self) -> bool {
        self.cells.wf()
    }

    /// A fresh board with an empty grid.
    pub fn new(width: usize, height: usize) -> (r: Board)
        requires
            1 <= width <= i32::MAX,
            1 <= height <= i32::MAX - 4,
            width * height <= usize::MAX,
        ensures
            r.wf(),
            r.cells.width == width,
            r.cells.height == height,
            r.cells.grid@ == crate::cells::empty_grid((width * height) as nat),
    {
        Board { cells: Cells::new(width, height) }
    }

    /// True when the piece's shape collides with the field.
    pub fn collide(&self, piece: &ActivePiece) -> (r: bool)
        requires
            self.wf(),
            pos_fits(piece.position),
        ensures
            r == piece_collides(self.cells, *piece),
    {
        let cells = piece.shape();
        let mut i: usize = 0;
        while i < cells.len()
            invariant
                self.wf(),
                cells@ == shape_abs(*piece),
                i <= cells@.len(),
                forall|j: int| 0 <= j < i ==> !self.cells.spec_collide(#[trigger] shape_abs(*piece)[j]),
            decreases cells@.len() - i,
        {
            if self.cells.collide(cells[i]) {
                return true;
            }
            i += 1;
        }
        false
    }

    /// Writes the piece's kind into every in-field cell of its shape.
    pub fn freeze(&mut self, piece: &ActivePiece)
        requires
            old(self).wf(),
            pos_fits(piece.position),
        ensures
            final(self).wf(),
            final(self).cells.width == old(self).cells.width,
            final(self).cells.height == old(self).cells.height,
            final(self).cells.grid@ == spec_freeze(
                old(self).cells.grid@,
                old(self).cells.width as int,
                *piece,
            ),
    {
        let ghost g = self.cells.grid@;
        let ghost w = self.cells.width as int;
        let ghost h = self.cells.height as int;
        let pts = piece.shape();
        let mut k: usize = 0;
        proof {
            assert(self.cells.grid@ =~= freeze_upto(g, w, pts@, 0, piece.piece));
        }
        while k < pts.len()
            invariant
                self.wf(),
                self.cells.width == w,
                self.cells.height == h,
                self.cells.grid@.len() == g.len(),
                pts@ == shape_abs(*piece),
                k <= pts@.len(),
                self.cells.grid@ == freeze_upto(g, w, pts@, k as int, piece.piece),
            decreases pts@.len() - k,
        {
            let ghost before = self.cells.grid@;
            self.cells.set(pts[k], Some(piece.piece));
            proof {
                lemma_freeze_step(
                    g,
                    w,
                    h,
                    pts@,
                    k as int,
                    before,
                    self.cells.grid@,
                    piece.piece,
                );
            }
            k += 1;
        }
        proof {
            assert(pts@.subrange(0, pts@.len() as int) =~= pts@);
            assert(self.cells.grid@ =~= spec_freeze(g, w, *piece));
        }
    }

    /// Removes every fully occupied row, compacting the rows above downwards;
    /// returns how many rows were removed.
    pub fn clear_lines(&mut self) -> (r: u32)
        requires
            old(self).wf(),
            old(self).cells.height <= u32::MAX,
        ensures
            final(self).wf(),
            final(self).cells.width == old(self).cells.width,
            final(self).cells.height == old(self).cells.height,
            r as int == crate::cells::full_rows(
                old(self).cells.grid@,
                old(self).cells.width as int,
                old(self).cells.height as int,
            ),
            final(self).cells.grid@ == crate::cells::spec_cleared(
                old(self).cells.grid@,
                old(self).cells.width as int,
                old(self).cells.height as int,
            ),
    {
        self.cells.clear_lines()
    }

    /// Wipes the whole grid.
    pub fn clear(&mut self)
        requires
            old(self).wf(),
        ensures
            final(self).wf(),
            final(self).cells.width == old(self).cells.width,
            final(self).cells.height == old(self).cells.height,
            final(self).cells.grid@ == crate::cells::empty_grid(old(self).cells.grid@.len()),
    {
        self.cells.clear();
    }
}

/// A piece frozen into the field collides at every in-field cell of its
/// shape afterwards, whatever the grid held before.
pub proof fn lemma_frozen_piece_collides(c0: Cells, c1: Cells, ap: ActivePiece)
    requires
        c0.wf(),
        c1.wf(),
        c1.width == c0.width,
        c1.height == c0.height,
        c1.grid@ == spec_freeze(c0.grid@, c0.width as int, ap),
        pos_fits(ap.position),
        forall|i: int|
            0 <= i < shape_abs(ap).len() ==> c0.spec_in_bounds(#[trigger] shape_abs(ap)[i]),
    ensures
        forall|i: int|
            0 <= i < shape_abs(ap).len() ==> c1.spec_collide(#[trigger] shape_abs(ap)[i]),
{
    let w = c0.width as int;
    let h = c0.height as int;
    assert forall|i: int| 0 <= i < shape_abs(ap).len() implies c1.spec_collide(
        #[trigger] shape_abs(ap)[i],
    ) by {
        let q = shape_abs(ap)[i];
        lemma_coord_index(w, h, q.x as int, q.y as int);
        assert(coord_of(q.y * w + q.x, w) == q);
        assert(shape_abs(ap).contains(coord_of(q.y * w + q.x, w)));
        assert(c1.at(q.x as int, q.y as int) == Some(ap.piece));
    }
}

} // verus!

verus! {

/// A piece that does not collide sits with its anchor inside a small margin
/// around the field: at most 3 columns left of it, above its right edge, and
/// above its floor.
pub proof fn lemma_noncolliding_bounds(c: Cells, ap: ActivePiece)
    requires
        c.wf(),
        pos_fits(ap.position),
        !piece_collides(c, ap),
    ensures
        -3 <= ap.position.x <= c.width - 1,
        ap.position.y <= c.height - 1,
{
    crate::piece::lemma_shape_table(ap.piece, crate::active::rot_of(ap));
    let off = crate::piece::shape_offsets(ap.piece, crate::active::rot_of(ap))[0];
    let q = shape_abs(ap)[0];
    assert(!c.spec_collide(q));
    assert(q == crate::geom::padd(off, ap.position));
    assert(0 <= q.x < c.width);
    assert(q.y <= c.height - 1);
}

/// The fuel that always suffices for `grid_settle_from` to reach the
/// resting row of a `h`-row field.
pub open spec fn grid_settle_fuel(h: int, ap: ActivePiece) -> nat {
    if ap.position.y <= h {
        (h + 4 - ap.position.y) as nat
    } else {
        4
    }
}

/// Lowers the piece while one more row would not collide, up to `fuel` rows.
pub open spec fn grid_settle_from(
    g: Seq<Option<Piece>>,
    w: int,
    h: int,
    ap: ActivePiece,
    fuel: nat,
) -> ActivePiece
    decreases fuel,
{
    if fuel == 0 {
        ap
    } else if grid_piece_collides(g, w, h, spec_lower(ap)) {
        ap
    } else {
        grid_settle_from(g, w, h, spec_lower(ap), (fuel - 1) as nat)
    }
}

/// The resting state of the piece: lowered row by row until one more row
/// would collide.
pub open spec fn grid_settle(g: Seq<Option<Piece>>, w: int, h: int, ap: ActivePiece) -> ActivePiece {
    grid_settle_from(g, w, h, ap, grid_settle_fuel(h, ap))
}

/// `grid_settle` over the field's view.
pub open spec fn spec_settle(c: Cells, ap: ActivePiece) -> ActivePiece {
    grid_settle(c.grid@, c.width as int, c.height as int, ap)
}

/// Where a hard drop freezes the piece on a `w x h` grid: its resting
/// state, or the piece unchanged when its own cells already collide.
pub open spec fn grid_drop(g: Seq<Option<Piece>>, w: int, h: int, ap: ActivePiece) -> ActivePiece {
    if grid_piece_collides(g, w, h, ap) {
        ap
    } else {
        grid_settle(g, w, h, ap)
    }
}

/// `grid_drop` over the field's view.
pub open spec fn spec_drop(c: Cells, ap: ActivePiece) -> ActivePiece {
    grid_drop(c.grid@, c.width as int, c.height as int, ap)
}

/// One unfolding step of `spec_settle` on a non-colliding piece.
pub proof fn lemma_settle_unfold(c: Cells, ap: ActivePiece)
    requires
        c.wf(),
        c.height <= i32::MAX - 4,
        pos_fits(ap.position),
        !piece_collides(c, ap),
    ensures
        piece_collides(c, spec_lower(ap)) ==> spec_settle(c, ap) == ap,
        !piece_collides(c, spec_lower(ap)) ==> spec_settle(c, ap) == spec_settle(
            c,
            spec_lower(ap),
        ) && pos_fits(spec_lower(ap).position),
{
    lemma_noncolliding_bounds(c, ap);
    assert(grid_settle_fuel(c.height as int, ap) >= 1);
    if !piece_collides(c, spec_lower(ap)) {
        lemma_noncolliding_bounds(c, spec_lower(ap));
        assert(grid_settle_fuel(c.height as int, spec_lower(ap)) == grid_settle_fuel(
            c.height as int,
            ap,
        ) - 1);
    }
}

/// The resting state keeps the piece's kind, column, rotation and intent
/// flag, never rises, stops inside the field, does not collide, and one more
/// row below it would collide.
pub proof fn lemma_settle_props(c: Cells, ap: ActivePiece)
    requires
        c.wf(),
        c.height <= i32::MAX - 4,
        pos_fits(ap.position),
        !piece_collides(c, ap),
    ensures
        spec_settle(c, ap).piece == ap.piece,
        spec_settle(c, ap).rotation == ap.rotation,
        spec_settle(c, ap).dropping == ap.dropping,
        spec_settle(c, ap).position.x == ap.position.x,
        ap.position.y <= spec_settle(c, ap).position.y <= c.height - 1,
        pos_fits(spec_settle(c, ap).position),
        !piece_collides(c, spec_settle(c, ap)),
        piece_collides(c, spec_lower(spec_settle(c, ap))),
    decreases c.height - ap.position.y,
{
    lemma_noncolliding_bounds(c, ap);
    lemma_settle_unfold(c, ap);
    if !piece_collides(c, spec_lower(ap)) {
        lemma_noncolliding_bounds(c, spec_lower(ap));
        lemma_settle_props(c, spec_lower(ap));
    }
}

impl Board {
    /// The resting state of the piece under a hard drop: lowered until one
    /// more row would collide, or unchanged when it already collides.
    pub fn drop_piece(&self, ap: &ActivePiece) -> (r: ActivePiece)
        requires
            self.wf(),
            self.cells.height <= i32::MAX - 4,
            pos_fits(ap.position),
        ensures
            r == spec_drop(self.cells, *ap),
    {
        if self.collide(ap) {
            return *ap;
        }
        proof {
            lemma_noncolliding_bounds(self.cells, *ap);
        }
        let mut piece = *ap;
        let mut next = piece.lower();
        let mut blocked = self.collide(&next);
        while !blocked
            invariant
                self.wf(),
                self.cells.height <= i32::MAX - 4,
                pos_fits(piece.position),
                !piece_collides(self.cells, piece),
                piece.position.y <= self.cells.height - 1,
                next == spec_lower(piece),
                pos_fits(next.position),
                blocked == piece_collides(self.cells, next),
                spec_settle(self.cells, piece) == spec_settle(self.cells, *ap),
            decreases self.cells.height - piece.position.y,
        {
            proof {
                lemma_settle_unfold(self.cells, piece);
                lemma_noncolliding_bounds(self.cells, next);
            }
            piece = next;
            next = piece.lower();
            blocked = self.collide(&next);
        }
        proof {
            lemma_settle_unfold(self.cells, piece);
        }
        piece
    }

    /// The cells of the drop preview: the resting shape of the piece, or no
    /// cells at all when the piece's own position already collides.
    pub fn drop_cells(&self, ap: &ActivePiece) -> (r: Vec<Point>)
        requires
            self.wf(),
            self.cells.height <= i32::MAX - 4,
            pos_fits(ap.position),
        ensures
            piece_collides(self.cells, *ap) ==> r@ == Seq::<Point>::empty(),
            !piece_collides(self.cells, *ap) ==> r@ == shape_abs(spec_settle(self.cells, *ap)),
    {
        if self.collide(ap) {
            Vec::new()
        } else {
            let s = self.drop_piece(ap);
            proof {
                lemma_settle_props(self.cells, *ap);
            }
            s.shape()
        }
    }

    /// Every occupied cell of the board, in row-major order, with its
    /// coordinates and its piece kind.
    pub fn points(&self) -> (r: Vec<(Point, Piece)>)
        requires
            self.wf(),
        ensures
            r@ == crate::cells::spec_points(
                self.cells.grid@,
                self.cells.width as int,
                self.cells.grid@.len() as int,
            ),
    {
        self.cells.points()
    }
}

} // verus!
