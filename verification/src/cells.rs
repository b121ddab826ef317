use vstd::prelude::*;

use vstd::arithmetic::div_mod::{
    lemma_fundamental_div_mod, lemma_fundamental_div_mod_converse,
};

use crate::geom::Point;
use crate::piece::Piece;

verus! {

/// The play-field grid: a fixed `width x height` field of optional frozen
/// piece cells, stored row-major, row 0 at the top.
pub struct Cells {
    pub width: usize,
    pub height: usize,
    pub grid: Vec<Option<Piece>>,
}

impl Cells {
    /// Well-formedness: positive dimensions that fit the coordinate type,
    /// and a backing vector of exactly `width * height` cells.
    pub open spec fn wf(self) -> bool {
        &&& 1 <= self.width <= i32::MAX
        &&& 1 <= self.height <= i32::MAX
        &&& self.width * self.height <= usize::MAX
        &&& self.grid@.len() == self.width * self.height
    }

    /// True when `p` lies inside the visible field.
    pub open spec fn spec_in_bounds(self, p: Point) -> bool {
        0 <= p.x < self.width && 0 <= p.y < self.height
    }

    /// The stored cell at in-bounds coordinates `(x, y)`.
    pub open spec fn at(self, x: int, y: int) -> Option<Piece> {
        self.grid@[y * self.width + x]
    }

    /// Collision against the field: any point left or right of the field or
    /// at or below its floor collides; a point above the field (`y < 0`)
    /// with `x` in range never collides; an in-bounds point collides exactly
    /// when its cell is occupied.
    pub open spec fn spec_collide(self, p: Point) -> bool {
        grid_collide(self.grid@, self.width as int, self.height as int, p)
    }
}

/// Collision of a point against a `w x h` grid, stated over the grid's
/// mathematical view.
pub open spec fn grid_collide(g: Seq<Option<Piece>>, w: int, h: int, p: Point) -> bool {
    if p.x < 0 || p.x >= w {
        true
    } else if p.y < 0 {
        false
    } else if p.y >= h {
        true
    } else {
        g[p.y * w + p.x] is Some
    }
}

/// The grid coordinates of row-major index `i`.
pub open spec fn coord_of(i: int, w: int) -> Point {
    Point { x: (i % w) as i32, y: (i / w) as i32 }
}

/// An empty grid of `n` cells.
pub open spec fn empty_grid(n: nat) -> Seq<Option<Piece>> {
    Seq::new(n, |i: int| None::<Piece>)
}

/// Multiplying by a non-negative factor preserves order.
pub proof fn lemma_mul_le(a: int, b: int, w: int)
    requires
        a <= b,
        0 <= w,
    ensures
        a * w <= b * w,
{
    assert(a * w <= b * w) by (nonlinear_arith)
        requires
            a <= b,
            0 <= w,
    ;
}

/// In-bounds coordinates map to an in-range row-major index, and back to
/// themselves.
pub proof fn lemma_coord_index(w: int, h: int, x: int, y: int)
    requires
        1 <= w <= i32::MAX,
        1 <= h <= i32::MAX,
        0 <= x < w,
        0 <= y < h,
    ensures
        0 <= y * w + x < w * h,
        coord_of(y * w + x, w) == (Point { x: x as i32, y: y as i32 }),
{
    assert(0 <= y * w + x < w * h) by (nonlinear_arith)
        requires
            1 <= w,
            0 <= x < w,
            0 <= y < h,
    ;
    lemma_fundamental_div_mod_converse(y * w + x, w, y, x);
}

/// An in-range row-major index maps to in-bounds coordinates whose index is
/// itself.
pub proof fn lemma_index_coord(w: int, h: int, i: int)
    requires
        1 <= w <= i32::MAX,
        1 <= h <= i32::MAX,
        0 <= i < w * h,
    ensures
        0 <= coord_of(i, w).x < w,
        0 <= coord_of(i, w).y < h,
        coord_of(i, w).y * w + coord_of(i, w).x == i,
{
    lemma_fundamental_div_mod(i, w);
    let q = i / w;
    let r = i % w;
    assert(0 <= r < w) by (nonlinear_arith)
        requires
            1 <= w,
            0 <= i,
            r == i % w,
    ;
    assert(0 <= q < h) by (nonlinear_arith)
        requires
            1 <= w,
            0 <= i < w * h,
            i == w * q + r,
            0 <= r < w,
    ;
    assert(q * w + r == i) by (nonlinear_arith)
        requires
            i == w * q + r,
    ;
    assert(coord_of(i, w).x == r as i32);
    assert(coord_of(i, w).y == q as i32);
}

impl Cells {
    /// A fresh, fully empty grid.
    pub fn new(width: usize, height: usize) -> (r: Cells)
        requires
            1 <= width <= i32::MAX,
            1 <= height <= i32::MAX,
            width * height <= usize::MAX,
        ensures
            r.wf(),
            r.width == width,
            r.height == height,
            r.grid@ == empty_grid((width * height) as nat),
    {
        proof {
            assert(width * height >= 1) by (nonlinear_arith)
                requires
                    1 <= width,
                    1 <= height,
            ;
        }
        let n = width * height;
        let mut grid: Vec<Option<Piece>> = Vec::new();
        let mut i: usize = 0;
        while i < n
            invariant
                i <= n,
                grid@.len() == i,
                forall|j: int| 0 <= j < i ==> grid@[j] is None,
            decreases n - i,
        {
            grid.push(None);
            i += 1;
        }
        proof {
            assert(grid@ =~= empty_grid((width * height) as nat));
        }
        Cells { width, height, grid }
    }

    /// Collision test against the field and its boundary.
    pub fn collide(&self, p: Point) -> (r: bool)
        requires
            self.wf(),
        ensures
            r == self.spec_collide(p),
    {
        if p.x < 0 || p.x as usize >= self.width {
            true
        } else if p.y < 0 {
            false
        } else if p.y as usize >= self.height {
            true
        } else {
            proof {
                lemma_coord_index(self.width as int, self.height as int, p.x as int, p.y as int);
            }
            let index: usize = (p.y as usize) * self.width + (p.x as usize);
            self.grid[index].is_some()
        }
    }

    /// Writes `piece` into the cell at `p`; a point outside the field is
    /// silently absorbed.
    pub fn set(&mut self, p: Point, piece: Option<Piece>)
        requires
            old(self).wf(),
        ensures
            final(self).wf(),
            final(self).width == old(self).width,
            final(self).height == old(self).height,
            final(self).grid@ == if old(self).spec_in_bounds(p) {
                old(self).grid@.update(p.y * old(self).width + p.x, piece)
            } else {
                old(self).grid@
            },
    {
        if p.x >= 0 && (p.x as usize) < self.width && p.y >= 0 && (p.y as usize) < self.height {
            proof {
                lemma_coord_index(self.width as int, self.height as int, p.x as int, p.y as int);
            }
            let index: usize = (p.y as usize) * self.width + (p.x as usize);
            self.grid[index] = piece;
        }
    }

    /// The cell stored at `p`, or `None` for a point outside the field.
    pub fn get(&self, p: Point) -> (r: Option<Piece>)
        requires
            self.wf(),
        ensures
            r == if self.spec_in_bounds(p) {
                self.at(p.x as int, p.y as int)
            } else {
                None::<Piece>
            },
    {
        if p.x >= 0 && (p.x as usize) < self.width && p.y >= 0 && (p.y as usize) < self.height {
            proof {
                lemma_coord_index(self.width as int, self.height as int, p.x as int, p.y as int);
            }
            let index: usize = (p.y as usize) * self.width + (p.x as usize);
            self.grid[index]
        } else {
            None
        }
    }

    /// Wipes the whole grid.
    pub fn clear(&mut self)
        requires
            old(self).wf(),
        ensures
            final(self).wf(),
            final(self).width == old(self).width,
            final(self).height == old(self).height,
            final(self).grid@ == empty_grid(old(self).grid@.len()),
    {
        let n = self.grid.len();
        let mut grid: Vec<Option<Piece>> = Vec::new();
        let mut i: usize = 0;
        while i < n
            invariant
                i <= n,
                grid@.len() == i,
                forall|j: int| 0 <= j < i ==> grid@[j] is None,
            decreases n - i,
        {
            grid.push(None);
            i += 1;
        }
        proof {
            assert(grid@ =~= empty_grid(old(self).grid@.len()));
        }
        self.grid = grid;
    }
}

/// On a fresh (empty) board, a point collides exactly when it is left or
/// right of the field or at or below the floor; any in-range point above the
/// field or inside it is free.
pub proof fn lemma_collide_empty_board(c: Cells, p: Point)
    requires
        c.wf(),
        c.grid@ == empty_grid(c.grid@.len()),
    ensures
        c.spec_collide(p) == (p.x < 0 || p.x >= c.width || p.y >= c.height),
        p.y < 0 && 0 <= p.x < c.width ==> !c.spec_collide(p),
{
    if 0 <= p.x < c.width && 0 <= p.y < c.height {
        lemma_coord_index(c.width as int, c.height as int, p.x as int, p.y as int);
        assert(c.at(p.x as int, p.y as int) is None);
    }
}

} // verus!

verus! {

/// Row `y` of the grid, as its own sequence of `w` cells.
pub open spec fn row(g: Seq<Option<Piece>>, w: int, y: int) -> Seq<Option<Piece>> {
    g.subrange(y * w, y * w + w)
}

/// True when every cell of row `y` is occupied.
pub open spec fn row_full(g: Seq<Option<Piece>>, w: int, y: int) -> bool {
    forall|x: int| 0 <= x < w ==> (#[trigger] g[y * w + x]) is Some
}

/// How many of the rows `0 .. y` are fully occupied.
pub open spec fn full_rows(g: Seq<Option<Piece>>, w: int, y: int) -> int
    decreases y,
{
    if y <= 0 {
        0
    } else {
        full_rows(g, w, y - 1) + if row_full(g, w, y - 1) {
            1int
        } else {
            0int
        }
    }
}

/// The rows `0 .. y` that are not fully occupied, concatenated in order.
pub open spec fn kept_cells(g: Seq<Option<Piece>>, w: int, y: int) -> Seq<Option<Piece>>
    decreases y,
{
    if y <= 0 {
        Seq::empty()
    } else {
        kept_cells(g, w, y - 1) + if row_full(g, w, y - 1) {
            Seq::empty()
        } else {
            row(g, w, y - 1)
        }
    }
}

/// The grid after line clearing: every fully occupied row removed, the
/// remaining rows compacted towards the floor, and as many empty rows on top
/// as rows were removed.
pub open spec fn spec_cleared(g: Seq<Option<Piece>>, w: int, h: int) -> Seq<Option<Piece>> {
    empty_grid((full_rows(g, w, h) * w) as nat) + kept_cells(g, w, h)
}

/// `full_rows` counts at most one per row, and the kept rows hold exactly
/// the cells of the rows that were not full.
pub proof fn lemma_full_kept_bounds(g: Seq<Option<Piece>>, w: int, h: int, y: int)
    requires
        1 <= w,
        0 <= y <= h,
        g.len() == w * h,
    ensures
        0 <= full_rows(g, w, y) <= y,
        kept_cells(g, w, y).len() == (y - full_rows(g, w, y)) * w,
    decreases y,
{
    if y > 0 {
        lemma_full_kept_bounds(g, w, h, y - 1);
        let f = full_rows(g, w, y - 1);
        if row_full(g, w, y - 1) {
            assert((y - (f + 1)) * w == ((y - 1) - f) * w);
        } else {
            assert(0 <= (y - 1) * w && (y - 1) * w + w <= g.len()) by (nonlinear_arith)
                requires
                    1 <= w,
                    0 < y <= h,
                    g.len() == w * h,
            ;
            assert(row(g, w, y - 1).len() == w);
            assert(((y - 1) - f) * w + w == (y - f) * w) by (nonlinear_arith);
        }
    }
}

impl Cells {
    /// Removes every fully occupied row, shifts all rows above each removed
    /// row down by one (the top rows become empty), and returns how many
    /// rows were removed.
    pub fn clear_lines(&mut self) -> (r: u32)
        requires
            old(self).wf(),
            old(self).height <= u32::MAX,
        ensures
            final(self).wf(),
            final(self).width == old(self).width,
            final(self).height == old(self).height,
            r as int == full_rows(old(self).grid@, old(self).width as int, old(self).height as int),
            final(self).grid@ == spec_cleared(
                old(self).grid@,
                old(self).width as int,
                old(self).height as int,
            ),
    {
        let w = self.width;
        let h = self.height;
        let ghost g = self.grid@;
        let mut kept: Vec<Option<Piece>> = Vec::new();
        let mut count: u32 = 0;
        let mut y: usize = 0;
        while y < h
            invariant
                self.wf(),
                self.width == w,
                self.height == h,
                h <= u32::MAX,
                self.grid@ == g,
                y <= h,
                count <= y,
                count as int == full_rows(g, w as int, y as int),
                kept@ == kept_cells(g, w as int, y as int),
            decreases h - y,
        {
            let mut x: usize = 0;
            let mut full: bool = true;
            while x < w
                invariant
                    self.wf(),
                    self.width == w,
                    self.height == h,
                    self.grid@ == g,
                    y < h,
                    x <= w,
                    full == (forall|k: int| 0 <= k < x ==> (#[trigger] g[y * w + k]) is Some),
                decreases w - x,
            {
                proof {
                    lemma_coord_index(w as int, h as int, x as int, y as int);
                }
                let index: usize = y * w + x;
                if self.grid[index].is_none() {
                    full = false;
                }
                x += 1;
            }
            proof {
                assert(full == row_full(g, w as int, y as int));
            }
            if full {
                count += 1;
            } else {
                proof {
                    lemma_coord_index(w as int, h as int, 0, y as int);
                    lemma_mul_le(y as int + 1, h as int, w as int);
                    assert((y as int + 1) * w == y as int * w + w) by (nonlinear_arith);
                }
                let mut x: usize = 0;
                while x < w
                    invariant
                        self.wf(),
                        self.width == w,
                        self.height == h,
                        self.grid@ == g,
                        y < h,
                        x <= w,
                        0 <= y as int * w as int,
                        y as int * w as int + w <= g.len(),
                        kept@ == kept_cells(g, w as int, y as int) + row(g, w as int, y as int).subrange(0, x as int),
                    decreases w - x,
                {
                    proof {
                        lemma_coord_index(w as int, h as int, x as int, y as int);
                    }
                    let index: usize = y * w + x;
                    let c = self.grid[index];
                    kept.push(c);
                    proof {
                        assert(row(g, w as int, y as int)[x as int] == g[y * w + x]);
                        assert(kept@ =~= kept_cells(g, w as int, y as int) + row(
                            g,
                            w as int,
                            y as int,
                        ).subrange(0, x as int + 1));
                    }
                    x += 1;
                }
                proof {
                    assert(row(g, w as int, y as int).subrange(0, w as int) =~= row(
                        g,
                        w as int,
                        y as int,
                    ));
                    assert(kept@ =~= kept_cells(g, w as int, y as int + 1));
                }
            }
            y += 1;
        }
        proof {
            lemma_full_kept_bounds(g, w as int, h as int, h as int);
            lemma_mul_le(count as int, h as int, w as int);
        }
        let pad: usize = (count as usize) * w;
        let mut ng: Vec<Option<Piece>> = Vec::new();
        let mut i: usize = 0;
        while i < pad
            invariant
                i <= pad,
                ng@.len() == i,
                forall|j: int| 0 <= j < i ==> ng@[j] is None,
            decreases pad - i,
        {
            ng.push(None);
            i += 1;
        }
        let mut i: usize = 0;
        while i < kept.len()
            invariant
                i <= kept@.len(),
                ng@.len() == pad + i,
                forall|j: int| 0 <= j < pad ==> ng@[j] is None,
                forall|j: int| pad <= j < ng@.len() ==> ng@[j] == kept@[j - pad],
            decreases kept@.len() - i,
        {
            let c = kept[i];
            ng.push(c);
            i += 1;
        }
        proof {
            assert(ng@ =~= spec_cleared(g, w as int, h as int));
            assert((count as int) * w + ((h as int) - count as int) * w == (h as int) * w)
                by (nonlinear_arith);
        }
        self.grid = ng;
        count
    }
}

} // verus!

verus! {

/// While no row below `y` is full, nothing is counted and every row is kept
/// in place.
proof fn lemma_kept_prefix_nofull(g: Seq<Option<Piece>>, w: int, h: int, y: int)
    requires
        1 <= w,
        g.len() == w * h,
        0 <= y <= h,
        forall|r: int| 0 <= r < y ==> !row_full(g, w, r),
    ensures
        full_rows(g, w, y) == 0,
        kept_cells(g, w, y) == g.subrange(0, y * w),
    decreases y,
{
    if y > 0 {
        lemma_kept_prefix_nofull(g, w, h, y - 1);
        assert(0 <= (y - 1) * w && (y - 1) * w + w == y * w && y * w <= g.len())
            by (nonlinear_arith)
            requires
                1 <= w,
                0 < y <= h,
                g.len() == w * h,
        ;
        assert(kept_cells(g, w, y) =~= g.subrange(0, y * w));
    } else {
        assert(kept_cells(g, w, 0) =~= g.subrange(0, 0));
    }
}

/// After passing one full row at `f` (and no other full row below `y`),
/// exactly one row is counted and the kept cells are every row except `f`.
proof fn lemma_kept_one_full(g: Seq<Option<Piece>>, w: int, h: int, f: int, y: int)
    requires
        1 <= w,
        g.len() == w * h,
        0 <= f < y <= h,
        row_full(g, w, f),
        forall|r: int| 0 <= r < y && r != f ==> !row_full(g, w, r),
    ensures
        full_rows(g, w, y) == 1,
        kept_cells(g, w, y) == g.subrange(0, f * w) + g.subrange((f + 1) * w, y * w),
    decreases y,
{
    assert(0 <= f * w && f * w <= (f + 1) * w && (f + 1) * w <= y * w && y * w <= g.len())
        by (nonlinear_arith)
        requires
            1 <= w,
            0 <= f < y <= h,
            g.len() == w * h,
    ;
    if y == f + 1 {
        lemma_kept_prefix_nofull(g, w, h, f);
        assert(kept_cells(g, w, y) =~= g.subrange(0, f * w) + g.subrange((f + 1) * w, y * w));
    } else {
        lemma_kept_one_full(g, w, h, f, y - 1);
        assert(0 <= (y - 1) * w && (f + 1) * w <= (y - 1) * w && (y - 1) * w + w == y * w)
            by (nonlinear_arith)
            requires
                1 <= w,
                0 <= f < y - 1,
                y <= h,
        ;
        assert(kept_cells(g, w, y) =~= g.subrange(0, f * w) + g.subrange((f + 1) * w, y * w));
    }
}

/// Clearing a grid whose only full row is `f` reports exactly one cleared
/// row; afterwards the top row is empty, every row above `f` has moved down
/// by one, and every row below `f` is unchanged.
pub proof fn lemma_clear_single_full_row(g: Seq<Option<Piece>>, w: int, h: int, f: int)
    requires
        1 <= w,
        1 <= h,
        g.len() == w * h,
        0 <= f < h,
        row_full(g, w, f),
        forall|r: int| 0 <= r < h && r != f ==> !row_full(g, w, r),
    ensures
        full_rows(g, w, h) == 1,
        spec_cleared(g, w, h).len() == w * h,
        forall|x: int| 0 <= x < w ==> (#[trigger] spec_cleared(g, w, h)[x]) is None,
        forall|y: int, x: int|
            1 <= y <= f && 0 <= x < w ==> #[trigger] spec_cleared(g, w, h)[y * w + x] == g[(y - 1)
                * w + x],
        forall|y: int, x: int|
            f < y < h && 0 <= x < w ==> #[trigger] spec_cleared(g, w, h)[y * w + x] == g[y * w + x],
{
    lemma_kept_one_full(g, w, h, f, h);
    let c = spec_cleared(g, w, h);
    assert(0 <= f * w && (f + 1) * w <= h * w && f * w + w == (f + 1) * w && h * w == g.len())
        by (nonlinear_arith)
        requires
            1 <= w,
            0 <= f < h,
            g.len() == w * h,
    ;
    let a = g.subrange(0, f * w);
    let b = g.subrange((f + 1) * w, h * w);
    assert(c.len() == w + f * w + (h * w - (f + 1) * w));
    assert(c.len() == w * h) by (nonlinear_arith)
        requires
            c.len() == w + f * w + (h * w - (f + 1) * w),
            f * w + w == (f + 1) * w,
    ;
    assert forall|y: int, x: int| 1 <= y <= f && 0 <= x < w implies #[trigger] c[y * w + x] == g[(y
        - 1) * w + x] by {
        assert(w <= y * w && y * w + x < w + f * w && 0 <= (y - 1) * w + x < f * w)
            by (nonlinear_arith)
            requires
                1 <= w,
                1 <= y <= f,
                0 <= x < w,
        ;
        assert(c[y * w + x] == a[y * w + x - w]);
        assert(y * w + x - w == (y - 1) * w + x) by (nonlinear_arith);
    }
    assert forall|y: int, x: int| f < y < h && 0 <= x < w implies #[trigger] c[y * w + x] == g[y * w
        + x] by {
        assert(w + f * w <= y * w + x && y * w + x < w + f * w + (h * w - (f + 1) * w) && (f + 1)
            * w + (y * w + x - (w + f * w)) == y * w + x && (f + 1) * w <= y * w + x < h * w)
            by (nonlinear_arith)
            requires
                1 <= w,
                f < y < h,
                0 <= f,
                0 <= x < w,
        ;
        assert(c[y * w + x] == b[y * w + x - (w + f * w)]);
    }
}

} // verus!

verus! {

/// The occupied cells among the first `i` grid indices, in index order, each
/// with its coordinates and its piece kind.
pub open spec fn spec_points(g: Seq<Option<Piece>>, w: int, i: int) -> Seq<(Point, Piece)>
    decreases i,
{
    if i <= 0 {
        Seq::empty()
    } else {
        spec_points(g, w, i - 1) + match g[i - 1] {
            Some(p) => seq![(coord_of(i - 1, w), p)],
            None => Seq::empty(),
        }
    }
}

impl Cells {
    /// Every occupied cell of the grid, in row-major order, with its
    /// coordinates and its piece kind.
    pub fn points(&self) -> (r: Vec<(Point, Piece)>)
        requires
            self.wf(),
        ensures
            r@ == spec_points(self.grid@, self.width as int, self.grid@.len() as int),
    {
        let n = self.grid.len();
        let w = self.width;
        let mut out: Vec<(Point, Piece)> = Vec::new();
        let mut i: usize = 0;
        while i < n
            invariant
                self.wf(),
                self.width == w,
                n == self.grid@.len(),
                i <= n,
                out@ == spec_points(self.grid@, w as int, i as int),
            decreases n - i,
        {
            proof {
                lemma_index_coord(w as int, self.height as int, i as int);
            }
            match self.grid[i] {
                Some(p) => {
                    let x = (i % w) as i32;
                    let y = (i / w) as i32;
                    out.push((Point { x, y }, p));
                    proof {
                        assert(out@ =~= spec_points(self.grid@, w as int, i as int + 1));
                    }
                },
                None => {
                    proof {
                        assert(out@ =~= spec_points(self.grid@, w as int, i as int + 1));
                    }
                },
            }
            i += 1;
        }
        out
    }
}

} // verus!
