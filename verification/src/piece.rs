use vstd::prelude::*;

use crate::geom::Point;

verus! {

/// One of the seven piece kinds.
#[derive(Copy, Clone, PartialEq, Eq, Structural, Debug)]
pub enum Piece {
    I,
    O,
    T,
    S,
    Z,
    J,
    L,
}

/// How many rotation states the kind has.
pub open spec fn rot_count(p: Piece) -> int {
    match p {
        Piece::I => 2,
        Piece::O => 1,
        Piece::T => 4,
        Piece::S => 2,
        Piece::Z => 2,
        Piece::J => 4,
        Piece::L => 4,
    }
}

/// The four local cells of rotation state `r` of kind `p`, for `0 <= r < rot_count(p)`.
pub open spec fn shape_offsets(p: Piece, r: int) -> Seq<Point> {
    match p {
        Piece::I => if r == 0 {
            seq![Point { x: 1, y: 0 }, Point { x: 1, y: 1 }, Point { x: 1, y: 2 }, Point { x: 1, y: 3 }]
        } else {
            seq![Point { x: 0, y: 1 }, Point { x: 1, y: 1 }, Point { x: 2, y: 1 }, Point { x: 3, y: 1 }]
        },
        Piece::O => seq![Point { x: 1, y: 2 }, Point { x: 1, y: 3 }, Point { x: 2, y: 2 }, Point { x: 2, y: 3 }],
        Piece::T => if r == 0 {
            seq![Point { x: 1, y: 3 }, Point { x: 2, y: 3 }, Point { x: 3, y: 3 }, Point { x: 2, y: 2 }]
        } else if r == 1 {
            seq![Point { x: 1, y: 1 }, Point { x: 1, y: 2 }, Point { x: 1, y: 3 }, Point { x: 2, y: 2 }]
        } else if r == 2 {
            seq![Point { x: 1, y: 1 }, Point { x: 2, y: 1 }, Point { x: 3, y: 1 }, Point { x: 2, y: 2 }]
        } else {
            seq![Point { x: 3, y: 1 }, Point { x: 3, y: 2 }, Point { x: 3, y: 3 }, Point { x: 2, y: 2 }]
        },
        Piece::S => if r == 0 {
            seq![Point { x: 0, y: 3 }, Point { x: 1, y: 2 }, Point { x: 1, y: 3 }, Point { x: 2, y: 2 }]
        } else {
            seq![Point { x: 0, y: 1 }, Point { x: 0, y: 2 }, Point { x: 1, y: 2 }, Point { x: 1, y: 3 }]
        },
        Piece::Z => if r == 0 {
            seq![Point { x: 1, y: 2 }, Point { x: 2, y: 2 }, Point { x: 2, y: 3 }, Point { x: 3, y: 3 }]
        } else {
            seq![Point { x: 3, y: 1 }, Point { x: 2, y: 2 }, Point { x: 3, y: 2 }, Point { x: 2, y: 3 }]
        },
        Piece::J => if r == 0 {
            seq![Point { x: 1, y: 3 }, Point { x: 2, y: 1 }, Point { x: 2, y: 2 }, Point { x: 2, y: 3 }]
        } else if r == 1 {
            seq![Point { x: 1, y: 2 }, Point { x: 1, y: 3 }, Point { x: 2, y: 3 }, Point { x: 3, y: 3 }]
        } else if r == 2 {
            seq![Point { x: 1, y: 1 }, Point { x: 1, y: 2 }, Point { x: 1, y: 3 }, Point { x: 2, y: 1 }]
        } else {
            seq![Point { x: 1, y: 1 }, Point { x: 2, y: 1 }, Point { x: 3, y: 1 }, Point { x: 3, y: 2 }]
        },
        Piece::L => if r == 0 {
            seq![Point { x: 1, y: 1 }, Point { x: 1, y: 2 }, Point { x: 1, y: 3 }, Point { x: 2, y: 3 }]
        } else if r == 1 {
            seq![Point { x: 1, y: 1 }, Point { x: 1, y: 2 }, Point { x: 2, y: 1 }, Point { x: 3, y: 1 }]
        } else if r == 2 {
            seq![Point { x: 3, y: 1 }, Point { x: 3, y: 2 }, Point { x: 3, y: 3 }, Point { x: 2, y: 1 }]
        } else {
            seq![Point { x: 3, y: 2 }, Point { x: 1, y: 3 }, Point { x: 2, y: 3 }, Point { x: 3, y: 3 }]
        },
    }
}

/// Every rotation state holds exactly 4 pairwise-distinct cells, all with
/// coordinates in `[0, 3]`.
pub proof fn lemma_shape_table(p: Piece, r: int)
    requires
        0 <= r < rot_count(p),
    ensures
        shape_offsets(p, r).len() == 4,
        forall|i: int, j: int|
            0 <= i < 4 && 0 <= j < 4 && i != j ==> shape_offsets(p, r)[i] != shape_offsets(p, r)[j],
        forall|i: int|
            0 <= i < 4 ==> 0 <= (#[trigger] shape_offsets(p, r)[i]).x <= 3
                && 0 <= shape_offsets(p, r)[i].y <= 3,
{
}

/// Builds a vector of four points.
fn quad(a: Point, b: Point, c: Point, d: Point) -> (r: Vec<Point>)
    ensures
        r@ == seq![a, b, c, d],
{
    let mut v: Vec<Point> = Vec::new();
    v.push(a);
    v.push(b);
    v.push(c);
    v.push(d);
    proof {
        assert(v@ =~= seq![a, b, c, d]);
    }
    v
}

impl Piece {
    /// The rotation-state table of this kind: one entry per rotation state,
    /// each entry the state's four local cells.
    pub fn shapes(&self) -> (r: Vec<Vec<Point>>)
        ensures
            r@.len() == rot_count(*self),
            forall|i: int| 0 <= i < r@.len() ==> (#[trigger] r@[i])@ == shape_offsets(*self, i),
    {
        let mut v: Vec<Vec<Point>> = Vec::new();
        match *self {
            Piece::I => {
                v.push(quad(Point { x: 1, y: 0 }, Point { x: 1, y: 1 }, Point { x: 1, y: 2 }, Point { x: 1, y: 3 }));
                v.push(quad(Point { x: 0, y: 1 }, Point { x: 1, y: 1 }, Point { x: 2, y: 1 }, Point { x: 3, y: 1 }));
            }
            Piece::O => {
                v.push(quad(Point { x: 1, y: 2 }, Point { x: 1, y: 3 }, Point { x: 2, y: 2 }, Point { x: 2, y: 3 }));
            }
            Piece::T => {
                v.push(quad(Point { x: 1, y: 3 }, Point { x: 2, y: 3 }, Point { x: 3, y: 3 }, Point { x: 2, y: 2 }));
                v.push(quad(Point { x: 1, y: 1 }, Point { x: 1, y: 2 }, Point { x: 1, y: 3 }, Point { x: 2, y: 2 }));
                v.push(quad(Point { x: 1, y: 1 }, Point { x: 2, y: 1 }, Point { x: 3, y: 1 }, Point { x: 2, y: 2 }));
                v.push(quad(Point { x: 3, y: 1 }, Point { x: 3, y: 2 }, Point { x: 3, y: 3 }, Point { x: 2, y: 2 }));
            }
            Piece::S => {
                v.push(quad(Point { x: 0, y: 3 }, Point { x: 1, y: 2 }, Point { x: 1, y: 3 }, Point { x: 2, y: 2 }));
                v.push(quad(Point { x: 0, y: 1 }, Point { x: 0, y: 2 }, Point { x: 1, y: 2 }, Point { x: 1, y: 3 }));
            }
            Piece::Z => {
                v.push(quad(Point { x: 1, y: 2 }, Point { x: 2, y: 2 }, Point { x: 2, y: 3 }, Point { x: 3, y: 3 }));
                v.push(quad(Point { x: 3, y: 1 }, Point { x: 2, y: 2 }, Point { x: 3, y: 2 }, Point { x: 2, y: 3 }));
            }
            Piece::J => {
                v.push(quad(Point { x: 1, y: 3 }, Point { x: 2, y: 1 }, Point { x: 2, y: 2 }, Point { x: 2, y: 3 }));
                v.push(quad(Point { x: 1, y: 2 }, Point { x: 1, y: 3 }, Point { x: 2, y: 3 }, Point { x: 3, y: 3 }));
                v.push(quad(Point { x: 1, y: 1 }, Point { x: 1, y: 2 }, Point { x: 1, y: 3 }, Point { x: 2, y: 1 }));
                v.push(quad(Point { x: 1, y: 1 }, Point { x: 2, y: 1 }, Point { x: 3, y: 1 }, Point { x: 3, y: 2 }));
            }
            Piece::L => {
                v.push(quad(Point { x: 1, y: 1 }, Point { x: 1, y: 2 }, Point { x: 1, y: 3 }, Point { x: 2, y: 3 }));
                v.push(quad(Point { x: 1, y: 1 }, Point { x: 1, y: 2 }, Point { x: 2, y: 1 }, Point { x: 3, y: 1 }));
                v.push(quad(Point { x: 3, y: 1 }, Point { x: 3, y: 2 }, Point { x: 3, y: 3 }, Point { x: 2, y: 1 }));
                v.push(quad(Point { x: 3, y: 2 }, Point { x: 1, y: 3 }, Point { x: 2, y: 3 }, Point { x: 3, y: 3 }));
            }
        }
        v
    }

    /// How many rotation states this kind has.
    pub fn rotation_count(&self) -> (r: u32)
        ensures
            r == rot_count(*self),
    {
        match *self {
            Piece::I => 2,
            Piece::O => 1,
            Piece::T => 4,
            Piece::S => 2,
            Piece::Z => 2,
            Piece::J => 4,
            Piece::L => 4,
        }
    }
}

/// The preview offset of the kind, in half-cell units.
pub open spec fn display_offset_halves(p: Piece) -> Point {
    match p {
        Piece::I => Point { x: 2, y: 1 },
        Piece::O => Point { x: 1, y: -1i32 },
        Piece::T => Point { x: 0, y: -1i32 },
        Piece::S => Point { x: 2, y: -1i32 },
        Piece::Z => Point { x: 0, y: -1i32 },
        Piece::J => Point { x: 1, y: 0 },
        Piece::L => Point { x: 1, y: 0 },
    }
}

/// The preview cells of the kind, in half-cell units: the renderer halves
/// each coordinate to recover the fractional preview offsets.
pub open spec fn spec_display(p: Piece) -> Seq<Point> {
    shape_offsets(p, 0).map(
        |i: int, q: Point|
            Point {
                x: (2 * q.x + display_offset_halves(p).x) as i32,
                y: (2 * q.y + display_offset_halves(p).y) as i32,
            },
    )
}

impl Piece {
    /// The cells of the next-piece preview box for this kind, in half-cell
    /// units (the first rotation state, doubled, plus a per-kind offset).
    pub fn display(&self) -> (r: Vec<Point>)
        ensures
            r@ == spec_display(*self),
    {
        let shapes = self.shapes();
        let first = &shapes[0];
        let off = match *self {
            Piece::I => Point { x: 2, y: 1 },
            Piece::O => Point { x: 1, y: -1i32 },
            Piece::T => Point { x: 0, y: -1i32 },
            Piece::S => Point { x: 2, y: -1i32 },
            Piece::Z => Point { x: 0, y: -1i32 },
            Piece::J => Point { x: 1, y: 0 },
            Piece::L => Point { x: 1, y: 0 },
        };
        let mut out: Vec<Point> = Vec::new();
        let mut i: usize = 0;
        proof {
            lemma_shape_table(*self, 0);
        }
        while i < first.len()
            invariant
                first@ == shape_offsets(*self, 0),
                off == display_offset_halves(*self),
                forall|j: int|
                    0 <= j < 4 ==> 0 <= (#[trigger] shape_offsets(*self, 0)[j]).x <= 3
                        && 0 <= shape_offsets(*self, 0)[j].y <= 3,
                first@.len() == 4,
                i <= first@.len(),
                out@ == spec_display(*self).subrange(0, i as int),
            decreases first@.len() - i,
        {
            let q = first[i];
            out.push(Point { x: 2 * q.x + off.x, y: 2 * q.y + off.y });
            proof {
                assert(out@ =~= spec_display(*self).subrange(0, i + 1));
            }
            i += 1;
        }
        proof {
            assert(out@ =~= spec_display(*self));
        }
        out
    }
}

} // verus!
