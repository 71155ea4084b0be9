//! The active piece: a kind, the offset of its bounding box in the well, and
//! a rotation count. Every transform hands back a new candidate and leaves the
//! receiver as it was; whether a candidate is legal is the well's decision.

use crate::catalog::{
    height_of, is_grid, layout_at, lemma_layout_is_grid, orientation_of, rows_of, width_of,
    ShapeKind, ShapeRotation,
};
use vstd::prelude::*;

verus! {

/// A piece at a place. `x` and `y` are the column and row of the top-left
/// corner of its bounding box; `r` counts quarter turns and is read through
/// `orientation_of`, so it may be any integer.
#[derive(Clone, Copy, Debug, PartialEq, Eq, Structural)]
pub struct Shape {
    pub x: i32,
    pub y: i32,
    pub k: ShapeKind,
    pub r: i32,
}

impl Shape {
    /// The grid of cells that the shape shows in its present orientation.
    pub open spec fn cells(self) -> Seq<Seq<u8>> {
        layout_at(self.k, self.r as int)
    }

    /// The number of columns of the shape's bounding box.
    pub open spec fn width(self) -> int {
        width_of(self.cells())
    }

    /// The number of rows of the shape's bounding box.
    pub open spec fn height(self) -> int {
        height_of(self.cells())
    }

    /// Whether the shape fills the cell at row `r` and column `c` of its own
    /// grid.
    pub open spec fn fills(self, r: int, c: int) -> bool {
        &&& 0 <= r < self.height()
        &&& 0 <= c < self.width()
        &&& self.cells()[r][c] != 0
    }

    /// The cells that the shape fills among the first `n` of row `i` of its
    /// own grid, from left to right, each as column, row and color id in the
    /// well's coordinates.
    pub open spec fn row_cells(self, i: int, n: int) -> Seq<(i32, i32, u8)>
        decreases n,
    {
        if n <= 0 {
            Seq::empty()
        } else {
            let rest = self.row_cells(i, n - 1);
            if self.cells()[i][n - 1] != 0 {
                rest.push(((self.x + n - 1) as i32, (self.y + i) as i32, self.cells()[i][n - 1]))
            } else {
                rest
            }
        }
    }

    /// The cells that the shape fills in the first `m` rows of its own grid,
    /// row by row from the top.
    pub open spec fn cells_above(self, m: int) -> Seq<(i32, i32, u8)>
        decreases m,
    {
        if m <= 0 {
            Seq::empty()
        } else {
            self.cells_above(m - 1) + self.row_cells(m - 1, self.width())
        }
    }

    /// A shape of kind `k` at the origin, not rotated.
    pub fn new(k: &ShapeKind) -> (s: Shape)
        ensures
            s == (Shape { x: 0, y: 0, k: *k, r: 0 }),
    {
        Shape { x: 0, y: 0, k: *k, r: 0 }
    }

    /// The same shape moved to column `x` and row `y`.
    pub fn pos(&self, x: i32, y: i32) -> (s: Shape)
        ensures
            s == (Shape { x: x, y: y, k: self.k, r: self.r }),
    {
        let mut s = *self;
        s.x = x;
        s.y = y;
        s
    }

    /// The grid of cells of the shape in its present orientation.
    pub fn layout(&self) -> (t: &'static [&'static [u8]])
        ensures
            rows_of(t) == self.cells(),
    {
        self.k.layout(ShapeRotation::from_i32(self.r))
    }

    /// The width of the shape's bounding box, from 1 to 4.
    pub fn w(&self) -> (n: i32)
        ensures
            n == self.width(),
            1 <= n <= 4,
    {
        let t = self.layout();
        proof {
            lemma_layout_is_grid(self.k, orientation_of(self.r as int));
            assert(rows_of(t)[0] == t@[0]@);
        }
        t[0].len() as i32
    }

    /// The height of the shape's bounding box, from 1 to 4.
    pub fn h(&self) -> (n: i32)
        ensures
            n == self.height(),
            1 <= n <= 4,
    {
        let t = self.layout();
        proof {
            lemma_layout_is_grid(self.k, orientation_of(self.r as int));
        }
        t.len() as i32
    }

    /// The candidate that lies `xvel` columns to the right.
    pub fn x_mod(&self, xvel: i32) -> (s: Shape)
        requires
            i32::MIN <= self.x + xvel <= i32::MAX,
        ensures
            s == (Shape { x: (self.x + xvel) as i32, y: self.y, k: self.k, r: self.r }),
    {
        let mut s = *self;
        s.x = self.x + xvel;
        s
    }

    /// The candidate that lies `yvel` rows further down.
    pub fn y_mod(&self, yvel: i32) -> (s: Shape)
        requires
            i32::MIN <= self.y + yvel <= i32::MAX,
        ensures
            s == (Shape { x: self.x, y: (self.y + yvel) as i32, k: self.k, r: self.r }),
    {
        let mut s = *self;
        s.y = self.y + yvel;
        s
    }

    /// The candidate that is turned by `rvel` more quarter turns.
    pub fn r_mod(&self, rvel: i32) -> (s: Shape)
        requires
            i32::MIN <= self.r + rvel <= i32::MAX,
        ensures
            s == (Shape { x: self.x, y: self.y, k: self.k, r: (self.r + rvel) as i32 }),
    {
        let mut s = *self;
        s.r = self.r + rvel;
        s
    }

    /// The cells that the shape fills, row by row from the top and from left
    /// to right, each as column, row and color id in the well's coordinates.
    pub fn filled_cells(&self) -> (out: Vec<(i32, i32, u8)>)
        requires
            self.x + self.width() - 1 <= i32::MAX,
            self.y + self.height() - 1 <= i32::MAX,
        ensures
            out@ == self.cells_above(self.height()),
    {
        let t = self.layout();
        let sh: usize = t.len();
        proof {
            lemma_layout_is_grid(self.k, orientation_of(self.r as int));
        }
        let mut out: Vec<(i32, i32, u8)> = Vec::new();
        let mut i: usize = 0;
        while i < sh
            invariant
                rows_of(t) == self.cells(),
                sh == self.height(),
                1 <= self.width() <= 4,
                1 <= sh <= 4,
                is_grid(self.cells(), self.width(), self.height()),
                self.x + self.width() - 1 <= i32::MAX,
                self.y + self.height() - 1 <= i32::MAX,
                0 <= i <= sh,
                out@ == self.cells_above(i as int),
            decreases sh - i,
        {
            let row = t[i];
            assert(rows_of(t)[i as int] == row@);
            let sw: usize = row.len();
            let ghost before = out@;
            let mut j: usize = 0;
            while j < sw
                invariant
                    row@ == self.cells()[i as int],
                    sw == self.width(),
                    sh == self.height(),
                    1 <= sw <= 4,
                    0 <= i < sh <= 4,
                    self.x + self.width() - 1 <= i32::MAX,
                    self.y + self.height() - 1 <= i32::MAX,
                    0 <= j <= sw,
                    out@ == before + self.row_cells(i as int, j as int),
                decreases sw - j,
            {
                let c: u8 = row[j];
                if c != 0 {
                    out.push((self.x + j as i32, self.y + i as i32, c));
                }
                j += 1;
                assert(out@ =~= before + self.row_cells(i as int, j as int));
            }
            i += 1;
        }
        out
    }
}

} // verus!
