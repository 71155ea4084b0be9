//! The well: the playfield that pieces lock into. It owns the grid of cells,
//! decides whether a shape's position is legal, merges a landed shape, removes
//! full rows and hands out the next piece.

use crate::catalog::{
    color_of, is_grid, lemma_layout_is_grid, orientation_of, rows_of, ShapeKind,
};
use crate::grid::{
    blank_row, blank_rows, drop_row, eliminated, full_rows_in, has_full_row,
    lemma_drop_full_row, lemma_full_rows_counted, lemma_lowest_full_exists, lemma_lowest_full_is,
    lemma_no_full_row, lowest_full, row_full, settled,
};
use crate::shape::Shape;
use vstd::prelude::*;

verus! {

/// What a well is, as plain mathematical values.
pub struct WellView {
    /// The number of columns.
    pub width: int,
    /// The number of rows.
    pub height: int,
    /// The kind that the next spawn will hand out.
    pub next: ShapeKind,
    /// The cells, row by row from the top.
    pub rows: Seq<Seq<u8>>,
}

impl WellView {
    /// The dimensions are not negative and fit an `i32`, and `rows` is a grid
    /// of that size.
    pub open spec fn well_formed(self) -> bool {
        &&& 0 <= self.width <= i32::MAX
        &&& 0 <= self.height <= i32::MAX
        &&& is_grid(self.rows, self.width, self.height)
    }

    /// Whether row `r`, column `c` lies inside the well.
    pub open spec fn inside(self, r: int, c: int) -> bool {
        0 <= r < self.height && 0 <= c < self.width
    }

    /// Whether the cell that `s` fills at row `r`, column `c` of its own grid
    /// is in the way: it falls outside the well or onto a filled cell.
    pub open spec fn hits(self, s: Shape, r: int, c: int) -> bool {
        &&& s.fills(r, c)
        &&& (!self.inside(s.y + r, s.x + c) || self.rows[s.y + r][s.x + c] != 0)
    }

    /// Whether the shape's position is illegal: some cell that it fills
    /// falls outside the well or onto a filled cell.
    pub open spec fn collides(self, s: Shape) -> bool {
        exists|r: int, c: int| self.hits(s, r, c)
    }

    /// The column at which a fresh piece of kind `k` stands: half the
    /// well's width less half the piece's width, each half rounded down.
    pub open spec fn spawn_x(self, k: ShapeKind) -> int {
        self.width / 2 - (Shape { x: 0, y: 0, k: k, r: 0 }).width() / 2
    }

    /// Whether `s` is a fresh piece of this well: not rotated, in the top
    /// row, centered.
    pub open spec fn is_spawn(self, s: Shape) -> bool {
        &&& s.x == self.spawn_x(s.k)
        &&& s.y == 0
        &&& s.r == 0
    }

    /// The grid once the shape has locked: each cell that the shape fills
    /// holds the shape's cell, every other cell is as before.
    pub open spec fn merged(self, s: Shape) -> Seq<Seq<u8>> {
        Seq::new(
            self.height as nat,
            |i: int|
                Seq::new(
                    self.width as nat,
                    |j: int|
                        if s.fills(i - s.y, j - s.x) {
                            s.cells()[i - s.y][j - s.x]
                        } else {
                            self.rows[i][j]
                        },
                ),
        )
    }

    /// Whether every cell that the shape fills falls on an empty cell inside
    /// the well.
    pub open spec fn admits(self, s: Shape) -> bool {
        forall|r: int, c: int| #[trigger]
            s.fills(r, c) ==> self.inside(s.y + r, s.x + c) && self.rows[s.y + r][s.x + c] == 0
    }
}

/// The filled cells among the first `n` of row `r` of a grid, from left to
/// right, each as row, column and color id.
pub open spec fn row_cells(row: Seq<u8>, r: int, n: int) -> Seq<(i32, i32, u8)>
    decreases n,
{
    if n <= 0 {
        Seq::empty()
    } else {
        let rest = row_cells(row, r, n - 1);
        if row[n - 1] != 0 {
            rest.push((r as i32, (n - 1) as i32, row[n - 1]))
        } else {
            rest
        }
    }
}

/// The filled cells in the first `m` rows of a grid, row by row from the
/// top.
pub open spec fn cells_above(rows: Seq<Seq<u8>>, m: int) -> Seq<(i32, i32, u8)>
    decreases m,
{
    if m <= 0 {
        Seq::empty()
    } else {
        cells_above(rows, m - 1) + row_cells(rows[m - 1], m - 1, rows[m - 1].len() as int)
    }
}

/// The playfield. The cells are kept in one vector, row after row.
pub struct Well {
    w: i32,
    h: i32,
    n: ShapeKind,
    v: Vec<u8>,
}

/// The cell at row `r` and column `c` of a vector that is read as rows of
/// `w`.
spec fn cell_at(v: Seq<u8>, w: int, r: int, c: int) -> u8 {
    v[w * r + c]
}

/// The grid that a vector of cells holds when it is read as rows of `w`.
spec fn rows_in(v: Seq<u8>, w: int, h: int) -> Seq<Seq<u8>> {
    Seq::new(h as nat, |r: int| Seq::new(w as nat, |c: int| cell_at(v, w, r, c)))
}

/// Row `r`, column `c` of a grid of width `w` lies inside a vector of `w * h`
/// cells.
proof fn lemma_cell_index(w: int, h: int, r: int, c: int)
    by (nonlinear_arith)
    requires
        0 <= r < h,
        0 <= c < w,
    ensures
        0 <= w * r,
        0 <= w * r + c < w * h,
        w * r + w <= w * h,
{
}

/// Two cells of a grid of width `w` share a place in the vector only if they
/// are the same cell.
proof fn lemma_cell_index_distinct(w: int, r1: int, c1: int, r2: int, c2: int)
    by (nonlinear_arith)
    requires
        0 <= c1 < w,
        0 <= c2 < w,
        w * r1 + c1 == w * r2 + c2,
    ensures
        r1 == r2,
        c1 == c2,
{
}

/// Where the rows of a grid of width `w` start in the vector: row `a + 1`
/// starts `w` cells after row `a`, and a later row starts no earlier.
proof fn lemma_row_start(w: int, a: int, b: int)
    by (nonlinear_arith)
    requires
        0 <= w,
        a <= b,
    ensures
        w * a <= w * b,
        w * (a + 1) == w * a + w,
        w * (a - 1) == w * a - w,
{
}

impl View for Well {
    type V = WellView;

    closed spec fn view(&self) -> WellView {
        WellView {
            width: self.w as int,
            height: self.h as int,
            next: self.n,
            rows: rows_in(self.v@, self.w as int, self.h as int),
        }
    }
}

impl Well {
    /// The vector holds exactly `width * height` cells.
    pub closed spec fn inv(&self) -> bool {
        &&& 0 <= self.w
        &&& 0 <= self.h
        &&& self.v@.len() == self.w * self.h
    }

    /// The invariant of a well: every constructor gives it and every method
    /// keeps it.
    pub open spec fn wf(&self) -> bool {
        &&& self.inv()
        &&& self@.well_formed()
    }

    /// An empty well of `w` columns and `h` rows. The kind of its first piece
    /// is picked at random.
    pub fn new(w: i32, h: i32) -> (well: Well)
        requires
            0 <= w,
            0 <= h,
            w * h <= usize::MAX,
        ensures
            well.wf(),
            well@.width == w,
            well@.height == h,
            well@.rows == blank_rows(w as int, h as int),
    {
        Well::with_next(w, h, ShapeKind::random())
    }

    /// An empty well of `w` columns and `h` rows whose first piece will be of
    /// kind `next`.
    pub fn with_next(w: i32, h: i32, next: ShapeKind) -> (well: Well)
        requires
            0 <= w,
            0 <= h,
            w * h <= usize::MAX,
        ensures
            well.wf(),
            well@ == (WellView {
                width: w as int,
                height: h as int,
                next: next,
                rows: blank_rows(w as int, h as int),
            }),
    {
        proof {
            assert(0 <= w * h) by (nonlinear_arith)
                requires
                    0 <= w,
                    0 <= h,
            ;
        }
        let well = Well { w, h, n: next, v: vec![0u8; w as usize * h as usize] };
        proof {
            assert(well@.rows =~~= blank_rows(w as int, h as int)) by {
                assert forall|r: int, c: int| 0 <= r < h && 0 <= c < w implies #[trigger] cell_at(
                    well.v@,
                    w as int,
                    r,
                    c,
                ) == 0u8 by {
                    lemma_cell_index(w as int, h as int, r, c);
                }
            }
        }
        well
    }

    /// The number of columns.
    pub fn width(&self) -> (w: i32)
        ensures
            w == self@.width,
    {
        self.w
    }

    /// The number of rows.
    pub fn height(&self) -> (h: i32)
        ensures
            h == self@.height,
    {
        self.h
    }

    /// The kind that the next spawn will hand out.
    pub fn next(&self) -> (k: ShapeKind)
        ensures
            k == self@.next,
    {
        self.n
    }

    /// Empties every cell of the well.
    pub fn clear(&mut self)
        requires
            old(self).wf(),
        ensures
            final(self).wf(),
            final(self)@ == (WellView {
                rows: blank_rows(old(self)@.width, old(self)@.height),
                ..old(self)@
            }),
    {
        let cells: usize = self.v.len();
        self.v = vec![0u8; cells];
        proof {
            let w = self.w as int;
            let h = self.h as int;
            assert(self@.rows =~~= blank_rows(w, h)) by {
                assert forall|r: int, c: int| 0 <= r < h && 0 <= c < w implies #[trigger] cell_at(
                    self.v@,
                    w,
                    r,
                    c,
                ) == 0u8 by {
                    lemma_cell_index(w, h, r, c);
                }
            }
        }
    }

    /// The cell at row `row` and column `col`, or `None` where that place is
    /// outside the well.
    pub fn get(&self, row: i32, col: i32) -> (cell: Option<u8>)
        requires
            self.wf(),
        ensures
            cell == (if self@.inside(row as int, col as int) {
                Some(self@.rows[row as int][col as int])
            } else {
                None
            }),
    {
        if row < 0 || row >= self.h || col < 0 || col >= self.w {
            None
        } else {
            Some(self.at(row as usize, col as usize))
        }
    }

    fn at(&self, row: usize, col: usize) -> (cell: u8)
        requires
            self.wf(),
            self@.inside(row as int, col as int),
        ensures
            cell == self@.rows[row as int][col as int],
    {
        proof {
            lemma_cell_index(self.w as int, self.h as int, row as int, col as int);
        }
        let cells: usize = self.v.len();
        let base: usize = self.w as usize * row;
        assert(self@.rows[row as int][col as int] == cell_at(
            self.v@,
            self.w as int,
            row as int,
            col as int,
        ));
        self.v[base + col]
    }

    /// Whether the shape's position is illegal. This is the one test of
    /// legality: a position is legal exactly if every cell that the shape
    /// fills lies inside the well on an empty cell.
    pub fn collides(&self, s: &Shape) -> (hit: bool)
        requires
            self.wf(),
        ensures
            hit == self@.collides(*s),
            !hit == self@.admits(*s),
    {
        let t = s.layout();
        let sh: usize = t.len();
        proof {
            lemma_layout_is_grid(s.k, orientation_of(s.r as int));
        }
        let mut r: usize = 0;
        while r < sh
            invariant
                self.wf(),
                rows_of(t) == s.cells(),
                sh == s.height(),
                1 <= s.width() <= 4,
                1 <= sh <= 4,
                is_grid(s.cells(), s.width(), s.height()),
                0 <= r <= sh,
                forall|i: int, j: int| 0 <= i < r ==> !self@.hits(*s, i, j),
            decreases sh - r,
        {
            let row = t[r];
            assert(rows_of(t)[r as int] == row@);
            let sw: usize = row.len();
            let mut c: usize = 0;
            while c < sw
                invariant
                    self.wf(),
                    row@ == s.cells()[r as int],
                    sw == s.width(),
                    sh == s.height(),
                    1 <= sw <= 4,
                    0 <= r < sh <= 4,
                    0 <= c <= sw,
                    forall|j: int| 0 <= j < c ==> !self@.hits(*s, r as int, j),
                decreases sw - c,
            {
                if row[c] != 0 {
                    let wr: i64 = s.y as i64 + r as i64;
                    let wc: i64 = s.x as i64 + c as i64;
                    if wr < 0 || wr >= self.h as i64 || wc < 0 || wc >= self.w as i64 {
                        assert(self@.hits(*s, r as int, c as int));
                        return true;
                    }
                    if self.at(wr as usize, wc as usize) != 0 {
                        assert(self@.hits(*s, r as int, c as int));
                        return true;
                    }
                }
                c += 1;
            }
            r += 1;
        }
        proof {
            assert forall|i: int, j: int| !self@.hits(*s, i, j) by {
                if 0 <= i < sh {
                } else {
                    assert(!s.fills(i, j));
                }
            }
            assert forall|i: int, j: int| #[trigger] s.fills(i, j) implies self@.inside(
                s.y + i,
                s.x + j,
            ) && self@.rows[s.y + i][s.x + j] == 0 by {
                assert(!self@.hits(*s, i, j));
            }
        }
        false
    }

    fn put(&mut self, row: usize, col: usize, val: u8)
        requires
            old(self).wf(),
            old(self)@.inside(row as int, col as int),
        ensures
            final(self).wf(),
            final(self)@ == (WellView {
                rows: old(self)@.rows.update(
                    row as int,
                    old(self)@.rows[row as int].update(col as int, val),
                ),
                ..old(self)@
            }),
    {
        let ghost w = self.w as int;
        let ghost h = self.h as int;
        proof {
            lemma_cell_index(w, h, row as int, col as int);
        }
        let cells: usize = self.v.len();
        let at: usize = self.w as usize * row + col;
        self.v.set(at, val);
        proof {
            let target = old(self)@.rows.update(
                row as int,
                old(self)@.rows[row as int].update(col as int, val),
            );
            assert forall|i: int, j: int| 0 <= i < h && 0 <= j < w implies #[trigger] cell_at(
                self.v@,
                w,
                i,
                j,
            ) == target[i][j] by {
                lemma_cell_index(w, h, i, j);
                if w * i + j == at {
                    lemma_cell_index_distinct(w, i, j, row as int, col as int);
                }
                assert(old(self)@.rows[i][j] == cell_at(old(self).v@, w, i, j));
            }
            assert(self@.rows =~~= target);
        }
    }

    /// Locks the shape into the well: writes each cell that the shape fills
    /// into the grid and leaves every other cell as it is. The position must
    /// have been found legal by `collides`; this function does not test it
    /// again.
    pub fn consume(&mut self, s: &Shape)
        requires
            old(self).wf(),
            !old(self)@.collides(*s),
        ensures
            final(self).wf(),
            final(self)@ == (WellView { rows: old(self)@.merged(*s), ..old(self)@ }),
            forall|r: int, c: int| #[trigger]
                s.fills(r, c) ==> final(self)@.rows[s.y + r][s.x + c] == color_of(s.k),
            forall|i: int, j: int|
                old(self)@.inside(i, j) && !s.fills(i - s.y, j - s.x) ==> #[trigger] final(self)@
                    .rows[i][j] == old(self)@.rows[i][j],
    {
        let t = s.layout();
        let sh: usize = t.len();
        proof {
            lemma_layout_is_grid(s.k, orientation_of(s.r as int));
        }
        let mut r: usize = 0;
        while r < sh
            invariant
                self.wf(),
                self@.width == old(self)@.width,
                self@.height == old(self)@.height,
                self@.next == old(self)@.next,
                !old(self)@.collides(*s),
                rows_of(t) == s.cells(),
                sh == s.height(),
                1 <= s.width() <= 4,
                1 <= sh <= 4,
                is_grid(s.cells(), s.width(), s.height()),
                0 <= r <= sh,
                forall|i: int, j: int|
                    self@.inside(i, j) ==> #[trigger] self@.rows[i][j] == (if s.fills(
                        i - s.y,
                        j - s.x,
                    ) && i - s.y < r {
                        s.cells()[i - s.y][j - s.x]
                    } else {
                        old(self)@.rows[i][j]
                    }),
            decreases sh - r,
        {
            let row = t[r];
            assert(rows_of(t)[r as int] == row@);
            let sw: usize = row.len();
            let mut c: usize = 0;
            while c < sw
                invariant
                    self.wf(),
                    self@.width == old(self)@.width,
                    self@.height == old(self)@.height,
                    self@.next == old(self)@.next,
                    !old(self)@.collides(*s),
                    row@ == s.cells()[r as int],
                    sw == s.width(),
                    sh == s.height(),
                    1 <= sw <= 4,
                    0 <= r < sh <= 4,
                    0 <= c <= sw,
                    forall|i: int, j: int|
                        self@.inside(i, j) ==> #[trigger] self@.rows[i][j] == (if s.fills(
                            i - s.y,
                            j - s.x,
                        ) && (i - s.y < r || (i - s.y == r && j - s.x < c)) {
                            s.cells()[i - s.y][j - s.x]
                        } else {
                            old(self)@.rows[i][j]
                        }),
                decreases sw - c,
            {
                let s_c: u8 = row[c];
                if s_c != 0 {
                    assert(s.fills(r as int, c as int));
                    assert(!old(self)@.hits(*s, r as int, c as int));
                    let wr: usize = (s.y as i64 + r as i64) as usize;
                    let wc: usize = (s.x as i64 + c as i64) as usize;
                    self.put(wr, wc, s_c);
                }
                c += 1;
            }
            r += 1;
        }
        proof {
            assert(self@.rows =~~= old(self)@.merged(*s));
            assert forall|i: int, j: int| #[trigger] s.fills(i, j) implies self@.rows[s.y + i][s.x
                + j] == color_of(s.k) by {
                assert(!old(self)@.hits(*s, i, j));
            }
        }
    }

    fn row_is_full(&self, y: usize) -> (full: bool)
        requires
            self.wf(),
            y < self@.height,
        ensures
            full == row_full(self@.rows[y as int]),
    {
        let w: usize = self.w as usize;
        let mut c: usize = 0;
        while c < w
            invariant
                self.wf(),
                y < self@.height,
                w == self@.width,
                0 <= c <= w,
                forall|j: int| 0 <= j < c ==> #[trigger] self@.rows[y as int][j] != 0,
            decreases w - c,
        {
            if self.at(y, c) == 0 {
                return false;
            }
            c += 1;
        }
        true
    }

    fn without_row(&self, y: usize) -> (tmp: Vec<u8>)
        requires
            self.wf(),
            y < self@.height,
        ensures
            tmp@.len() == self@.width * self@.height,
            rows_in(tmp@, self@.width, self@.height) == drop_row(
                self@.rows,
                y as int,
                self@.width,
            ),
    {
        let ghost w = self.w as int;
        let ghost h = self.h as int;
        let cells: usize = self.v.len();
        proof {
            lemma_row_start(w, 0, y as int);
            lemma_row_start(w, y as int, y as int);
            lemma_row_start(w, y + 1, h);
        }
        let width: usize = self.w as usize;
        let cut: usize = width * y;
        let mut tmp: Vec<u8> = vec![0u8; width];
        let ghost blank = tmp@;
        let mut i: usize = 0;
        while i < cut
            invariant
                0 <= i <= cut <= cells,
                cells == self.v@.len(),
                tmp@ == blank + self.v@.subrange(0, i as int),
            decreases cut - i,
        {
            tmp.push(self.v[i]);
            i += 1;
            assert(tmp@ =~= blank + self.v@.subrange(0, i as int));
        }
        let ghost upper = tmp@;
        let mut k: usize = cut + width;
        while k < cells
            invariant
                cut + width <= k <= cells,
                cells == self.v@.len(),
                tmp@ == upper + self.v@.subrange(cut + width, k as int),
            decreases cells - k,
        {
            tmp.push(self.v[k]);
            k += 1;
            assert(tmp@ =~= upper + self.v@.subrange(cut + width, k as int));
        }
        proof {
            let target = drop_row(self@.rows, y as int, w);
            assert(blank =~= blank_row(w));
            assert forall|r: int, c: int| 0 <= r < h && 0 <= c < w implies #[trigger] cell_at(
                tmp@,
                w,
                r,
                c,
            ) == target[r][c] by {
                lemma_cell_index(w, h, r, c);
                let at = w * r + c;
                if r == 0 {
                    assert(target[0] == blank_row(w));
                    assert(tmp@[at] == blank[c]);
                } else if r <= y {
                    lemma_row_start(w, 1, r);
                    lemma_row_start(w, r, y as int);
                    lemma_cell_index(w, h, r - 1, c);
                    assert(target[r] == self@.rows[r - 1]);
                    assert(self@.rows[r - 1][c] == cell_at(self.v@, w, r - 1, c));
                    assert(tmp@[at] == upper[at]);
                    assert(upper[at] == self.v@[at - w]);
                } else {
                    lemma_row_start(w, y + 1, r);
                    assert(target[r] == self@.rows[r]);
                    assert(self@.rows[r][c] == cell_at(self.v@, w, r, c));
                    assert(tmp@[at] == self.v@[at]);
                }
            }
            assert(rows_in(tmp@, w, h) =~~= target);
        }
        tmp
    }

    /// Removes the lowest full row, if there is one: the rows above it move
    /// down by one and an empty row comes in at the top. Each call removes at
    /// most one row. Returns whether a row was removed; where none is full the
    /// well is left as it is.
    pub fn eliminate(&mut self) -> (removed: bool)
        requires
            old(self).wf(),
        ensures
            final(self).wf(),
            removed == has_full_row(old(self)@.rows),
            final(self)@ == (WellView {
                rows: eliminated(old(self)@.rows, old(self)@.width),
                ..old(self)@
            }),
    {
        let mut y: usize = self.h as usize;
        while y > 0
            invariant
                self.wf(),
                *self == *old(self),
                0 <= y <= self@.height,
                forall|r: int| y <= r < self@.height ==> !row_full(#[trigger] self@.rows[r]),
            decreases y,
        {
            y -= 1;
            if self.row_is_full(y) {
                proof {
                    lemma_lowest_full_is(self@.rows, y as int);
                }
                self.v = self.without_row(y);
                return true;
            }
        }
        false
    }

    /// Hands out a fresh piece of the kind that was picked for it, centered
    /// in the top row and not rotated, and keeps `fresh` as the kind of the
    /// piece after it.
    pub fn gen_shape_with(&mut self, fresh: ShapeKind) -> (s: Shape)
        requires
            old(self).wf(),
        ensures
            final(self).wf(),
            final(self)@ == (WellView { next: fresh, ..old(self)@ }),
            s.k == old(self)@.next,
            old(self)@.is_spawn(s),
    {
        let s = Shape::new(&self.n);
        self.n = fresh;
        s.pos(self.w / 2 - s.w() / 2, 0)
    }

    /// Hands out a fresh piece of the kind that was picked for it, centered
    /// in the top row and not rotated, and picks the kind of the piece after
    /// it at random. The grid is not touched.
    pub fn gen_shape(&mut self) -> (s: Shape)
        requires
            old(self).wf(),
        ensures
            final(self).wf(),
            final(self)@ == (WellView { next: final(self)@.next, ..old(self)@ }),
            s.k == old(self)@.next,
            old(self)@.is_spawn(s),
    {
        let fresh = ShapeKind::random();
        self.gen_shape_with(fresh)
    }

    /// Removes full rows one at a time until none is left, and returns how
    /// many went. Afterwards the rows that were not full lie at the bottom in
    /// their old order, under as many empty rows as full rows were removed.
    pub fn eliminate_all(&mut self) -> (count: usize)
        requires
            old(self).wf(),
            old(self)@.width > 0,
        ensures
            final(self).wf(),
            final(self)@ == (WellView {
                rows: settled(old(self)@.rows, old(self)@.width),
                ..old(self)@
            }),
            count == full_rows_in(old(self)@.rows),
            !has_full_row(final(self)@.rows),
    {
        let mut count: usize = 0;
        proof {
            lemma_full_rows_counted(self@.rows);
        }
        loop
            invariant
                self.wf(),
                self@.width == old(self)@.width > 0,
                self@.height == old(self)@.height,
                self@.next == old(self)@.next,
                settled(self@.rows, self@.width) == settled(old(self)@.rows, old(self)@.width),
                count + full_rows_in(self@.rows) == full_rows_in(old(self)@.rows),
                full_rows_in(old(self)@.rows) <= old(self)@.height,
            ensures
                self.wf(),
                self@ == (WellView {
                    rows: settled(old(self)@.rows, old(self)@.width),
                    ..old(self)@
                }),
                count == full_rows_in(old(self)@.rows),
                !has_full_row(self@.rows),
            decreases full_rows_in(self@.rows),
        {
            let ghost before = self@.rows;
            let removed = self.eliminate();
            proof {
                if removed {
                    let y = lowest_full(before);
                    lemma_lowest_full_exists(before);
                    lemma_drop_full_row(before, y, self@.width);
                } else {
                    lemma_no_full_row(before);
                    assert(blank_rows(self@.width, 0) + before =~= before);
                }
            }
            if !removed {
                break ;
            }
            count += 1;
        }
        count
    }

    /// The filled cells of the well, row by row from the top and from left
    /// to right, each as row, column and color id.
    pub fn filled_cells(&self) -> (out: Vec<(i32, i32, u8)>)
        requires
            self.wf(),
        ensures
            out@ == cells_above(self@.rows, self@.height),
    {
        let mut out: Vec<(i32, i32, u8)> = Vec::new();
        let mut r: i32 = 0;
        while r < self.h
            invariant
                self.wf(),
                0 <= r <= self@.height,
                out@ == cells_above(self@.rows, r as int),
            decreases self.h - r,
        {
            let ghost before = out@;
            let mut c: i32 = 0;
            while c < self.w
                invariant
                    self.wf(),
                    0 <= r < self@.height,
                    0 <= c <= self@.width,
                    out@ == before + row_cells(self@.rows[r as int], r as int, c as int),
                decreases self.w - c,
            {
                let cell: u8 = self.at(r as usize, c as usize);
                if cell != 0 {
                    out.push((r, c, cell));
                }
                c += 1;
                assert(out@ =~= before + row_cells(self@.rows[r as int], r as int, c as int));
            }
            r += 1;
        }
        out
    }
}

} // verus!
