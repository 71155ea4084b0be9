//! Laws of the rule engine: what holds of the catalog and of the grid for
//! every input, stated over the same functions that the contracts use.

use crate::catalog::{
    layout_at, lemma_layout_edges, lemma_layout_is_grid, lemma_layout_top_row, magnitude,
    orientation_of, ShapeKind,
};
use crate::grid::{
    blank_row, drop_row, eliminated, filled_in, full_rows_in, has_full_row, kept_rows,
    lemma_drop_full_row, lemma_filled_blank_row, lemma_filled_concat, lemma_filled_full_row,
    lemma_filled_single, lemma_kept_rows_not_full, lemma_lowest_full_exists, lemma_no_full_row,
    lowest_full, row_full, settled,
};
use crate::shape::Shape;
use crate::well::WellView;
use vstd::prelude::*;

verus! {

/// The remainder of `r` by 4 as machine integers give it: it has the sign of
/// `r`, so it lies between -3 and 3.
pub open spec fn rem_four(r: int) -> int {
    if r < 0 {
        -(magnitude(r) % 4)
    } else {
        r % 4
    }
}

/// Whether the kind looks different after one quarter turn and after three.
pub open spec fn lopsided(k: ShapeKind) -> bool {
    k == ShapeKind::J || k == ShapeKind::L || k == ShapeKind::T
}

/// A layout depends on the rotation count only through its remainder by 4,
/// for every kind and every count, negative ones too.
pub proof fn law_layout_by_remainder(k: ShapeKind, r: int)
    ensures
        layout_at(k, r) == layout_at(k, rem_four(r)),
{
}

/// A layout is the layout of the count reduced into 0 to 3, except for an
/// odd negative count of a lopsided kind: such a count stands for a quarter
/// turn where the reduced count stands for three, or the other way round.
pub proof fn law_layout_mod_four(k: ShapeKind, r: int)
    ensures
        (layout_at(k, r) == layout_at(k, r % 4)) <==> !(r < 0 && r % 2 != 0 && lopsided(k)),
{
    if r < 0 && r % 2 != 0 && lopsided(k) {
        let a = layout_at(k, r);
        let b = layout_at(k, r % 4);
        assert(a.len() != b.len() || a[0][0] != b[0][0] || a[1][1] != b[1][1] || a[0][1]
            != b[0][1]);
    }
}

/// Four more quarter turns, or four fewer, give the same layout as long as
/// the count keeps its sign.
pub proof fn law_layout_full_turn(k: ShapeKind, r: int)
    requires
        r >= 0 || r + 4 <= 0,
    ensures
        layout_at(k, r + 4) == layout_at(k, r),
{
}

/// One elimination on a grid of positive width that has a full row removes
/// exactly one: the count of full rows goes down by one, the count of filled
/// cells by the width, and what the grid settles to stays the same.
pub proof fn law_eliminate_removes_one(rows: Seq<Seq<u8>>, w: int)
    requires
        0 < w,
        has_full_row(rows),
        forall|r: int| 0 <= r < rows.len() ==> (#[trigger] rows[r]).len() == w,
    ensures
        eliminated(rows, w).len() == rows.len(),
        full_rows_in(eliminated(rows, w)) + 1 == full_rows_in(rows),
        filled_in(eliminated(rows, w)) + w == filled_in(rows),
        settled(eliminated(rows, w), w) == settled(rows, w),
{
    let y = lowest_full(rows);
    lemma_lowest_full_exists(rows);
    lemma_drop_full_row(rows, y, w);
    let above = rows.subrange(0, y);
    let below = rows.subrange(y + 1, rows.len() as int);
    let top = seq![blank_row(w)];
    assert(rows =~= above + seq![rows[y]] + below);
    assert(rows.remove(y) =~= above + below);
    assert(drop_row(rows, y, w) == top + (above + below));
    lemma_filled_concat(above, seq![rows[y]]);
    lemma_filled_concat(above + seq![rows[y]], below);
    lemma_filled_concat(above, below);
    lemma_filled_concat(top, above + below);
    lemma_filled_single(rows[y]);
    lemma_filled_single(blank_row(w));
    lemma_filled_full_row(rows[y]);
    lemma_filled_blank_row(w);
}

/// One elimination on a grid without a full row changes nothing, and such a
/// grid is what it settles to.
pub proof fn law_eliminate_without_full_row(rows: Seq<Seq<u8>>, w: int)
    requires
        !has_full_row(rows),
    ensures
        eliminated(rows, w) == rows,
        settled(rows, w) == rows,
{
    lemma_no_full_row(rows);
    assert(settled(rows, w) =~= rows);
}

/// What a grid settles to has no full row, as long as the width is positive.
pub proof fn law_settled_has_no_full_row(rows: Seq<Seq<u8>>, w: int)
    requires
        0 < w,
    ensures
        !has_full_row(settled(rows, w)),
{
    let s = settled(rows, w);
    assert(blank_row(w)[0] == 0u8);
    assert(!row_full(blank_row(w)));
    lemma_kept_rows_not_full(rows);
    assert forall|r: int| 0 <= r < s.len() implies !row_full(#[trigger] s[r]) by {
        let n = full_rows_in(rows) as int;
        if r < n {
            assert(s[r] == blank_row(w));
        } else {
            assert(s[r] == kept_rows(rows)[r - n]);
        }
    }
}

/// A position is illegal exactly if it is not admitted: some filled cell of
/// the shape is in the way, or every one lies on an empty cell inside the
/// well.
pub proof fn law_collides_or_admits(wv: WellView, s: Shape)
    ensures
        wv.collides(s) <==> !wv.admits(s),
{
    if wv.collides(s) {
        let (r, c) = choose|r: int, c: int| wv.hits(s, r, c);
        assert(s.fills(r, c));
    }
    if !wv.admits(s) {
        let (r, c) = choose|r: int, c: int| #[trigger]
            s.fills(r, c) && !(wv.inside(s.y + r, s.x + c) && wv.rows[s.y + r][s.x + c] == 0);
        assert(wv.hits(s, r, c));
    }
}

/// The whole bounding box of a shape that does not collide lies inside the
/// well.
pub proof fn law_legal_shape_is_inside(wv: WellView, s: Shape)
    requires
        !wv.collides(s),
    ensures
        0 <= s.x,
        s.x + s.width() <= wv.width,
        0 <= s.y,
        s.y + s.height() <= wv.height,
{
    let o = orientation_of(s.r as int);
    let t = s.cells();
    lemma_layout_is_grid(s.k, o);
    lemma_layout_top_row(s.k, o);
    lemma_layout_edges(s.k, o);
    let c0 = choose|c: int| 0 <= c < s.width() && #[trigger] t[0][c] != 0;
    assert(s.fills(0, c0));
    assert(!wv.hits(s, 0, c0));
    let c1 = choose|c: int| 0 <= c < s.width() && #[trigger] t[s.height() - 1][c] != 0;
    assert(s.fills(s.height() - 1, c1));
    assert(!wv.hits(s, s.height() - 1, c1));
    let r0 = choose|r: int| 0 <= r < s.height() && (#[trigger] t[r])[0] != 0;
    assert(s.fills(r0, 0));
    assert(!wv.hits(s, r0, 0));
    let r1 = choose|r: int| 0 <= r < s.height() && (#[trigger] t[r])[s.width() - 1] != 0;
    assert(s.fills(r1, s.width() - 1));
    assert(!wv.hits(s, r1, s.width() - 1));
}

} // verus!
