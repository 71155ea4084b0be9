//! The mathematical model of the playfield: a sequence of rows, each a
//! sequence of cells, where 0 is an empty cell and any other value is the
//! color id of a locked piece.

use vstd::prelude::*;

verus! {

/// A row of `w` empty cells.
pub open spec fn blank_row(w: int) -> Seq<u8> {
    Seq::new(w as nat, |c: int| 0u8)
}

/// A grid of `h` rows of `w` empty cells.
pub open spec fn blank_rows(w: int, h: int) -> Seq<Seq<u8>> {
    Seq::new(h as nat, |r: int| blank_row(w))
}

/// Whether every cell of the row is filled.
pub open spec fn row_full(row: Seq<u8>) -> bool {
    forall|c: int| 0 <= c < row.len() ==> #[trigger] row[c] != 0
}

/// Whether some row of the grid is full.
pub open spec fn has_full_row(rows: Seq<Seq<u8>>) -> bool {
    exists|r: int| 0 <= r < rows.len() && row_full(#[trigger] rows[r])
}

/// Whether row `y` is full and no row below it is.
pub open spec fn is_lowest_full(rows: Seq<Seq<u8>>, y: int) -> bool {
    &&& 0 <= y < rows.len()
    &&& row_full(rows[y])
    &&& forall|r: int| y < r < rows.len() ==> !row_full(#[trigger] rows[r])
}

/// The grid without its row `y`: the rows above it move down by one and a
/// blank row of `w` cells comes in at the top.
pub open spec fn drop_row(rows: Seq<Seq<u8>>, y: int, w: int) -> Seq<Seq<u8>> {
    seq![blank_row(w)] + rows.remove(y)
}

/// The index of the lowest full row of a grid that has one.
pub open spec fn lowest_full(rows: Seq<Seq<u8>>) -> int {
    choose|y: int| is_lowest_full(rows, y)
}

/// The grid after one elimination: without its lowest full row if it has a
/// full row, unchanged if it has none.
pub open spec fn eliminated(rows: Seq<Seq<u8>>, w: int) -> Seq<Seq<u8>> {
    if has_full_row(rows) {
        drop_row(rows, lowest_full(rows), w)
    } else {
        rows
    }
}

/// A grid has at most one lowest full row: where `y` is one, `lowest_full`
/// names it.
pub proof fn lemma_lowest_full_is(rows: Seq<Seq<u8>>, y: int)
    requires
        is_lowest_full(rows, y),
    ensures
        has_full_row(rows),
        lowest_full(rows) == y,
{
    let z = lowest_full(rows);
    assert(is_lowest_full(rows, z));
    if z < y {
        assert(!row_full(rows[y]));
    } else if y < z {
        assert(!row_full(rows[z]));
    }
}

proof fn lemma_lowest_full_below(rows: Seq<Seq<u8>>, hi: int)
    requires
        0 <= hi <= rows.len(),
        exists|r: int| 0 <= r < hi && row_full(#[trigger] rows[r]),
        forall|r: int| hi <= r < rows.len() ==> !row_full(#[trigger] rows[r]),
    ensures
        exists|y: int| is_lowest_full(rows, y),
    decreases hi,
{
    if row_full(rows[hi - 1]) {
        assert(is_lowest_full(rows, hi - 1));
    } else {
        lemma_lowest_full_below(rows, hi - 1);
    }
}

/// A grid with a full row has a lowest one, and `lowest_full` names it.
pub proof fn lemma_lowest_full_exists(rows: Seq<Seq<u8>>)
    requires
        has_full_row(rows),
    ensures
        is_lowest_full(rows, lowest_full(rows)),
{
    lemma_lowest_full_below(rows, rows.len() as int);
}

/// The number of filled cells in a row.
pub open spec fn filled_in_row(row: Seq<u8>) -> nat
    decreases row.len(),
{
    if row.len() == 0 {
        0
    } else {
        filled_in_row(row.drop_last()) + if row.last() != 0 {
            1nat
        } else {
            0nat
        }
    }
}

/// The number of filled cells in a grid.
pub open spec fn filled_in(rows: Seq<Seq<u8>>) -> nat
    decreases rows.len(),
{
    if rows.len() == 0 {
        0
    } else {
        filled_in(rows.drop_last()) + filled_in_row(rows.last())
    }
}

/// The number of full rows in a grid.
pub open spec fn full_rows_in(rows: Seq<Seq<u8>>) -> nat
    decreases rows.len(),
{
    if rows.len() == 0 {
        0
    } else {
        full_rows_in(rows.drop_last()) + if row_full(rows.last()) {
            1nat
        } else {
            0nat
        }
    }
}

/// The rows of a grid that are not full, in their order from the top.
pub open spec fn kept_rows(rows: Seq<Seq<u8>>) -> Seq<Seq<u8>>
    decreases rows.len(),
{
    if rows.len() == 0 {
        Seq::empty()
    } else if row_full(rows.last()) {
        kept_rows(rows.drop_last())
    } else {
        kept_rows(rows.drop_last()).push(rows.last())
    }
}

/// The grid once every full row has gone: as many blank rows of `w` cells at
/// the top as there were full rows, and under them the rows that were not
/// full, in their order.
pub open spec fn settled(rows: Seq<Seq<u8>>, w: int) -> Seq<Seq<u8>> {
    blank_rows(w, full_rows_in(rows) as int) + kept_rows(rows)
}

/// Counting full rows and keeping the others both go through a
/// concatenation part by part.
pub proof fn lemma_rows_concat(a: Seq<Seq<u8>>, b: Seq<Seq<u8>>)
    ensures
        full_rows_in(a + b) == full_rows_in(a) + full_rows_in(b),
        kept_rows(a + b) == kept_rows(a) + kept_rows(b),
    decreases b.len(),
{
    if b.len() == 0 {
        assert(a + b =~= a);
        assert(kept_rows(a) + kept_rows(b) =~= kept_rows(a));
    } else {
        lemma_rows_concat(a, b.drop_last());
        assert((a + b).drop_last() =~= a + b.drop_last());
        assert((a + b).last() == b.last());
        if !row_full(b.last()) {
            assert(kept_rows(a) + kept_rows(b.drop_last()).push(b.last()) =~= (kept_rows(a)
                + kept_rows(b.drop_last())).push(b.last()));
        }
    }
}

/// A grid of one row: it counts as one full row and keeps nothing if the row
/// is full, and counts none and keeps the row otherwise.
pub proof fn lemma_rows_single(row: Seq<u8>)
    ensures
        full_rows_in(seq![row]) == (if row_full(row) {
            1nat
        } else {
            0nat
        }),
        kept_rows(seq![row]) == (if row_full(row) {
            Seq::<Seq<u8>>::empty()
        } else {
            seq![row]
        }),
{
    let one = seq![row];
    assert(one.drop_last() =~= Seq::<Seq<u8>>::empty());
    assert(one.last() == row);
    assert(full_rows_in(one.drop_last()) == 0);
    assert(kept_rows(one.drop_last()) =~= Seq::<Seq<u8>>::empty());
    if !row_full(row) {
        assert(Seq::<Seq<u8>>::empty().push(row) =~= seq![row]);
    }
}

/// A grid without full rows counts none and keeps every row.
pub proof fn lemma_no_full_row(rows: Seq<Seq<u8>>)
    requires
        !has_full_row(rows),
    ensures
        full_rows_in(rows) == 0,
        kept_rows(rows) == rows,
    decreases rows.len(),
{
    if rows.len() == 0 {
        assert(kept_rows(rows) =~= rows);
    } else {
        let init = rows.drop_last();
        assert forall|r: int| 0 <= r < init.len() implies !row_full(#[trigger] init[r]) by {
            assert(init[r] == rows[r]);
        }
        lemma_no_full_row(init);
        assert(rows.last() == rows[rows.len() - 1]);
        assert(init.push(rows.last()) =~= rows);
    }
}

/// A grid that counts no full row has none.
pub proof fn lemma_full_rows_counted(rows: Seq<Seq<u8>>)
    ensures
        has_full_row(rows) <==> full_rows_in(rows) > 0,
        full_rows_in(rows) <= rows.len(),
    decreases rows.len(),
{
    if rows.len() > 0 {
        let init = rows.drop_last();
        lemma_full_rows_counted(init);
        if has_full_row(init) {
            let r = choose|r: int| 0 <= r < init.len() && row_full(#[trigger] init[r]);
            assert(row_full(rows[r]));
        }
        if row_full(rows.last()) {
            assert(row_full(rows[rows.len() - 1]));
        }
        if has_full_row(rows) {
            let r = choose|r: int| 0 <= r < rows.len() && row_full(#[trigger] rows[r]);
            if r < init.len() {
                assert(row_full(init[r]));
            }
        }
    }
}

/// Dropping a full row from a grid of positive width takes one from the
/// count of full rows and puts one blank row on top of the rows kept.
pub proof fn lemma_drop_full_row(rows: Seq<Seq<u8>>, y: int, w: int)
    requires
        0 < w,
        0 <= y < rows.len(),
        row_full(rows[y]),
    ensures
        full_rows_in(drop_row(rows, y, w)) + 1 == full_rows_in(rows),
        kept_rows(drop_row(rows, y, w)) == seq![blank_row(w)] + kept_rows(rows),
        settled(drop_row(rows, y, w), w) == settled(rows, w),
{
    let above = rows.subrange(0, y);
    let below = rows.subrange(y + 1, rows.len() as int);
    let top = seq![blank_row(w)];
    assert(rows =~= above + seq![rows[y]] + below);
    assert(rows.remove(y) =~= above + below);
    assert(blank_row(w)[0] == 0u8);
    assert(!row_full(blank_row(w)));
    lemma_rows_single(rows[y]);
    lemma_rows_single(blank_row(w));
    lemma_rows_concat(above, seq![rows[y]]);
    lemma_rows_concat(above + seq![rows[y]], below);
    lemma_rows_concat(above, below);
    lemma_rows_concat(top, above + below);
    assert(kept_rows(above) + Seq::<Seq<u8>>::empty() =~= kept_rows(above));
    let n = full_rows_in(rows) as int;
    assert(blank_rows(w, n - 1) + top =~= blank_rows(w, n));
    assert(blank_rows(w, n - 1) + (top + kept_rows(rows)) =~= blank_rows(w, n) + kept_rows(
        rows,
    ));
}

/// Counting filled cells goes through a concatenation part by part.
pub proof fn lemma_filled_concat(a: Seq<Seq<u8>>, b: Seq<Seq<u8>>)
    ensures
        filled_in(a + b) == filled_in(a) + filled_in(b),
    decreases b.len(),
{
    if b.len() == 0 {
        assert(a + b =~= a);
    } else {
        lemma_filled_concat(a, b.drop_last());
        assert((a + b).drop_last() =~= a + b.drop_last());
        assert((a + b).last() == b.last());
    }
}

/// A grid of one row has the filled cells of that row.
pub proof fn lemma_filled_single(row: Seq<u8>)
    ensures
        filled_in(seq![row]) == filled_in_row(row),
{
    let one = seq![row];
    assert(one.drop_last() =~= Seq::<Seq<u8>>::empty());
    assert(one.last() == row);
    assert(filled_in(one.drop_last()) == 0);
}

/// Every cell of a full row is filled.
pub proof fn lemma_filled_full_row(row: Seq<u8>)
    requires
        row_full(row),
    ensures
        filled_in_row(row) == row.len(),
    decreases row.len(),
{
    if row.len() > 0 {
        let init = row.drop_last();
        assert forall|c: int| 0 <= c < init.len() implies #[trigger] init[c] != 0 by {
            assert(init[c] == row[c]);
        }
        lemma_filled_full_row(init);
        assert(row.last() == row[row.len() - 1]);
    }
}

/// No cell of a blank row is filled.
pub proof fn lemma_filled_blank_row(w: int)
    requires
        0 <= w,
    ensures
        filled_in_row(blank_row(w)) == 0,
    decreases w,
{
    if w > 0 {
        lemma_filled_blank_row(w - 1);
        assert(blank_row(w).drop_last() =~= blank_row(w - 1));
        assert(blank_row(w).last() == 0u8);
    }
}

/// None of the rows kept is full.
pub proof fn lemma_kept_rows_not_full(rows: Seq<Seq<u8>>)
    ensures
        forall|r: int| 0 <= r < kept_rows(rows).len() ==> !row_full(#[trigger] kept_rows(rows)[r]),
    decreases rows.len(),
{
    if rows.len() > 0 {
        let kept = kept_rows(rows.drop_last());
        lemma_kept_rows_not_full(rows.drop_last());
        assert forall|r: int| 0 <= r < kept_rows(rows).len() implies !row_full(
            #[trigger] kept_rows(rows)[r],
        ) by {
            if r < kept.len() {
                assert(kept_rows(rows)[r] == kept[r]);
            }
        }
    }
}

} // verus!
