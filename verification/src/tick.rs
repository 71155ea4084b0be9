//! The per-tick decisions: a requested turn, a requested step sideways and
//! one step of gravity are each proposed as a candidate and committed only if
//! the well finds the candidate legal; a piece that cannot fall lands, locks
//! into the well, full rows go, and the next piece comes in.

use crate::catalog::{lemma_layout_is_grid, lemma_layout_top_row, orientation_of, ShapeKind};
use crate::grid::{blank_rows, settled};
use crate::shape::Shape;
use crate::well::{Well, WellView};
use vstd::prelude::*;

verus! {

/// What one step of gravity did to the active piece.
#[derive(Clone, Copy, Debug, PartialEq, Eq, Structural)]
pub enum Step {
    /// The piece is one row further down, or where it was: it goes on
    /// falling.
    Falling(Shape),
    /// The piece could not move down: it has landed where it is.
    Landed(Shape),
}

/// The shape turned by `rvel` quarter turns, and moved left as far as it
/// takes for its right edge to stay inside the well.
pub open spec fn turned(wv: WellView, s: Shape, rvel: int) -> Shape {
    let t = Shape { r: (s.r + rvel) as i32, ..s };
    if t.x + t.width() > wv.width {
        Shape { x: (wv.width - t.width()) as i32, ..t }
    } else {
        t
    }
}

/// The shape after a requested turn: the turned candidate if its bounding
/// box starts at or right of column 0 and lies between the top and the bottom
/// of the well and it does not collide, else the shape as it was.
pub open spec fn after_turn(wv: WellView, s: Shape, rvel: int) -> Shape {
    let c = turned(wv, s, rvel);
    if c.x >= 0 && c.y >= 0 && c.y + c.height() <= wv.height && !wv.collides(c) {
        c
    } else {
        s
    }
}

/// The shape after a requested step of `xvel` columns: the moved candidate
/// if its bounding box lies between the sides of the well and it does not
/// collide, else the shape as it was.
pub open spec fn after_shift(wv: WellView, s: Shape, xvel: int) -> Shape {
    let c = Shape { x: (s.x + xvel) as i32, ..s };
    if c.x >= 0 && c.x + c.width() <= wv.width && !wv.collides(c) {
        c
    } else {
        s
    }
}

/// Whether the shape can fall by one row: its bounding box does not yet
/// stand on the bottom and the candidate one row down does not collide.
pub open spec fn can_fall(wv: WellView, s: Shape) -> bool {
    s.y + s.height() < wv.height && !wv.collides(Shape { y: (s.y + 1) as i32, ..s })
}

/// The shape after one step of gravity.
pub open spec fn after_fall(wv: WellView, s: Shape) -> Step {
    if can_fall(wv, s) {
        Step::Falling(Shape { y: (s.y + 1) as i32, ..s })
    } else {
        Step::Landed(s)
    }
}

/// The decisions of one tick up to the landing: the turn, then the step
/// sideways, then gravity.
pub open spec fn advanced(wv: WellView, s: Shape, rvel: int, xvel: int) -> Step {
    after_fall(wv, after_shift(wv, after_turn(wv, s, rvel), xvel))
}

/// A requested turn. The candidate is the shape turned by `rvel`; where the
/// turn pushed its right edge out of the well it is moved left to fit. It
/// replaces the shape only if it is legal.
pub fn turn(well: &Well, shape: &Shape, rvel: i32) -> (next: Shape)
    requires
        well.wf(),
        i32::MIN <= shape.r + rvel <= i32::MAX,
    ensures
        next == after_turn(well@, *shape, rvel as int),
{
    let mut c = shape.r_mod(rvel);
    let cw: i32 = c.w();
    let ch: i32 = c.h();
    if c.x as i64 + cw as i64 > well.width() as i64 {
        c.x = well.width() - cw;
    }
    if c.x >= 0 && c.y >= 0 && c.y as i64 + ch as i64 <= well.height() as i64 && !well.collides(&c) {
        c
    } else {
        *shape
    }
}

/// A requested step sideways. The candidate is the shape moved by `xvel`
/// columns; it replaces the shape only if it is legal.
pub fn shift(well: &Well, shape: &Shape, xvel: i32) -> (next: Shape)
    requires
        well.wf(),
        i32::MIN <= shape.x + xvel <= i32::MAX,
    ensures
        next == after_shift(well@, *shape, xvel as int),
{
    let c = shape.x_mod(xvel);
    if c.x >= 0 && c.x as i64 + c.w() as i64 <= well.width() as i64 && !well.collides(&c) {
        c
    } else {
        *shape
    }
}

/// One step of gravity. The candidate is the shape one row further down; if
/// it is legal the piece goes on falling from there, else it has landed.
pub fn fall(well: &Well, shape: &Shape) -> (step: Step)
    requires
        well.wf(),
        shape.y < i32::MAX,
    ensures
        step == after_fall(well@, *shape),
{
    let c = shape.y_mod(1);
    if (shape.y as i64 + shape.h() as i64) < well.height() as i64 && !well.collides(&c) {
        Step::Falling(c)
    } else {
        Step::Landed(*shape)
    }
}

/// The fresh piece of kind `k` in a well: centered in the top row, not
/// rotated.
pub open spec fn spawn_of(wv: WellView, k: ShapeKind) -> Shape {
    Shape { x: wv.spawn_x(k) as i32, y: 0, k: k, r: 0 }
}

/// The grid after the shape has locked and every full row has gone.
pub open spec fn locked(wv: WellView, s: Shape) -> Seq<Seq<u8>> {
    settled(wv.merged(s), wv.width)
}

/// The well and the active piece after a landing. The shape locks, the full
/// rows go and the piece that was picked comes in; `first` is the kind picked
/// for the piece after it. If the new piece collides at once, the well is
/// emptied and a piece of kind `first` comes in, with `second` picked for the
/// piece after that.
pub open spec fn landed(wv: WellView, s: Shape, first: ShapeKind, second: ShapeKind) -> (
    WellView,
    Shape,
) {
    let piece = spawn_of(wv, wv.next);
    let settled_well = WellView { rows: locked(wv, s), next: first, ..wv };
    if settled_well.collides(piece) {
        (
            WellView { rows: blank_rows(wv.width, wv.height), next: second, ..wv },
            spawn_of(wv, first),
        )
    } else {
        (settled_well, piece)
    }
}

/// The well and the active piece after one tick.
pub open spec fn ticked(
    wv: WellView,
    s: Shape,
    rvel: int,
    xvel: int,
    first: ShapeKind,
    second: ShapeKind,
) -> (WellView, Shape) {
    match advanced(wv, s, rvel, xvel) {
        Step::Falling(next) => (wv, next),
        Step::Landed(last) => landed(wv, last, first, second),
    }
}

/// Whether the well has room for a fresh piece of every kind: three columns
/// and four rows.
pub open spec fn roomy(wv: WellView) -> bool {
    wv.width >= 3 && wv.height >= 4
}

/// In an empty well with room, a fresh piece of any kind is legal.
pub proof fn lemma_spawn_in_empty_well(wv: WellView, k: ShapeKind)
    requires
        wv.well_formed(),
        wv.rows == blank_rows(wv.width, wv.height),
        roomy(wv),
    ensures
        !wv.collides(spawn_of(wv, k)),
{
    let s = spawn_of(wv, k);
    lemma_layout_is_grid(k, orientation_of(0));
    assert(s.width() <= 3 && s.height() <= 4);
    assert forall|r: int, c: int| !wv.hits(s, r, c) by {
        if s.fills(r, c) {
            assert(wv.inside(s.y + r, s.x + c));
            assert(wv.rows[s.y + r][s.x + c] == 0);
        }
    }
}

/// A shape that does not collide lies with its corner left of the right
/// wall and above the floor.
pub proof fn lemma_legal_corner(wv: WellView, s: Shape)
    requires
        !wv.collides(s),
    ensures
        -4 < s.x < wv.width,
        0 <= s.y < wv.height,
{
    lemma_layout_is_grid(s.k, orientation_of(s.r as int));
    lemma_layout_top_row(s.k, orientation_of(s.r as int));
    let c = choose|c: int| 0 <= c < s.width() && #[trigger] s.cells()[0][c] != 0;
    assert(s.fills(0, c));
    assert(!wv.hits(s, 0, c));
}

/// The decisions of one tick up to the landing: the requested turn, the
/// requested step sideways, then one step of gravity. The well is read and
/// never changed.
pub fn advance(well: &Well, shape: &Shape, rvel: i32, xvel: i32) -> (step: Step)
    requires
        well.wf(),
        !well@.collides(*shape),
        -1 <= xvel <= 1,
        i32::MIN <= shape.r + rvel <= i32::MAX,
    ensures
        step == advanced(well@, *shape, rvel as int, xvel as int),
        match step {
            Step::Falling(next) => !well@.collides(next),
            Step::Landed(last) => !well@.collides(last),
        },
{
    let turned = turn(well, shape, rvel);
    proof {
        lemma_legal_corner(well@, turned);
    }
    let moved = shift(well, &turned, xvel);
    proof {
        lemma_legal_corner(well@, moved);
    }
    fall(well, &moved)
}

/// Locks the landed shape into the well and removes every full row.
pub fn lock(well: &mut Well, shape: &Shape)
    requires
        old(well).wf(),
        old(well)@.width > 0,
        !old(well)@.collides(*shape),
    ensures
        final(well).wf(),
        final(well)@ == (WellView { rows: locked(old(well)@, *shape), ..old(well)@ }),
{
    well.consume(shape);
    well.eliminate_all();
}

/// A landing in which the kinds of the pieces to come are given: the shape
/// locks, the full rows go, and the next piece comes in. If that piece
/// collides at once the well is emptied and the piece after it comes in.
pub fn land_with(well: &mut Well, shape: &Shape, first: ShapeKind, second: ShapeKind) -> (next:
    Shape)
    requires
        old(well).wf(),
        old(well)@.width > 0,
        !old(well)@.collides(*shape),
    ensures
        final(well).wf(),
        (final(well)@, next) == landed(old(well)@, *shape, first, second),
        roomy(old(well)@) ==> !final(well)@.collides(next),
{
    lock(well, shape);
    let piece = well.gen_shape_with(first);
    if well.collides(&piece) {
        well.clear();
        let again = well.gen_shape_with(second);
        proof {
            if roomy(old(well)@) {
                lemma_spawn_in_empty_well(
                    WellView { rows: blank_rows(well@.width, well@.height), ..well@ },
                    first,
                );
            }
        }
        again
    } else {
        piece
    }
}

/// A landing: the shape locks, the full rows go, and the next piece comes
/// in. If that piece collides at once the well is emptied and the piece after
/// it comes in. The kinds of the pieces to come are picked at random; for
/// each pick, `land_with` says what the landing gives.
pub fn land(well: &mut Well, shape: &Shape) -> (next: Shape)
    requires
        old(well).wf(),
        old(well)@.width > 0,
        !old(well)@.collides(*shape),
    ensures
        final(well).wf(),
        exists|first: ShapeKind, second: ShapeKind|
            (final(well)@, next) == #[trigger] landed(old(well)@, *shape, first, second),
        roomy(old(well)@) ==> !final(well)@.collides(next),
{
    lock(well, shape);
    let piece = well.gen_shape();
    let ghost first = well@.next;
    if well.collides(&piece) {
        well.clear();
        let again = well.gen_shape();
        proof {
            if roomy(old(well)@) {
                lemma_spawn_in_empty_well(
                    WellView { rows: blank_rows(well@.width, well@.height), ..well@ },
                    first,
                );
            }
            assert((well@, again) == landed(old(well)@, *shape, first, well@.next));
        }
        again
    } else {
        proof {
            assert((well@, piece) == landed(old(well)@, *shape, first, first));
        }
        piece
    }
}

/// One tick in which the kinds of the pieces to come are given: the
/// requested turn, the requested step sideways, one step of gravity, and the
/// landing if the piece cannot fall.
pub fn tick_with(
    well: &mut Well,
    shape: &Shape,
    rvel: i32,
    xvel: i32,
    first: ShapeKind,
    second: ShapeKind,
) -> (next: Shape)
    requires
        old(well).wf(),
        old(well)@.width > 0,
        !old(well)@.collides(*shape),
        -1 <= xvel <= 1,
        i32::MIN <= shape.r + rvel <= i32::MAX,
    ensures
        final(well).wf(),
        (final(well)@, next) == ticked(
            old(well)@,
            *shape,
            rvel as int,
            xvel as int,
            first,
            second,
        ),
        roomy(old(well)@) ==> !final(well)@.collides(next),
{
    match advance(well, shape, rvel, xvel) {
        Step::Falling(next) => next,
        Step::Landed(last) => land_with(well, &last, first, second),
    }
}

/// One tick: the requested turn, the requested step sideways, one step of
/// gravity, and the landing if the piece cannot fall. The kinds of the pieces
/// to come are picked at random; for each pick, `tick_with` says what the
/// tick gives.
pub fn tick(well: &mut Well, shape: &Shape, rvel: i32, xvel: i32) -> (next: Shape)
    requires
        old(well).wf(),
        old(well)@.width > 0,
        !old(well)@.collides(*shape),
        -1 <= xvel <= 1,
        i32::MIN <= shape.r + rvel <= i32::MAX,
    ensures
        final(well).wf(),
        exists|first: ShapeKind, second: ShapeKind|
            (final(well)@, next) == #[trigger] ticked(
                old(well)@,
                *shape,
                rvel as int,
                xvel as int,
                first,
                second,
            ),
        roomy(old(well)@) ==> !final(well)@.collides(next),
{
    match advance(well, shape, rvel, xvel) {
        Step::Falling(next) => {
            proof {
                let k = shape.k;
                assert((well@, next) == ticked(
                    old(well)@,
                    *shape,
                    rvel as int,
                    xvel as int,
                    k,
                    k,
                ));
            }
            next
        },
        Step::Landed(last) => {
            let next = land(well, &last);
            proof {
                let (first, second) = choose|first: ShapeKind, second: ShapeKind|
                    (well@, next) == #[trigger] landed(old(well)@, last, first, second);
                assert((well@, next) == ticked(
                    old(well)@,
                    *shape,
                    rvel as int,
                    xvel as int,
                    first,
                    second,
                ));
            }
            next
        },
    }
}

} // verus!
