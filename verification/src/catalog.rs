//! The shape catalog: the seven piece kinds, the four orientations, and the
//! fixed grid of cells that each kind shows in each orientation.

use rand::Rng;
use vstd::prelude::*;

verus! {

/// One of the seven piece kinds.
#[derive(Clone, Copy, Debug, PartialEq, Eq, Structural)]
pub enum ShapeKind {
    I,
    J,
    L,
    O,
    S,
    T,
    Z,
}

/// One of the four orientations of a piece, named after the hours of a clock.
#[derive(Clone, Copy, Debug, PartialEq, Eq, Structural)]
pub enum ShapeRotation {
    TWELVE,
    THREE,
    SIX,
    NINE,
}

/// The absolute value of an integer.
pub open spec fn magnitude(r: int) -> int {
    if r < 0 {
        -r
    } else {
        r
    }
}

/// The orientation that a rotation count stands for: `|r| mod 4`, counted
/// from `TWELVE`.
pub open spec fn orientation_of(r: int) -> ShapeRotation {
    let m = magnitude(r) % 4;
    if m == 0 {
        ShapeRotation::TWELVE
    } else if m == 1 {
        ShapeRotation::THREE
    } else if m == 2 {
        ShapeRotation::SIX
    } else {
        ShapeRotation::NINE
    }
}

/// The color id that the cells of a kind carry: 1 for `I` up to 7 for `Z`.
pub open spec fn color_of(k: ShapeKind) -> u8 {
    match k {
        ShapeKind::I => 1,
        ShapeKind::J => 2,
        ShapeKind::L => 3,
        ShapeKind::O => 4,
        ShapeKind::S => 5,
        ShapeKind::T => 6,
        ShapeKind::Z => 7,
    }
}

/// The rows of a table of cells, as sequences.
pub open spec fn rows_of(t: &[&[u8]]) -> Seq<Seq<u8>> {
    Seq::new(t@.len(), |i: int| t@[i]@)
}

/// The grid of cells of kind `I` in each orientation.
pub open spec fn layout_i(o: ShapeRotation) -> Seq<Seq<u8>> {
    match o {
        ShapeRotation::TWELVE | ShapeRotation::SIX => seq![
            seq![1u8],
            seq![1u8],
            seq![1u8],
            seq![1u8],
        ],
        ShapeRotation::THREE | ShapeRotation::NINE => seq![seq![1u8, 1u8, 1u8, 1u8]],
    }
}

/// The grid of cells of kind `J` in each orientation.
pub open spec fn layout_j(o: ShapeRotation) -> Seq<Seq<u8>> {
    match o {
        ShapeRotation::TWELVE => seq![seq![0u8, 2u8], seq![0u8, 2u8], seq![2u8, 2u8]],
        ShapeRotation::THREE => seq![seq![2u8, 0u8, 0u8], seq![2u8, 2u8, 2u8]],
        ShapeRotation::SIX => seq![seq![2u8, 2u8], seq![2u8, 0u8], seq![2u8, 0u8]],
        ShapeRotation::NINE => seq![seq![2u8, 2u8, 2u8], seq![0u8, 0u8, 2u8]],
    }
}

/// The grid of cells of kind `L` in each orientation.
pub open spec fn layout_l(o: ShapeRotation) -> Seq<Seq<u8>> {
    match o {
        ShapeRotation::TWELVE => seq![seq![3u8, 0u8], seq![3u8, 0u8], seq![3u8, 3u8]],
        ShapeRotation::THREE => seq![seq![3u8, 3u8, 3u8], seq![3u8, 0u8, 0u8]],
        ShapeRotation::SIX => seq![seq![3u8, 3u8], seq![0u8, 3u8], seq![0u8, 3u8]],
        ShapeRotation::NINE => seq![seq![0u8, 0u8, 3u8], seq![3u8, 3u8, 3u8]],
    }
}

/// The grid of cells of kind `O` in each orientation.
pub open spec fn layout_o(o: ShapeRotation) -> Seq<Seq<u8>> {
    seq![seq![4u8, 4u8], seq![4u8, 4u8]]
}

/// The grid of cells of kind `S` in each orientation.
pub open spec fn layout_s(o: ShapeRotation) -> Seq<Seq<u8>> {
    match o {
        ShapeRotation::TWELVE | ShapeRotation::SIX => seq![
            seq![0u8, 5u8, 5u8],
            seq![5u8, 5u8, 0u8],
        ],
        ShapeRotation::THREE | ShapeRotation::NINE => seq![
            seq![5u8, 0u8],
            seq![5u8, 5u8],
            seq![0u8, 5u8],
        ],
    }
}

/// The grid of cells of kind `T` in each orientation.
pub open spec fn layout_t(o: ShapeRotation) -> Seq<Seq<u8>> {
    match o {
        ShapeRotation::TWELVE => seq![seq![0u8, 6u8, 0u8], seq![6u8, 6u8, 6u8]],
        ShapeRotation::THREE => seq![seq![6u8, 0u8], seq![6u8, 6u8], seq![6u8, 0u8]],
        ShapeRotation::SIX => seq![seq![6u8, 6u8, 6u8], seq![0u8, 6u8, 0u8]],
        ShapeRotation::NINE => seq![seq![0u8, 6u8], seq![6u8, 6u8], seq![0u8, 6u8]],
    }
}

/// The grid of cells of kind `Z` in each orientation.
pub open spec fn layout_z(o: ShapeRotation) -> Seq<Seq<u8>> {
    match o {
        ShapeRotation::TWELVE | ShapeRotation::SIX => seq![
            seq![7u8, 7u8, 0u8],
            seq![0u8, 7u8, 7u8],
        ],
        ShapeRotation::THREE | ShapeRotation::NINE => seq![
            seq![0u8, 7u8],
            seq![7u8, 7u8],
            seq![7u8, 0u8],
        ],
    }
}

/// The grid of cells of a kind in an orientation, row by row from the top.
/// A cell is 0 where the piece is empty and the kind's color id where it is
/// filled.
pub open spec fn layout_of(k: ShapeKind, o: ShapeRotation) -> Seq<Seq<u8>> {
    match k {
        ShapeKind::I => layout_i(o),
        ShapeKind::J => layout_j(o),
        ShapeKind::L => layout_l(o),
        ShapeKind::O => layout_o(o),
        ShapeKind::S => layout_s(o),
        ShapeKind::T => layout_t(o),
        ShapeKind::Z => layout_z(o),
    }
}

/// The grid of cells of kind `k` after `r` quarter turns.
pub open spec fn layout_at(k: ShapeKind, r: int) -> Seq<Seq<u8>> {
    layout_of(k, orientation_of(r))
}

/// Whether `t` is a grid of `h` rows of `w` cells each.
pub open spec fn is_grid(t: Seq<Seq<u8>>, w: int, h: int) -> bool {
    &&& t.len() == h
    &&& forall|r: int| 0 <= r < h ==> (#[trigger] t[r]).len() == w
}

/// The width of a layout: the length of its first row.
pub open spec fn width_of(t: Seq<Seq<u8>>) -> int {
    t[0].len() as int
}

/// The height of a layout: the number of its rows.
pub open spec fn height_of(t: Seq<Seq<u8>>) -> int {
    t.len() as int
}

/// Every layout of the catalog is a rectangle of one to four cells each way,
/// and each of its cells is empty or carries the color id of its kind.
pub proof fn lemma_layout_is_grid(k: ShapeKind, o: ShapeRotation)
    ensures
        1 <= width_of(layout_of(k, o)) <= 4,
        1 <= height_of(layout_of(k, o)) <= 4,
        is_grid(layout_of(k, o), width_of(layout_of(k, o)), height_of(layout_of(k, o))),
        forall|r: int, c: int|
            0 <= r < height_of(layout_of(k, o)) && 0 <= c < width_of(layout_of(k, o)) ==> {
                let v = #[trigger] layout_of(k, o)[r][c];
                v == 0 || v == color_of(k)
            },
{
}

/// Every layout of the catalog fills a cell in its top row.
pub proof fn lemma_layout_top_row(k: ShapeKind, o: ShapeRotation)
    ensures
        exists|c: int|
            0 <= c < width_of(layout_of(k, o)) && #[trigger] layout_of(k, o)[0][c] != 0,
{
    let t = layout_of(k, o);
    if t[0][0] != 0 {
    } else if t[0][1] != 0 {
    } else {
        assert(t[0][2] != 0);
    }
}

/// Every layout of the catalog fills a cell in its bottom row, in its
/// leftmost column and in its rightmost column: the grid is no larger than
/// the piece.
pub proof fn lemma_layout_edges(k: ShapeKind, o: ShapeRotation)
    ensures
        exists|c: int|
            0 <= c < width_of(layout_of(k, o)) && #[trigger] layout_of(k, o)[height_of(
                layout_of(k, o),
            ) - 1][c] != 0,
        exists|r: int|
            0 <= r < height_of(layout_of(k, o)) && (#[trigger] layout_of(k, o)[r])[0] != 0,
        exists|r: int|
            0 <= r < height_of(layout_of(k, o)) && (#[trigger] layout_of(k, o)[r])[width_of(
                layout_of(k, o),
            ) - 1] != 0,
{
    let t = layout_of(k, o);
    let h = height_of(t);
    let w = width_of(t);
    if t[h - 1][0] != 0 {
    } else if t[h - 1][1] != 0 {
    } else {
        assert(t[h - 1][2] != 0);
    }
    if t[0][0] != 0 {
    } else if t[1][0] != 0 {
    } else {
        assert(t[2][0] != 0);
    }
    if t[0][w - 1] != 0 {
    } else if t[1][w - 1] != 0 {
    } else {
        assert(t[2][w - 1] != 0);
    }
}

/// The kind that a number stands for: 0 is `I`, 1 is `J`, and so on in the
/// order of the declaration; any number above 5 is `Z`.
pub open spec fn kind_of_index(i: int) -> ShapeKind {
    if i == 0 {
        ShapeKind::I
    } else if i == 1 {
        ShapeKind::J
    } else if i == 2 {
        ShapeKind::L
    } else if i == 3 {
        ShapeKind::O
    } else if i == 4 {
        ShapeKind::S
    } else if i == 5 {
        ShapeKind::T
    } else {
        ShapeKind::Z
    }
}

/// Calls `rand::thread_rng().gen_range(0, 7)` and hands the number back.
/// `gen_range` documents a value in the half-open range from `low` to `high`,
/// so the result is at least 0 and below 7. Which of the seven it is depends
/// on the generator, so nothing more is claimed. The thread's generator is
/// seeded from the operating system and the call panics if that fails.
#[verifier::external_body]
fn roll_seven() -> (n: i32)
    ensures
        0 <= n < 7,
{
    rand::thread_rng().gen_range(0, 7)
}

fn table_i(rot: ShapeRotation) -> (t: &'static [&'static [u8]])
    ensures
        rows_of(t) =~~= layout_i(rot),
{
    match rot {
        ShapeRotation::TWELVE => &[&[1], &[1], &[1], &[1]],
        ShapeRotation::THREE => &[&[1, 1, 1, 1]],
        ShapeRotation::SIX => &[&[1], &[1], &[1], &[1]],
        ShapeRotation::NINE => &[&[1, 1, 1, 1]],
    }
}

fn table_j(rot: ShapeRotation) -> (t: &'static [&'static [u8]])
    ensures
        rows_of(t) =~~= layout_j(rot),
{
    match rot {
        ShapeRotation::TWELVE => &[&[0, 2], &[0, 2], &[2, 2]],
        ShapeRotation::THREE => &[&[2, 0, 0], &[2, 2, 2]],
        ShapeRotation::SIX => &[&[2, 2], &[2, 0], &[2, 0]],
        ShapeRotation::NINE => &[&[2, 2, 2], &[0, 0, 2]],
    }
}

fn table_l(rot: ShapeRotation) -> (t: &'static [&'static [u8]])
    ensures
        rows_of(t) =~~= layout_l(rot),
{
    match rot {
        ShapeRotation::TWELVE => &[&[3, 0], &[3, 0], &[3, 3]],
        ShapeRotation::THREE => &[&[3, 3, 3], &[3, 0, 0]],
        ShapeRotation::SIX => &[&[3, 3], &[0, 3], &[0, 3]],
        ShapeRotation::NINE => &[&[0, 0, 3], &[3, 3, 3]],
    }
}

fn table_o(rot: ShapeRotation) -> (t: &'static [&'static [u8]])
    ensures
        rows_of(t) =~~= layout_o(rot),
{
    match rot {
        ShapeRotation::TWELVE => &[&[4, 4], &[4, 4]],
        ShapeRotation::THREE => &[&[4, 4], &[4, 4]],
        ShapeRotation::SIX => &[&[4, 4], &[4, 4]],
        ShapeRotation::NINE => &[&[4, 4], &[4, 4]],
    }
}

fn table_s(rot: ShapeRotation) -> (t: &'static [&'static [u8]])
    ensures
        rows_of(t) =~~= layout_s(rot),
{
    match rot {
        ShapeRotation::TWELVE => &[&[0, 5, 5], &[5, 5, 0]],
        ShapeRotation::THREE => &[&[5, 0], &[5, 5], &[0, 5]],
        ShapeRotation::SIX => &[&[0, 5, 5], &[5, 5, 0]],
        ShapeRotation::NINE => &[&[5, 0], &[5, 5], &[0, 5]],
    }
}

fn table_t(rot: ShapeRotation) -> (t: &'static [&'static [u8]])
    ensures
        rows_of(t) =~~= layout_t(rot),
{
    match rot {
        ShapeRotation::TWELVE => &[&[0, 6, 0], &[6, 6, 6]],
        ShapeRotation::THREE => &[&[6, 0], &[6, 6], &[6, 0]],
        ShapeRotation::SIX => &[&[6, 6, 6], &[0, 6, 0]],
        ShapeRotation::NINE => &[&[0, 6], &[6, 6], &[0, 6]],
    }
}

fn table_z(rot: ShapeRotation) -> (t: &'static [&'static [u8]])
    ensures
        rows_of(t) =~~= layout_z(rot),
{
    match rot {
        ShapeRotation::TWELVE => &[&[7, 7, 0], &[0, 7, 7]],
        ShapeRotation::THREE => &[&[0, 7], &[7, 7], &[7, 0]],
        ShapeRotation::SIX => &[&[7, 7, 0], &[0, 7, 7]],
        ShapeRotation::NINE => &[&[0, 7], &[7, 7], &[7, 0]],
    }
}

impl ShapeRotation {
    /// The orientation for a rotation count. The count is taken by its
    /// absolute value modulo 4, so every `i32` names an orientation.
    pub fn from_i32(r: i32) -> (o: ShapeRotation)
        ensures
            o == orientation_of(r as int),
    {
        let q: i32 = r % 4;
        let m: i32 = if q < 0 {
            -q
        } else {
            q
        };
        if m == 0 {
            ShapeRotation::TWELVE
        } else if m == 1 {
            ShapeRotation::THREE
        } else if m == 2 {
            ShapeRotation::SIX
        } else {
            ShapeRotation::NINE
        }
    }
}

impl ShapeKind {
    /// The kind that the number `i` stands for.
    pub fn from_index(i: i32) -> (k: ShapeKind)
        ensures
            k == kind_of_index(i as int),
    {
        if i == 0 {
            ShapeKind::I
        } else if i == 1 {
            ShapeKind::J
        } else if i == 2 {
            ShapeKind::L
        } else if i == 3 {
            ShapeKind::O
        } else if i == 4 {
            ShapeKind::S
        } else if i == 5 {
            ShapeKind::T
        } else {
            ShapeKind::Z
        }
    }

    /// The grid of cells of this kind in the orientation `rot`, row by row
    /// from the top.
    pub fn layout(&self, rot: ShapeRotation) -> (t: &'static [&'static [u8]])
        ensures
            rows_of(t) == layout_of(*self, rot),
    {
        match self {
            ShapeKind::I => table_i(rot),
            ShapeKind::J => table_j(rot),
            ShapeKind::L => table_l(rot),
            ShapeKind::O => table_o(rot),
            ShapeKind::S => table_s(rot),
            ShapeKind::T => table_t(rot),
            ShapeKind::Z => table_z(rot),
        }
    }

    /// A kind picked by the thread's random number generator. Any of the
    /// seven may come back; `from_index` says which kind each roll gives.
    pub fn random() -> (k: ShapeKind) {
        ShapeKind::from_index(roll_seven())
    }

    /// The color id of this kind's cells.
    pub fn id(&self) -> (c: u8)
        ensures
            c == color_of(*self),
    {
        match self {
            ShapeKind::I => 1,
            ShapeKind::J => 2,
            ShapeKind::L => 3,
            ShapeKind::O => 4,
            ShapeKind::S => 5,
            ShapeKind::T => 6,
            ShapeKind::Z => 7,
        }
    }

    /// The red, green and blue parts of the color that a cell with color id
    /// `c` is drawn in. Every id is drawn in the same dark blue.
    pub fn color(c: u8) -> (rgb: (u8, u8, u8))
        ensures
            rgb == (0x00u8, 0x00u8, 0x77u8),
    {
        (0x00, 0x00, 0x77)
    }
}

} // verus!
