use blockdrop::{Shape, ShapeKind, Well};

fn grid(well: &Well) -> Vec<Vec<u8>> {
    (0..well.height())
        .map(|r| (0..well.width()).map(|c| well.get(r, c).unwrap()).collect())
        .collect()
}

fn occupied(well: &Well) -> usize {
    grid(well).iter().flatten().filter(|&&c| c != 0).count()
}

fn upright_i(x: i32, y: i32) -> Shape {
    Shape { x, y, k: ShapeKind::I, r: 0 }
}

fn flat_i(x: i32, y: i32) -> Shape {
    Shape { x, y, k: ShapeKind::I, r: 1 }
}

/// A well of 10 by 22 whose bottom row is filled but for its last cell.
fn nearly_full_bottom() -> Well {
    let mut well = Well::with_next(10, 22, ShapeKind::T);
    for s in [flat_i(0, 21), flat_i(4, 21), upright_i(8, 18)] {
        assert!(!well.collides(&s));
        well.consume(&s);
    }
    well
}

#[test]
fn new_well_is_empty() {
    let well = Well::new(10, 22);
    assert_eq!(well.width(), 10);
    assert_eq!(well.height(), 22);
    assert_eq!(grid(&well), vec![vec![0u8; 10]; 22]);
    assert!(well.filled_cells().is_empty());
}

#[test]
fn well_without_cells() {
    let mut well = Well::new(0, 0);
    assert_eq!(well.get(0, 0), None);
    assert!(!well.eliminate());
    assert!(well.collides(&Shape::new(&ShapeKind::O)));
}

#[test]
fn get_is_none_outside_the_well() {
    let well = Well::new(3, 2);
    assert_eq!(well.get(0, 0), Some(0));
    assert_eq!(well.get(1, 2), Some(0));
    assert_eq!(well.get(2, 0), None);
    assert_eq!(well.get(0, 3), None);
    assert_eq!(well.get(-1, 0), None);
    assert_eq!(well.get(0, -1), None);
}

#[test]
fn spawned_o_piece_is_centered_at_the_top() {
    let mut well = Well::with_next(10, 22, ShapeKind::O);
    let s = well.gen_shape_with(ShapeKind::J);
    assert_eq!(s, Shape { x: 4, y: 0, k: ShapeKind::O, r: 0 });
    assert_eq!(s.filled_cells(), vec![(4, 0, 4), (5, 0, 4), (4, 1, 4), (5, 1, 4)]);
    assert_eq!(well.next(), ShapeKind::J);
    assert!(!well.collides(&s));
}

#[test]
fn spawn_uses_the_kind_picked_before_and_keeps_the_new_one() {
    let mut well = Well::with_next(10, 22, ShapeKind::I);
    assert_eq!(well.gen_shape_with(ShapeKind::T), Shape { x: 5, y: 0, k: ShapeKind::I, r: 0 });
    assert_eq!(well.gen_shape_with(ShapeKind::S), Shape { x: 4, y: 0, k: ShapeKind::T, r: 0 });
    assert_eq!(well.gen_shape_with(ShapeKind::L), Shape { x: 4, y: 0, k: ShapeKind::S, r: 0 });
    assert_eq!(well.gen_shape_with(ShapeKind::L), Shape { x: 4, y: 0, k: ShapeKind::L, r: 0 });
    assert_eq!(grid(&well), vec![vec![0u8; 10]; 22]);
}

#[test]
fn spawn_in_a_well_of_odd_width() {
    let mut well = Well::with_next(7, 8, ShapeKind::Z);
    assert_eq!(well.gen_shape_with(ShapeKind::I), Shape { x: 2, y: 0, k: ShapeKind::Z, r: 0 });
    assert_eq!(well.gen_shape_with(ShapeKind::I), Shape { x: 3, y: 0, k: ShapeKind::I, r: 0 });
}

#[test]
fn random_spawn_is_centered_and_hands_out_the_kind_picked_before() {
    let mut well = Well::new(10, 22);
    for _ in 0..50 {
        let picked = well.next();
        let s = well.gen_shape();
        assert_eq!(s.k, picked);
        assert_eq!((s.x, s.y, s.r), (5 - s.w() / 2, 0, 0));
    }
    assert_eq!(occupied(&well), 0);
}

#[test]
fn collides_outside_each_wall() {
    let well = Well::new(10, 22);
    let o = Shape::new(&ShapeKind::O);
    assert!(!well.collides(&o.pos(0, 0)));
    assert!(!well.collides(&o.pos(8, 20)));
    assert!(well.collides(&o.pos(-1, 0)));
    assert!(well.collides(&o.pos(9, 0)));
    assert!(well.collides(&o.pos(0, -1)));
    assert!(well.collides(&o.pos(0, 21)));
    assert!(well.collides(&o.pos(i32::MAX, i32::MAX)));
    assert!(well.collides(&o.pos(i32::MIN, i32::MIN)));
}

#[test]
fn one_cell_outside_is_enough_to_collide() {
    let well = Well::new(10, 22);
    let j = Shape { x: -1, y: 0, k: ShapeKind::J, r: 0 };
    assert!(well.collides(&j));
    assert!(!well.collides(&j.pos(0, 0)));
    let t = Shape { x: 7, y: 20, k: ShapeKind::T, r: 0 };
    assert!(!well.collides(&t));
    assert!(well.collides(&t.pos(8, 20)));
    assert!(well.collides(&t.pos(7, 21)));
}

#[test]
fn collides_on_a_filled_cell_only() {
    let mut well = Well::with_next(10, 22, ShapeKind::O);
    well.consume(&flat_i(0, 21));
    assert!(well.collides(&upright_i(3, 18)));
    assert!(!well.collides(&upright_i(4, 18)));
    assert!(!well.collides(&upright_i(3, 17)));
    let j = Shape { x: 3, y: 19, k: ShapeKind::J, r: 0 };
    assert!(well.collides(&j));
    let l = Shape { x: 3, y: 19, k: ShapeKind::L, r: 0 };
    assert!(well.collides(&l));
    assert!(!well.collides(&l.r_mod(2)));
    let above = Shape { x: 2, y: 19, k: ShapeKind::T, r: 0 };
    assert!(!well.collides(&above));
}

#[test]
fn consume_writes_the_shapes_cells_and_no_others() {
    let mut well = Well::with_next(6, 6, ShapeKind::O);
    well.consume(&Shape { x: 0, y: 4, k: ShapeKind::O, r: 0 });
    let before = grid(&well);
    let t = Shape { x: 2, y: 4, k: ShapeKind::T, r: 0 };
    assert!(!well.collides(&t));
    well.consume(&t);
    let after = grid(&well);
    let mut expected = before.clone();
    expected[4][3] = 6;
    expected[5][2] = 6;
    expected[5][3] = 6;
    expected[5][4] = 6;
    assert_eq!(after, expected);
    assert_eq!(after[4], vec![4, 4, 0, 6, 0, 0]);
    assert_eq!(after[5], vec![4, 4, 6, 6, 6, 0]);
    assert_eq!(well.next(), ShapeKind::O);
}

#[test]
fn consume_leaves_cells_under_the_empty_corners_of_a_layout() {
    let mut well = Well::with_next(4, 4, ShapeKind::O);
    well.consume(&Shape { x: 0, y: 2, k: ShapeKind::L, r: 1 });
    assert_eq!(grid(&well)[2], vec![3, 3, 3, 0]);
    assert_eq!(grid(&well)[3], vec![3, 0, 0, 0]);
    let j = Shape { x: 1, y: 2, k: ShapeKind::J, r: 3 };
    assert!(well.collides(&j));
    let fit = Shape { x: 1, y: 2, k: ShapeKind::J, r: 1 };
    assert!(well.collides(&fit));
    let i = Shape { x: 1, y: 3, k: ShapeKind::I, r: 1 };
    assert!(well.collides(&i));
    let o = Shape { x: 2, y: 0, k: ShapeKind::O, r: 0 };
    assert!(!well.collides(&o));
    well.consume(&o);
    assert_eq!(grid(&well), vec![
        vec![0, 0, 4, 4],
        vec![0, 0, 4, 4],
        vec![3, 3, 3, 0],
        vec![3, 0, 0, 0],
    ]);
}

#[test]
fn eliminate_without_a_full_row_changes_nothing() {
    let mut well = nearly_full_bottom();
    let before = grid(&well);
    assert!(!well.eliminate());
    assert_eq!(grid(&well), before);
    let mut empty = Well::new(10, 22);
    assert!(!empty.eliminate());
    assert_eq!(occupied(&empty), 0);
}

#[test]
fn filling_the_last_cell_of_the_bottom_row_removes_that_row() {
    let mut well = nearly_full_bottom();
    assert_eq!(grid(&well)[21], vec![1, 1, 1, 1, 1, 1, 1, 1, 1, 0]);
    let last = upright_i(9, 18);
    assert!(!well.collides(&last));
    well.consume(&last);
    let before = grid(&well);
    assert_eq!(before[21], vec![1u8; 10]);
    assert_eq!(occupied(&well), 16);

    assert!(well.eliminate());
    let after = grid(&well);
    assert_eq!(occupied(&well), 6);
    assert_eq!(after[0], vec![0u8; 10]);
    for r in 1..22 {
        assert_eq!(after[r], before[r - 1], "row {}", r);
    }
    assert_eq!(after[21], vec![0, 0, 0, 0, 0, 0, 0, 0, 1, 1]);

    assert!(!well.eliminate());
    assert_eq!(grid(&well), after);
}

#[test]
fn eliminate_removes_the_lowest_full_row_first() {
    let mut well = Well::with_next(4, 6, ShapeKind::O);
    for s in [
        flat_i(0, 5),
        Shape { x: 0, y: 3, k: ShapeKind::O, r: 0 },
        flat_i(0, 2),
        Shape { x: 2, y: 0, k: ShapeKind::O, r: 0 },
    ] {
        assert!(!well.collides(&s));
        well.consume(&s);
    }
    assert_eq!(grid(&well), vec![
        vec![0, 0, 4, 4],
        vec![0, 0, 4, 4],
        vec![1, 1, 1, 1],
        vec![4, 4, 0, 0],
        vec![4, 4, 0, 0],
        vec![1, 1, 1, 1],
    ]);
    assert!(well.eliminate());
    assert_eq!(grid(&well), vec![
        vec![0, 0, 0, 0],
        vec![0, 0, 4, 4],
        vec![0, 0, 4, 4],
        vec![1, 1, 1, 1],
        vec![4, 4, 0, 0],
        vec![4, 4, 0, 0],
    ]);
    assert!(well.eliminate());
    assert_eq!(grid(&well), vec![
        vec![0, 0, 0, 0],
        vec![0, 0, 0, 0],
        vec![0, 0, 4, 4],
        vec![0, 0, 4, 4],
        vec![4, 4, 0, 0],
        vec![4, 4, 0, 0],
    ]);
    assert!(!well.eliminate());
}

#[test]
fn eliminate_all_removes_every_full_row() {
    let mut well = Well::with_next(4, 6, ShapeKind::O);
    well.consume(&flat_i(0, 5));
    well.consume(&Shape { x: 0, y: 3, k: ShapeKind::O, r: 0 });
    well.consume(&flat_i(0, 2));
    well.consume(&flat_i(0, 1));
    assert_eq!(well.eliminate_all(), 3);
    assert_eq!(grid(&well), vec![
        vec![0, 0, 0, 0],
        vec![0, 0, 0, 0],
        vec![0, 0, 0, 0],
        vec![0, 0, 0, 0],
        vec![4, 4, 0, 0],
        vec![4, 4, 0, 0],
    ]);
    assert_eq!(well.eliminate_all(), 0);
}

#[test]
fn clear_empties_every_cell() {
    let mut well = nearly_full_bottom();
    assert_eq!(occupied(&well), 12);
    well.clear();
    assert_eq!(grid(&well), vec![vec![0u8; 10]; 22]);
    assert_eq!((well.width(), well.height(), well.next()), (10, 22, ShapeKind::T));
}

#[test]
fn filled_cells_row_by_row() {
    let mut well = Well::with_next(4, 3, ShapeKind::O);
    well.consume(&Shape { x: 1, y: 1, k: ShapeKind::Z, r: 0 });
    assert_eq!(well.filled_cells(), vec![(1, 1, 7), (1, 2, 7), (2, 2, 7), (2, 3, 7)]);
}
