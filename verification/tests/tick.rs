use blockdrop::tick::{advance, fall, land, land_with, lock, shift, tick, tick_with, turn};
use blockdrop::{Shape, ShapeKind, Step, Well};

fn grid(well: &Well) -> Vec<Vec<u8>> {
    (0..well.height())
        .map(|r| (0..well.width()).map(|c| well.get(r, c).unwrap()).collect())
        .collect()
}

fn occupied(well: &Well) -> usize {
    grid(well).iter().flatten().filter(|&&c| c != 0).count()
}

#[test]
fn turn_is_committed_when_legal() {
    let well = Well::new(10, 22);
    let s = Shape { x: 4, y: 5, k: ShapeKind::T, r: 0 };
    assert_eq!(turn(&well, &s, 1), Shape { x: 4, y: 5, k: ShapeKind::T, r: 1 });
    assert_eq!(turn(&well, &s, -1), Shape { x: 4, y: 5, k: ShapeKind::T, r: -1 });
    assert_eq!(turn(&well, &s, 0), s);
}

#[test]
fn turn_at_the_right_wall_moves_the_piece_left() {
    let well = Well::new(10, 22);
    let s = Shape { x: 9, y: 5, k: ShapeKind::I, r: 0 };
    assert_eq!(turn(&well, &s, 1), Shape { x: 6, y: 5, k: ShapeKind::I, r: 1 });
}

#[test]
fn turn_is_rejected_at_the_floor_and_on_filled_cells() {
    let mut well = Well::with_next(10, 22, ShapeKind::O);
    let flat = Shape { x: 0, y: 21, k: ShapeKind::I, r: 1 };
    assert_eq!(turn(&well, &flat, 1), flat);
    well.consume(&Shape { x: 0, y: 20, k: ShapeKind::O, r: 0 });
    let upright = Shape { x: 2, y: 18, k: ShapeKind::I, r: 0 };
    assert_eq!(turn(&well, &upright, 1), Shape { x: 2, y: 18, k: ShapeKind::I, r: 1 });
    let low = Shape { x: 1, y: 16, k: ShapeKind::J, r: 1 };
    assert_eq!(turn(&well, &low.pos(0, 18), 1), low.pos(0, 18));
}

#[test]
fn shift_is_committed_when_legal_and_rejected_at_the_walls() {
    let mut well = Well::with_next(10, 22, ShapeKind::O);
    let s = Shape { x: 0, y: 0, k: ShapeKind::O, r: 0 };
    assert_eq!(shift(&well, &s, 1), s.pos(1, 0));
    assert_eq!(shift(&well, &s, -1), s);
    assert_eq!(shift(&well, &s.pos(8, 0), 1), s.pos(8, 0));
    assert_eq!(shift(&well, &s.pos(8, 0), -1), s.pos(7, 0));
    assert_eq!(shift(&well, &s, 0), s);
    well.consume(&Shape { x: 2, y: 0, k: ShapeKind::I, r: 0 });
    assert_eq!(shift(&well, &s, 1), s);
}

#[test]
fn fall_moves_down_until_the_floor_or_a_filled_cell() {
    let mut well = Well::with_next(10, 22, ShapeKind::O);
    let s = Shape { x: 4, y: 0, k: ShapeKind::O, r: 0 };
    assert_eq!(fall(&well, &s), Step::Falling(s.pos(4, 1)));
    assert_eq!(fall(&well, &s.pos(4, 19)), Step::Falling(s.pos(4, 20)));
    assert_eq!(fall(&well, &s.pos(4, 20)), Step::Landed(s.pos(4, 20)));
    well.consume(&s.pos(4, 20));
    assert_eq!(fall(&well, &s.pos(4, 17)), Step::Falling(s.pos(4, 18)));
    assert_eq!(fall(&well, &s.pos(4, 18)), Step::Landed(s.pos(4, 18)));
    assert_eq!(fall(&well, &s.pos(5, 18)), Step::Landed(s.pos(5, 18)));
    assert_eq!(fall(&well, &s.pos(6, 18)), Step::Falling(s.pos(6, 19)));
}

#[test]
fn advance_turns_then_shifts_then_falls() {
    let well = Well::new(10, 22);
    let s = Shape { x: 4, y: 3, k: ShapeKind::L, r: 0 };
    assert_eq!(advance(&well, &s, 1, -1), Step::Falling(Shape { x: 3, y: 4, k: ShapeKind::L, r: 1 }));
    assert_eq!(advance(&well, &s, 0, 1), Step::Falling(Shape { x: 5, y: 4, k: ShapeKind::L, r: 0 }));
    assert_eq!(advance(&well, &s, 0, 0), Step::Falling(Shape { x: 4, y: 4, k: ShapeKind::L, r: 0 }));
    let low = Shape { x: 0, y: 19, k: ShapeKind::L, r: 0 };
    assert_eq!(advance(&well, &low, 0, -1), Step::Landed(low));
    assert_eq!(advance(&well, &low, 0, 1), Step::Landed(low.pos(1, 19)));
}

#[test]
fn lock_merges_the_shape_and_removes_full_rows() {
    let mut well = Well::with_next(4, 4, ShapeKind::O);
    lock(&mut well, &Shape { x: 0, y: 2, k: ShapeKind::O, r: 0 });
    assert_eq!(occupied(&well), 4);
    lock(&mut well, &Shape { x: 2, y: 2, k: ShapeKind::O, r: 0 });
    assert_eq!(grid(&well), vec![vec![0u8; 4]; 4]);
    lock(&mut well, &Shape { x: 0, y: 3, k: ShapeKind::I, r: 1 });
    assert_eq!(grid(&well), vec![vec![0u8; 4]; 4]);
}

#[test]
fn landing_brings_in_the_next_piece() {
    let mut well = Well::with_next(10, 22, ShapeKind::S);
    let last = Shape { x: 0, y: 20, k: ShapeKind::O, r: 0 };
    let next = land_with(&mut well, &last, ShapeKind::Z, ShapeKind::I);
    assert_eq!(next, Shape { x: 4, y: 0, k: ShapeKind::S, r: 0 });
    assert_eq!(well.next(), ShapeKind::Z);
    assert_eq!(well.filled_cells(), vec![(20, 0, 4), (20, 1, 4), (21, 0, 4), (21, 1, 4)]);
}

#[test]
fn landing_that_completes_a_row_removes_it_before_the_spawn() {
    let mut well = Well::with_next(4, 6, ShapeKind::O);
    well.consume(&Shape { x: 0, y: 4, k: ShapeKind::O, r: 0 });
    let next = land_with(&mut well, &Shape { x: 2, y: 3, k: ShapeKind::J, r: 0 }, ShapeKind::T, ShapeKind::I);
    assert_eq!(grid(&well), vec![
        vec![0, 0, 0, 0],
        vec![0, 0, 0, 0],
        vec![0, 0, 0, 0],
        vec![0, 0, 0, 0],
        vec![0, 0, 0, 2],
        vec![4, 4, 0, 2],
    ]);
    assert_eq!(next, Shape { x: 1, y: 0, k: ShapeKind::O, r: 0 });
    assert_eq!(well.next(), ShapeKind::T);
}

#[test]
fn spawn_that_collides_empties_the_well() {
    let mut well = Well::with_next(10, 22, ShapeKind::O);
    well.consume(&Shape { x: 4, y: 0, k: ShapeKind::O, r: 0 });
    well.consume(&Shape { x: 0, y: 20, k: ShapeKind::O, r: 0 });
    let last = Shape { x: 7, y: 18, k: ShapeKind::I, r: 0 };
    assert!(!well.collides(&last));
    let next = land_with(&mut well, &last, ShapeKind::T, ShapeKind::L);
    assert_eq!(grid(&well), vec![vec![0u8; 10]; 22]);
    assert!(well.filled_cells().is_empty());
    assert_eq!(next, Shape { x: 4, y: 0, k: ShapeKind::T, r: 0 });
    assert_eq!(well.next(), ShapeKind::L);
    assert!(!well.collides(&next));
}

#[test]
fn random_landing_keeps_the_rules() {
    let mut well = Well::new(10, 22);
    let picked = well.next();
    let next = land(&mut well, &Shape { x: 0, y: 20, k: ShapeKind::O, r: 0 });
    assert_eq!(next.k, picked);
    assert_eq!((next.x, next.y, next.r), (5 - next.w() / 2, 0, 0));
    assert_eq!(well.filled_cells(), vec![(20, 0, 4), (20, 1, 4), (21, 0, 4), (21, 1, 4)]);
    assert!(!well.collides(&next));
}

#[test]
fn tick_lets_the_piece_fall_with_the_requests_served() {
    let mut well = Well::with_next(10, 22, ShapeKind::I);
    let s = Shape { x: 4, y: 0, k: ShapeKind::T, r: 0 };
    let next = tick_with(&mut well, &s, 1, 1, ShapeKind::J, ShapeKind::L);
    assert_eq!(next, Shape { x: 5, y: 1, k: ShapeKind::T, r: 1 });
    assert_eq!(well.next(), ShapeKind::I);
    assert_eq!(occupied(&well), 0);
}

#[test]
fn piece_dropped_from_the_top_lands_on_the_floor() {
    let mut well = Well::with_next(10, 22, ShapeKind::I);
    let mut s = well.gen_shape_with(ShapeKind::O);
    assert_eq!(s, Shape { x: 5, y: 0, k: ShapeKind::I, r: 0 });
    for step in 1..=18 {
        s = tick_with(&mut well, &s, 0, 0, ShapeKind::Z, ShapeKind::Z);
        assert_eq!(s, Shape { x: 5, y: step, k: ShapeKind::I, r: 0 });
        assert_eq!(occupied(&well), 0);
    }
    s = tick_with(&mut well, &s, 0, 0, ShapeKind::Z, ShapeKind::S);
    assert_eq!(s, Shape { x: 4, y: 0, k: ShapeKind::O, r: 0 });
    assert_eq!(well.next(), ShapeKind::Z);
    assert_eq!(well.filled_cells(), vec![(18, 5, 1), (19, 5, 1), (20, 5, 1), (21, 5, 1)]);
}

#[test]
fn random_ticks_keep_the_active_piece_legal() {
    let mut well = Well::new(10, 22);
    let mut s = well.gen_shape();
    for n in 0..2000 {
        assert!(!well.collides(&s));
        let rvel = [0, 1, -1][n % 3];
        let xvel = [1, 0, -1, -1][n % 4];
        s = tick(&mut well, &s, rvel, xvel);
        assert!(well.filled_cells().len() % 2 == 0);
        assert!(grid(&well).iter().all(|row| row.iter().any(|&c| c == 0)));
    }
    assert!(!well.collides(&s));
}
