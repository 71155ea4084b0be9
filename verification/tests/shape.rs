use blockdrop::{Shape, ShapeKind};

#[test]
fn new_shape_stands_at_the_origin() {
    let s = Shape::new(&ShapeKind::T);
    assert_eq!(s, Shape { x: 0, y: 0, k: ShapeKind::T, r: 0 });
}

#[test]
fn pos_moves_and_keeps_kind_and_rotation() {
    let s = Shape { x: 1, y: 2, k: ShapeKind::L, r: -3 };
    assert_eq!(s.pos(7, 9), Shape { x: 7, y: 9, k: ShapeKind::L, r: -3 });
    assert_eq!(s, Shape { x: 1, y: 2, k: ShapeKind::L, r: -3 });
}

#[test]
fn transforms_give_candidates_and_leave_the_shape() {
    let s = Shape { x: 4, y: 5, k: ShapeKind::J, r: 1 };
    assert_eq!(s.x_mod(-1), Shape { x: 3, y: 5, k: ShapeKind::J, r: 1 });
    assert_eq!(s.x_mod(2), Shape { x: 6, y: 5, k: ShapeKind::J, r: 1 });
    assert_eq!(s.y_mod(1), Shape { x: 4, y: 6, k: ShapeKind::J, r: 1 });
    assert_eq!(s.r_mod(1), Shape { x: 4, y: 5, k: ShapeKind::J, r: 2 });
    assert_eq!(s.r_mod(-2), Shape { x: 4, y: 5, k: ShapeKind::J, r: -1 });
    assert_eq!(s, Shape { x: 4, y: 5, k: ShapeKind::J, r: 1 });
}

#[test]
fn width_and_height_follow_the_rotation() {
    let i = Shape::new(&ShapeKind::I);
    assert_eq!((i.w(), i.h()), (1, 4));
    assert_eq!((i.r_mod(1).w(), i.r_mod(1).h()), (4, 1));
    assert_eq!((i.r_mod(-1).w(), i.r_mod(-1).h()), (4, 1));
    assert_eq!((i.r_mod(2).w(), i.r_mod(2).h()), (1, 4));
    let t = Shape::new(&ShapeKind::T);
    assert_eq!((t.w(), t.h()), (3, 2));
    assert_eq!((t.r_mod(5).w(), t.r_mod(5).h()), (2, 3));
    let o = Shape::new(&ShapeKind::O);
    assert_eq!((o.r_mod(3).w(), o.r_mod(3).h()), (2, 2));
}

#[test]
fn layout_is_that_of_kind_and_rotation() {
    let s = Shape { x: 3, y: 3, k: ShapeKind::Z, r: 6 };
    let t: Vec<Vec<u8>> = s.layout().iter().map(|row| row.to_vec()).collect();
    assert_eq!(t, vec![vec![7u8, 7, 0], vec![0, 7, 7]]);
    let u: Vec<Vec<u8>> = s.r_mod(-7).layout().iter().map(|row| row.to_vec()).collect();
    assert_eq!(u, vec![vec![0u8, 7], vec![7, 7], vec![7, 0]]);
}

#[test]
fn filled_cells_in_well_coordinates() {
    let s = Shape { x: 4, y: 10, k: ShapeKind::S, r: 0 };
    assert_eq!(s.filled_cells(), vec![(5, 10, 5), (6, 10, 5), (4, 11, 5), (5, 11, 5)]);
    let j = Shape { x: -1, y: -2, k: ShapeKind::J, r: 0 };
    assert_eq!(j.filled_cells(), vec![(0, -2, 2), (0, -1, 2), (-1, 0, 2), (0, 0, 2)]);
}
