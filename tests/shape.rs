use tetris::shape::{Rotation, Shape};

fn kinds() -> Vec<fn(u8) -> Shape> {
    vec![Shape::I, Shape::J, Shape::L, Shape::O, Shape::S, Shape::T, Shape::Z]
}

#[test]
fn shape_x_test() {
    assert_eq!(0, Shape::I(0).x());
    assert_eq!(0, Shape::J(0).x());
    assert_eq!(0, Shape::L(0).x());
    assert_eq!(0, Shape::S(0).x());
}

#[test]
fn shape_y_test() {
    assert_eq!(1, Shape::I(0).y());
    assert_eq!(0, Shape::J(0).y());
    assert_eq!(0, Shape::L(0).y());
    assert_eq!(0, Shape::S(0).y());
}

#[test]
fn shape_w_test() {
    assert_eq!(4, Shape::I(0).w());
    assert_eq!(3, Shape::J(0).w());
    assert_eq!(3, Shape::L(0).w());
    assert_eq!(3, Shape::S(0).w());
}

#[test]
fn shape_h_test() {
    assert_eq!(1, Shape::I(0).h());
    assert_eq!(2, Shape::J(0).h());
    assert_eq!(2, Shape::L(0).h());
    assert_eq!(2, Shape::S(0).h());
}

#[test]
fn tight_bounds_of_turned_shapes() {
    assert_eq!((2, 0, 1, 4), (Shape::I(1).x(), Shape::I(1).y(), Shape::I(1).w(), Shape::I(1).h()));
    assert_eq!((0, 2, 4, 1), (Shape::I(2).x(), Shape::I(2).y(), Shape::I(2).w(), Shape::I(2).h()));
    assert_eq!((1, 0, 2, 3), (Shape::T(1).x(), Shape::T(1).y(), Shape::T(1).w(), Shape::T(1).h()));
    assert_eq!((0, 1, 3, 2), (Shape::Z(2).x(), Shape::Z(2).y(), Shape::Z(2).w(), Shape::Z(2).h()));
    assert_eq!((0, 0, 2, 2), (Shape::O(3).x(), Shape::O(3).y(), Shape::O(3).w(), Shape::O(3).h()));
}

#[test]
fn four_quarter_turns_give_back_the_same_occupancy() {
    for kind in kinds() {
        for r in 0..4u8 {
            let start = kind(r);
            let turned = start
                .rotate_clockwise()
                .rotate_clockwise()
                .rotate_clockwise()
                .rotate_clockwise();
            assert_eq!(start, turned);
            assert_eq!(start.value(), turned.value());
        }
    }
}

#[test]
fn one_quarter_turn_advances_rotation() {
    assert_eq!(Shape::J(1), Shape::J(0).rotate_clockwise());
    assert_eq!(Shape::I(0), Shape::I(3).rotate_clockwise());
    assert_eq!(
        vec![vec![0, 0, 7], vec![0, 7, 7], vec![0, 7, 0]],
        Shape::Z(0).rotate_clockwise().value()
    );
}

#[test]
fn occupancy_tables() {
    assert_eq!(
        vec![vec![0, 0, 0, 0], vec![1, 1, 1, 1], vec![0, 0, 0, 0], vec![0, 0, 0, 0]],
        Shape::I(0).value()
    );
    assert_eq!(vec![vec![4, 4], vec![4, 4]], Shape::O(2).value());
    assert_eq!(vec![vec![0, 6, 0], vec![6, 6, 0], vec![0, 6, 0]], Shape::T(3).value());
    assert_eq!(vec![vec![0, 0, 0], vec![3, 3, 3], vec![3, 0, 0]], Shape::L(2).value());
}

#[test]
fn each_matrix_holds_only_its_label() {
    for (k, kind) in kinds().into_iter().enumerate() {
        for r in 0..4u8 {
            let m = kind(r).value();
            let cells: usize = m.iter().flatten().filter(|&&v| v != 0).count();
            assert_eq!(4, cells);
            assert!(m.iter().flatten().all(|&v| v == 0 || v == k as u8 + 1));
        }
    }
}

#[test]
fn from_index_maps_labels() {
    assert_eq!(None, Shape::from_index(0));
    assert_eq!(Some(Shape::I(0)), Shape::from_index(1));
    assert_eq!(Some(Shape::O(0)), Shape::from_index(4));
    assert_eq!(Some(Shape::Z(0)), Shape::from_index(7));
    assert_eq!(None, Shape::from_index(8));
}

#[test]
fn colours_per_kind() {
    assert_eq!((249, 35, 56), Shape::I(2).color());
    assert_eq!((254, 227, 86), Shape::O(0).color());
    assert_eq!((248, 147, 29), Shape::Z(1).color());
}

#[test]
fn rotations_are_distinct() {
    assert_ne!(Rotation::Rotate0, Rotation::Rotate90);
}
