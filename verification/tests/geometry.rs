use snake_engine::geometry::{Pos, GRID_MAX, LARGE};

#[test]
fn distance_adds_the_gaps_on_both_axes() {
    assert_eq!(Pos(1, 2).distance(&Pos(4, 6)), 7);
    assert_eq!(Pos(0, 0).distance(&Pos(3, 0)), 3);
    assert_eq!(Pos(-2, 5).distance(&Pos(3, -1)), 11);
}

#[test]
fn distance_to_the_same_cell_is_zero() {
    assert_eq!(Pos(7, 7).distance(&Pos(7, 7)), 0);
    assert_ne!(Pos(7, 7).distance(&Pos(7, 8)), 0);
}

#[test]
fn distance_is_symmetric() {
    let cells = [Pos(0, 0), Pos(3, 9), Pos(-4, 2), Pos(10, 10), Pos(i32::MIN, i32::MAX)];
    for a in cells.iter() {
        for b in cells.iter() {
            assert_eq!(a.distance(b), b.distance(a));
        }
    }
}

#[test]
fn distance_obeys_the_triangle_inequality() {
    let cells = [Pos(0, 0), Pos(3, 9), Pos(-4, 2), Pos(10, 10), Pos(5, 5), Pos(i32::MAX, i32::MIN)];
    for a in cells.iter() {
        for b in cells.iter() {
            for c in cells.iter() {
                assert!(a.distance(c) <= a.distance(b) + b.distance(c));
            }
        }
    }
}

#[test]
fn distance_between_the_farthest_cells_does_not_overflow() {
    let low = Pos(i32::MIN, i32::MIN);
    let high = Pos(i32::MAX, i32::MAX);
    assert_eq!(low.distance(&high), 2 * (u32::MAX as u64));
}

#[test]
fn in_grid_is_free_on_the_grid() {
    assert_eq!(Pos(0, 0).in_grid(), 0);
    assert_eq!(Pos(GRID_MAX, GRID_MAX).in_grid(), 0);
    assert_eq!(Pos(0, 10).in_grid(), 0);
    assert_eq!(Pos(10, 0).in_grid(), 0);
    assert_eq!(Pos(5, 5).in_grid(), 0);
}

#[test]
fn in_grid_is_large_beyond_each_edge() {
    assert_eq!(LARGE, 1000);
    assert_eq!(Pos(-1, 5).in_grid(), 1000);
    assert_eq!(Pos(11, 5).in_grid(), 1000);
    assert_eq!(Pos(5, -1).in_grid(), 1000);
    assert_eq!(Pos(5, 11).in_grid(), 1000);
    assert_eq!(Pos(-3, 40).in_grid(), 1000);
}

#[test]
fn successors_are_the_four_neighbours_at_cost_one() {
    let next = Pos(5, 5).successors();
    assert_eq!(next, vec![(Pos(6, 5), 1), (Pos(5, 6), 1), (Pos(4, 5), 1), (Pos(5, 4), 1)]);
}

#[test]
fn successors_of_a_corner_leave_the_grid() {
    let next = Pos(0, 0).successors();
    assert_eq!(next, vec![(Pos(1, 0), 1), (Pos(0, 1), 1), (Pos(-1, 0), 1), (Pos(0, -1), 1)]);
}

#[test]
fn is_at_compares_both_coordinates() {
    assert!(Pos(2, 3).is_at(&Pos(2, 3)));
    assert!(!Pos(2, 3).is_at(&Pos(3, 2)));
    assert!(!Pos(2, 3).is_at(&Pos(2, 4)));
}

#[test]
fn cells_are_ordered_by_x_then_y() {
    assert!(Pos(1, 9) < Pos(2, 0));
    assert!(Pos(1, 1) < Pos(1, 2));
    assert_eq!(Pos(4, 4), Pos(4, 4));
}
