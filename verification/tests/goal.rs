use snake_engine::geometry::Pos;
use snake_engine::goal::random_pos;

#[test]
fn closest_food_is_the_nearest() {
    let food = vec![Pos(9, 9), Pos(2, 1), Pos(0, 8)];
    assert_eq!(Pos(1, 1).closest_food(&food), Pos(2, 1));
}

#[test]
fn closest_food_with_one_food_is_that_food() {
    assert_eq!(Pos(10, 10).closest_food(&vec![Pos(0, 0)]), Pos(0, 0));
}

#[test]
fn closest_food_takes_the_first_of_equally_near_food() {
    let food = vec![Pos(7, 5), Pos(5, 7), Pos(3, 5), Pos(5, 3)];
    assert_eq!(Pos(5, 5).closest_food(&food), Pos(7, 5));
    let food = vec![Pos(9, 9), Pos(5, 3), Pos(3, 5)];
    assert_eq!(Pos(5, 5).closest_food(&food), Pos(5, 3));
}

#[test]
fn closest_food_is_in_the_list() {
    let food = vec![Pos(4, 0), Pos(0, 4), Pos(10, 10), Pos(6, 6)];
    for x in 0..11 {
        for y in 0..11 {
            let goal = Pos(x, y).closest_food(&food);
            assert!(food.contains(&goal));
            for other in food.iter() {
                assert!(Pos(x, y).distance(&goal) <= Pos(x, y).distance(other));
            }
        }
    }
}

#[test]
fn closest_food_compares_food_that_is_far_away() {
    let food = vec![Pos(3000, 0), Pos(2000, 0), Pos(0, 2500)];
    assert_eq!(Pos(0, 0).closest_food(&food), Pos(2000, 0));
}

#[test]
fn closest_food_may_be_under_the_agent() {
    let food = vec![Pos(4, 4), Pos(5, 5)];
    assert_eq!(Pos(5, 5).closest_food(&food), Pos(5, 5));
}

#[test]
fn nearest_is_the_index_of_the_first_nearest_food() {
    let food = vec![Pos(9, 9), Pos(5, 3), Pos(3, 5), Pos(5, 4), Pos(4, 5)];
    assert_eq!(Pos(5, 5).nearest(&food), 3);
    assert_eq!(Pos(9, 8).nearest(&food), 0);
}

#[test]
fn closest_food_without_food_is_on_the_grid() {
    for _ in 0..500 {
        let goal = Pos(3, 3).closest_food(&vec![]);
        assert_eq!(goal.in_grid(), 0);
        assert!(0 <= goal.0 && goal.0 <= 10 && 0 <= goal.1 && goal.1 <= 10);
    }
}

#[test]
fn random_pos_is_on_the_grid() {
    for _ in 0..500 {
        let cell = random_pos();
        assert!(0 <= cell.0 && cell.0 <= 10);
        assert!(0 <= cell.1 && cell.1 <= 10);
    }
}

#[test]
fn random_pos_reaches_every_row_and_column() {
    let mut columns = [false; 11];
    let mut rows = [false; 11];
    for _ in 0..5000 {
        let cell = random_pos();
        columns[cell.0 as usize] = true;
        rows[cell.1 as usize] = true;
    }
    assert!(columns.iter().all(|seen| *seen));
    assert!(rows.iter().all(|seen| *seen));
}
