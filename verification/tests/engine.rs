use snake_engine::engine::{decide, fallback_move, head_for, movement, penalty_of_move, Agent, Board, Turn};
use snake_engine::geometry::Pos;
use snake_engine::hazard::Snake;
use snake_engine::moves::{DecisionError, Move, Movement};
use snake_engine::search::find_path;

fn rival(length: u32, body: Vec<Pos>) -> Snake {
    Snake { head: body[0], body, length }
}

fn turn(head: Pos, length: u32, food: Vec<Pos>, snakes: Vec<Snake>) -> Turn {
    Turn { you: Agent { head, length }, board: Board { food, snakes } }
}

fn boxed_in() -> Vec<Snake> {
    vec![
        rival(4, vec![Pos(4, 6), Pos(5, 6), Pos(6, 6), Pos(6, 5)]),
        rival(4, vec![Pos(6, 4), Pos(5, 4), Pos(4, 4), Pos(4, 5)]),
    ]
}

#[test]
fn engine_heads_right_for_food_on_its_row() {
    let snapshot = turn(Pos(0, 0), 3, vec![Pos(3, 0)], vec![]);
    assert_eq!(decide(&snapshot), Ok(Move::new(Movement::Right)));
    assert_eq!(movement(&snapshot), Move::new(Movement::Right));
    let path = find_path(&Pos(0, 0), &Pos(3, 0), &snapshot.board.snakes, 3).unwrap();
    assert_eq!(path.cost, 3);
}

#[test]
fn engine_heads_for_the_nearest_food() {
    let snapshot = turn(Pos(5, 5), 3, vec![Pos(5, 0), Pos(5, 8), Pos(0, 5)], vec![]);
    assert_eq!(movement(&snapshot), Move::new(Movement::Up));
    let snapshot = turn(Pos(5, 5), 3, vec![Pos(1, 5), Pos(5, 10)], vec![]);
    assert_eq!(movement(&snapshot), Move::new(Movement::Left));
    let snapshot = turn(Pos(5, 5), 3, vec![Pos(5, 2)], vec![]);
    assert_eq!(movement(&snapshot), Move::new(Movement::Down));
}

#[test]
fn engine_moves_closer_to_the_food_on_an_open_grid() {
    for x in 0..11 {
        for y in 0..11 {
            let head = Pos(x, y);
            let food = Pos(7, 2);
            if head == food {
                continue;
            }
            let snapshot = turn(head, 3, vec![food], vec![]);
            let to = head.step(decide(&snapshot).unwrap().movement).unwrap();
            assert_eq!(to.distance(&food) + 1, head.distance(&food));
        }
    }
}

#[test]
fn engine_enters_a_safe_cell_where_a_safe_route_exists() {
    let wall: Vec<Pos> = (0..10).map(|y| Pos(5, y)).collect();
    let snapshot = turn(Pos(4, 0), 3, vec![Pos(6, 0)], vec![rival(40, wall)]);
    let decided = decide(&snapshot).unwrap();
    assert_eq!(decided, Move::new(Movement::Up));
    assert_eq!(penalty_of_move(&Pos(4, 0), decided.movement, &snapshot.board.snakes, 3), 0);
}

#[test]
fn engine_boxed_in_still_moves() {
    let snapshot = turn(Pos(5, 5), 3, vec![Pos(5, 8)], boxed_in());
    for dir in [Movement::Up, Movement::Down, Movement::Left, Movement::Right] {
        assert_eq!(penalty_of_move(&Pos(5, 5), dir, &snapshot.board.snakes, 3), 1000);
    }
    assert_eq!(decide(&snapshot), Ok(Move::new(Movement::Up)));
    assert_eq!(movement(&snapshot), Move::new(Movement::Up));
}

#[test]
fn engine_boxed_in_without_food_still_moves() {
    for _ in 0..50 {
        let snapshot = turn(Pos(5, 5), 3, vec![], boxed_in());
        let chosen = movement(&snapshot).movement;
        assert!(matches!(chosen, Movement::Up | Movement::Down | Movement::Left | Movement::Right));
    }
}

#[test]
fn engine_boxed_in_on_its_goal_falls_back_to_up() {
    let snapshot = turn(Pos(5, 5), 3, vec![Pos(5, 5)], boxed_in());
    assert_eq!(decide(&snapshot), Err(DecisionError::NoPathFound));
    assert_eq!(movement(&snapshot), Move::new(Movement::Up));
}

#[test]
fn engine_on_its_goal_falls_back_to_the_safest_move() {
    let snakes = vec![rival(6, vec![Pos(5, 6), Pos(4, 6), Pos(4, 5)])];
    let snapshot = turn(Pos(5, 5), 3, vec![Pos(5, 5)], snakes);
    assert_eq!(decide(&snapshot), Err(DecisionError::NoPathFound));
    assert_eq!(movement(&snapshot), Move::new(Movement::Down));
}

#[test]
fn engine_without_food_moves_somewhere() {
    for _ in 0..200 {
        let snapshot = turn(Pos(0, 0), 3, vec![], vec![]);
        match decide(&snapshot) {
            Ok(decided) => {
                assert!(matches!(decided.movement, Movement::Up | Movement::Right));
                assert_eq!(movement(&snapshot).movement == Movement::Down, false);
            }
            Err(error) => assert_eq!(error, DecisionError::NoPathFound),
        }
    }
}

#[test]
fn engine_rejects_a_head_off_the_grid() {
    let snapshot = turn(Pos(11, 5), 3, vec![Pos(3, 0)], vec![]);
    assert!(!snapshot.validate());
    assert_eq!(decide(&snapshot), Err(DecisionError::MalformedSnapshot));
    assert_eq!(movement(&snapshot), Move::new(Movement::Left));
}

#[test]
fn engine_rejects_food_off_the_grid() {
    let snapshot = turn(Pos(5, 5), 3, vec![Pos(3, 0), Pos(3, -1)], vec![]);
    assert!(!snapshot.validate());
    assert_eq!(decide(&snapshot), Err(DecisionError::MalformedSnapshot));
    assert_eq!(movement(&snapshot), Move::new(Movement::Up));
}

#[test]
fn engine_rejects_a_rival_without_a_body() {
    let empty = Snake { head: Pos(1, 1), body: vec![], length: 3 };
    assert!(!empty.validate());
    let snapshot = turn(Pos(5, 5), 3, vec![Pos(3, 0)], vec![rival(2, vec![Pos(8, 8)]), empty]);
    assert!(!snapshot.validate());
    assert_eq!(decide(&snapshot), Err(DecisionError::MalformedSnapshot));
}

#[test]
fn engine_rejects_a_rival_whose_body_does_not_begin_at_its_head() {
    let torn = Snake { head: Pos(1, 1), body: vec![Pos(1, 2), Pos(1, 1)], length: 2 };
    assert!(!torn.validate());
    let snapshot = turn(Pos(5, 5), 3, vec![Pos(3, 0)], vec![torn]);
    assert_eq!(decide(&snapshot), Err(DecisionError::MalformedSnapshot));
}

#[test]
fn engine_accepts_a_valid_snapshot() {
    let snapshot = turn(Pos(10, 0), 1, vec![Pos(0, 10)], boxed_in());
    assert!(snapshot.validate());
    assert!(rival(1, vec![Pos(2, 2)]).validate());
    assert!(turn(Pos(0, 0), 0, vec![], vec![]).validate());
}

#[test]
fn head_for_a_goal_outside_the_region_finds_no_path() {
    let snapshot = turn(Pos(5, 5), 3, vec![], vec![]);
    assert_eq!(head_for(&snapshot, &Pos(400, 5)), Err(DecisionError::NoPathFound));
}

#[test]
fn head_for_a_goal_goes_round_a_rival() {
    let snakes = vec![rival(5, vec![Pos(6, 5), Pos(6, 6), Pos(6, 4), Pos(6, 7)])];
    let snapshot = turn(Pos(5, 5), 3, vec![], snakes);
    assert_eq!(head_for(&snapshot, &Pos(7, 5)), Ok(Move::new(Movement::Down)));
}

#[test]
fn head_for_the_head_of_a_shorter_rival_goes_straight() {
    let snakes = vec![rival(2, vec![Pos(6, 5), Pos(6, 6)])];
    let snapshot = turn(Pos(5, 5), 3, vec![], snakes);
    assert_eq!(head_for(&snapshot, &Pos(7, 5)), Ok(Move::new(Movement::Right)));
}

#[test]
fn fallback_move_prefers_up_then_down_then_left_then_right() {
    let here = Pos(5, 5);
    assert_eq!(fallback_move(&here, &vec![], 3), Move::new(Movement::Up));
    let above = vec![rival(5, vec![Pos(5, 6)])];
    assert_eq!(fallback_move(&here, &above, 3), Move::new(Movement::Down));
    let above_below = vec![rival(5, vec![Pos(5, 6)]), rival(5, vec![Pos(5, 4)])];
    assert_eq!(fallback_move(&here, &above_below, 3), Move::new(Movement::Left));
    let all_but_right = vec![rival(5, vec![Pos(5, 6), Pos(4, 6), Pos(4, 5), Pos(4, 4), Pos(5, 4)])];
    assert_eq!(fallback_move(&here, &all_but_right, 3), Move::new(Movement::Right));
}

#[test]
fn fallback_move_stays_on_the_grid() {
    assert_eq!(fallback_move(&Pos(10, 10), &vec![], 3), Move::new(Movement::Down));
    assert_eq!(fallback_move(&Pos(0, 10), &vec![], 3), Move::new(Movement::Down));
    let below = vec![rival(5, vec![Pos(10, 9)])];
    assert_eq!(fallback_move(&Pos(10, 10), &below, 3), Move::new(Movement::Left));
}

#[test]
fn fallback_move_takes_the_least_penalty() {
    let snakes = vec![rival(5, vec![Pos(0, 1)]), rival(5, vec![Pos(1, 0)])];
    assert_eq!(penalty_of_move(&Pos(0, 0), Movement::Up, &snakes, 3), 1000);
    assert_eq!(penalty_of_move(&Pos(0, 0), Movement::Down, &snakes, 3), 1000);
    assert_eq!(penalty_of_move(&Pos(0, 0), Movement::Left, &snakes, 3), 1000);
    assert_eq!(penalty_of_move(&Pos(0, 0), Movement::Right, &snakes, 3), 1000);
    assert_eq!(fallback_move(&Pos(0, 0), &snakes, 3), Move::new(Movement::Up));
    let off_grid = vec![rival(5, vec![Pos(0, 1)]), rival(5, vec![Pos(1, 0)]), rival(5, vec![Pos(0, -1)])];
    assert_eq!(penalty_of_move(&Pos(0, 0), Movement::Down, &off_grid, 3), 2000);
    assert_eq!(fallback_move(&Pos(0, 0), &off_grid, 3), Move::new(Movement::Up));
}

#[test]
fn penalty_of_move_at_the_end_of_the_integers_is_large() {
    assert_eq!(penalty_of_move(&Pos(i32::MAX, 0), Movement::Right, &vec![], 3), 1000);
    assert_eq!(penalty_of_move(&Pos(0, i32::MIN), Movement::Down, &vec![], 3), 1000);
    assert_eq!(Pos(i32::MAX, 0).step(Movement::Right), None);
    assert_eq!(Pos(i32::MAX, 0).step(Movement::Left), Some(Pos(i32::MAX - 1, 0)));
}

#[test]
fn step_follows_the_four_directions() {
    assert_eq!(Pos(5, 5).step(Movement::Up), Some(Pos(5, 6)));
    assert_eq!(Pos(5, 5).step(Movement::Down), Some(Pos(5, 4)));
    assert_eq!(Pos(5, 5).step(Movement::Left), Some(Pos(4, 5)));
    assert_eq!(Pos(5, 5).step(Movement::Right), Some(Pos(6, 5)));
}
