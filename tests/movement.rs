use battle_kernel::movement::{MovementEngine, MovementResult};
use battle_kernel::point::Point;

#[test]
fn find_path() {
    let player = Point::new(3, 3);
    let enemy1 = Point::new(10, 20);
    let enemy2 = Point::new(0, 0);

    let result: MovementResult = MovementEngine::new(player, vec![enemy1, enemy2], None).do_move();

    assert_eq!(player, result.start);
    assert_eq!(enemy2, result.goal);
}

#[test]
fn do_move_target_beyond_reach() {
    let player = Point::new(3, 3);
    let enemy1 = Point::new(10, 20);

    let result: MovementResult = MovementEngine::new(player, vec![enemy1], Some(3)).do_move();

    assert_eq!(player, result.start);
    assert_eq!(enemy1, result.goal);
    assert_eq!(Point::new(3, 6), result.last_position);
    assert_eq!(3, result.steps.len());
}

#[test]
fn do_move_target_closer_than_range() {
    let player = Point::new(3, 3);
    let enemy1 = Point::new(10, 20);

    let result: MovementResult = MovementEngine::new(player, vec![enemy1], Some(30)).do_move();

    assert_eq!(player, result.start);
    assert_eq!(enemy1, result.goal);
    assert_eq!(Point::new(10, 19), result.last_position);
    assert_eq!(23, result.steps.len());
}

#[test]
fn no_move_when_adjacent() {
    let result = MovementEngine::new(Point::new(3, 3), vec![Point::new(3, 4)], Some(3)).do_move();
    assert!(!result.has_moved());
    assert_eq!(result.last_position, Point::new(3, 3));
    assert_eq!(result.goal, Point::new(3, 4));
}

#[test]
fn path_steps_are_greedy() {
    let result = MovementEngine::new(Point::new(0, 0), vec![Point::new(2, 3)], None).do_move();
    assert_eq!(result.steps, vec![Point::new(0, 1), Point::new(1, 1), Point::new(1, 2), Point::new(2, 2)]);
    assert_eq!(result.last_position, Point::new(2, 2));
}

#[test]
fn zero_step_limit_stays_put() {
    let result = MovementEngine::new(Point::new(0, 0), vec![Point::new(9, 9)], Some(0)).do_move();
    assert!(!result.has_moved());
    assert_eq!(result.last_position, Point::new(0, 0));
    let already = MovementResult::already_at_goal(Point::new(1, 1), Point::new(1, 2));
    assert!(already.steps.is_empty());
}
