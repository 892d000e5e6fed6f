use snake_game::snake::{AISnake, Block, Direction, Snake};

fn cells(s: &Snake) -> Vec<(i32, i32)> {
    s.body().iter().map(|b| (b.x, b.y)).collect()
}

fn ai_cells(s: &AISnake) -> Vec<(i32, i32)> {
    s.body().iter().map(|b| (b.x, b.y)).collect()
}

#[test]
fn opposite_reverses_each_direction() {
    assert_eq!(Direction::Up.opposite(), Direction::Down);
    assert_eq!(Direction::Down.opposite(), Direction::Up);
    assert_eq!(Direction::Left.opposite(), Direction::Right);
    assert_eq!(Direction::Right.opposite(), Direction::Left);
}

#[test]
fn new_snake_runs_left_from_head_facing_right() {
    let s = Snake::new(2, 2);
    assert_eq!(cells(&s), vec![(4, 2), (3, 2), (2, 2)]);
    assert_eq!(s.head_position(), (4, 2));
    assert_eq!(s.head_direction(), Direction::Right);
}

#[test]
fn next_head_follows_direction_or_override() {
    let s = Snake::new(5, 5);
    assert_eq!(s.next_head(None), (8, 5));
    assert_eq!(s.next_head(Some(Direction::Up)), (7, 4));
    assert_eq!(s.next_head(Some(Direction::Down)), (7, 6));
    assert_eq!(s.next_head(Some(Direction::Left)), (6, 5));
    assert_eq!(s.next_head(Some(Direction::Right)), (8, 5));
    assert_eq!(cells(&s), vec![(7, 5), (6, 5), (5, 5)]);
}

#[test]
fn move_forward_pushes_head_and_drops_tail() {
    let mut s = Snake::new(2, 2);
    s.move_forward(Some(Direction::Down));
    assert_eq!(cells(&s), vec![(4, 3), (4, 2), (3, 2)]);
    assert_eq!(s.head_direction(), Direction::Down);
    s.move_forward(None);
    assert_eq!(cells(&s), vec![(4, 4), (4, 3), (4, 2)]);
}

#[test]
fn restore_tail_gives_back_the_removed_cell() {
    let mut s = Snake::new(2, 2);
    s.move_forward(None);
    assert_eq!(cells(&s), vec![(5, 2), (4, 2), (3, 2)]);
    s.restore_tail();
    assert_eq!(cells(&s), vec![(5, 2), (4, 2), (3, 2), (2, 2)]);
    assert_eq!(s.body().len(), 4);
}

#[test]
fn over_tail_spares_only_the_last_cell() {
    let s = Snake::new(2, 2);
    assert!(s.over_tail(4, 2));
    assert!(s.over_tail(3, 2));
    assert!(!s.over_tail(2, 2));
    assert!(!s.over_tail(5, 2));
    assert!(s.occupies(2, 2));
    assert!(!s.occupies(5, 2));
}

#[test]
fn ai_snake_wraps_left_from_column_zero() {
    let mut ai = AISnake::new(-2, 5);
    assert_eq!(ai.head_position(), (0, 5));
    ai.move_forward_wrap(None, 30, 30);
    assert_eq!(ai.head_position(), (28, 5));
    assert_eq!(ai_cells(&ai), vec![(28, 5), (0, 5), (-1, 5)]);
}

#[test]
fn ai_snake_wraps_on_every_edge() {
    let mut ai = AISnake::new(26, 3);
    assert_eq!(ai.head_position(), (28, 3));
    ai.move_forward_wrap(Some(Direction::Right), 30, 30);
    assert_eq!(ai.head_position(), (0, 3));
    let mut up = AISnake::new(4, 0);
    up.move_forward_wrap(Some(Direction::Up), 30, 20);
    assert_eq!(up.head_position(), (6, 18));
    let mut down = AISnake::new(4, 18);
    down.move_forward_wrap(Some(Direction::Down), 30, 20);
    assert_eq!(down.head_position(), (6, 0));
}

#[test]
fn ai_snake_moves_straight_inside_the_grid() {
    let mut ai = AISnake::new(10, 10);
    assert_eq!(ai.next_head(None), (11, 10));
    ai.move_forward_wrap(None, 30, 30);
    assert_eq!(ai_cells(&ai), vec![(11, 10), (12, 10), (11, 10)]);
}

#[test]
fn ai_restore_tail_repeats_the_last_cell() {
    let mut ai = AISnake::new(10, 10);
    ai.restore_tail();
    assert_eq!(ai_cells(&ai), vec![(12, 10), (11, 10), (10, 10), (10, 10)]);
}

#[test]
fn blocks_compare_by_coordinates() {
    assert_eq!(Block { x: 1, y: 2 }, Block { x: 1, y: 2 });
    assert_ne!(Block { x: 1, y: 2 }, Block { x: 2, y: 1 });
}
