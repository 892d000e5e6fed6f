use snake_game::game::{Game, Input, LEVEL_GOAL, MIN_MOVE_PERIOD_US, START_MOVE_PERIOD_US};

fn player_cells(g: &Game) -> Vec<(i32, i32)> {
    g.get_snake().body().iter().map(|b| (b.x, b.y)).collect()
}

fn ai_head(g: &Game) -> (i32, i32) {
    g.get_ai_snakes()[0].head_position()
}

/// A 30 by 30 game whose obstacles lie far from the player's start.
fn open_game() -> Game {
    let mut g = Game::new(30, 30);
    g.place_obstacles(vec![]);
    g
}

fn no_duplicates(cells: &[(i32, i32)]) -> bool {
    let mut seen: Vec<(i32, i32)> = Vec::new();
    for c in cells {
        if seen.contains(c) {
            return false;
        }
        seen.push(*c);
    }
    true
}

#[test]
fn fresh_game_starts_at_level_one() {
    let g = Game::new(30, 30);
    assert_eq!(g.get_score(), 0);
    assert_eq!(g.get_level(), 1);
    assert_eq!(g.get_level_score(), 0);
    assert_eq!(g.get_obstacles().len(), 10);
    assert_eq!(g.get_snake_head(), (4, 2));
    assert_eq!(g.get_food(), Some((6, 4)));
    assert!(!g.is_game_over());
    assert!(!g.is_paused());
    assert!(!g.is_waiting_next_level());
    assert_eq!(g.get_size(), (30, 30));
    assert_eq!(g.get_move_period(), START_MOVE_PERIOD_US);
    assert_eq!(ai_head(&g), (27, 25));
}

#[test]
fn generated_obstacles_are_distinct_free_interior_cells() {
    for _ in 0..20 {
        let g = Game::new(30, 30);
        let obs = g.get_obstacles();
        assert_eq!(obs.len(), 10);
        assert!(no_duplicates(obs));
        assert!(!obs.contains(&(2, 2)));
        assert!(!obs.contains(&(6, 4)));
        for &(x, y) in obs.iter() {
            assert!(0 < x && x < 29 && 0 < y && y < 29);
            assert!(!g.get_snake().occupies(x, y));
        }
    }
}

#[test]
fn restart_regenerates_ten_obstacles() {
    let mut g = open_game();
    g.key_pressed(Input::Up);
    g.key_pressed(Input::Up);
    assert!(g.is_game_over());
    g.restart();
    assert!(!g.is_game_over());
    assert_eq!(g.get_level(), 1);
    assert_eq!(g.get_snake_head(), (4, 2));
    assert_eq!(g.get_food(), Some((6, 4)));
    let obs = g.get_obstacles();
    assert_eq!(obs.len(), 10);
    assert!(no_duplicates(obs));
    assert!(!obs.contains(&(2, 2)));
    assert!(!obs.contains(&(6, 4)));
}

#[test]
fn obstacles_saturate_at_the_free_cells() {
    let g = Game::new(5, 5);
    assert_eq!(g.obstacle_candidates().len(), 7);
    assert_eq!(g.get_obstacles().len(), 7);
    assert!(no_duplicates(g.get_obstacles()));
}

#[test]
fn obstacle_order_is_shuffled() {
    let mut differs = false;
    for _ in 0..5 {
        let g = Game::new(30, 30);
        let in_order: Vec<(i32, i32)> = g.obstacle_candidates().into_iter().take(10).collect();
        if *g.get_obstacles() != in_order {
            differs = true;
        }
    }
    assert!(differs);
}

#[test]
fn place_obstacles_takes_a_prefix() {
    let mut g = Game::new(30, 30);
    let order: Vec<(i32, i32)> = (1..=12).map(|i| (i, 20)).collect();
    g.place_obstacles(order.clone());
    assert_eq!(*g.get_obstacles(), order[..10].to_vec());
    g.place_obstacles(vec![(3, 3)]);
    assert_eq!(*g.get_obstacles(), vec![(3, 3)]);
}

#[test]
fn eating_the_first_food_scores_and_grows() {
    let mut g = open_game();
    g.key_pressed(Input::Right);
    g.key_pressed(Input::Right);
    assert_eq!(g.get_snake_head(), (6, 2));
    g.key_pressed(Input::Down);
    g.key_pressed(Input::Down);
    assert_eq!(g.get_snake_head(), (6, 4));
    assert_eq!(g.get_score(), 1);
    assert_eq!(g.get_level_score(), 1);
    assert_eq!(g.get_snake().body().len(), 4);
    assert_eq!(player_cells(&g), vec![(6, 4), (6, 3), (6, 2), (5, 2)]);
    assert_eq!(g.get_food(), None);
    assert!(!g.is_game_over());
}

#[test]
fn eating_lays_an_egg_under_each_ai_head() {
    let mut g = open_game();
    g.place_food(5, 2);
    g.key_pressed(Input::Right);
    assert_eq!(g.get_score(), 1);
    assert_eq!(*g.get_obstacles(), vec![(27, 25)]);
}

#[test]
fn lay_egg_skips_existing_obstacles() {
    let mut g = open_game();
    assert_eq!(g.ai_snake_lay_egg_now(), vec![(27, 25)]);
    assert_eq!(*g.get_obstacles(), vec![(27, 25)]);
    assert_eq!(g.ai_snake_lay_egg_now(), Vec::<(i32, i32)>::new());
    assert_eq!(*g.get_obstacles(), vec![(27, 25)]);
}

#[test]
fn lay_egg_does_nothing_while_paused() {
    let mut g = open_game();
    g.key_pressed(Input::Pause);
    assert!(g.is_paused());
    assert_eq!(g.ai_snake_lay_egg_now(), Vec::<(i32, i32)>::new());
    assert!(g.get_obstacles().is_empty());
}

#[test]
fn missing_food_reappears_off_the_snake() {
    let mut g = open_game();
    g.place_food(5, 2);
    g.key_pressed(Input::Right);
    assert_eq!(g.get_food(), None);
    g.update(1);
    let (fx, fy) = g.get_food().expect("food is placed");
    assert!(0 < fx && fx < 29 && 0 < fy && fy < 29);
    assert!(!g.get_snake().occupies(fx, fy));
    assert!(g.food_spots().contains(&(fx, fy)));
}

#[test]
fn food_spots_leave_out_the_snake() {
    let g = Game::new(5, 5);
    let spots = g.food_spots();
    assert_eq!(spots.len(), 7);
    assert!(!spots.contains(&(2, 2)));
    assert!(!spots.contains(&(3, 2)));
    assert!(spots.contains(&(1, 1)));
}

#[test]
fn level_goal_waits_for_next_level() {
    let mut g = open_game();
    for i in 0..LEVEL_GOAL as i32 {
        g.place_food(5 + i, 2);
        g.key_pressed(Input::Right);
    }
    assert_eq!(g.get_score(), 5);
    assert_eq!(g.get_level_score(), 5);
    assert!(g.is_waiting_next_level());
    let head = g.get_snake_head();
    assert_eq!(head, (9, 2));
    g.key_pressed(Input::Right);
    g.key_pressed(Input::Down);
    g.update(1_000_000);
    assert_eq!(g.get_snake_head(), head);
    assert!(!g.is_game_over());
    g.next_level();
    assert_eq!(g.get_level(), 2);
    assert_eq!(g.get_level_score(), 0);
    assert_eq!(g.get_score(), 5);
    assert!(!g.is_waiting_next_level());
    assert_eq!(g.get_snake_head(), (4, 2));
    assert_eq!(g.get_snake().body().len(), 3);
    assert_eq!(ai_head(&g), (27, 25));
    assert_eq!(g.get_move_period(), START_MOVE_PERIOD_US / 2);
    g.key_pressed(Input::Right);
    assert_eq!(g.get_snake_head(), (5, 2));
}

#[test]
fn next_level_before_the_goal_does_nothing() {
    let mut g = open_game();
    g.next_level();
    assert_eq!(g.get_level(), 1);
    assert_eq!(g.get_move_period(), START_MOVE_PERIOD_US);
}

#[test]
fn move_period_halves_down_to_the_minimum() {
    let mut g = open_game();
    let mut expected = START_MOVE_PERIOD_US;
    for _ in 0..4 {
        g.next_level();
        for _ in 0..LEVEL_GOAL {
            let (hx, hy) = g.get_snake_head();
            g.place_food(hx + 1, hy);
            g.key_pressed(Input::Right);
        }
        assert!(g.is_waiting_next_level());
        g.next_level();
        expected = if expected / 2 > MIN_MOVE_PERIOD_US { expected / 2 } else { MIN_MOVE_PERIOD_US };
        assert_eq!(g.get_move_period(), expected);
    }
    assert_eq!(g.get_move_period(), MIN_MOVE_PERIOD_US);
    assert_eq!(g.get_level(), 5);
}

#[test]
fn hitting_an_obstacle_ends_the_game_until_restart() {
    let mut g = Game::new(30, 30);
    g.place_obstacles(vec![(5, 2)]);
    g.key_pressed(Input::Right);
    assert!(g.is_game_over());
    assert_eq!(g.get_snake_head(), (4, 2));
    g.key_pressed(Input::Down);
    g.update(1_000_000);
    assert!(g.is_game_over());
    assert_eq!(g.get_snake_head(), (4, 2));
    g.key_pressed(Input::Restart);
    assert!(!g.is_game_over());
}

#[test]
fn hitting_the_wall_ends_the_game() {
    let mut g = open_game();
    g.key_pressed(Input::Up);
    assert_eq!(g.get_snake_head(), (4, 1));
    assert!(!g.is_game_over());
    g.key_pressed(Input::Up);
    assert!(g.is_game_over());
}

#[test]
fn biting_the_body_ends_the_game() {
    let mut g = open_game();
    g.place_food(5, 2);
    g.key_pressed(Input::Right);
    g.place_food(6, 2);
    g.key_pressed(Input::Right);
    assert_eq!(g.get_snake().body().len(), 5);
    g.key_pressed(Input::Down);
    g.key_pressed(Input::Left);
    assert!(!g.is_game_over());
    g.key_pressed(Input::Up);
    assert!(g.is_game_over());
}

#[test]
fn chasing_the_tail_is_allowed() {
    let mut g = open_game();
    g.place_food(5, 2);
    g.key_pressed(Input::Right);
    assert_eq!(player_cells(&g), vec![(5, 2), (4, 2), (3, 2), (2, 2)]);
    g.key_pressed(Input::Down);
    g.key_pressed(Input::Left);
    g.key_pressed(Input::Up);
    assert!(!g.is_game_over());
    assert_eq!(player_cells(&g), vec![(4, 2), (4, 3), (5, 3), (5, 2)]);
}

#[test]
fn reversing_is_ignored() {
    let mut g = open_game();
    g.key_pressed(Input::Left);
    assert_eq!(g.get_snake_head(), (4, 2));
    assert!(!g.is_game_over());
}

#[test]
fn other_keys_step_straight_on() {
    let mut g = open_game();
    g.key_pressed(Input::Other);
    assert_eq!(g.get_snake_head(), (5, 2));
}

#[test]
fn pause_freezes_until_toggled_back() {
    let mut g = open_game();
    g.key_pressed(Input::Pause);
    assert!(g.is_paused());
    assert_eq!(g.get_snake_head(), (4, 2));
    g.update(1_000_000);
    assert_eq!(g.get_snake_head(), (4, 2));
    g.key_pressed(Input::Pause);
    assert!(!g.is_paused());
    assert_eq!(g.get_snake_head(), (5, 2));
}

#[test]
fn update_moves_once_the_period_is_exceeded() {
    let mut g = open_game();
    g.update(100_000);
    assert_eq!(g.get_snake_head(), (4, 2));
    g.update(80_000);
    assert_eq!(g.get_snake_head(), (4, 2));
    g.update(1);
    assert_eq!(g.get_snake_head(), (5, 2));
    g.update(180_000);
    assert_eq!(g.get_snake_head(), (5, 2));
}

#[test]
fn ai_snakes_move_when_their_timer_reaches_the_period() {
    let mut g = open_game();
    for _ in 0..5 {
        g.advance_ai_snakes(90_000, 90_000, 20_000, &vec![None]);
        assert_eq!(ai_head(&g), (27, 25));
    }
    g.advance_ai_snakes(90_000, 90_000, 20_000, &vec![None]);
    assert_eq!(ai_head(&g), (26, 25));
    for _ in 0..5 {
        g.advance_ai_snakes(90_000, 90_000, 0, &vec![]);
    }
    g.advance_ai_snakes(90_000, 90_000, 39_999, &vec![Some(snake_game::snake::Direction::Up)]);
    assert_eq!(ai_head(&g), (26, 24));
}

#[test]
fn ai_period_drifts_within_its_band() {
    let mut g = open_game();
    g.advance_ai_snakes(0, 1_000_000, 0, &vec![None]);
    for _ in 0..8 {
        g.advance_ai_snakes(0, 1_000_000, 20_000, &vec![None]);
    }
    assert_eq!(ai_head(&g), (27, 25));
    g.advance_ai_snakes(0, 1_000_000, 20_000, &vec![None]);
    assert_eq!(ai_head(&g), (26, 25));
}

#[test]
fn ai_snakes_stop_when_the_game_is_over() {
    let mut g = open_game();
    g.key_pressed(Input::Up);
    g.key_pressed(Input::Up);
    assert!(g.is_game_over());
    for _ in 0..20 {
        g.update_ai_snakes(0, 0);
    }
    assert_eq!(ai_head(&g), (27, 25));
}

#[test]
fn random_ai_updates_keep_heads_on_the_grid() {
    let mut g = open_game();
    for _ in 0..500 {
        g.update_ai_snakes(0, 0);
        let (x, y) = ai_head(&g);
        assert!(0 <= x && x <= 28 && 0 <= y && y <= 28);
    }
}

#[test]
fn touching_an_ai_snake_ends_the_game() {
    let mut g = Game::new(10, 10);
    g.place_obstacles(vec![]);
    assert_eq!(ai_head(&g), (7, 5));
    g.key_pressed(Input::Down);
    g.key_pressed(Input::Down);
    g.key_pressed(Input::Down);
    g.check_player_ai_collision();
    assert!(!g.is_game_over());
    g.key_pressed(Input::Right);
    assert_eq!(g.get_snake_head(), (5, 5));
    g.check_player_ai_collision();
    assert!(g.is_game_over());
}

#[test]
fn tick_moves_the_player_after_a_long_frame() {
    let mut g = open_game();
    g.tick(200_000);
    assert_eq!(g.get_snake_head(), (5, 2));
    assert!(!g.is_game_over());
}

#[test]
fn restart_key_restarts_then_steps() {
    let mut g = open_game();
    g.key_pressed(Input::Up);
    g.key_pressed(Input::Up);
    assert!(g.is_game_over());
    g.key_pressed(Input::Restart);
    assert!(!g.is_game_over());
    assert_eq!(g.get_score(), 0);
    assert_eq!(g.get_obstacles().len(), 10);
    let head = g.get_snake_head();
    assert!(head == (5, 2) || g.is_game_over());
}
