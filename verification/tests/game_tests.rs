use snake_game::game::Game;
use snake_game::snake::{Block, Direction, Snake};

fn body_of(s: &Snake) -> Vec<(i32, i32)> {
    let mut cells: Vec<(i32, i32)> = Vec::new();
    let mut i: usize = 0;
    while i < s.len() {
        let b: Block = s.block_at(i);
        cells.push((b.x, b.y));
        i += 1;
    }
    cells
}

/// Drives a fresh 30 x 30 game to the game-over state: two turns put the
/// head at (3, 3) heading Left, then timed updates walk it into the left
/// border.
fn game_driven_to_over() -> Game {
    let mut g = Game::new(30, 30);
    g.key_pressed(Some(Direction::Down));
    g.key_pressed(Some(Direction::Left));
    g.update(250);
    g.update(250);
    assert_eq!(g.snake().head_position(), (1, 3));
    assert!(!g.is_game_over());
    g.update(250);
    g
}

#[test]
fn new_game_state() {
    let g = Game::new(30, 30);
    assert_eq!(body_of(g.snake()), vec![(4, 2), (3, 2), (2, 2)]);
    assert_eq!(g.snake().head_direction(), Direction::Right);
    assert!(g.food_exists());
    assert_eq!(g.food_position(), (6, 4));
    assert_eq!(g.size(), (30, 30));
    assert!(!g.is_game_over());
    assert_eq!(g.elapsed(), 0);
}

#[test]
fn update_advances_after_moving_period() {
    let mut g = Game::new(30, 30);
    g.update(250);
    assert_eq!(body_of(g.snake()), vec![(5, 2), (4, 2), (3, 2)]);
    assert_eq!(g.elapsed(), 0);
    assert!(!g.is_game_over());
}

#[test]
fn update_below_moving_period_only_accumulates() {
    let mut g = Game::new(30, 30);
    g.update(100);
    assert_eq!(body_of(g.snake()), vec![(4, 2), (3, 2), (2, 2)]);
    assert_eq!(g.elapsed(), 100);
}

#[test]
fn reversal_keypress_is_rejected() {
    let mut g = Game::new(30, 30);
    g.key_pressed(Some(Direction::Left));
    assert_eq!(g.snake().head_direction(), Direction::Right);
    assert_eq!(body_of(g.snake()), vec![(4, 2), (3, 2), (2, 2)]);
    assert_eq!(g.elapsed(), 0);
}

#[test]
fn sideways_keypress_changes_heading() {
    let mut g = Game::new(30, 30);
    g.key_pressed(Some(Direction::Up));
    assert_eq!(g.snake().head_direction(), Direction::Up);
    assert_eq!(body_of(g.snake()), vec![(4, 1), (4, 2), (3, 2)]);

    let mut h = Game::new(30, 30);
    h.key_pressed(Some(Direction::Down));
    assert_eq!(h.snake().head_direction(), Direction::Down);
    assert_eq!(body_of(h.snake()), vec![(4, 3), (4, 2), (3, 2)]);
}

#[test]
fn keypress_without_direction_is_ignored() {
    let mut g = Game::new(30, 30);
    g.key_pressed(None);
    assert_eq!(g.snake().head_direction(), Direction::Right);
    assert_eq!(body_of(g.snake()), vec![(4, 2), (3, 2), (2, 2)]);
}

#[test]
fn eating_grows_body_and_consumes_food() {
    let mut g = Game::new(30, 30);
    assert_eq!(g.food_position(), (6, 4));
    g.key_pressed(Some(Direction::Down));
    g.key_pressed(Some(Direction::Down));
    g.key_pressed(Some(Direction::Right));
    assert_eq!(g.snake().head_position(), (5, 4));
    assert_eq!(g.snake().len(), 3);
    g.update(250);
    assert_eq!(g.snake().head_position(), (6, 4));
    assert_eq!(g.snake().len(), 4);
    assert!(!g.food_exists());
    assert_eq!(body_of(g.snake()), vec![(6, 4), (5, 4), (4, 4), (4, 3)]);
}

#[test]
fn moving_into_border_ends_game() {
    let g = game_driven_to_over();
    assert!(g.is_game_over());
    assert_eq!(g.snake().head_position(), (1, 3));
    assert_eq!(g.elapsed(), 0);
}

#[test]
fn keys_are_ignored_after_game_over() {
    let mut g = game_driven_to_over();
    g.key_pressed(Some(Direction::Up));
    assert!(g.is_game_over());
    assert_eq!(g.snake().head_direction(), Direction::Left);
    assert_eq!(g.snake().head_position(), (1, 3));
}

#[test]
fn restart_after_countdown() {
    let mut g = game_driven_to_over();
    g.update(500);
    assert!(g.is_game_over());
    assert_eq!(g.elapsed(), 500);
    g.update(501);
    assert!(!g.is_game_over());
    assert_eq!(body_of(g.snake()), vec![(4, 2), (3, 2), (2, 2)]);
    assert_eq!(g.snake().head_direction(), Direction::Right);
    assert!(g.food_exists());
    assert_eq!(g.food_position(), (6, 4));
    assert_eq!(g.elapsed(), 0);
}

#[test]
fn food_is_replaced_on_a_free_cell_after_eating() {
    let mut g = Game::new(30, 30);
    g.key_pressed(Some(Direction::Down));
    g.key_pressed(Some(Direction::Down));
    g.key_pressed(Some(Direction::Right));
    g.update(250);
    assert!(!g.food_exists());
    g.update(100);
    assert!(g.food_exists());
    let (fx, fy): (i32, i32) = g.food_position();
    assert!(1 <= fx && fx <= 28);
    assert!(1 <= fy && fy <= 28);
    let cells: Vec<(i32, i32)> = body_of(g.snake());
    let mut i: usize = 0;
    while i + 1 < cells.len() {
        assert_ne!(cells[i], (fx, fy));
        i += 1;
    }
}
