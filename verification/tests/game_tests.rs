use snake_core::game::{Game, KeyPress};
use snake_core::snake::Direction;

fn snake_cells(g: &Game) -> Vec<(i32, i32)> {
    let mut cells = Vec::new();
    let mut i = 0;
    while i < g.snake_len() {
        cells.push(g.snake_block(i));
        i += 1;
    }
    cells
}

/// Drive the snake into the right wall on a 20 by 20 board: move the head to
/// (18, 10), then step right once more.
fn run_into_right_wall() -> Game {
    let mut g = Game::new(20, 20);
    // Head starts at (4, 2) heading right; go down to y = 10 first.
    g.key_pressed(KeyPress::Down);
    assert_eq!(g.snake_block(0), (4, 3));
    for _ in 0..7 {
        g.update(101);
    }
    assert_eq!(g.snake_block(0), (4, 10));
    // Then right until x = 18.
    g.key_pressed(KeyPress::Right);
    for _ in 0..13 {
        g.update(101);
    }
    assert_eq!(g.snake_block(0), (18, 10));
    assert!(!g.is_game_over());
    // The next forced step would reach (19, 10), which lies on the border.
    g.update(101);
    g
}

#[test]
fn new_game_initial_state() {
    let g = Game::new(20, 20);
    assert_eq!(g.width(), 20);
    assert_eq!(g.height(), 20);
    assert!(!g.is_game_over());
    assert!(!g.food_exists());
    assert_eq!(g.snake_len(), 3);
    assert_eq!(snake_cells(&g), vec![(4, 2), (3, 2), (2, 2)]);
    assert_eq!(g.head_direction(), Direction::Right);
}

#[test]
fn reversal_and_same_direction_are_rejected() {
    let mut g = Game::new(20, 20);
    // Heading right: a press mapping to the reverse changes nothing.
    g.key_pressed(KeyPress::Left);
    assert_eq!(g.snake_block(0), (4, 2));
    assert_eq!(g.head_direction(), Direction::Right);
    // Neither does one mapping to the current heading.
    g.key_pressed(KeyPress::Right);
    assert_eq!(g.snake_block(0), (4, 2));
    assert_eq!(g.head_direction(), Direction::Right);
    // A perpendicular press changes heading and moves at once.
    g.key_pressed(KeyPress::Up);
    assert_eq!(g.snake_block(0), (4, 1));
    assert_eq!(g.head_direction(), Direction::Up);
}

#[test]
fn non_arrow_key_is_ignored() {
    let mut g = Game::new(20, 20);
    g.key_pressed(KeyPress::Other);
    assert_eq!(g.snake_block(0), (4, 2));
    assert_eq!(g.head_direction(), Direction::Right);
}

#[test]
fn no_autonomous_step_before_the_move_period() {
    let mut g = Game::new(20, 20);
    g.update(50);
    assert_eq!(g.snake_block(0), (4, 2));
    // 50 + 60 ms exceed the 100 ms period, so now the snake steps.
    g.update(60);
    assert_eq!(g.snake_block(0), (5, 2));
}

#[test]
fn wall_collision_ends_the_game() {
    let g = run_into_right_wall();
    assert!(g.is_game_over());
    // The failed move leaves the snake untouched.
    assert_eq!(g.snake_block(0), (18, 10));
}

#[test]
fn game_over_freezes_snake_and_keys() {
    let mut g = run_into_right_wall();
    g.key_pressed(KeyPress::Up);
    assert!(g.is_game_over());
    assert_eq!(g.snake_block(0), (18, 10));
    g.update(10);
    assert!(g.is_game_over());
    assert_eq!(g.snake_block(0), (18, 10));
}

#[test]
fn restart_after_the_delay() {
    let mut g = run_into_right_wall();
    assert!(g.is_game_over());
    // Push the waiting time past the 1000 ms restart delay.
    g.update(1001);
    assert!(!g.is_game_over());
    assert!(!g.food_exists());
    assert_eq!(g.snake_len(), 3);
    assert_eq!(snake_cells(&g), vec![(4, 2), (3, 2), (2, 2)]);
    assert_eq!(g.head_direction(), Direction::Right);
}

#[test]
fn food_never_spawns_on_the_snake() {
    // A small board leaves only five free interior cells, so a spawn that
    // ignored the snake would hit it quickly.
    for _ in 0..1000 {
        let mut g = Game::new(6, 4);
        g.update(0);
        assert!(g.food_exists());
        let (fx, fy) = g.food_position();
        assert!(fx > 0 && fx < 5);
        assert!(fy > 0 && fy < 3);
        for cell in snake_cells(&g) {
            assert_ne!((fx, fy), cell);
        }
    }
}

#[test]
fn eating_grows_the_snake_and_clears_the_food() {
    let mut g = Game::new(20, 20);
    // Place the food exactly where the next step lands the head.
    g.place_food(5, 2);
    assert!(g.food_exists());
    g.update(101);
    assert_eq!(g.snake_block(0), (5, 2));
    assert_eq!(g.snake_len(), 4);
    assert!(!g.food_exists());
}

#[test]
fn eaten_tail_cell_is_restored() {
    let mut g = Game::new(20, 20);
    g.place_food(5, 2);
    g.update(101);
    assert_eq!(snake_cells(&g), vec![(5, 2), (4, 2), (3, 2), (2, 2)]);
}

#[test]
fn clear_food_takes_it_off_the_board() {
    let mut g = Game::new(20, 20);
    g.place_food(10, 10);
    assert!(g.food_exists());
    assert_eq!(g.food_position(), (10, 10));
    g.clear_food();
    assert!(!g.food_exists());
}
