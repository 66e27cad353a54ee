use invaders::config::{
    BOTTOM_WALL, ENEMY_BULLET_SPEED, ENEMY_COLS, ENEMY_DROP, ENEMY_FIRE_PERIOD, ENEMY_ROWS,
    ENEMY_SPEED, LEFT_WALL, PLAYER_BULLET_SPEED, PLAYER_FIRE_PERIOD, PLAYER_SPEED, RIGHT_WALL,
    SHIELD_COUNT, SHIELD_STRENGTH, STARTING_HP, TOP_WALL, UNIT,
};
use invaders::entity::{Enemy, Position};
use invaders::events::EnemyKilled;
use invaders::input::{Direction, InputState};
use invaders::ledger::{heart_is_full, update_score};
use invaders::state::{GameState, Intent, Step};

#[test]
fn the_fixed_numbers() {
    assert_eq!(UNIT, 1_000_000);
    assert_eq!(
        (PLAYER_SPEED, PLAYER_BULLET_SPEED, ENEMY_BULLET_SPEED, ENEMY_SPEED),
        (500, 800, 500, 120)
    );
    assert_eq!(ENEMY_DROP, 20 * UNIT);
    assert_eq!(
        (LEFT_WALL, RIGHT_WALL, BOTTOM_WALL, TOP_WALL),
        (-400 * UNIT, 400 * UNIT, -300 * UNIT, 300 * UNIT)
    );
    assert_eq!((PLAYER_FIRE_PERIOD, ENEMY_FIRE_PERIOD), (100_000, 250_000));
    assert_eq!((STARTING_HP, SHIELD_STRENGTH), (5, 5));
    assert_eq!((ENEMY_ROWS, ENEMY_COLS, SHIELD_COUNT), (15, 10, 5));
}

#[test]
fn direction_flips() {
    assert_eq!(Direction::Left.flipped(), Direction::Right);
    assert_eq!(Direction::Right.flipped(), Direction::Left);
    assert_eq!(Direction::Still.flipped(), Direction::Still);
    let mut d = Direction::Left;
    d.flip();
    assert_eq!(d, Direction::Right);
    d.flip();
    assert_eq!(d, Direction::Left);
}

#[test]
fn direction_as_a_sign() {
    assert_eq!(i64::from(Direction::Left), -1);
    assert_eq!(i64::from(Direction::Right), 1);
    assert_eq!(i64::from(Direction::Still), 0);
}

#[test]
fn direction_from_the_keys() {
    assert_eq!(Direction::from_keys(true, false), Direction::Left);
    assert_eq!(Direction::from_keys(false, true), Direction::Right);
    assert_eq!(Direction::from_keys(true, true), Direction::Still);
    assert_eq!(Direction::from_keys(false, false), Direction::Still);
}

#[test]
fn defaults() {
    assert_eq!(Direction::default(), Direction::Still);
    assert_eq!(
        InputState::default(),
        InputState { player_direction: Direction::Still, player_fire: false }
    );
    assert_eq!(GameState::default(), GameState::Menu);
}

#[test]
fn score_takes_in_each_kill_once() {
    let kill = EnemyKilled { position: Position { row: 0, col: 0 }, enemy: Enemy::Normal };
    let mut score: u32 = 0;
    update_score(&Vec::new(), &mut score);
    assert_eq!(score, 0);
    update_score(&vec![kill], &mut score);
    assert_eq!(score, 10);
    update_score(&vec![kill, kill, kill], &mut score);
    assert_eq!(score, 40);
    let mut high: u32 = u32::MAX - 10;
    update_score(&vec![kill], &mut high);
    assert_eq!(high, u32::MAX);
}

#[test]
fn hearts_show_the_hit_points() {
    assert!(heart_is_full(5, 5));
    assert!(heart_is_full(3, 1));
    assert!(heart_is_full(3, 3));
    assert!(!heart_is_full(3, 4));
    assert!(!heart_is_full(0, 1));
}

#[test]
fn intents_move_the_game_between_its_states() {
    assert_eq!(GameState::Menu.on_intent(Intent::Start), Step::Go(GameState::Running));
    assert_eq!(GameState::Menu.on_intent(Intent::Retry), Step::Stay);
    assert_eq!(GameState::Menu.on_intent(Intent::Exit), Step::Stay);
    assert_eq!(GameState::Running.on_intent(Intent::Start), Step::Stay);
    assert_eq!(GameState::Running.on_intent(Intent::Retry), Step::Stay);
    assert_eq!(GameState::Running.on_intent(Intent::Exit), Step::Stay);
    assert_eq!(GameState::GameOver.on_intent(Intent::Start), Step::Stay);
    assert_eq!(GameState::GameOver.on_intent(Intent::Retry), Step::Go(GameState::Running));
    assert_eq!(GameState::GameOver.on_intent(Intent::Exit), Step::Quit);
}

#[test]
fn the_running_game_is_over_without_hit_points() {
    assert_eq!(GameState::Running.on_hit_points(0), Step::Go(GameState::GameOver));
    assert_eq!(GameState::Running.on_hit_points(1), Step::Stay);
    assert_eq!(GameState::Menu.on_hit_points(0), Step::Stay);
    assert_eq!(GameState::GameOver.on_hit_points(0), Step::Stay);
}
