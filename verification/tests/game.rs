use invaders::config::{
    ENEMY_FIRE_PERIOD, LEFT_WALL, PLAYER_FIRE_PERIOD, RIGHT_WALL, STARTING_HP, UNIT,
};
use invaders::entity::{Enemy, Entity, Owner, Position, Role, Transform};
use invaders::events::EnemyKilled;
use invaders::firing::shoot_from;
use invaders::game::{Game, TickReport};
use invaders::geometry::{Aabb, Vec2};
use invaders::input::{Direction, InputState};
use invaders::setup::{front_setup, game_setup};
use invaders::state::{GameState, Intent};
use rand::rngs::StdRng;
use rand::SeedableRng;

const DT: u32 = 15_625;

fn idle() -> InputState {
    InputState { player_direction: Direction::Still, player_fire: false }
}

fn running() -> Game {
    let mut game = Game::new();
    assert!(!game.handle(Intent::Start));
    game
}

fn spawn(game: &mut Game, x: i64, y: i64, half: i64, role: Role) -> usize {
    game.registry.spawn(
        Transform {
            translation: Vec2::new(x * UNIT, y * UNIT),
            scale: Vec2::new(2 * half * UNIT, 2 * half * UNIT),
        },
        Vec2::new(half * UNIT, half * UNIT),
        role,
    );
    game.registry.len() - 1
}

#[test]
fn the_starting_entities() {
    let r = game_setup();
    assert_eq!(r.len(), 156);
    assert_eq!(r.next_id(), 156);
    assert_eq!(
        r.get(0),
        Entity {
            id: 0,
            transform: Transform {
                translation: Vec2 { x: 0, y: -250 * UNIT },
                scale: Vec2 { x: 30 * UNIT, y: 30 * UNIT },
            },
            collider: Aabb {
                center: Vec2 { x: 0, y: -250 * UNIT },
                half: Vec2 { x: 15 * UNIT, y: 15 * UNIT },
            },
            role: Role::Player,
            alive: true,
        }
    );
    assert_eq!(
        r.get(1 + 3 * 15 + 2),
        Entity {
            id: 48,
            transform: Transform {
                translation: Vec2 { x: -100 * UNIT, y: 200 * UNIT },
                scale: Vec2 { x: 20 * UNIT, y: 20 * UNIT },
            },
            collider: Aabb {
                center: Vec2 { x: -100 * UNIT, y: 200 * UNIT },
                half: Vec2 { x: 10 * UNIT, y: 10 * UNIT },
            },
            role: Role::Enemy { kind: Enemy::Normal, position: Position { row: 2, col: 3 } },
            alive: true,
        }
    );
    assert_eq!(r.get(1).transform.translation, Vec2 { x: -250 * UNIT, y: 100 * UNIT });
    assert_eq!(r.get(150).transform.translation, Vec2 { x: 200 * UNIT, y: 800 * UNIT });
    assert_eq!(
        r.get(150).role,
        Role::Enemy { kind: Enemy::Normal, position: Position { row: 14, col: 9 } }
    );
    assert_eq!(
        r.get(153),
        Entity {
            id: 153,
            transform: Transform {
                translation: Vec2 { x: -50 * UNIT, y: -75 * UNIT },
                scale: Vec2 { x: 30 * UNIT, y: 20 * UNIT },
            },
            collider: Aabb {
                center: Vec2 { x: -50 * UNIT, y: -75 * UNIT },
                half: Vec2 { x: 15 * UNIT, y: 10 * UNIT },
            },
            role: Role::Shield { hits: 0 },
            alive: true,
        }
    );
    assert_eq!(r.get(151).transform.translation.x, -250 * UNIT);
    assert_eq!(r.get(155).transform.translation.x, 150 * UNIT);
    let enemies = (0..r.len()).filter(|&i| r.get(i).is_enemy()).count();
    let shields = (0..r.len()).filter(|&i| r.get(i).is_shield()).count();
    assert_eq!((enemies, shields), (150, 5));
}

#[test]
fn the_starting_index() {
    let front = front_setup();
    assert_eq!(front.0.len(), 10);
    for col in 0..10 {
        assert_eq!(front.get(col), Some(0));
    }
    assert_eq!(front.get(10), None);
}

#[test]
fn a_new_game_is_in_its_menu() {
    let game = Game::new();
    assert_eq!(game.state, GameState::Menu);
    assert_eq!(game.registry.len(), 0);
    assert_eq!(game.score, 0);
    assert_eq!(game.hp, STARTING_HP);
    assert_eq!(game.enemy_direction, Direction::Right);
    assert_eq!(game.player_fire_timer.period_us, PLAYER_FIRE_PERIOD);
    assert_eq!(game.enemy_fire_timer.period_us, ENEMY_FIRE_PERIOD);
    assert!(game.kills.is_empty());
    assert!(game.front_enemies.0.is_empty());
}

#[test]
fn a_tick_outside_the_running_game_does_nothing() {
    let mut rng = StdRng::seed_from_u64(3);
    let mut game = Game::new();
    let input = InputState { player_direction: Direction::Right, player_fire: true };
    let report = game.tick(input, 1_000_000, &mut rng);
    assert_eq!(report, TickReport { player_fired: false, enemy_shooter: None, game_over: false });
    assert_eq!(game.state, GameState::Menu);
    assert_eq!(game.registry.len(), 0);
    assert_eq!(game.player_fire_timer.elapsed_us, 0);
}

#[test]
fn start_sets_the_game_up() {
    let game = running();
    assert_eq!(game.state, GameState::Running);
    assert_eq!(game.registry.len(), 156);
    assert_eq!(game.front_enemies.0.len(), 10);
    assert_eq!((game.score, game.hp), (0, 5));
    assert!(game.within_limits());
}

#[test]
fn intents_that_do_not_apply_are_ignored() {
    let mut game = Game::new();
    assert!(!game.handle(Intent::Retry));
    assert!(!game.handle(Intent::Exit));
    assert_eq!(game.state, GameState::Menu);
    let mut game = running();
    game.score = 70;
    assert!(!game.handle(Intent::Start));
    assert!(!game.handle(Intent::Retry));
    assert!(!game.handle(Intent::Exit));
    assert_eq!(game.state, GameState::Running);
    assert_eq!(game.score, 70);
}

#[test]
fn first_tick_of_a_game() {
    let mut rng = StdRng::seed_from_u64(3);
    let mut game = running();
    let input = InputState { player_direction: Direction::Right, player_fire: true };
    let report = game.tick(input, DT, &mut rng);
    assert_eq!(report, TickReport { player_fired: false, enemy_shooter: None, game_over: false });
    assert_eq!(game.registry.len(), 156);
    assert_eq!(game.registry.get(0).transform.translation.x, 7_812_500);
    assert_eq!(game.registry.get(0).collider.center.x, 7_812_500);
    assert_eq!(game.registry.get(1).transform.translation.x, -250 * UNIT + 1_875_000);
    assert_eq!(game.registry.get(1).collider.center.x, -250 * UNIT + 1_875_000);
    assert_eq!(game.player_fire_timer.elapsed_us, DT);
    assert_eq!(game.enemy_fire_timer.elapsed_us, DT);
    assert_eq!(game.state, GameState::Running);
}

#[test]
fn the_player_fires_on_the_seventh_tick() {
    let mut rng = StdRng::seed_from_u64(3);
    let mut game = running();
    let input = InputState { player_direction: Direction::Still, player_fire: true };
    for _ in 0..6 {
        assert!(!game.tick(input, DT, &mut rng).player_fired);
    }
    assert!(game.tick(input, DT, &mut rng).player_fired);
    let b = game.registry.get(156);
    assert_eq!(b.role, Role::Bullet { owner: Owner::Player });
    assert_eq!(b.transform.translation, Vec2 { x: 0, y: -235 * UNIT + 12_500_000 });
    assert_eq!(b.collider.center, b.transform.translation);
}

#[test]
fn the_formation_fires_on_the_sixteenth_tick() {
    let mut rng = StdRng::seed_from_u64(3);
    let mut game = running();
    for _ in 0..15 {
        assert_eq!(game.tick(idle(), DT, &mut rng).enemy_shooter, None);
    }
    let report = game.tick(idle(), DT, &mut rng);
    let k = report.enemy_shooter.unwrap();
    assert!(k >= 1 && k <= 150 && (k - 1) % 15 == 0);
    let b = game.registry.get(156);
    assert_eq!(b.role, Role::Bullet { owner: Owner::Enemy });
    assert_eq!(b.transform.translation.x, game.registry.get(k).transform.translation.x);
    assert_eq!(b.transform.translation.y, 85 * UNIT - 7_812_500);
}

#[test]
fn the_formation_stays_between_the_walls_and_comes_down() {
    let mut rng = StdRng::seed_from_u64(9);
    let mut game = running();
    let mut drops = 0;
    let mut direction = game.enemy_direction;
    for _ in 0..2000 {
        assert!(game.within_limits());
        game.tick(idle(), DT, &mut rng);
        if game.state != GameState::Running {
            break;
        }
        if game.enemy_direction != direction {
            drops += 1;
            direction = game.enemy_direction;
        }
        for i in 0..game.registry.len() {
            let e = game.registry.get(i);
            if e.is_enemy() {
                let x = e.transform.translation.x;
                assert!(LEFT_WALL <= x && x <= RIGHT_WALL);
            }
        }
    }
    assert!(drops >= 2);
}

#[test]
fn a_kill_reaches_the_score_at_once_and_the_index_on_the_next_tick() {
    let mut rng = StdRng::seed_from_u64(3);
    let mut game = running();
    let front_enemy = 1 + 5 * 15;
    assert_eq!(
        game.registry.get(front_enemy).role,
        Role::Enemy { kind: Enemy::Normal, position: Position { row: 0, col: 5 } }
    );
    let x = game.registry.get(front_enemy).transform.translation.x / UNIT;
    spawn(&mut game, x, 100 - 13 - 12, 3, Role::Bullet { owner: Owner::Player });
    let report = game.tick(idle(), DT, &mut rng);
    assert!(!report.game_over);
    assert_eq!(game.score, 10);
    assert_eq!(
        game.kills,
        vec![EnemyKilled { position: Position { row: 0, col: 5 }, enemy: Enemy::Normal }]
    );
    assert_eq!(game.registry.len(), 155);
    assert_eq!(game.front_enemies.get(5), Some(0));
    game.tick(idle(), DT, &mut rng);
    assert_eq!(game.front_enemies.get(5), Some(1));
    assert!(game.kills.is_empty());
    assert_eq!(game.score, 10);
    for col in [0, 4, 6, 9] {
        assert_eq!(game.front_enemies.get(col), Some(0));
    }
}

#[test]
fn the_last_hit_point_ends_the_game_on_the_same_tick() {
    let mut rng = StdRng::seed_from_u64(3);
    let mut game = running();
    game.hp = 1;
    game.score = 30;
    spawn(&mut game, 0, -250 + 20, 3, Role::Bullet { owner: Owner::Enemy });
    let report = game.tick(idle(), DT, &mut rng);
    assert!(report.game_over);
    assert_eq!(game.hp, 0);
    assert_eq!(game.state, GameState::GameOver);
    assert_eq!(game.registry.len(), 0);
    assert_eq!(game.score, 30);
    let report = game.tick(idle(), DT, &mut rng);
    assert_eq!(report, TickReport { player_fired: false, enemy_shooter: None, game_over: false });
    assert_eq!(game.state, GameState::GameOver);
}

#[test]
fn a_hit_with_hit_points_to_spare_goes_on() {
    let mut rng = StdRng::seed_from_u64(3);
    let mut game = running();
    spawn(&mut game, 0, -250 + 20, 3, Role::Bullet { owner: Owner::Enemy });
    let report = game.tick(idle(), DT, &mut rng);
    assert!(!report.game_over);
    assert_eq!(game.hp, 4);
    assert_eq!(game.state, GameState::Running);
    assert_eq!(game.registry.len(), 156);
}

#[test]
fn retry_starts_afresh() {
    let mut rng = StdRng::seed_from_u64(3);
    let mut game = running();
    game.hp = 1;
    game.score = 30;
    game.enemy_direction = Direction::Left;
    spawn(&mut game, 0, -250 + 20, 3, Role::Bullet { owner: Owner::Enemy });
    game.tick(idle(), DT, &mut rng);
    assert_eq!(game.state, GameState::GameOver);
    assert!(!game.handle(Intent::Start));
    assert_eq!(game.state, GameState::GameOver);
    assert!(!game.handle(Intent::Retry));
    assert_eq!(game.state, GameState::Running);
    assert_eq!((game.score, game.hp), (0, 5));
    assert_eq!(game.registry.len(), 156);
    assert_eq!(game.registry.next_id(), 156);
    assert_eq!(game.enemy_direction, Direction::Right);
    assert_eq!(game.player_fire_timer.elapsed_us, 0);
    assert_eq!(game.enemy_fire_timer.elapsed_us, 0);
    assert_eq!(game.front_enemies.0.len(), 10);
    assert!(game.kills.is_empty());
}

#[test]
fn exit_after_the_game_is_over_ends_the_program() {
    let mut rng = StdRng::seed_from_u64(3);
    let mut game = running();
    game.hp = 1;
    spawn(&mut game, 0, -250 + 20, 3, Role::Bullet { owner: Owner::Enemy });
    game.tick(idle(), DT, &mut rng);
    assert!(game.handle(Intent::Exit));
    assert_eq!(game.state, GameState::GameOver);
}

#[test]
fn the_parts_of_a_tick_one_by_one() {
    let mut game = running();
    let input = InputState { player_direction: Direction::Left, player_fire: true };
    assert!(game.begin_tick(input, 100_000));
    assert_eq!(game.registry.len(), 157);
    assert_eq!(game.registry.get(0).transform.translation.x, -50 * UNIT);
    assert_eq!(game.registry.get(156).transform.translation, Vec2 { x: -50 * UNIT, y: -235 * UNIT });
    assert_eq!(game.registry.get(1).transform.translation.x, -238 * UNIT);
    shoot_from(&mut game.registry, 1, Owner::Enemy);
    assert!(!game.finish_tick(100_000));
    assert_eq!(game.registry.len(), 158);
    assert_eq!(game.registry.get(156).transform.translation.y, -155 * UNIT);
    assert_eq!(game.registry.get(157).transform.translation, Vec2 { x: -238 * UNIT, y: 35 * UNIT });
    assert_eq!(game.registry.get(157).collider.center, Vec2 { x: -238 * UNIT, y: 35 * UNIT });
}

#[test]
fn limits_are_told() {
    let mut game = running();
    assert!(game.within_limits());
    game.score = u32::MAX - 1580;
    assert!(game.within_limits());
    game.score = u32::MAX - 1579;
    assert!(!game.within_limits());
    game.score = 0;
    game.registry.spawn(
        Transform { translation: Vec2::new(0, i64::MIN + 34 * UNIT), scale: Vec2::new(1, 1) },
        Vec2::new(1, 1),
        Role::Enemy { kind: Enemy::Normal, position: Position { row: 20, col: 0 } },
    );
    assert!(!game.within_limits());
    game.registry.destroy(156);
    assert!(game.within_limits());
    game.registry.spawn(
        Transform { translation: Vec2::new(0, 0), scale: Vec2::new(1, 1) },
        Vec2::new(1, 1),
        Role::Shield { hits: u32::MAX },
    );
    assert!(!game.within_limits());
}

#[test]
fn a_shield_is_gone_with_its_fifth_hit() {
    let mut rng = StdRng::seed_from_u64(3);
    let mut game = running();
    let shield = 151;
    assert_eq!(game.registry.get(shield).role, Role::Shield { hits: 0 });
    let id = game.registry.get(shield).id;
    for hit in 1..=5u32 {
        spawn(&mut game, -250, -75 - 10, 3, Role::Bullet { owner: Owner::Player });
        game.tick(idle(), DT, &mut rng);
        match game.registry.find(id) {
            Some(i) => {
                assert!(hit < 5);
                assert_eq!(game.registry.get(i).role, Role::Shield { hits: hit });
                assert!(game.registry.get(i).alive);
            }
            None => assert_eq!(hit, 5),
        }
    }
    assert_eq!(game.registry.find(id), None);
    assert_eq!(game.score, 0);
    assert_eq!(game.hp, 5);
}

fn lowest_row(game: &Game, col: usize) -> Option<usize> {
    (0..game.registry.len())
        .map(|i| game.registry.get(i))
        .filter_map(|e| match e.role {
            Role::Enemy { position, .. } if e.alive && position.col == col => Some(position.row),
            _ => None,
        })
        .min()
}

#[test]
fn a_whole_game_keeps_its_books() {
    let mut rng = StdRng::seed_from_u64(2024);
    let mut game = running();
    let mut ticks = 0;
    let mut fired = 0;
    let mut hp = game.hp;
    let mut score = game.score;
    while game.state == GameState::Running && ticks < 20_000 {
        assert!(game.within_limits());
        let input = InputState {
            player_direction: match (ticks / 200) % 3 {
                0 => Direction::Left,
                1 => Direction::Right,
                _ => Direction::Still,
            },
            player_fire: true,
        };
        let killed_before: Vec<usize> = game.kills.iter().map(|k| k.position.col).collect();
        let report = game.tick(input, DT, &mut rng);
        ticks += 1;
        if report.player_fired {
            fired += 1;
        }
        assert!(game.hp <= hp);
        assert_eq!(game.score, score + 10 * game.kills.len() as u32);
        hp = game.hp;
        score = game.score;
        assert_eq!(report.game_over, game.hp == 0);
        if report.game_over {
            assert_eq!(game.state, GameState::GameOver);
            assert_eq!(game.registry.len(), 0);
            break;
        }
        let enemies = (0..game.registry.len()).filter(|&i| game.registry.get(i).is_enemy()).count();
        assert_eq!(game.score as usize, 10 * (150 - enemies));
        for i in 0..game.registry.len() {
            let e = game.registry.get(i);
            assert!(e.alive);
            assert_eq!(e.collider.center, e.transform.translation);
            if let Role::Shield { hits } = e.role {
                assert!(hits < 5);
            }
            if e.is_enemy() {
                let x = e.transform.translation.x;
                assert!(LEFT_WALL <= x && x <= RIGHT_WALL);
            }
        }
        for col in 0..10 {
            let killed_now = game.kills.iter().any(|k| k.position.col == col);
            if !killed_now {
                assert_eq!(game.front_enemies.get(col), lowest_row(&game, col));
            }
        }
        for col in killed_before {
            if !game.kills.iter().any(|k| k.position.col == col) {
                assert_eq!(game.front_enemies.get(col), lowest_row(&game, col));
            }
        }
    }
    assert!(ticks > 100);
    assert!(fired > 10);
    assert!(score > 0);
}
