use invaders::combat::{enemy_bullet_collision, player_bullet_collision, shield_bullet_collision};
use invaders::config::UNIT;
use invaders::entity::{Enemy, Owner, Position, Role, Transform};
use invaders::events::EnemyKilled;
use invaders::geometry::Vec2;
use invaders::ledger::update_score;
use invaders::registry::Registry;

fn spawn(r: &mut Registry, x: i64, y: i64, half: i64, role: Role) -> usize {
    r.spawn(
        Transform {
            translation: Vec2::new(x * UNIT, y * UNIT),
            scale: Vec2::new(2 * half * UNIT, 2 * half * UNIT),
        },
        Vec2::new(half * UNIT, half * UNIT),
        role,
    );
    r.len() - 1
}

fn enemy(row: usize, col: usize) -> Role {
    Role::Enemy { kind: Enemy::Normal, position: Position { row, col } }
}

fn bullet(owner: Owner) -> Role {
    Role::Bullet { owner }
}

#[test]
fn bullet_that_touches_an_enemy_kills_it() {
    let mut r = Registry::new();
    let e = spawn(&mut r, 0, 100, 10, enemy(2, 3));
    let b = spawn(&mut r, 0, 85, 5, bullet(Owner::Player));
    let mut kills = Vec::new();
    enemy_bullet_collision(&mut r, &mut kills);
    assert!(!r.get(e).alive);
    assert!(!r.get(b).alive);
    assert_eq!(
        kills,
        vec![EnemyKilled { position: Position { row: 2, col: 3 }, enemy: Enemy::Normal }]
    );
    let mut score: u32 = 40;
    update_score(&kills, &mut score);
    assert_eq!(score, 50);
}

#[test]
fn bullet_with_a_gap_to_the_enemy_passes() {
    let mut r = Registry::new();
    let e = spawn(&mut r, 0, 100, 10, enemy(0, 0));
    r.spawn(
        Transform {
            translation: Vec2::new(0, 85 * UNIT - 1),
            scale: Vec2::new(10 * UNIT, 10 * UNIT),
        },
        Vec2::new(5 * UNIT, 5 * UNIT),
        bullet(Owner::Player),
    );
    let mut kills = Vec::new();
    enemy_bullet_collision(&mut r, &mut kills);
    assert!(r.get(e).alive);
    assert!(r.get(1).alive);
    assert!(kills.is_empty());
}

#[test]
fn bullet_kills_only_the_first_enemy_it_overlaps() {
    let mut r = Registry::new();
    let first = spawn(&mut r, 0, 100, 10, enemy(0, 0));
    let second = spawn(&mut r, 5, 100, 10, enemy(0, 1));
    let b = spawn(&mut r, 2, 100, 3, bullet(Owner::Player));
    let mut kills = Vec::new();
    enemy_bullet_collision(&mut r, &mut kills);
    assert!(!r.get(first).alive);
    assert!(r.get(second).alive);
    assert!(!r.get(b).alive);
    assert_eq!(kills.len(), 1);
    assert_eq!(kills[0].position, Position { row: 0, col: 0 });
}

#[test]
fn two_bullets_on_one_enemy_make_one_kill() {
    let mut r = Registry::new();
    let e = spawn(&mut r, 0, 100, 10, enemy(0, 0));
    let b1 = spawn(&mut r, 0, 100, 3, bullet(Owner::Player));
    let b2 = spawn(&mut r, 1, 100, 3, bullet(Owner::Player));
    let mut kills = Vec::new();
    enemy_bullet_collision(&mut r, &mut kills);
    assert!(!r.get(e).alive);
    assert!(!r.get(b1).alive);
    assert!(r.get(b2).alive);
    assert_eq!(kills.len(), 1);
}

#[test]
fn second_bullet_goes_on_to_the_next_enemy() {
    let mut r = Registry::new();
    let b1 = spawn(&mut r, 2, 100, 3, bullet(Owner::Player));
    let b2 = spawn(&mut r, 3, 100, 3, bullet(Owner::Player));
    let first = spawn(&mut r, 0, 100, 10, enemy(4, 0));
    let second = spawn(&mut r, 5, 100, 10, enemy(4, 1));
    let mut kills = vec![EnemyKilled { position: Position { row: 9, col: 9 }, enemy: Enemy::Normal }];
    enemy_bullet_collision(&mut r, &mut kills);
    assert!(!r.get(first).alive && !r.get(second).alive);
    assert!(!r.get(b1).alive && !r.get(b2).alive);
    assert_eq!(
        kills,
        vec![
            EnemyKilled { position: Position { row: 9, col: 9 }, enemy: Enemy::Normal },
            EnemyKilled { position: Position { row: 4, col: 0 }, enemy: Enemy::Normal },
            EnemyKilled { position: Position { row: 4, col: 1 }, enemy: Enemy::Normal },
        ]
    );
}

#[test]
fn bullets_of_the_enemies_do_not_kill_enemies() {
    let mut r = Registry::new();
    let e = spawn(&mut r, 0, 100, 10, enemy(0, 0));
    let b = spawn(&mut r, 0, 100, 3, bullet(Owner::Enemy));
    let mut kills = Vec::new();
    enemy_bullet_collision(&mut r, &mut kills);
    assert!(r.get(e).alive && r.get(b).alive);
    assert!(kills.is_empty());
}

#[test]
fn shield_absorbs_bullets_of_both_owners() {
    let mut r = Registry::new();
    let s = spawn(&mut r, 0, -75, 10, Role::Shield { hits: 0 });
    let b1 = spawn(&mut r, 0, -75, 3, bullet(Owner::Player));
    let b2 = spawn(&mut r, 5, -70, 3, bullet(Owner::Enemy));
    let b3 = spawn(&mut r, 50, -70, 3, bullet(Owner::Enemy));
    shield_bullet_collision(&mut r);
    assert_eq!(r.get(s).role, Role::Shield { hits: 2 });
    assert!(r.get(s).alive);
    assert!(!r.get(b1).alive && !r.get(b2).alive);
    assert!(r.get(b3).alive);
}

#[test]
fn shield_with_four_hits_is_destroyed_by_the_fifth() {
    let mut r = Registry::new();
    let s = spawn(&mut r, 0, -75, 10, Role::Shield { hits: 4 });
    let b = spawn(&mut r, 0, -75, 3, bullet(Owner::Player));
    let e = spawn(&mut r, 0, -75, 10, enemy(0, 0));
    let p = spawn(&mut r, 0, -75, 10, Role::Player);
    shield_bullet_collision(&mut r);
    assert_eq!(r.get(s).role, Role::Shield { hits: 5 });
    assert!(!r.get(s).alive);
    assert!(!r.get(b).alive);
    let mut kills = Vec::new();
    let mut hp: u8 = 5;
    enemy_bullet_collision(&mut r, &mut kills);
    player_bullet_collision(&mut r, &mut hp);
    assert!(r.get(e).alive && r.get(p).alive);
    assert!(kills.is_empty());
    assert_eq!(hp, 5);
}

#[test]
fn destroyed_shield_absorbs_nothing_more() {
    let mut r = Registry::new();
    let s = spawn(&mut r, 0, -75, 10, Role::Shield { hits: 4 });
    let b1 = spawn(&mut r, 0, -75, 3, bullet(Owner::Enemy));
    let b2 = spawn(&mut r, 1, -75, 3, bullet(Owner::Enemy));
    shield_bullet_collision(&mut r);
    assert!(!r.get(s).alive);
    assert_eq!(r.get(s).role, Role::Shield { hits: 5 });
    assert!(!r.get(b1).alive);
    assert!(r.get(b2).alive);
}

#[test]
fn bullet_is_absorbed_by_the_first_shield_it_overlaps() {
    let mut r = Registry::new();
    let s1 = spawn(&mut r, 0, 0, 10, Role::Shield { hits: 1 });
    let s2 = spawn(&mut r, 5, 0, 10, Role::Shield { hits: 1 });
    spawn(&mut r, 3, 0, 3, bullet(Owner::Player));
    shield_bullet_collision(&mut r);
    assert_eq!(r.get(s1).role, Role::Shield { hits: 2 });
    assert_eq!(r.get(s2).role, Role::Shield { hits: 1 });
}

#[test]
fn bullet_of_an_enemy_takes_one_hit_point() {
    let mut r = Registry::new();
    let p = spawn(&mut r, 0, -250, 15, Role::Player);
    let b = spawn(&mut r, 0, -232, 3, bullet(Owner::Enemy));
    let far = spawn(&mut r, 100, -232, 3, bullet(Owner::Enemy));
    let own = spawn(&mut r, 0, -250, 3, bullet(Owner::Player));
    let mut hp: u8 = 5;
    player_bullet_collision(&mut r, &mut hp);
    assert_eq!(hp, 4);
    assert!(r.get(p).alive);
    assert!(!r.get(b).alive);
    assert!(r.get(far).alive);
    assert!(r.get(own).alive);
}

#[test]
fn each_bullet_that_hits_the_player_takes_one_hit_point() {
    let mut r = Registry::new();
    spawn(&mut r, 0, -250, 15, Role::Player);
    spawn(&mut r, 0, -250, 3, bullet(Owner::Enemy));
    spawn(&mut r, 1, -250, 3, bullet(Owner::Enemy));
    spawn(&mut r, 2, -250, 3, bullet(Owner::Enemy));
    let mut hp: u8 = 5;
    player_bullet_collision(&mut r, &mut hp);
    assert_eq!(hp, 2);
    assert!(!r.get(1).alive && !r.get(2).alive && !r.get(3).alive);
}

#[test]
fn no_bullet_is_resolved_once_the_player_is_beaten() {
    let mut r = Registry::new();
    spawn(&mut r, 0, -250, 15, Role::Player);
    spawn(&mut r, 0, -250, 3, bullet(Owner::Enemy));
    spawn(&mut r, 1, -250, 3, bullet(Owner::Enemy));
    let mut hp: u8 = 1;
    player_bullet_collision(&mut r, &mut hp);
    assert_eq!(hp, 0);
    assert!(!r.get(1).alive);
    assert!(r.get(2).alive);
    player_bullet_collision(&mut r, &mut hp);
    assert_eq!(hp, 0);
    assert!(r.get(2).alive);
}

#[test]
fn without_a_player_no_bullet_is_resolved() {
    let mut r = Registry::new();
    spawn(&mut r, 0, -250, 3, bullet(Owner::Enemy));
    let mut hp: u8 = 3;
    player_bullet_collision(&mut r, &mut hp);
    assert_eq!(hp, 3);
    assert!(r.get(0).alive);
}
