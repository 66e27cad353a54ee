use invaders::entity::{Enemy, Entity, Kind, Owner, Position, Role, Transform};
use invaders::geometry::{Aabb, Vec2};
use invaders::registry::Registry;

fn at(x: i64, y: i64) -> Transform {
    Transform { translation: Vec2::new(x, y), scale: Vec2::new(2, 2) }
}

#[test]
fn new_registry_is_empty() {
    let r = Registry::new();
    assert_eq!(r.len(), 0);
    assert_eq!(r.next_id(), 0);
    assert_eq!(r.player(), None);
    assert_eq!(r.find(0), None);
}

#[test]
fn spawn_gives_ascending_identifiers_and_keeps_order() {
    let mut r = Registry::new();
    let a = r.spawn(at(1, 2), Vec2::new(1, 1), Role::Player);
    let b = r.spawn(at(3, 4), Vec2::new(5, 6), Role::Shield { hits: 0 });
    assert_eq!((a, b), (0, 1));
    assert_eq!(r.len(), 2);
    assert_eq!(r.next_id(), 2);
    assert_eq!(
        r.get(1),
        Entity {
            id: 1,
            transform: at(3, 4),
            collider: Aabb { center: Vec2 { x: 3, y: 4 }, half: Vec2 { x: 5, y: 6 } },
            role: Role::Shield { hits: 0 },
            alive: true,
        }
    );
}

#[test]
fn destroy_marks_and_sweep_removes() {
    let mut r = Registry::new();
    r.spawn(at(0, 0), Vec2::new(1, 1), Role::Bullet { owner: Owner::Player });
    r.spawn(at(1, 0), Vec2::new(1, 1), Role::Player);
    r.spawn(at(2, 0), Vec2::new(1, 1), Role::Bullet { owner: Owner::Enemy });
    r.destroy(0);
    assert_eq!(r.len(), 3);
    assert!(!r.get(0).alive);
    assert!(r.get(1).alive);
    r.sweep();
    assert_eq!(r.len(), 2);
    assert_eq!(r.get(0).id, 1);
    assert_eq!(r.get(1).id, 2);
    assert_eq!(r.next_id(), 3);
    let next = r.spawn(at(9, 9), Vec2::new(1, 1), Role::Player);
    assert_eq!(next, 3);
}

#[test]
fn sweep_of_all_and_of_none() {
    let mut r = Registry::new();
    r.spawn(at(0, 0), Vec2::new(1, 1), Role::Player);
    r.spawn(at(1, 0), Vec2::new(1, 1), Role::Player);
    r.sweep();
    assert_eq!(r.len(), 2);
    r.destroy(0);
    r.destroy(1);
    r.sweep();
    assert_eq!(r.len(), 0);
}

#[test]
fn player_is_the_first_live_player() {
    let mut r = Registry::new();
    r.spawn(at(0, 0), Vec2::new(1, 1), Role::Shield { hits: 0 });
    r.spawn(at(1, 0), Vec2::new(1, 1), Role::Player);
    r.spawn(at(2, 0), Vec2::new(1, 1), Role::Player);
    assert_eq!(r.player(), Some(1));
    r.destroy(1);
    assert_eq!(r.player(), Some(2));
    r.destroy(2);
    assert_eq!(r.player(), None);
}

#[test]
fn find_by_identifier() {
    let mut r = Registry::new();
    r.spawn(at(0, 0), Vec2::new(1, 1), Role::Player);
    r.spawn(
        at(1, 0),
        Vec2::new(1, 1),
        Role::Enemy { kind: Enemy::Normal, position: Position { row: 0, col: 0 } },
    );
    r.spawn(at(2, 0), Vec2::new(1, 1), Role::Shield { hits: 1 });
    r.destroy(0);
    r.sweep();
    assert_eq!(r.find(0), None);
    assert_eq!(r.find(1), Some(0));
    assert_eq!(r.find(2), Some(1));
    assert_eq!(r.find(3), None);
}

#[test]
fn put_replaces_an_entity() {
    let mut r = Registry::new();
    r.spawn(at(0, 0), Vec2::new(1, 1), Role::Shield { hits: 0 });
    let mut e = r.get(0);
    e.role = Role::Shield { hits: 3 };
    r.put(0, e);
    assert_eq!(r.get(0).role, Role::Shield { hits: 3 });
    assert_eq!(r.len(), 1);
}

#[test]
fn clear_removes_everything() {
    let mut r = Registry::new();
    r.spawn(at(0, 0), Vec2::new(1, 1), Role::Player);
    r.clear();
    assert_eq!(r.len(), 0);
    assert_eq!(r.next_id(), 1);
}

#[test]
fn entity_predicates_ask_for_a_live_entity() {
    let mut r = Registry::new();
    r.spawn(at(0, 0), Vec2::new(1, 1), Role::Bullet { owner: Owner::Enemy });
    let e = r.get(0);
    assert!(e.is_bullet());
    assert!(e.is_bullet_of(Owner::Enemy));
    assert!(!e.is_bullet_of(Owner::Player));
    assert!(!e.is_player() && !e.is_enemy() && !e.is_shield());
    let d = e.destroyed();
    assert!(!d.is_bullet());
    assert!(!d.is_bullet_of(Owner::Enemy));
    assert_eq!(d.id, e.id);
    assert_eq!(Enemy::Normal.points(), 10);
}

#[test]
fn entities_by_kind() {
    let mut r = Registry::new();
    r.spawn(at(0, 0), Vec2::new(1, 1), Role::Bullet { owner: Owner::Player });
    r.spawn(at(0, 0), Vec2::new(1, 1), Role::Player);
    r.spawn(at(0, 0), Vec2::new(1, 1), Role::Bullet { owner: Owner::Enemy });
    r.spawn(
        at(0, 0),
        Vec2::new(1, 1),
        Role::Enemy { kind: Enemy::Normal, position: Position { row: 1, col: 2 } },
    );
    r.spawn(at(0, 0), Vec2::new(1, 1), Role::Bullet { owner: Owner::Player });
    r.spawn(at(0, 0), Vec2::new(1, 1), Role::Shield { hits: 2 });
    assert_eq!(r.of_kind(Kind::Bullet(Owner::Player)), vec![0, 4]);
    assert_eq!(r.of_kind(Kind::Bullet(Owner::Enemy)), vec![2]);
    assert_eq!(r.of_kind(Kind::Player), vec![1]);
    assert_eq!(r.of_kind(Kind::Enemy), vec![3]);
    assert_eq!(r.of_kind(Kind::Shield), vec![5]);
    r.destroy(0);
    r.destroy(5);
    assert_eq!(r.of_kind(Kind::Bullet(Owner::Player)), vec![4]);
    assert_eq!(r.of_kind(Kind::Shield), Vec::<usize>::new());
    assert!(r.get(4).is_of_kind(Kind::Bullet(Owner::Player)));
    assert!(!r.get(4).is_of_kind(Kind::Bullet(Owner::Enemy)));
    assert!(!r.get(0).is_of_kind(Kind::Bullet(Owner::Player)));
    assert!(r.get(3).is_of_kind(Kind::Enemy));
    assert!(r.get(1).is_of_kind(Kind::Player));
    assert!(!r.get(5).is_of_kind(Kind::Shield));
}
