//! What a simulated entity is made of.

use crate::geometry::{Aabb, Vec2};
use vstd::prelude::*;

verus! {

/// The kinds of enemy.
#[derive(Clone, Copy, Debug, PartialEq, Eq, Structural)]
pub enum Enemy {
    Normal,
}

impl Enemy {
    /// What a kill of such an enemy adds to the score.
    pub open spec fn spec_points(self) -> u32 {
        match self {
            Enemy::Normal => 10,
        }
    }

    #[verifier::when_used_as_spec(spec_points)]
    pub fn points(self) -> (p: u32)
        ensures
            p == self.spec_points(),
    {
        match self {
            Enemy::Normal => 10,
        }
    }
}

/// The place of an enemy in the formation. Row 0 is the row nearest to the
/// player.
#[derive(Clone, Copy, Debug, PartialEq, Eq, Structural)]
pub struct Position {
    pub row: usize,
    pub col: usize,
}

/// Who fired a bullet.
#[derive(Clone, Copy, Debug, PartialEq, Eq, Structural)]
pub enum Owner {
    Player,
    Enemy,
}

/// What an entity is. The role decides which rules move it and what it may
/// collide with.
#[derive(Clone, Copy, Debug, PartialEq, Eq, Structural)]
pub enum Role {
    Player,
    Enemy { kind: Enemy, position: Position },
    Bullet { owner: Owner },
    Shield { hits: u32 },
}

/// The kinds of entity that the rules tell apart.
#[derive(Clone, Copy, Debug, PartialEq, Eq, Structural)]
pub enum Kind {
    Player,
    Enemy,
    Bullet(Owner),
    Shield,
}

/// Where an entity is and how large it is drawn.
#[derive(Clone, Copy, Debug, PartialEq, Eq, Structural)]
pub struct Transform {
    pub translation: Vec2,
    pub scale: Vec2,
}

/// One simulated entity. `alive` turns false when the entity is destroyed;
/// the registry removes such entities at the end of the tick.
#[derive(Clone, Copy, Debug, PartialEq, Eq, Structural)]
pub struct Entity {
    pub id: u64,
    pub transform: Transform,
    pub collider: Aabb,
    pub role: Role,
    pub alive: bool,
}

impl Entity {
    pub open spec fn spec_is_player(self) -> bool {
        self.alive && self.role is Player
    }

    pub open spec fn spec_is_enemy(self) -> bool {
        self.alive && self.role is Enemy
    }

    pub open spec fn spec_is_bullet(self) -> bool {
        self.alive && self.role is Bullet
    }

    pub open spec fn spec_is_bullet_of(self, owner: Owner) -> bool {
        self.alive && self.role == (Role::Bullet { owner })
    }

    pub open spec fn spec_is_shield(self) -> bool {
        self.alive && self.role is Shield
    }

    /// Whether this is a live entity of the given kind.
    pub open spec fn is_a(self, kind: Kind) -> bool {
        match kind {
            Kind::Player => self.is_player(),
            Kind::Enemy => self.is_enemy(),
            Kind::Bullet(owner) => self.is_bullet_of(owner),
            Kind::Shield => self.is_shield(),
        }
    }

    /// A live entity of the given kind.
    pub fn is_of_kind(self, kind: Kind) -> (b: bool)
        ensures
            b == self.is_a(kind),
    {
        match kind {
            Kind::Player => self.is_player(),
            Kind::Enemy => self.is_enemy(),
            Kind::Bullet(owner) => self.is_bullet_of(owner),
            Kind::Shield => self.is_shield(),
        }
    }

    /// A live player.
    #[verifier::when_used_as_spec(spec_is_player)]
    pub fn is_player(self) -> (b: bool)
        ensures
            b == self.spec_is_player(),
    {
        self.alive && matches!(self.role, Role::Player)
    }

    /// A live enemy.
    #[verifier::when_used_as_spec(spec_is_enemy)]
    pub fn is_enemy(self) -> (b: bool)
        ensures
            b == self.spec_is_enemy(),
    {
        self.alive && matches!(self.role, Role::Enemy { .. })
    }

    /// A live bullet, whoever fired it.
    #[verifier::when_used_as_spec(spec_is_bullet)]
    pub fn is_bullet(self) -> (b: bool)
        ensures
            b == self.spec_is_bullet(),
    {
        self.alive && matches!(self.role, Role::Bullet { .. })
    }

    /// A live bullet that `owner` fired.
    #[verifier::when_used_as_spec(spec_is_bullet_of)]
    pub fn is_bullet_of(self, owner: Owner) -> (b: bool)
        ensures
            b == self.spec_is_bullet_of(owner),
    {
        self.alive && match self.role {
            Role::Bullet { owner: o } => o == owner,
            _ => false,
        }
    }

    /// A live shield.
    #[verifier::when_used_as_spec(spec_is_shield)]
    pub fn is_shield(self) -> (b: bool)
        ensures
            b == self.spec_is_shield(),
    {
        self.alive && matches!(self.role, Role::Shield { .. })
    }

    /// The same entity, destroyed.
    pub open spec fn spec_destroyed(self) -> Entity {
        Entity { alive: false, ..self }
    }

    #[verifier::when_used_as_spec(spec_destroyed)]
    pub fn destroyed(self) -> (e: Entity)
        ensures
            e == self.spec_destroyed(),
    {
        Entity { alive: false, ..self }
    }
}

} // verus!
