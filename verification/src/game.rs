//! The whole game: its state, and what one tick does to it.
//!
//! A tick of the running game goes through these steps in order: the player
//! moves and may fire, the formation moves and may fire, the bullets move,
//! the colliders follow, the front-row index takes in the kills of the tick
//! before, bullets are resolved against shields, enemies and the player, the
//! score takes in the kills of this tick, and the game is over if no hit
//! point is left. Outside the running game a tick does nothing.

use crate::combat::{
    after_enemy_collisions, after_player_collisions, after_shield_collisions,
    enemy_bullet_collision, hp_after_player_collisions, kills_of_tick,
    lemma_enemies_resolved_shape, lemma_shields_resolved_shape, player_bullet_collision,
    shield_bullet_collision, shields_can_count,
};
use crate::config::{
    ENEMY_DROP, ENEMY_FIRE_PERIOD, MUZZLE_OFFSET, PLAYER_FIRE_PERIOD, STARTING_HP,
};
use crate::entity::{Entity, Owner, Role};
use crate::events::EnemyKilled;
use crate::firing::{
    after_player_fire, bullet_from, can_shoot, enemy_fire, formation_can_fire, no_front_enemy,
    player_fire, player_fires,
};
use crate::formation::{front_after_kills, is_front, update_front_enemies, FrontEnemies};
use crate::input::{Direction, InputState};
use crate::invariants::{
    in_order, lemma_intent_keeps_order, lemma_menu_is_in_order, lemma_tick_keeps_order,
};
use crate::ledger::{lemma_total_points, total_points, update_score};
use crate::movement::{
    after_bullet_movement, after_enemy_movement, after_player_movement, after_update_collider,
    bullet_movement, direction_after_enemy_movement, enemy_movement, formation_can_drop,
    lemma_player_movement_frame, player_movement, update_collider,
};
use crate::registry::{first_player, lemma_first_player_is_player, live_only, Registry};
use crate::setup::{front_setup, game_setup, starting_count, starting_entities, starting_front};
use crate::state::{GameState, Intent, Step};
use crate::timer::FireTimer;
use rand::rngs::StdRng;
use vstd::prelude::*;

verus! {

/// The whole state of a game: its entities and the books that are kept of
/// them.
pub struct Game {
    pub state: GameState,
    pub registry: Registry,
    pub front_enemies: FrontEnemies,
    pub enemy_direction: Direction,
    pub score: u32,
    pub hp: u8,
    pub player_fire_timer: FireTimer,
    pub enemy_fire_timer: FireTimer,
    /// The kills of the last tick, which the front-row index has yet to take
    /// in.
    pub kills: Vec<EnemyKilled>,
}

/// The game as a mathematical value.
pub struct GameView {
    pub state: GameState,
    pub entities: Seq<Entity>,
    pub next_id: u64,
    pub front: Map<usize, usize>,
    pub direction: Direction,
    pub score: u32,
    pub hp: u8,
    pub player_timer: FireTimer,
    pub enemy_timer: FireTimer,
    pub kills: Seq<EnemyKilled>,
}

impl View for Game {
    type V = GameView;

    open spec fn view(&self) -> GameView {
        GameView {
            state: self.state,
            entities: self.registry@,
            next_id: self.registry.spec_next_id(),
            front: self.front_enemies@,
            direction: self.enemy_direction,
            score: self.score,
            hp: self.hp,
            player_timer: self.player_fire_timer,
            enemy_timer: self.enemy_fire_timer,
            kills: self.kills@,
        }
    }
}

/// What a tick did that is to be seen or heard.
#[derive(Clone, Copy, Debug, PartialEq, Eq, Structural)]
pub struct TickReport {
    /// The player fired a bullet.
    pub player_fired: bool,
    /// The enemy that fired a bullet, by its index at that moment.
    pub enemy_shooter: Option<usize>,
    /// The game went over on this tick.
    pub game_over: bool,
}

/// The game before anybody has started it.
pub open spec fn in_menu() -> GameView {
    GameView {
        state: GameState::Menu,
        entities: Seq::empty(),
        next_id: 0,
        front: Map::empty(),
        direction: Direction::Right,
        score: 0,
        hp: STARTING_HP,
        player_timer: FireTimer { period_us: PLAYER_FIRE_PERIOD, elapsed_us: 0 },
        enemy_timer: FireTimer { period_us: ENEMY_FIRE_PERIOD, elapsed_us: 0 },
        kills: Seq::empty(),
    }
}

/// The game as it starts to run: nothing is carried over from a game before.
pub open spec fn at_start() -> GameView {
    GameView {
        state: GameState::Running,
        entities: starting_entities(),
        next_id: starting_count() as u64,
        front: starting_front(),
        ..in_menu()
    }
}

/// The game after an intent of the player outside the running game.
pub open spec fn after_intent(v: GameView, intent: Intent) -> GameView {
    match v.state.on_intent(intent) {
        Step::Go(GameState::Running) => at_start(),
        _ => v,
    }
}

/// The first part of a tick: the player moves and may fire, and the
/// formation moves.
pub open spec fn begun(v: GameView, input: InputState, dt_us: u32) -> GameView {
    let moved = after_player_movement(v.entities, input.player_direction, dt_us);
    let fired = player_fires(moved, v.player_timer, input.player_fire, dt_us);
    let shot = after_player_fire(moved, v.next_id, v.player_timer, input.player_fire, dt_us);
    GameView {
        entities: after_enemy_movement(shot, v.direction, dt_us),
        next_id: if fired {
            (v.next_id + 1) as u64
        } else {
            v.next_id
        },
        direction: direction_after_enemy_movement(shot, v.direction, dt_us),
        player_timer: v.player_timer.advanced(dt_us),
        ..v
    }
}

/// The second part of a tick: the formation's timer advances, and the enemy
/// at index `shooter`, if there is one, fires.
pub open spec fn volleyed(v: GameView, dt_us: u32, shooter: Option<usize>) -> GameView {
    let timer = v.enemy_timer.advanced(dt_us);
    match shooter {
        Some(k) => GameView {
            entities: v.entities.push(bullet_from(v.next_id, v.entities[k as int], Owner::Enemy)),
            next_id: (v.next_id + 1) as u64,
            enemy_timer: timer,
            ..v
        },
        None => GameView { enemy_timer: timer, ..v },
    }
}

/// Whether `shooter` is a choice that the formation may make on this tick:
/// nobody unless the timer is ready and somebody stands in front, else one
/// of the front enemies.
pub open spec fn may_fire(v: GameView, dt_us: u32, shooter: Option<usize>) -> bool {
    match shooter {
        Some(k) => v.enemy_timer.ready_after(dt_us) && k < v.entities.len() && is_front(
            v.front,
            v.entities[k as int],
        ),
        None => !v.enemy_timer.ready_after(dt_us) || no_front_enemy(v.entities, v.front),
    }
}

/// The entities when the bullets have moved and the colliders have followed.
pub open spec fn settled(v: GameView, dt_us: u32) -> Seq<Entity> {
    after_update_collider(after_bullet_movement(v.entities, dt_us))
}

/// The entities when the bullets of the tick were resolved against the
/// shields and the enemies.
pub open spec fn fought(v: GameView, dt_us: u32) -> Seq<Entity> {
    after_enemy_collisions(after_shield_collisions(settled(v, dt_us)))
}

/// The kills of the tick.
pub open spec fn kills_in(v: GameView, dt_us: u32) -> Seq<EnemyKilled> {
    kills_of_tick(after_shield_collisions(settled(v, dt_us)))
}

/// The last part of a tick: the bullets move, the colliders follow, the
/// index takes in the kills of the tick before, the bullets are resolved,
/// the score takes in the kills of this tick, and either the running game is
/// over and every entity is gone, or the destroyed entities are taken out.
pub open spec fn finished(v: GameView, dt_us: u32) -> GameView {
    let hp = hp_after_player_collisions(fought(v, dt_us), v.hp);
    let kills = kills_in(v, dt_us);
    GameView {
        state: match v.state.on_hit_points(hp) {
            Step::Go(next) => next,
            _ => v.state,
        },
        entities: match v.state.on_hit_points(hp) {
            Step::Go(_) => Seq::empty(),
            _ => live_only(after_player_collisions(fought(v, dt_us), v.hp)),
        },
        front: front_after_kills(v.front, settled(v, dt_us), v.kills),
        score: (v.score + total_points(kills)) as u32,
        hp,
        kills,
        ..v
    }
}

/// A whole tick of the running game in which the enemy at index `shooter`,
/// if there is one, fires.
pub open spec fn ticked(
    v: GameView,
    input: InputState,
    dt_us: u32,
    shooter: Option<usize>,
) -> GameView {
    finished(volleyed(begun(v, input, dt_us), dt_us, shooter), dt_us)
}

/// The first part of a tick stays within the range of numbers.
pub open spec fn can_begin(v: GameView) -> bool {
    &&& v.next_id < u64::MAX
    &&& forall|i: int|
        0 <= i < v.entities.len() && (#[trigger] v.entities[i]).is_player() ==> can_shoot(
            v.entities[i],
            Owner::Player,
        )
    &&& formation_can_drop(v.entities)
}

/// The second part of a tick stays within the range of numbers.
pub open spec fn can_volley(v: GameView) -> bool {
    &&& v.next_id < u64::MAX
    &&& formation_can_fire(v.entities)
}

/// The last part of a tick stays within the range of numbers.
pub open spec fn can_finish(v: GameView) -> bool {
    &&& shields_can_count(v.entities)
    &&& v.score + 10 * v.entities.len() <= u32::MAX
}

/// What holds of an entity in a game whose next tick stays within the range
/// of numbers.
pub open spec fn entity_within_limits(e: Entity) -> bool {
    &&& e.is_player() ==> e.transform.translation.y + MUZZLE_OFFSET <= i64::MAX
    &&& e.is_enemy() ==> e.transform.translation.y - ENEMY_DROP - MUZZLE_OFFSET >= i64::MIN
    &&& e.is_shield() ==> e.role->hits < u32::MAX
}

/// A whole tick stays within the range of numbers: two more identifiers can
/// be given, the player and the enemies have room to fire and to drop, the
/// shields can count one more hit, and the score can take a kill by every
/// entity.
pub open spec fn within_limits(v: GameView) -> bool {
    &&& v.next_id <= u64::MAX - 2
    &&& v.score + 10 * (v.entities.len() + 2) <= u32::MAX
    &&& forall|i: int| 0 <= i < v.entities.len() ==> entity_within_limits(#[trigger] v.entities[i])
}

/// A game within its limits can begin a tick.
pub proof fn lemma_limits_begin(v: GameView)
    requires
        within_limits(v),
    ensures
        can_begin(v),
{
    assert forall|i: int|
        0 <= i < v.entities.len() && (#[trigger] v.entities[i]).is_enemy() implies
        v.entities[i].transform.translation.y - ENEMY_DROP >= i64::MIN by {
        assert(entity_within_limits(v.entities[i]));
    }
    assert forall|i: int|
        0 <= i < v.entities.len() && (#[trigger] v.entities[i]).is_player() implies
        can_shoot(v.entities[i], Owner::Player) by {
        assert(entity_within_limits(v.entities[i]));
    }
}

/// The entities when the player has moved and had the chance to fire.
pub open spec fn player_done(v: GameView, input: InputState, dt_us: u32) -> Seq<Entity> {
    after_player_fire(
        after_player_movement(v.entities, input.player_direction, dt_us),
        v.next_id,
        v.player_timer,
        input.player_fire,
        dt_us,
    )
}

proof fn lemma_player_done_within_limits(v: GameView, input: InputState, dt_us: u32)
    requires
        within_limits(v),
    ensures
        v.entities.len() <= player_done(v, input, dt_us).len() <= v.entities.len() + 1,
        forall|i: int|
            0 <= i < player_done(v, input, dt_us).len() ==> entity_within_limits(
                #[trigger] player_done(v, input, dt_us)[i],
            ),
{
    let moved = after_player_movement(v.entities, input.player_direction, dt_us);
    let shot = player_done(v, input, dt_us);
    lemma_player_movement_frame(v.entities, input.player_direction, dt_us);
    assert forall|i: int|
        0 <= i < moved.len() implies entity_within_limits(#[trigger] moved[i]) by {
        assert(entity_within_limits(v.entities[i]));
    }
    assert forall|i: int| 0 <= i < shot.len() implies entity_within_limits(#[trigger] shot[i]) by {
        if i < moved.len() {
            assert(shot[i] == moved[i]);
        }
    }
}

/// A game that began a tick within its limits can let the formation fire.
pub proof fn lemma_limits_volley(v: GameView, input: InputState, dt_us: u32)
    requires
        within_limits(v),
    ensures
        can_volley(begun(v, input, dt_us)),
        begun(v, input, dt_us).entities.len() <= v.entities.len() + 1,
        shields_can_count(begun(v, input, dt_us).entities),
{
    lemma_player_done_within_limits(v, input, dt_us);
    let shot = player_done(v, input, dt_us);
    let b = begun(v, input, dt_us);
    assert forall|i: int|
        0 <= i < b.entities.len() && (#[trigger] b.entities[i]).is_enemy() implies
        can_shoot(b.entities[i], Owner::Enemy) by {
        assert(entity_within_limits(shot[i]));
    }
    assert forall|i: int|
        0 <= i < b.entities.len() && (#[trigger] b.entities[i]).is_shield() implies
        b.entities[i].role->hits < u32::MAX by {
        assert(entity_within_limits(shot[i]));
    }
}

/// A game that went through the first two parts of a tick within its limits
/// can finish it.
pub proof fn lemma_limits_finish(
    v: GameView,
    input: InputState,
    dt_us: u32,
    shooter: Option<usize>,
)
    requires
        within_limits(v),
    ensures
        can_finish(volleyed(begun(v, input, dt_us), dt_us, shooter)),
{
    lemma_limits_volley(v, input, dt_us);
    let b = begun(v, input, dt_us);
    let w = volleyed(b, dt_us, shooter);
    assert forall|i: int|
        0 <= i < w.entities.len() && (#[trigger] w.entities[i]).is_shield() implies
        w.entities[i].role->hits < u32::MAX by {
        if i < b.entities.len() {
            assert(w.entities[i] == b.entities[i]);
        }
    }
}

impl Game {
    /// A game in its menu.
    pub fn new() -> (game: Game)
        ensures
            game@ == in_menu(),
            game.registry.wf(),
            in_order(game@),
    {
        proof {
            lemma_menu_is_in_order();
        }
        Game {
            state: GameState::Menu,
            registry: Registry::new(),
            front_enemies: FrontEnemies::new(),
            enemy_direction: Direction::Right,
            score: 0,
            hp: STARTING_HP,
            player_fire_timer: FireTimer::new(PLAYER_FIRE_PERIOD),
            enemy_fire_timer: FireTimer::new(ENEMY_FIRE_PERIOD),
            kills: Vec::new(),
        }
    }

    /// Takes an intent of the player outside the running game. Starting and
    /// trying again set up a new game. Returns whether the program is to
    /// end.
    pub fn handle(&mut self, intent: Intent) -> (quit: bool)
        ensures
            final(self)@ == after_intent(old(self)@, intent),
            quit == (old(self).state.on_intent(intent) == Step::Quit),
            old(self).registry.wf() || old(self).state.on_intent(intent) == Step::Go(
                GameState::Running,
            ) ==> final(self).registry.wf(),
            in_order(old(self)@) ==> in_order(final(self)@),
    {
        proof {
            if in_order(self@) {
                lemma_intent_keeps_order(self@, intent);
            }
        }
        match self.state.on_intent(intent) {
            Step::Go(GameState::Running) => {
                self.state = GameState::Running;
                self.registry = game_setup();
                self.front_enemies = front_setup();
                self.enemy_direction = Direction::Right;
                self.score = 0;
                self.hp = STARTING_HP;
                self.player_fire_timer = FireTimer::new(PLAYER_FIRE_PERIOD);
                self.enemy_fire_timer = FireTimer::new(ENEMY_FIRE_PERIOD);
                self.kills = Vec::new();
                false
            },
            Step::Quit => true,
            _ => false,
        }
    }

    /// Whether the next tick stays within the range of numbers.
    pub fn within_limits(&self) -> (ok: bool)
        ensures
            ok == within_limits(self@),
    {
        let n = self.registry.len();
        if self.registry.next_id() > u64::MAX - 2 || n > 429_496_727 {
            return false;
        }
        if self.score as u64 + 10 * (n as u64 + 2) > u32::MAX as u64 {
            return false;
        }
        let mut i: usize = 0;
        while i < n
            invariant
                i <= n,
                n == self.registry@.len(),
                forall|j: int| 0 <= j < i ==> entity_within_limits(#[trigger] self.registry@[j]),
            decreases n - i,
        {
            let e = self.registry.get(i);
            let y = e.transform.translation.y;
            let ok = if e.is_player() {
                y <= i64::MAX - MUZZLE_OFFSET
            } else if e.is_enemy() {
                y >= i64::MIN + ENEMY_DROP + MUZZLE_OFFSET
            } else if e.is_shield() {
                match e.role {
                    Role::Shield { hits } => hits < u32::MAX,
                    _ => true,
                }
            } else {
                true
            };
            if !ok {
                assert(!entity_within_limits(self.registry@[i as int]));
                return false;
            }
            i += 1;
        }
        true
    }

    /// The first part of a tick of the running game: the player moves and
    /// may fire, and the formation moves. Returns whether the player fired.
    pub fn begin_tick(&mut self, input: InputState, dt_us: u32) -> (player_fired: bool)
        requires
            can_begin(old(self)@),
        ensures
            final(self)@ == begun(old(self)@, input, dt_us),
            player_fired == player_fires(
                after_player_movement(old(self)@.entities, input.player_direction, dt_us),
                old(self)@.player_timer,
                input.player_fire,
                dt_us,
            ),
            old(self).registry.wf() ==> final(self).registry.wf(),
    {
        let ghost v = self@;
        player_movement(&mut self.registry, input.player_direction, dt_us);
        let ghost moved = self.registry@;
        proof {
            lemma_player_movement_frame(v.entities, input.player_direction, dt_us);
            if first_player(moved) is Some {
                lemma_first_player_is_player(v.entities);
            }
        }
        let player_fired = player_fire(
            &mut self.registry,
            &mut self.player_fire_timer,
            input.player_fire,
            dt_us,
        );
        let ghost shot = self.registry@;
        proof {
            assert forall|i: int|
                0 <= i < shot.len() && (#[trigger] shot[i]).is_enemy() implies
                shot[i].transform.translation.y - ENEMY_DROP >= i64::MIN by {
                if i < moved.len() {
                    assert(shot[i] == moved[i]);
                    assert(v.entities[i].is_enemy());
                } else {
                    lemma_first_player_is_player(moved);
                }
            }
        }
        enemy_movement(&mut self.registry, &mut self.enemy_direction, dt_us);
        player_fired
    }

    /// The second part of a tick of the running game: the formation's timer
    /// advances, and if it is ready, one of the front enemies fires. Returns
    /// the index of the enemy that fired.
    pub fn enemy_volley(&mut self, dt_us: u32, rng: &mut StdRng) -> (shooter: Option<usize>)
        requires
            can_volley(old(self)@),
        ensures
            may_fire(old(self)@, dt_us, shooter),
            final(self)@ == volleyed(old(self)@, dt_us, shooter),
            old(self).registry.wf() ==> final(self).registry.wf(),
    {
        enemy_fire(
            &mut self.registry,
            &mut self.enemy_fire_timer,
            &self.front_enemies,
            dt_us,
            rng,
        )
    }

    /// The last part of a tick of the running game: the bullets move, the
    /// colliders follow, the index takes in the kills of the tick before,
    /// the bullets are resolved, the score takes in the kills of this tick,
    /// and either the game is over and every entity is gone, or the
    /// destroyed entities are taken out. Returns whether the game went over.
    pub fn finish_tick(&mut self, dt_us: u32) -> (game_over: bool)
        requires
            can_finish(old(self)@),
        ensures
            final(self)@ == finished(old(self)@, dt_us),
            game_over == (old(self).state == GameState::Running && final(self).hp == 0),
            old(self).registry.wf() ==> final(self).registry.wf(),
    {
        let ghost v = self@;
        bullet_movement(&mut self.registry, dt_us);
        update_collider(&mut self.registry);
        proof {
            let moved = after_bullet_movement(v.entities, dt_us);
            assert forall|i: int|
                0 <= i < self.registry@.len() && (#[trigger] self.registry@[i]).is_shield() implies
                self.registry@[i].role->hits < u32::MAX by {
                assert(moved[i].is_shield());
                assert(v.entities[i].is_shield());
            }
        }
        update_front_enemies(&self.registry, &mut self.front_enemies, &self.kills);
        self.kills = Vec::new();
        shield_bullet_collision(&mut self.registry);
        let ghost shielded = self.registry@;
        assert(self.kills@ + kills_of_tick(shielded) =~= kills_of_tick(shielded));
        enemy_bullet_collision(&mut self.registry, &mut self.kills);
        player_bullet_collision(&mut self.registry, &mut self.hp);
        proof {
            lemma_shields_resolved_shape(settled(v, dt_us), settled(v, dt_us).len());
            lemma_enemies_resolved_shape(shielded, shielded.len());
            lemma_total_points(self.kills@);
        }
        update_score(&self.kills, &mut self.score);
        match self.state.on_hit_points(self.hp) {
            Step::Go(next) => {
                self.state = next;
                self.registry.clear();
                true
            },
            _ => {
                self.registry.sweep();
                false
            },
        }
    }

    /// One tick. In the running game it goes through its three parts; in any
    /// other state it does nothing.
    pub fn tick(&mut self, input: InputState, dt_us: u32, rng: &mut StdRng) -> (report: TickReport)
        requires
            old(self).state == GameState::Running ==> within_limits(old(self)@),
        ensures
            old(self).state != GameState::Running ==> final(self)@ == old(self)@ && report == (
            TickReport { player_fired: false, enemy_shooter: None, game_over: false }),
            old(self).state == GameState::Running ==> {
                &&& may_fire(begun(old(self)@, input, dt_us), dt_us, report.enemy_shooter)
                &&& final(self)@ == ticked(old(self)@, input, dt_us, report.enemy_shooter)
                &&& report.player_fired == player_fires(
                    after_player_movement(old(self)@.entities, input.player_direction, dt_us),
                    old(self)@.player_timer,
                    input.player_fire,
                    dt_us,
                )
                &&& report.game_over == (final(self).hp == 0)
            },
            old(self).registry.wf() ==> final(self).registry.wf(),
            in_order(old(self)@) ==> in_order(final(self)@),
    {
        match self.state {
            GameState::Running => {
                let ghost v = self@;
                proof {
                    lemma_limits_begin(v);
                }
                let player_fired = self.begin_tick(input, dt_us);
                proof {
                    lemma_limits_volley(v, input, dt_us);
                }
                let enemy_shooter = self.enemy_volley(dt_us, rng);
                proof {
                    lemma_limits_finish(v, input, dt_us, enemy_shooter);
                    if in_order(v) {
                        lemma_tick_keeps_order(v, input, dt_us, enemy_shooter);
                    }
                }
                let game_over = self.finish_tick(dt_us);
                TickReport { player_fired, enemy_shooter, game_over }
            },
            _ => TickReport { player_fired: false, enemy_shooter: None, game_over: false },
        }
    }
}

} // verus!
