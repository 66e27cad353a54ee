//! The store of simulated entities.
//!
//! Entities are kept in the order in which they were spawned, and every scan
//! over them goes in that order. Each entity gets an identifier of its own,
//! larger than every one given before: a registry made by `new` is well
//! formed, and every operation keeps it so. Destroying an entity only marks
//! it; `sweep` takes the marked entities out.

use crate::entity::{Entity, Kind, Role, Transform};
use crate::geometry::{Aabb, Vec2};
use vstd::prelude::*;

verus! {

/// Identifiers grow along the sequence and stay below `bound`.
pub open spec fn ids_ascending(s: Seq<Entity>, bound: u64) -> bool {
    &&& forall|i: int, j: int| 0 <= i < j < s.len() ==> s[i].id < s[j].id
    &&& forall|i: int| 0 <= i < s.len() ==> s[i].id < bound
}

/// The entity that `spawn` makes: alive, with its collider centered on it.
pub open spec fn spawned_entity(id: u64, transform: Transform, half: Vec2, role: Role) -> Entity {
    Entity {
        id,
        transform,
        collider: Aabb { center: transform.translation, half },
        role,
        alive: true,
    }
}

/// The entities that were not destroyed, in their order.
pub open spec fn live_only(s: Seq<Entity>) -> Seq<Entity> {
    s.filter(|e: Entity| e.alive)
}

/// What is left by `live_only`: the entities that were not destroyed, each
/// of which was there before, and all of them.
pub proof fn lemma_live_only(s: Seq<Entity>)
    ensures
        live_only(s).len() <= s.len(),
        forall|i: int|
            0 <= i < live_only(s).len() ==> (#[trigger] live_only(s)[i]).alive && s.contains(
                live_only(s)[i],
            ),
        forall|i: int| 0 <= i < s.len() && (#[trigger] s[i]).alive ==> live_only(s).contains(s[i]),
    decreases s.len(),
{
    reveal(Seq::filter);
    if s.len() > 0 {
        let rest = s.drop_last();
        let kept = live_only(rest);
        let out = live_only(s);
        lemma_live_only(rest);
        assert forall|i: int|
            0 <= i < out.len() implies (#[trigger] out[i]).alive && s.contains(out[i]) by {
            if i < kept.len() {
                assert(out[i] == kept[i]);
                let j = choose|j: int| 0 <= j < rest.len() && rest[j] == kept[i];
                assert(s[j] == out[i]);
            } else {
                assert(s[s.len() - 1] == out[i]);
            }
        }
        assert forall|i: int|
            0 <= i < s.len() && (#[trigger] s[i]).alive implies out.contains(s[i]) by {
            if i < s.len() - 1 {
                assert(rest[i] == s[i]);
                let j = choose|j: int| 0 <= j < kept.len() && kept[j] == rest[i];
                assert(out[j] == s[i]);
            } else {
                assert(out[out.len() - 1] == s[i]);
            }
        }
    }
}

/// The number of live entities of the given kind.
pub open spec fn live_count(s: Seq<Entity>, kind: Kind) -> nat
    decreases s.len(),
{
    if s.len() == 0 {
        0
    } else {
        live_count(s.drop_last(), kind) + if s.last().is_a(kind) {
            1nat
        } else {
            0nat
        }
    }
}

/// The indexes in `found` are those of the live entities of the given
/// kind, in ascending order.
pub open spec fn is_selection(s: Seq<Entity>, kind: Kind, found: Seq<usize>) -> bool {
    &&& forall|a: int, b: int| 0 <= a < b < found.len() ==> found[a] < found[b]
    &&& forall|a: int| 0 <= a < found.len() ==> found[a] < s.len() && s[found[a] as int].is_a(kind)
    &&& forall|k: int|
        0 <= k < s.len() && (#[trigger] s[k]).is_a(kind) ==> found.contains(k as usize)
}

/// Putting another entity in a place changes the count by what left and
/// what came.
pub proof fn lemma_live_count_update(s: Seq<Entity>, kind: Kind, i: int, e: Entity)
    requires
        0 <= i < s.len(),
    ensures
        live_count(s.update(i, e), kind) + if s[i].is_a(kind) {
            1nat
        } else {
            0nat
        } == live_count(s, kind) + if e.is_a(kind) {
            1nat
        } else {
            0nat
        },
    decreases s.len(),
{
    if i == s.len() - 1 {
        assert(s.update(i, e).drop_last() =~= s.drop_last());
    } else {
        assert(s.update(i, e).drop_last() =~= s.drop_last().update(i, e));
        lemma_live_count_update(s.drop_last(), kind, i, e);
    }
}

/// Two sequences that hold live entities of a kind in the same places hold
/// as many of them.
pub proof fn lemma_live_count_same(s: Seq<Entity>, r: Seq<Entity>, kind: Kind)
    requires
        r.len() == s.len(),
        forall|i: int| 0 <= i < s.len() ==> (#[trigger] r[i]).is_a(kind) == s[i].is_a(kind),
    ensures
        live_count(r, kind) == live_count(s, kind),
    decreases s.len(),
{
    if s.len() > 0 {
        assert forall|i: int| 0 <= i < s.len() - 1 implies (#[trigger] r.drop_last()[i]).is_a(kind)
            == s.drop_last()[i].is_a(kind) by {
            assert(r[i].is_a(kind) == s[i].is_a(kind));
        }
        lemma_live_count_same(s.drop_last(), r.drop_last(), kind);
        assert(r[r.len() - 1].is_a(kind) == s[s.len() - 1].is_a(kind));
    }
}

/// One more entity makes one more in the count if it is a live one of the
/// kind.
pub proof fn lemma_live_count_push(s: Seq<Entity>, e: Entity, kind: Kind)
    ensures
        live_count(s.push(e), kind) == live_count(s, kind) + if e.is_a(kind) {
            1nat
        } else {
            0nat
        },
{
    assert(s.push(e).drop_last() =~= s);
}

/// Taking out the destroyed entities leaves the live ones of every kind.
pub proof fn lemma_live_count_live_only(s: Seq<Entity>, kind: Kind)
    ensures
        live_count(live_only(s), kind) == live_count(s, kind),
    decreases s.len(),
{
    reveal(Seq::filter);
    if s.len() > 0 {
        lemma_live_count_live_only(s.drop_last(), kind);
        if s.last().alive {
            lemma_live_count_push(live_only(s.drop_last()), s.last(), kind);
        }
    }
}

/// The index of the first live player in `s`, if there is one.
pub open spec fn first_player(s: Seq<Entity>) -> Option<int> {
    if exists|i: int| 0 <= i < s.len() && s[i].is_player() {
        Some(choose|i: int| 0 <= i < s.len() && s[i].is_player() && no_player_before(s, i))
    } else {
        None
    }
}

/// No entity before index `i` is a live player.
pub open spec fn no_player_before(s: Seq<Entity>, i: int) -> bool {
    forall|j: int| 0 <= j < i && j < s.len() ==> !(#[trigger] s[j]).is_player()
}

/// `first_player` is `i` exactly when `i` holds a live player and nothing
/// before it does.
pub proof fn lemma_first_player(s: Seq<Entity>, i: int)
    requires
        0 <= i < s.len(),
        s[i].is_player(),
        no_player_before(s, i),
    ensures
        first_player(s) == Some(i),
{
    let k = choose|k: int| 0 <= k < s.len() && s[k].is_player() && no_player_before(s, k);
    assert(s[k].is_player() && no_player_before(s, k));
    if k < i {
        assert(!s[k].is_player());
    }
    if i < k {
        assert(!s[i].is_player());
    }
}

/// What `first_player` gives is a live player, with none before it.
pub proof fn lemma_first_player_is_player(s: Seq<Entity>)
    requires
        first_player(s) is Some,
    ensures
        0 <= first_player(s)->0 < s.len(),
        s[first_player(s)->0].is_player(),
        no_player_before(s, first_player(s)->0),
{
    let w = choose|i: int| 0 <= i < s.len() && s[i].is_player();
    lemma_least_player(s, w);
    let k = choose|k: int| 0 <= k < s.len() && s[k].is_player() && no_player_before(s, k);
    assert(s[k].is_player() && no_player_before(s, k));
}

proof fn lemma_least_player(s: Seq<Entity>, w: int)
    requires
        0 <= w < s.len(),
        s[w].is_player(),
    ensures
        exists|k: int| 0 <= k < s.len() && s[k].is_player() && no_player_before(s, k),
    decreases w,
{
    if !no_player_before(s, w) {
        let j = choose|j: int| 0 <= j < w && j < s.len() && (#[trigger] s[j]).is_player();
        lemma_least_player(s, j);
    }
}

/// Without a live player `first_player` is `None`.
pub proof fn lemma_no_player(s: Seq<Entity>)
    requires
        no_player_before(s, s.len() as int),
    ensures
        first_player(s) is None,
{
    if exists|i: int| 0 <= i < s.len() && s[i].is_player() {
        let i = choose|i: int| 0 <= i < s.len() && s[i].is_player();
        assert(!s[i].is_player());
    }
}

/// The entities of a game, in the order in which they were spawned.
pub struct Registry {
    entities: Vec<Entity>,
    next_id: u64,
}

impl View for Registry {
    type V = Seq<Entity>;

    closed spec fn view(&self) -> Seq<Entity> {
        self.entities@
    }
}

impl Registry {
    /// The identifiers grow along the registry, so that no two entities
    /// share one, and the next one to be given is larger than all of them.
    pub open spec fn wf(&self) -> bool {
        ids_ascending(self@, self.spec_next_id())
    }

    /// The identifier that the next spawned entity gets.
    pub closed spec fn spec_next_id(&self) -> u64 {
        self.next_id
    }

    /// A registry without entities, which gives identifiers from 0 on.
    pub fn new() -> (r: Registry)
        ensures
            r@ == Seq::<Entity>::empty(),
            r.spec_next_id() == 0,
            r.wf(),
    {
        Registry { entities: Vec::new(), next_id: 0 }
    }

    #[verifier::when_used_as_spec(spec_next_id)]
    pub fn next_id(&self) -> (id: u64)
        ensures
            id == self.spec_next_id(),
    {
        self.next_id
    }

    /// The number of entities, the destroyed ones that are not yet taken
    /// out included.
    pub fn len(&self) -> (n: usize)
        ensures
            n == self@.len(),
    {
        self.entities.len()
    }

    /// The entity at `index`.
    pub fn get(&self, index: usize) -> (e: Entity)
        requires
            index < self@.len(),
        ensures
            e == self@[index as int],
    {
        self.entities[index]
    }

    /// Adds an entity at the end, alive, with a collider of half extent `half`
    /// around its position, and returns its identifier.
    pub fn spawn(&mut self, transform: Transform, half: Vec2, role: Role) -> (id: u64)
        requires
            old(self).spec_next_id() < u64::MAX,
        ensures
            id == old(self).spec_next_id(),
            final(self).spec_next_id() == id + 1,
            final(self)@ == old(self)@.push(spawned_entity(id, transform, half, role)),
            old(self).wf() ==> final(self).wf(),
    {
        let id = self.next_id;
        let entity = Entity {
            id,
            transform,
            collider: Aabb { center: transform.translation, half },
            role,
            alive: true,
        };
        self.next_id = id + 1;
        self.entities.push(entity);
        id
    }

    /// Puts `entity` in the place of the entity at `index`, which has the same
    /// identifier.
    pub fn put(&mut self, index: usize, entity: Entity)
        requires
            index < old(self)@.len(),
            entity.id == old(self)@[index as int].id,
        ensures
            final(self)@ == old(self)@.update(index as int, entity),
            final(self).spec_next_id() == old(self).spec_next_id(),
            old(self).wf() ==> final(self).wf(),
    {
        self.entities.set(index, entity);
    }

    /// Marks the entity at `index` as destroyed.
    pub fn destroy(&mut self, index: usize)
        requires
            index < old(self)@.len(),
        ensures
            final(self)@ == old(self)@.update(index as int, old(self)@[index as int].destroyed()),
            final(self).spec_next_id() == old(self).spec_next_id(),
            old(self).wf() ==> final(self).wf(),
    {
        let e = self.get(index);
        self.put(index, e.destroyed());
    }

    /// Takes out every entity that was destroyed. The others keep their order.
    pub fn sweep(&mut self)
        ensures
            final(self)@ == live_only(old(self)@),
            final(self).spec_next_id() == old(self).spec_next_id(),
            old(self).wf() ==> final(self).wf(),
    {
        let ghost before = self.entities@;
        let ghost alive = |e: Entity| e.alive;
        let n = self.entities.len();
        let mut kept: Vec<Entity> = Vec::new();
        let mut i: usize = 0;
        proof {
            reveal(Seq::filter);
            assert(before.take(0) =~= Seq::<Entity>::empty());
        }
        while i < n
            invariant
                i <= n,
                n == before.len(),
                before == self.entities@,
                alive == (|e: Entity| e.alive),
                kept@ == before.take(i as int).filter(alive),
                ids_ascending(before, self.next_id) ==> {
                    &&& ids_ascending(kept@, self.next_id)
                    &&& forall|a: int, k: int|
                        0 <= a < kept@.len() && i <= k < n ==> kept@[a].id < before[k].id
                },
            decreases n - i,
        {
            let e = self.entities[i];
            proof {
                reveal(Seq::filter);
                assert(before.take(i + 1).drop_last() =~= before.take(i as int));
                assert(before.take(i + 1).last() == e);
            }
            if e.alive {
                kept.push(e);
            }
            i += 1;
        }
        assert(before.take(n as int) =~= before);
        self.entities = kept;
    }

    /// Takes out every entity.
    pub fn clear(&mut self)
        ensures
            final(self)@ == Seq::<Entity>::empty(),
            final(self).spec_next_id() == old(self).spec_next_id(),
            final(self).wf(),
    {
        self.entities = Vec::new();
    }

    /// The index of the first live player.
    pub fn player(&self) -> (found: Option<usize>)
        ensures
            match found {
                Some(i) => first_player(self@) == Some(i as int) && i < self@.len(),
                None => first_player(self@) is None,
            },
    {
        let n = self.entities.len();
        let mut i: usize = 0;
        while i < n
            invariant
                i <= n,
                n == self.entities@.len(),
                no_player_before(self.entities@, i as int),
            decreases n - i,
        {
            if self.entities[i].is_player() {
                proof {
                    lemma_first_player(self.entities@, i as int);
                }
                return Some(i);
            }
            i += 1;
        }
        proof {
            lemma_no_player(self.entities@);
        }
        None
    }

    /// The indexes of the live entities of the given kind, in ascending
    /// order.
    pub fn of_kind(&self, kind: Kind) -> (found: Vec<usize>)
        ensures
            is_selection(self@, kind, found@),
            found@.len() == live_count(self@, kind),
    {
        let n = self.entities.len();
        let mut found: Vec<usize> = Vec::new();
        let mut i: usize = 0;
        assert(self.entities@.take(0) =~= Seq::<Entity>::empty());
        while i < n
            invariant
                i <= n,
                n == self.entities@.len(),
                is_selection(self.entities@.take(i as int), kind, found@),
                found@.len() == live_count(self.entities@.take(i as int), kind),
            decreases n - i,
        {
            let ghost seen = self.entities@.take(i as int);
            let ghost next = self.entities@.take(i + 1);
            let ghost before = found@;
            proof {
                assert(next.drop_last() =~= seen);
                assert(forall|k: int| 0 <= k < i ==> next[k] == seen[k]);
            }
            if self.entities[i].is_of_kind(kind) {
                found.push(i);
                proof {
                    assert(found@[before.len() as int] == i);
                    assert forall|k: int|
                        0 <= k < next.len() && (#[trigger] next[k]).is_a(kind) implies
                        found@.contains(k as usize) by {
                        if k < i {
                            assert(seen[k].is_a(kind));
                            let a = choose|a: int| 0 <= a < before.len() && before[a] == k as usize;
                            assert(found@[a] == before[a]);
                        }
                    }
                }
            } else {
                assert forall|k: int|
                    0 <= k < next.len() && (#[trigger] next[k]).is_a(kind) implies
                    found@.contains(k as usize) by {
                    assert(seen[k].is_a(kind));
                }
            }
            i += 1;
        }
        assert(self.entities@.take(n as int) =~= self.entities@);
        found
    }

    /// The index of the entity with identifier `id`: the first one, though a
    /// well-formed registry holds no second.
    pub fn find(&self, id: u64) -> (found: Option<usize>)
        ensures
            match found {
                Some(i) => {
                    &&& i < self@.len()
                    &&& self@[i as int].id == id
                    &&& forall|k: int| 0 <= k < i ==> self@[k].id != id
                },
                None => forall|k: int| 0 <= k < self@.len() ==> self@[k].id != id,
            },
    {
        let n = self.entities.len();
        let mut i: usize = 0;
        while i < n
            invariant
                i <= n,
                n == self.entities@.len(),
                forall|k: int| 0 <= k < i ==> self.entities@[k].id != id,
            decreases n - i,
        {
            if self.entities[i].id == id {
                return Some(i);
            }
            i += 1;
        }
        None
    }
}

} // verus!
