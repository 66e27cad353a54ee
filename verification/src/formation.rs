//! Which enemy of each column stands in front.
//!
//! Only the front enemy of a column may fire. The index maps a column to the
//! row of its front enemy and has no entry for an empty column. It is brought
//! up to date from the kills of the tick before.

use crate::entity::{Entity, Position, Role};
use crate::events::EnemyKilled;
use crate::registry::Registry;
use std::collections::HashMap;
use vstd::prelude::*;

verus! {

broadcast use vstd::std_specs::hash::group_hash_axioms;

/// A live enemy of column `col`, in any row but `excluded`.
pub open spec fn in_column(e: Entity, col: usize, excluded: Option<usize>) -> bool {
    &&& e.is_enemy()
    &&& e.role->position.col == col
    &&& excluded != Some(e.role->position.row)
}

/// Column `col` holds no live enemy outside the excluded row.
pub open spec fn column_empty(s: Seq<Entity>, col: usize, excluded: Option<usize>) -> bool {
    forall|i: int| 0 <= i < s.len() ==> !in_column(#[trigger] s[i], col, excluded)
}

/// `row` is the lowest row of column `col` that holds a live enemy, the
/// excluded row left aside.
pub open spec fn is_front_row(
    s: Seq<Entity>,
    col: usize,
    excluded: Option<usize>,
    row: usize,
) -> bool {
    &&& exists|i: int|
        0 <= i < s.len() && in_column(#[trigger] s[i], col, excluded) && s[i].role->position.row
            == row
    &&& forall|i: int|
        0 <= i < s.len() && in_column(#[trigger] s[i], col, excluded) ==> row
            <= s[i].role->position.row
}

/// The front row of column `col`, the excluded row left aside; `None` for a
/// column that is empty then.
pub open spec fn front_row_of(
    s: Seq<Entity>,
    col: usize,
    excluded: Option<usize>,
) -> Option<usize> {
    if column_empty(s, col, excluded) {
        None
    } else {
        Some(choose|row: usize| is_front_row(s, col, excluded, row))
    }
}

/// A column has one front row at most.
pub proof fn lemma_front_row_unique(
    s: Seq<Entity>,
    col: usize,
    excluded: Option<usize>,
    row: usize,
)
    requires
        is_front_row(s, col, excluded, row),
    ensures
        front_row_of(s, col, excluded) == Some(row),
{
    let chosen = choose|r: usize| is_front_row(s, col, excluded, r);
    assert(is_front_row(s, col, excluded, chosen));
    let i = choose|i: int|
        0 <= i < s.len() && in_column(#[trigger] s[i], col, excluded) && s[i].role->position.row
            == row;
    let j = choose|j: int|
        0 <= j < s.len() && in_column(#[trigger] s[j], col, excluded) && s[j].role->position.row
            == chosen;
    assert(in_column(s[i], col, excluded));
    assert(in_column(s[j], col, excluded));
}

/// A column that is not empty has a front row.
pub proof fn lemma_front_row_exists(s: Seq<Entity>, col: usize, excluded: Option<usize>)
    requires
        !column_empty(s, col, excluded),
    ensures
        front_row_of(s, col, excluded) is Some,
        is_front_row(s, col, excluded, front_row_of(s, col, excluded)->0),
    decreases s.len(),
{
    let rest = s.drop_last();
    let last = s.last();
    if column_empty(rest, col, excluded) {
        assert(in_column(last, col, excluded)) by {
            let i = choose|i: int| 0 <= i < s.len() && in_column(#[trigger] s[i], col, excluded);
            if i < s.len() - 1 {
                assert(rest[i] == s[i]);
            }
        }
        let row = last.role->position.row;
        assert(is_front_row(s, col, excluded, row)) by {
            assert(in_column(s[s.len() - 1], col, excluded));
            assert forall|i: int|
                0 <= i < s.len() && in_column(#[trigger] s[i], col, excluded) implies
                row <= s[i].role->position.row by {
                if i < s.len() - 1 {
                    assert(rest[i] == s[i]);
                }
            }
        }
    } else {
        lemma_front_row_exists(rest, col, excluded);
        let low = front_row_of(rest, col, excluded)->0;
        let w = choose|i: int|
            0 <= i < rest.len() && in_column(#[trigger] rest[i], col, excluded)
                && rest[i].role->position.row == low;
        assert(s[w] == rest[w]);
        let row = if in_column(last, col, excluded) && last.role->position.row < low {
            last.role->position.row
        } else {
            low
        };
        assert(is_front_row(s, col, excluded, row)) by {
            if row == low {
                assert(in_column(s[w], col, excluded) && s[w].role->position.row == row);
            } else {
                assert(in_column(s[s.len() - 1], col, excluded));
            }
            assert forall|i: int|
                0 <= i < s.len() && in_column(#[trigger] s[i], col, excluded) implies
                row <= s[i].role->position.row by {
                if i < s.len() - 1 {
                    assert(rest[i] == s[i]);
                }
            }
        }
    }
    let row = choose|row: usize| is_front_row(s, col, excluded, row);
    assert(is_front_row(s, col, excluded, row));
}

/// The front row of column `col` among the live enemies, the excluded row
/// left aside.
pub fn front_row(
    registry: &Registry,
    col: usize,
    excluded: Option<usize>,
) -> (found: Option<usize>)
    ensures
        found == front_row_of(registry@, col, excluded),
{
    let n = registry.len();
    let mut best: Option<usize> = None;
    let mut i: usize = 0;
    while i < n
        invariant
            i <= n,
            n == registry@.len(),
            best == front_row_of(registry@.take(i as int), col, excluded),
        decreases n - i,
    {
        let e = registry.get(i);
        let ghost seen = registry@.take(i as int);
        let ghost next = registry@.take(i + 1);
        proof {
            assert(next.drop_last() =~= seen);
            assert(next.last() == e);
            assert(forall|j: int| 0 <= j < i ==> next[j] == seen[j]);
            if !column_empty(seen, col, excluded) {
                lemma_front_row_exists(seen, col, excluded);
            }
        }
        let mut counts = false;
        if e.is_enemy() {
            if let Role::Enemy { kind: _, position } = e.role {
                if position.col == col && excluded != Some(position.row) {
                    counts = true;
                    let lower = match best {
                        Some(row) => position.row < row,
                        None => true,
                    };
                    if lower {
                        best = Some(position.row);
                    }
                }
            }
        }
        proof {
            assert(counts == in_column(e, col, excluded));
            if best is Some {
                let row = best->0;
                assert(is_front_row(next, col, excluded, row)) by {
                    if counts && row == e.role->position.row {
                        assert(in_column(next[i as int], col, excluded));
                    } else {
                        let w = choose|w: int|
                            0 <= w < seen.len() && in_column(#[trigger] seen[w], col, excluded)
                                && seen[w].role->position.row == row;
                        assert(next[w] == seen[w]);
                    }
                    assert forall|j: int|
                        0 <= j < next.len() && in_column(#[trigger] next[j], col, excluded) implies
                        row <= next[j].role->position.row by {
                        if j < i {
                            assert(next[j] == seen[j]);
                        }
                    }
                }
                lemma_front_row_unique(next, col, excluded, row);
            } else {
                assert forall|j: int|
                    0 <= j < next.len() implies !in_column(#[trigger] next[j], col, excluded) by {
                    if j < i {
                        assert(next[j] == seen[j]);
                    }
                }
            }
        }
        i += 1;
    }
    assert(registry@.take(n as int) =~= registry@);
    best
}

/// The index from a column to the row of its front enemy.
pub struct FrontEnemies(pub HashMap<usize, usize>);

impl View for FrontEnemies {
    type V = Map<usize, usize>;

    open spec fn view(&self) -> Map<usize, usize> {
        self.0@
    }
}

/// The index after one kill was taken in: the column of the kill gets the
/// front row that it has among the live enemies, the killed one left aside,
/// or loses its entry if nobody is left in it.
pub open spec fn front_after_kill(
    front: Map<usize, usize>,
    s: Seq<Entity>,
    kill: EnemyKilled,
) -> Map<usize, usize> {
    match front_row_of(s, kill.position.col, Some(kill.position.row)) {
        Some(row) => front.insert(kill.position.col, row),
        None => front.remove(kill.position.col),
    }
}

/// The index after the kills were taken in, one after the other.
pub open spec fn front_after_kills(
    front: Map<usize, usize>,
    s: Seq<Entity>,
    kills: Seq<EnemyKilled>,
) -> Map<usize, usize>
    decreases kills.len(),
{
    if kills.len() == 0 {
        front
    } else {
        front_after_kill(front_after_kills(front, s, kills.drop_last()), s, kills.last())
    }
}

/// No live enemy stands at `position`.
pub open spec fn vacant(s: Seq<Entity>, position: Position) -> bool {
    forall|i: int|
        0 <= i < s.len() ==> !((#[trigger] s[i]).is_enemy() && s[i].role->position == position)
}

/// The index is right about column `col`: it holds the lowest row in which a
/// live enemy of the column stands, and nothing if there is none.
pub open spec fn front_agrees(front: Map<usize, usize>, s: Seq<Entity>, col: usize) -> bool {
    match front_row_of(s, col, None) {
        Some(row) => front.contains_key(col) && front[col] == row,
        None => !front.contains_key(col),
    }
}

/// Two indexes say the same about column `col`.
pub open spec fn same_entry(a: Map<usize, usize>, b: Map<usize, usize>, col: usize) -> bool {
    &&& a.contains_key(col) == b.contains_key(col)
    &&& a.contains_key(col) ==> a[col] == b[col]
}

/// Some kill of the list fell in column `col`.
pub open spec fn killed_in_column(kills: Seq<EnemyKilled>, col: usize) -> bool {
    exists|k: int| 0 <= k < kills.len() && (#[trigger] kills[k]).position.col == col
}

/// Leaving a row aside in which nobody stands changes nothing.
pub proof fn lemma_vacant_row_excluded(s: Seq<Entity>, position: Position)
    requires
        vacant(s, position),
    ensures
        front_row_of(s, position.col, Some(position.row)) == front_row_of(
            s,
            position.col,
            None,
        ),
{
    let col = position.col;
    let skip = Some(position.row);
    assert forall|i: int|
        0 <= i < s.len() implies
        in_column(#[trigger] s[i], col, skip) == in_column(s[i], col, None) by {
        if s[i].is_enemy() && s[i].role->position.col == col && s[i].role->position.row
            == position.row {
            assert(s[i].role->position == position);
        }
    }
    if !column_empty(s, col, None) {
        lemma_front_row_exists(s, col, None);
        let row = front_row_of(s, col, None)->0;
        let w = choose|i: int|
            0 <= i < s.len() && in_column(#[trigger] s[i], col, None) && s[i].role->position.row
                == row;
        assert(in_column(s[w], col, skip));
        assert(is_front_row(s, col, skip, row));
        lemma_front_row_unique(s, col, skip, row);
    }
}

/// The front-row law. Let the kills of a tick be taken into the index once
/// the killed are no longer among the live enemies. Then the index is right
/// about every column in which a kill fell: it holds the lowest row of the
/// column's live enemies, and nothing for a column without any. About every
/// other column it says what it said before.
pub proof fn lemma_front_rows_after_kills(
    front: Map<usize, usize>,
    s: Seq<Entity>,
    kills: Seq<EnemyKilled>,
    col: usize,
)
    requires
        forall|k: int| 0 <= k < kills.len() ==> vacant(s, (#[trigger] kills[k]).position),
    ensures
        killed_in_column(kills, col) ==> front_agrees(front_after_kills(front, s, kills), s, col),
        !killed_in_column(kills, col) ==> same_entry(
            front_after_kills(front, s, kills),
            front,
            col,
        ),
    decreases kills.len(),
{
    if kills.len() > 0 {
        let rest = kills.drop_last();
        let kill = kills.last();
        assert forall|k: int|
            0 <= k < rest.len() implies vacant(s, (#[trigger] rest[k]).position) by {
            assert(rest[k] == kills[k]);
        }
        lemma_front_rows_after_kills(front, s, rest, col);
        assert(vacant(s, kills[kills.len() - 1].position));
        lemma_vacant_row_excluded(s, kill.position);
        if kill.position.col != col {
            if killed_in_column(kills, col) {
                let k = choose|k: int|
                    0 <= k < kills.len() && (#[trigger] kills[k]).position.col == col;
                assert(rest[k] == kills[k]);
                assert(killed_in_column(rest, col));
            } else {
                assert forall|k: int|
                    0 <= k < rest.len() implies (#[trigger] rest[k]).position.col != col by {
                    assert(rest[k] == kills[k]);
                }
            }
        } else {
            assert(kills[kills.len() - 1].position.col == col);
        }
    }
}

impl FrontEnemies {
    /// An index without entries.
    pub fn new() -> (front: FrontEnemies)
        ensures
            front@ == Map::<usize, usize>::empty(),
    {
        FrontEnemies(HashMap::new())
    }

    /// The front row of column `col`, if the index has one.
    pub fn get(&self, col: usize) -> (row: Option<usize>)
        ensures
            row == if self@.contains_key(col) {
                Some(self@[col])
            } else {
                None
            },
    {
        match self.0.get(&col) {
            Some(row) => Some(*row),
            None => None,
        }
    }

    /// Whether the entity is the front enemy of its column by the index.
    pub open spec fn spec_is_front(&self, e: Entity) -> bool {
        is_front(self@, e)
    }

    #[verifier::when_used_as_spec(spec_is_front)]
    pub fn is_front(&self, e: Entity) -> (b: bool)
        ensures
            b == is_front(self@, e),
    {
        if e.is_enemy() {
            if let Role::Enemy { kind: _, position } = e.role {
                return self.get(position.col) == Some(position.row);
            }
        }
        false
    }
}

/// A live enemy that stands in the row that the index holds for its column.
pub open spec fn is_front(front: Map<usize, usize>, e: Entity) -> bool {
    &&& e.is_enemy()
    &&& front.contains_key(e.role->position.col)
    &&& front[e.role->position.col] == e.role->position.row
}

/// Takes the kills into the index, in their order.
pub fn update_front_enemies(
    registry: &Registry,
    front: &mut FrontEnemies,
    kills: &Vec<EnemyKilled>,
)
    ensures
        final(front)@ == front_after_kills(old(front)@, registry@, kills@),
{
    let n = kills.len();
    let mut i: usize = 0;
    assert(kills@.take(0) =~= Seq::<EnemyKilled>::empty());
    while i < n
        invariant
            i <= n,
            n == kills@.len(),
            front@ == front_after_kills(old(front)@, registry@, kills@.take(i as int)),
        decreases n - i,
    {
        let kill = kills[i];
        proof {
            assert(kills@.take(i + 1).drop_last() =~= kills@.take(i as int));
            assert(kills@.take(i + 1).last() == kill);
        }
        match front_row(registry, kill.position.col, Some(kill.position.row)) {
            Some(row) => {
                front.0.insert(kill.position.col, row);
            },
            None => {
                front.0.remove(&kill.position.col);
            },
        }
        i += 1;
    }
    assert(kills@.take(n as int) =~= kills@);
}

} // verus!
