//! The score and the player's hit points.

use crate::events::EnemyKilled;
use vstd::prelude::*;

verus! {

/// The points that the kills are worth together.
pub open spec fn total_points(kills: Seq<EnemyKilled>) -> nat
    decreases kills.len(),
{
    if kills.len() == 0 {
        0
    } else {
        total_points(kills.drop_last()) + kills.last().enemy.points() as nat
    }
}

/// Every kill is worth the points of its kind, which is ten for each kind
/// there is.
pub proof fn lemma_total_points(kills: Seq<EnemyKilled>)
    ensures
        total_points(kills) == 10 * kills.len(),
    decreases kills.len(),
{
    if kills.len() > 0 {
        lemma_total_points(kills.drop_last());
    }
}

/// Adds to the score the points of each kill, once.
pub fn update_score(kills: &Vec<EnemyKilled>, score: &mut u32)
    requires
        *old(score) + total_points(kills@) <= u32::MAX,
    ensures
        *final(score) == *old(score) + total_points(kills@),
{
    let n = kills.len();
    let mut i: usize = 0;
    assert(kills@.take(0) =~= Seq::<EnemyKilled>::empty());
    proof {
        lemma_total_points(kills@);
    }
    while i < n
        invariant
            i <= n,
            n == kills@.len(),
            *old(score) + 10 * n <= u32::MAX,
            *score == *old(score) + total_points(kills@.take(i as int)),
        decreases n - i,
    {
        proof {
            assert(kills@.take(i + 1).drop_last() =~= kills@.take(i as int));
            lemma_total_points(kills@.take(i as int));
            lemma_total_points(kills@.take(i + 1));
        }
        *score = *score + kills[i].enemy.points();
        i += 1;
    }
    assert(kills@.take(n as int) =~= kills@);
}

/// Whether the heart with the given number, counted from 1, is shown as
/// full: the player has at least that many hit points.
pub fn heart_is_full(hp: u8, number: u8) -> (full: bool)
    ensures
        full == (hp >= number),
{
    hp >= number
}

} // verus!
