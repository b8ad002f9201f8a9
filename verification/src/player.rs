use vstd::prelude::*;

use crate::sums::{count_of, lemma_count_contains, lemma_count_nonneg};

verus! {

/// A participant: identity, display color, and the set of territory indices it
/// owns, kept as a list.
pub struct Player {
    pub index: u32,
    pub color: u32,
    pub territories: Vec<u32>,
}

impl Player {
    /// Records a newly captured territory in the owner's list.
    pub fn capture_territory(&mut self, territory_index: u32)
        ensures
            final(self).territories@ == old(self).territories@.push(territory_index),
            final(self).index == old(self).index,
            final(self).color == old(self).color,
    {
        self.territories.push(territory_index);
    }

    /// A player with no territories is out of the game.
    pub fn is_eliminated(&self) -> (r: bool)
        ensures
            r == (self.territories@.len() == 0),
    {
        self.territories.is_empty()
    }
}

/// Observable equality of two players.
pub open spec fn p_eq(a: Player, b: Player) -> bool {
    &&& a.index == b.index
    &&& a.color == b.color
    &&& a.territories@ == b.territories@
}

/// How many times territory `t` occurs across all ownership lists of `ps`.
pub open spec fn owned_count(ps: Seq<Player>, t: u32) -> int
    decreases ps.len(),
{
    if ps.len() == 0 {
        0
    } else {
        owned_count(ps.drop_last(), t) + count_of(ps.last().territories@, t)
    }
}

/// Every territory index below `n` is owned by exactly one player, exactly
/// once, and the ownership lists name no other territory.
pub open spec fn players_partition(ps: Seq<Player>, n: int) -> bool {
    &&& forall|t: u32| t < n ==> #[trigger] owned_count(ps, t) == 1
    &&& forall|p: int, k: int|
        0 <= p < ps.len() && 0 <= k < ps[p].territories@.len() ==> #[trigger] ps[p].territories@[k]
            < n
}

/// No two players claim the same territory.
pub open spec fn players_disjoint(ps: Seq<Player>) -> bool {
    forall|p: int, q: int, t: u32|
        0 <= p < ps.len() && 0 <= q < ps.len() && #[trigger] ps[p].territories@.contains(t)
            && #[trigger] ps[q].territories@.contains(t) ==> p == q
}

/// The roster-wide count depends only on what the ownership lists hold.
pub proof fn lemma_owned_count_pointwise(ps: Seq<Player>, qs: Seq<Player>, t: u32)
    requires
        ps.len() == qs.len(),
        forall|p: int| 0 <= p < ps.len() ==> ps[p].territories@ == (#[trigger] qs[p].territories@),
    ensures
        owned_count(ps, t) == owned_count(qs, t),
    decreases ps.len(),
{
    if ps.len() > 0 {
        assert(ps[ps.len() - 1].territories@ == qs[qs.len() - 1].territories@);
        lemma_owned_count_pointwise(ps.drop_last(), qs.drop_last(), t);
    }
}

/// One player's own count never exceeds the roster-wide count.
pub proof fn lemma_owned_count_element_le(ps: Seq<Player>, p: int, t: u32)
    requires
        0 <= p < ps.len(),
    ensures
        count_of(ps[p].territories@, t) <= owned_count(ps, t),
        count_of(ps[p].territories@, t) >= 0,
        owned_count(ps, t) >= 0,
    decreases ps.len(),
{
    lemma_count_nonneg(ps[p].territories@, t);
    lemma_owned_count_nonneg(ps, t);
    if p == ps.len() - 1 {
        lemma_owned_count_nonneg(ps.drop_last(), t);
    } else {
        lemma_owned_count_element_le(ps.drop_last(), p, t);
        lemma_count_nonneg(ps.last().territories@, t);
    }
}

pub proof fn lemma_owned_count_nonneg(ps: Seq<Player>, t: u32)
    ensures
        owned_count(ps, t) >= 0,
    decreases ps.len(),
{
    if ps.len() > 0 {
        lemma_owned_count_nonneg(ps.drop_last(), t);
        lemma_count_nonneg(ps.last().territories@, t);
    }
}

/// Two distinct players' own counts together never exceed the roster-wide count.
pub proof fn lemma_owned_count_two_le(ps: Seq<Player>, p: int, q: int, t: u32)
    requires
        0 <= p < ps.len(),
        0 <= q < ps.len(),
        p != q,
    ensures
        count_of(ps[p].territories@, t) + count_of(ps[q].territories@, t) <= owned_count(ps, t),
    decreases ps.len(),
{
    if p == ps.len() - 1 {
        lemma_owned_count_element_le(ps.drop_last(), q, t);
    } else if q == ps.len() - 1 {
        lemma_owned_count_element_le(ps.drop_last(), p, t);
    } else {
        lemma_owned_count_two_le(ps.drop_last(), p, q, t);
        lemma_count_nonneg(ps.last().territories@, t);
    }
}

/// Replacing one player's record shifts the roster-wide count by the
/// difference of the new and old own counts.
pub proof fn lemma_owned_count_update(ps: Seq<Player>, p: int, r: Player, t: u32)
    requires
        0 <= p < ps.len(),
    ensures
        owned_count(ps.update(p, r), t) == owned_count(ps, t) - count_of(ps[p].territories@, t)
            + count_of(r.territories@, t),
    decreases ps.len(),
{
    if p == ps.len() - 1 {
        assert(ps.update(p, r).drop_last() =~= ps.drop_last());
    } else {
        assert(ps.update(p, r).drop_last() =~= ps.drop_last().update(p, r));
        lemma_owned_count_update(ps.drop_last(), p, r, t);
    }
}

/// Under a partition, distinct owners cannot share a territory below `n`.
pub proof fn lemma_partition_disjoint(ps: Seq<Player>, n: int)
    requires
        players_partition(ps, n),
    ensures
        players_disjoint(ps),
{
    assert forall|p: int, q: int, t: u32|
        0 <= p < ps.len() && 0 <= q < ps.len() && #[trigger] ps[p].territories@.contains(t)
            && #[trigger] ps[q].territories@.contains(t) implies p == q by {
        if p != q {
            let k = choose|k: int| 0 <= k < ps[p].territories@.len() && ps[p].territories@[k] == t;
            assert(ps[p].territories@[k] < n);
            lemma_count_contains(ps[p].territories@, t);
            lemma_count_contains(ps[q].territories@, t);
            lemma_owned_count_two_le(ps, p, q, t);
            assert(owned_count(ps, t) == 1);
        }
    }
}

/// Under a partition, every territory below `n` has an owner.
pub proof fn lemma_partition_has_owner(ps: Seq<Player>, n: int, t: u32)
    requires
        owned_count(ps, t) > 0,
    ensures
        exists|p: int|
            0 <= p < ps.len() && #[trigger] count_of(ps[p].territories@, t) > 0 && ps[p]
                .territories@.contains(t),
    decreases ps.len(),
{
    if ps.len() > 0 {
        lemma_owned_count_nonneg(ps.drop_last(), t);
        lemma_count_nonneg(ps.last().territories@, t);
        if count_of(ps.last().territories@, t) > 0 {
            lemma_count_contains(ps.last().territories@, t);
            assert(count_of(ps[ps.len() - 1].territories@, t) > 0);
        } else {
            lemma_partition_has_owner(ps.drop_last(), n, t);
            let p = choose|p: int|
                0 <= p < ps.drop_last().len() && #[trigger] count_of(
                    ps.drop_last()[p].territories@,
                    t,
                ) > 0 && ps.drop_last()[p].territories@.contains(t);
            assert(count_of(ps[p].territories@, t) > 0);
        }
    }
}

} // verus!
