//! A turn-based territorial-conquest engine: players own territories on a
//! fixed adjacency graph, place reinforcements through a staged, reversible
//! transaction, attack neighbors with seeded dice combat, and fortify
//! across their own borders. The engine is the game's rulebook alone — a
//! host UI renders the board and feeds territory indices into
//! [`Game::map_click_action`] and the explicit commands.

use vstd::prelude::*;

pub mod map;
pub mod player;
pub mod sums;

use crate::map::territory::{Territory, TerritoryState};
use crate::map::{map_obs_eq, GameMap};
use crate::player::{owned_count, players_partition, p_eq, Player};
use crate::sums::{count_of, sum_u32};
use rand::rngs::StdRng;

verus! {

/// Phase of the running turn.
#[derive(Clone, Copy, PartialEq, Eq, Structural, Debug)]
pub enum TurnPhase {
    Place,
    Attack,
    Fortify,
    PostAttackFortify,
}

/// Whose turn it is, which phase it is in, and how many reinforcement troops
/// of this turn are still uncommitted.
pub struct Turn {
    pub player_index: u32,
    pub phase: TurnPhase,
    pub new_troops: u32,
}

/// Troops lost by each side over one engagement or one round of dice.
pub struct AttackResults {
    pub attack_dice: u32,
    pub defend_dice: u32,
}

/// Reinforcement troops granted at the start of each turn.
pub const TROOP_BONUS: u32 = 5;

/// Declares rand's StdRng so a game can hold its dice stream; the
/// generator's state stays opaque to verification.
#[verifier::external_type_specification]
#[verifier::external_body]
pub struct ExStdRng(StdRng);

/// Relies on rand::SeedableRng::seed_from_u64: builds the dice stream of a
/// match from its seed.
#[verifier::external_body]
fn rng_from_seed(seed: u64) -> (r: StdRng) {
    rand::SeedableRng::seed_from_u64(seed)
}

/// Relies on rand::Rng::gen_range over the non-empty range 1..=6: every draw
/// returns a die face between 1 and 6 and cannot panic.
#[verifier::external_body]
fn roll_die(rng: &mut StdRng) -> (r: u8)
    ensures
        1 <= r <= 6,
{
    rand::Rng::gen_range(rng, 1..=6u8)
}

/// `s` is sorted in non-decreasing order.
pub open spec fn sorted_asc(s: Seq<u8>) -> bool {
    forall|i: int, j: int| #![trigger s[i], s[j]] 0 <= i < j < s.len() ==> s[i] <= s[j]
}

/// How many dice pairs a round compares: one per die of the smaller side.
pub open spec fn pairs_of(a: Seq<u8>, d: Seq<u8>) -> int {
    if a.len() <= d.len() {
        a.len() as int
    } else {
        d.len() as int
    }
}

/// Attacker casualties over the top `j` pairs of two ascending rolls: the
/// `k`-th pair compares the `k`-th highest of each side, and the tie goes to
/// the defender.
pub open spec fn att_losses_upto(a: Seq<u8>, d: Seq<u8>, j: int) -> int
    decreases j,
{
    if j <= 0 {
        0
    } else {
        att_losses_upto(a, d, j - 1) + if d[d.len() - j] >= a[a.len() - j] {
            1int
        } else {
            0int
        }
    }
}

/// Attacker casualties over all compared pairs.
pub open spec fn attack_losses(a: Seq<u8>, d: Seq<u8>) -> int {
    att_losses_upto(a, d, pairs_of(a, d))
}

proof fn lemma_count3<T>(a: T, b: T, c: T, x: T)
    ensures
        count_of(seq![a, b, c], x) == (if a == x {
            1int
        } else {
            0int
        }) + (if b == x {
            1int
        } else {
            0int
        }) + (if c == x {
            1int
        } else {
            0int
        }),
{
    reveal_with_fuel(count_of, 4);
    assert(seq![a, b, c].drop_last() =~= seq![a, b]);
    assert(seq![a, b].drop_last() =~= seq![a]);
    assert(seq![a].drop_last() =~= Seq::<T>::empty());
}

proof fn lemma_count2<T>(a: T, b: T, x: T)
    ensures
        count_of(seq![a, b], x) == (if a == x {
            1int
        } else {
            0int
        }) + (if b == x {
            1int
        } else {
            0int
        }),
{
    reveal_with_fuel(count_of, 3);
    assert(seq![a, b].drop_last() =~= seq![a]);
    assert(seq![a].drop_last() =~= Seq::<T>::empty());
}

/// Orders up to three dice ascending, keeping exactly the rolled faces.
fn sort_dice(v: &Vec<u8>) -> (r: Vec<u8>)
    requires
        v@.len() <= 3,
    ensures
        r@.len() == v@.len(),
        sorted_asc(r@),
        forall|x: u8| count_of(r@, x) == count_of(v@, x),
{
    if v.len() == 0 {
        let r: Vec<u8> = Vec::new();
        assert(r@ =~= v@);
        r
    } else if v.len() == 1 {
        let r: Vec<u8> = vec![v[0]];
        assert(r@ =~= v@);
        r
    } else if v.len() == 2 {
        let a = v[0];
        let b = v[1];
        let r: Vec<u8> = if a <= b {
            vec![a, b]
        } else {
            vec![b, a]
        };
        proof {
            assert(v@ =~= seq![a, b]);
            assert forall|x: u8| count_of(r@, x) == count_of(v@, x) by {
                lemma_count2(a, b, x);
                lemma_count2(b, a, x);
            }
        }
        r
    } else {
        let a = v[0];
        let b = v[1];
        let c = v[2];
        let r: Vec<u8> = if a <= b && b <= c {
            vec![a, b, c]
        } else if a <= c && c <= b {
            vec![a, c, b]
        } else if b <= a && a <= c {
            vec![b, a, c]
        } else if b <= c && c <= a {
            vec![b, c, a]
        } else if c <= a && a <= b {
            vec![c, a, b]
        } else {
            vec![c, b, a]
        };
        proof {
            assert(v@ =~= seq![a, b, c]);
            assert forall|x: u8| count_of(r@, x) == count_of(v@, x) by {
                lemma_count3(a, b, c, x);
                lemma_count3(a, c, b, x);
                lemma_count3(b, a, c, x);
                lemma_count3(b, c, a, x);
                lemma_count3(c, a, b, x);
                lemma_count3(c, b, a, x);
            }
        }
        r
    }
}

/// Resolves one round of already-rolled, ascending-sorted dice: the sides'
/// highest rolls are compared pairwise and each pair costs the loser one
/// troop, ties favoring the defender.
pub fn resolve_dice(attacks: &Vec<u8>, defenses: &Vec<u8>) -> (r: AttackResults)
    requires
        sorted_asc(attacks@),
        sorted_asc(defenses@),
        attacks@.len() <= 3,
        defenses@.len() <= 2,
    ensures
        r.attack_dice == attack_losses(attacks@, defenses@),
        r.attack_dice + r.defend_dice == pairs_of(attacks@, defenses@),
{
    let pairs: usize = if attacks.len() <= defenses.len() {
        attacks.len()
    } else {
        defenses.len()
    };
    let mut attack_dice: u32 = 0;
    let mut defend_dice: u32 = 0;
    let mut j: usize = 0;
    while j < pairs
        invariant
            pairs == pairs_of(attacks@, defenses@),
            pairs <= attacks@.len(),
            pairs <= defenses@.len(),
            attacks@.len() <= 3,
            defenses@.len() <= 2,
            j <= pairs,
            attack_dice == att_losses_upto(attacks@, defenses@, j as int),
            attack_dice + defend_dice == j,
        decreases pairs - j,
    {
        let attack = attacks[attacks.len() - 1 - j];
        let defend = defenses[defenses.len() - 1 - j];
        if attack > defend {
            defend_dice = defend_dice + 1;
        } else {
            attack_dice = attack_dice + 1;
        }
        j = j + 1;
    }
    AttackResults { attack_dice, defend_dice }
}

/// Rolls `n` dice from the match's stream.
fn roll_n(rng: &mut StdRng, n: u32) -> (r: Vec<u8>)
    requires
        n <= 3,
    ensures
        r@.len() == n,
        forall|i: int| 0 <= i < r@.len() ==> 1 <= #[trigger] r@[i] <= 6,
{
    let mut r: Vec<u8> = Vec::new();
    let mut i: u32 = 0;
    while i < n
        invariant
            i <= n,
            r@.len() == i,
            forall|j: int| 0 <= j < r@.len() ==> 1 <= #[trigger] r@[j] <= 6,
        decreases n - i,
    {
        r.push(roll_die(rng));
        i = i + 1;
    }
    r
}

/// One round of combat: rolls both sides' dice and resolves the pairs.
/// Returns how many troops each side lost; together the losses cover every
/// compared pair.
fn roll_dice(rng: &mut StdRng, attack_dice: u32, defense_dice: u32) -> (r: AttackResults)
    requires
        1 <= attack_dice <= 3,
        1 <= defense_dice <= 2,
    ensures
        r.attack_dice + r.defend_dice == vstd::math::min(attack_dice as int, defense_dice as int),
        r.attack_dice <= attack_dice,
        r.defend_dice <= defense_dice,
{
    let rolled_attacks = roll_n(rng, attack_dice);
    let rolled_defenses = roll_n(rng, defense_dice);
    let attacks = sort_dice(&rolled_attacks);
    let defenses = sort_dice(&rolled_defenses);
    resolve_dice(&attacks, &defenses)
}

/// A whole engagement: rounds of dice until the committed attack pool or the
/// defender is exhausted. Exactly one side ends exhausted.
fn roll_all(rng: &mut StdRng, attack_with: u32, defend_with: u32) -> (r: AttackResults)
    requires
        1 <= attack_with,
        1 <= defend_with,
    ensures
        r.attack_dice <= attack_with,
        r.defend_dice <= defend_with,
        r.attack_dice == attack_with || r.defend_dice == defend_with,
        !(r.attack_dice == attack_with && r.defend_dice == defend_with),
{
    let mut attack_losses: u32 = 0;
    let mut defend_losses: u32 = 0;
    while attack_with > attack_losses && defend_with > defend_losses
        invariant
            attack_losses <= attack_with,
            defend_losses <= defend_with,
            !(attack_losses == attack_with && defend_losses == defend_with),
        decreases attack_with - attack_losses + defend_with - defend_losses,
    {
        let attackers = if attack_with - attack_losses < 3 {
            attack_with - attack_losses
        } else {
            3
        };
        let defenders = if defend_with - defend_losses < 2 {
            defend_with - defend_losses
        } else {
            2
        };
        let losses = roll_dice(rng, attackers, defenders);
        attack_losses = attack_losses + losses.attack_dice;
        defend_losses = defend_losses + losses.defend_dice;
    }
    AttackResults { attack_dice: attack_losses, defend_dice: defend_losses }
}

/// The territories that the round-robin deal of `i` territories among `pc`
/// players hands to player `p`: the ascending indices congruent to `p`.
pub open spec fn rr_seq(p: int, pc: int, i: int) -> Seq<u32>
    decreases i,
{
    if i <= 0 {
        Seq::empty()
    } else if (i - 1) % pc == p {
        rr_seq(p, pc, i - 1).push((i - 1) as u32)
    } else {
        rr_seq(p, pc, i - 1)
    }
}

/// In a round-robin deal of `i` territories, territory `t` lands exactly once
/// in the list of the player `t mod pc`, and in no other list.
pub proof fn lemma_rr_count(p: int, pc: int, i: int, t: u32)
    requires
        pc >= 1,
        0 <= p < pc,
        i <= u32::MAX,
    ensures
        count_of(rr_seq(p, pc, i), t) == if 0 <= t < i && (t as int) % pc == p {
            1int
        } else {
            0int
        },
    decreases i,
{
    if i <= 0 {
    } else {
        lemma_rr_count(p, pc, i - 1, t);
        if (i - 1) % pc == p {
            crate::sums::lemma_count_push(rr_seq(p, pc, i - 1), (i - 1) as u32, t);
        }
    }
}

/// Every territory dealt among the first `i` is one of the first `i`.
pub proof fn lemma_rr_members(p: int, pc: int, i: int, k: int)
    requires
        0 <= k < rr_seq(p, pc, i).len(),
    ensures
        rr_seq(p, pc, i)[k] < i,
    decreases i,
{
    if i > 0 {
        if (i - 1) % pc == p && k == rr_seq(p, pc, i).len() - 1 {
        } else {
            lemma_rr_members(p, pc, i - 1, k);
        }
    }
}

/// Rebuilds `v` without any occurrence of `x`.
fn retain_ne(v: &mut Vec<u32>, x: u32)
    ensures
        final(v)@ == crate::sums::without_value(old(v)@, x),
{
    let ghost v0 = v@;
    let mut r: Vec<u32> = Vec::new();
    let mut i: usize = 0;
    proof {
        reveal(Seq::filter);
        assert(v0.take(0) =~= Seq::<u32>::empty());
    }
    while i < v.len()
        invariant
            i <= v0.len(),
            v@ == v0,
            r@ == crate::sums::without_value(v0.take(i as int), x),
        decreases v0.len() - i,
    {
        proof {
            reveal(Seq::filter);
            assert(v0.take(i + 1).drop_last() =~= v0.take(i as int));
        }
        if v[i] != x {
            r.push(v[i]);
        }
        i = i + 1;
    }
    proof {
        assert(v0.take(v0.len() as int) =~= v0);
    }
    *v = r;
}

/// The aggregate root: board, roster, running turn, and the seeded dice
/// stream.
pub struct Game {
    pub map: GameMap,
    pub players: Vec<Player>,
    pub turn: Turn,
    pub rng: StdRng,
}

/// In every well-formed state the staged total stays within the turn's
/// reinforcement allowance, whatever sequence of commands produced it:
/// construction establishes well-formedness and every command keeps it.
pub proof fn lemma_staged_within_allowance(g: Game)
    requires
        g.wf(),
    ensures
        g.map.staged_total() <= g.turn.new_troops,
{
}

impl Game {
    /// Number of territories on the board.
    pub open spec fn n(self) -> int {
        self.map.territories@.len() as int
    }

    /// The player whose turn it is.
    pub open spec fn cur(self) -> Player {
        self.players@[self.turn.player_index as int]
    }

    /// The current player owns territory `t`.
    pub open spec fn cur_owns_spec(self, t: int) -> bool {
        self.cur().territories@.contains(t as u32)
    }

    /// The garrison of territory `t`.
    pub open spec fn troops_at(self, t: int) -> u32 {
        self.map.territories@[t].troops
    }

    /// Well-formedness of a game state: a valid board, a roster that
    /// partitions the territories, manned garrisons, a staging ledger within
    /// this turn's allowance, and arithmetic headroom for committing it.
    pub open spec fn wf(self) -> bool {
        &&& self.map.graph_wf()
        &&& self.players@.len() >= 1
        &&& self.players@.len() <= u32::MAX
        &&& self.turn.player_index < self.players@.len()
        &&& players_partition(self.players@, self.n())
        &&& forall|p: int|
            0 <= p < self.players@.len() ==> #[trigger] self.players@[p].index == p
        &&& forall|i: int| 0 <= i < self.n() ==> #[trigger] self.map.territories@[i].troops >= 1
        &&& self.map.staged_total() <= self.turn.new_troops
        &&& self.turn.new_troops <= TROOP_BONUS
        &&& self.map.troops_total() + self.turn.new_troops <= u32::MAX
    }
}

/// Some territory of the current player carries the selection marker.
pub open spec fn cur_sel(g: Game) -> bool {
    exists|k: int|
        0 <= k < g.cur().territories@.len() && g.map.territories@[(
        #[trigger] g.cur().territories@[k]) as int].state == TerritoryState::Selected
}

/// `j` occurs among the first `k` entries of `nbs`.
pub open spec fn listed_before(nbs: Seq<u32>, k: int, j: int) -> bool {
    exists|k2: int| 0 <= k2 < k && k2 < nbs.len() && nbs[k2] == j
}

/// The click handlers never touch roster, turn, dice stream, board geometry
/// or dimensions.
pub open spec fn click_frame(g: Game, h: Game) -> bool {
    &&& h.players == g.players
    &&& h.turn == g.turn
    &&& h.rng == g.rng
    &&& h.map.territories@.len() == g.map.territories@.len()
    &&& h.map.width == g.map.width
    &&& h.map.height == g.map.height
    &&& h.map.background_color == g.map.background_color
    &&& h.map.background_index == g.map.background_index
    &&& h.map.troops_to_place == g.map.troops_to_place
}

/// What a click on `t` during the placement phase does: on an owned
/// territory with allowance left, it selects `t` and stages one more troop
/// there; any other click is refused.
pub open spec fn place_click_post(g: Game, h: Game, t: int, r: bool) -> bool {
    &&& click_frame(g, h)
    &&& if g.cur_owns_spec(t) && g.map.staged_total() < g.turn.new_troops {
        &&& r
        &&& h.map.territories@ == g.map.territories@.update(
            t,
            (Territory { state: TerritoryState::Selected, ..g.map.territories@[t] }),
        )
        &&& h.map.placement_cache@ == g.map.placement_cache@.update(
            t,
            (g.map.placement_cache@[t] + 1) as u32,
        )
    } else {
        &&& !r
        &&& h.map.territories@ == g.map.territories@
        &&& h.map.placement_cache@ == g.map.placement_cache@
    }
}

/// The marker territory `j` ends with after a selecting click on `t` in the
/// attack phase: `t` selected, its enemy neighbors highlighted, the rest
/// untouched.
pub open spec fn attack_select_state(g: Game, t: int, j: int) -> TerritoryState {
    if j == t {
        TerritoryState::Selected
    } else if g.map.territories@[t].neighbors@.contains(j as u32) && !g.cur_owns_spec(j) {
        TerritoryState::Highlighted
    } else {
        g.map.territories@[j].state
    }
}

/// The marker territory `j` ends with after a targeting click on `t`: every
/// enemy territory but `t` goes dormant and `t` becomes the target.
pub open spec fn target_state(g: Game, t: int, j: int) -> TerritoryState {
    if j == t {
        TerritoryState::Targeted
    } else if !g.cur_owns_spec(j) {
        TerritoryState::Dormant
    } else {
        g.map.territories@[j].state
    }
}

/// The marker territory `j` ends with after a selecting click on `t` in the
/// fortify phase: `t` selected, its friendly neighbors highlighted.
pub open spec fn fortify_select_state(g: Game, t: int, j: int) -> TerritoryState {
    if j == t {
        TerritoryState::Selected
    } else if g.map.territories@[t].neighbors@.contains(j as u32) && g.cur_owns_spec(j) {
        TerritoryState::Highlighted
    } else {
        g.map.territories@[j].state
    }
}

/// The marker territory `j` ends with after a targeting click on `t` in the
/// fortify phase: the owned candidates other than the selected source go
/// dormant and `t` becomes the one target, mirroring the attack rule on the
/// owned side of the border.
pub open spec fn fortify_target_state(g: Game, t: int, j: int) -> TerritoryState {
    if j == t {
        TerritoryState::Targeted
    } else if g.cur_owns_spec(j) && g.map.territories@[j].state != TerritoryState::Selected {
        TerritoryState::Dormant
    } else {
        g.map.territories@[j].state
    }
}

/// Only the markers changed between `g` and `h`, and territory `j` now
/// carries `st(j)`.
pub open spec fn states_become(g: Game, h: Game, st: spec_fn(int) -> TerritoryState) -> bool {
    &&& h.map.territories@.len() == g.map.territories@.len()
    &&& forall|j: int|
        0 <= j < g.map.territories@.len() ==> #[trigger] h.map.territories@[j] == (Territory {
            state: st(j),
            ..g.map.territories@[j]
        })
}

/// What a click on `t` during the attack phase does. On an owned territory:
/// select it and highlight its enemy neighbors if nothing owned is selected;
/// cancel everything if `t` itself is selected; otherwise nothing. On a
/// highlighted enemy territory (not the background): make `t` the one
/// target. Anything else is refused.
pub open spec fn attack_click_post(g: Game, h: Game, t: int, r: bool) -> bool {
    &&& click_frame(g, h)
    &&& h.map.placement_cache@ == g.map.placement_cache@
    &&& if g.cur_owns_spec(t) {
        if !cur_sel(g) {
            &&& r
            &&& states_become(g, h, |j: int| attack_select_state(g, t, j))
        } else if g.map.territories@[t].state == TerritoryState::Selected {
            &&& r
            &&& states_become(g, h, |j: int| TerritoryState::Dormant)
        } else {
            &&& !r
            &&& h.map.territories@ == g.map.territories@
        }
    } else if t != g.map.background_index && g.map.territories@[t].state
        != TerritoryState::Dormant {
        &&& r
        &&& states_become(g, h, |j: int| target_state(g, t, j))
    } else {
        &&& !r
        &&& h.map.territories@ == g.map.territories@
    }
}

/// What a click on `t` during the fortify phase does. On an owned territory:
/// select it and highlight its friendly neighbors if nothing owned is
/// selected; cancel everything if `t` itself is selected; make `t` the
/// target if it carries any marker; otherwise nothing. A click on an enemy
/// territory is refused.
pub open spec fn fortify_click_post(g: Game, h: Game, t: int, r: bool) -> bool {
    &&& click_frame(g, h)
    &&& h.map.placement_cache@ == g.map.placement_cache@
    &&& if g.cur_owns_spec(t) {
        if !cur_sel(g) {
            &&& r
            &&& states_become(g, h, |j: int| fortify_select_state(g, t, j))
        } else if g.map.territories@[t].state == TerritoryState::Selected {
            &&& r
            &&& states_become(g, h, |j: int| TerritoryState::Dormant)
        } else if g.map.territories@[t].state != TerritoryState::Dormant {
            &&& r
            &&& states_become(g, h, |j: int| fortify_target_state(g, t, j))
        } else {
            &&& !r
            &&& h.map.territories@ == g.map.territories@
        }
    } else {
        &&& !r
        &&& h.map.territories@ == g.map.territories@
    }
}

/// Post-state of a fortify transfer of `n` troops from `s` to `d`: the
/// source keeps its garrison minus `n`, the destination gains `n`, every
/// marker is reset, and a pending post-attack fortification is settled.
pub open spec fn fortify_moved(g: Game, h: Game, s: int, d: int, n: int) -> bool {
    &&& h.players == g.players
    &&& h.rng == g.rng
    &&& h.turn.player_index == g.turn.player_index
    &&& h.turn.new_troops == g.turn.new_troops
    &&& h.turn.phase == (if g.turn.phase == TurnPhase::PostAttackFortify {
        TurnPhase::Attack
    } else {
        g.turn.phase
    })
    &&& h.map.placement_cache@ == g.map.placement_cache@
    &&& h.map.width == g.map.width
    &&& h.map.height == g.map.height
    &&& h.map.background_color == g.map.background_color
    &&& h.map.background_index == g.map.background_index
    &&& h.map.troops_to_place == g.map.troops_to_place
    &&& h.map.territories@.len() == g.map.territories@.len()
    &&& forall|i: int|
        0 <= i < g.map.territories@.len() ==> #[trigger] h.map.territories@[i] == (Territory {
            troops: (if i == s {
                (g.troops_at(s) - n) as u32
            } else if i == d {
                (g.troops_at(d) + n) as u32
            } else {
                g.troops_at(i)
            }),
            state: TerritoryState::Dormant,
            ..g.map.territories@[i]
        })
}

/// Post-state of moving all but one troop from `s` to `d`: the source keeps
/// exactly one troop, and the markers are reset. The phase stays as it was.
pub open spec fn fortify_all_moved(g: Game, h: Game, s: int, d: int) -> bool {
    &&& h.players == g.players
    &&& h.rng == g.rng
    &&& h.turn == g.turn
    &&& h.map.placement_cache@ == g.map.placement_cache@
    &&& h.map.width == g.map.width
    &&& h.map.height == g.map.height
    &&& h.map.background_color == g.map.background_color
    &&& h.map.background_index == g.map.background_index
    &&& h.map.troops_to_place == g.map.troops_to_place
    &&& h.map.territories@.len() == g.map.territories@.len()
    &&& forall|i: int|
        0 <= i < g.map.territories@.len() ==> #[trigger] h.map.territories@[i] == (Territory {
            troops: (if i == s {
                1u32
            } else if i == d {
                (g.troops_at(d) + g.troops_at(s) - 1) as u32
            } else {
                g.troops_at(i)
            }),
            state: TerritoryState::Dormant,
            ..g.map.territories@[i]
        })
}

/// Troops left at the attacker's territory out of `ra` surviving attackers:
/// `ra - 2` when more than three survive, else a single garrison troop.
pub open spec fn adjusted_survivors(ra: int) -> int {
    if ra > 3 {
        ra - 2
    } else {
        1
    }
}

/// Troops that occupy a captured territory: the survivors, three at most.
pub open spec fn capture_transfer(ra: int) -> int {
    if ra < 3 {
        ra
    } else {
        3
    }
}

/// Roster change of a capture: the former owner `ow` loses every claim on
/// `d`, the conqueror `cur` gains it once, and nobody else changes.
pub open spec fn capture_roster(ps: Seq<Player>, qs: Seq<Player>, ow: int, cur: int, d: u32) -> bool {
    &&& qs.len() == ps.len()
    &&& forall|p: int| 0 <= p < ps.len() && p != ow && p != cur ==> #[trigger] p_eq(qs[p], ps[p])
    &&& forall|p: int|
        0 <= p < ps.len() ==> #[trigger] qs[p].index == ps[p].index && qs[p].color == ps[p].color
    &&& if ow == cur {
        qs[ow].territories@ == crate::sums::without_value(ps[ow].territories@, d).push(d)
    } else {
        &&& qs[ow].territories@ == crate::sums::without_value(ps[ow].territories@, d)
        &&& qs[cur].territories@ == ps[cur].territories@.push(d)
    }
}

/// Post-state of an engagement the defender survives: both garrisons are
/// reduced by their losses, and nothing else moves.
pub open spec fn attack_survive_post(g: Game, h: Game, a: int, d: int, al: u32, dl: u32) -> bool {
    &&& h.players == g.players
    &&& h.turn == g.turn
    &&& h.map.placement_cache@ == g.map.placement_cache@
    &&& h.map.width == g.map.width
    &&& h.map.height == g.map.height
    &&& h.map.background_color == g.map.background_color
    &&& h.map.background_index == g.map.background_index
    &&& h.map.troops_to_place == g.map.troops_to_place
    &&& h.map.territories@.len() == g.map.territories@.len()
    &&& forall|i: int|
        0 <= i < g.map.territories@.len() ==> #[trigger] h.map.territories@[i] == (Territory {
            troops: (if i == a {
                (g.troops_at(a) - al) as u32
            } else if i == d {
                (g.troops_at(d) - dl) as u32
            } else {
                g.troops_at(i)
            }),
            ..g.map.territories@[i]
        })
}

/// Post-state of a capture with `al` attacker losses out of `troops`
/// committed: the attacker keeps its reserve plus the adjusted survivors,
/// the captured territory receives the marching survivors, ownership moves
/// to the conqueror, colors are repainted, and unless the attacker's
/// garrison fell to one troop the forced post-attack fortification begins.
pub open spec fn attack_capture_post(g: Game, h: Game, a: int, d: int, troops: u32, al: u32) -> bool {
    let ra = troops - al;
    let fa = g.troops_at(a) - troops + adjusted_survivors(ra as int);
    &&& h.turn.player_index == g.turn.player_index
    &&& h.turn.new_troops == g.turn.new_troops
    &&& h.turn.phase == (if fa <= 1 {
        g.turn.phase
    } else {
        TurnPhase::PostAttackFortify
    })
    &&& h.map.placement_cache@ == g.map.placement_cache@
    &&& h.map.width == g.map.width
    &&& h.map.height == g.map.height
    &&& h.map.background_color == g.map.background_color
    &&& h.map.background_index == g.map.background_index
    &&& h.map.troops_to_place == g.map.troops_to_place
    &&& h.map.territories@.len() == g.map.territories@.len()
    &&& forall|i: int|
        0 <= i < g.map.territories@.len() ==> #[trigger] h.map.territories@[i].troops as int == (
        if i == a {
            fa
        } else if i == d {
            capture_transfer(ra as int)
        } else {
            g.troops_at(i) as int
        })
    &&& forall|i: int|
        0 <= i < g.map.territories@.len() ==> #[trigger] h.map.territories@[i].state == (if fa
            <= 1 {
            TerritoryState::Dormant
        } else {
            g.map.territories@[i].state
        })
    &&& crate::map::same_layout(g.map, h.map)
    &&& forall|ow: int|
        0 <= ow < g.players@.len() && #[trigger] g.players@[ow].territories@.contains(d as u32)
            ==> capture_roster(
            g.players@,
            h.players@,
            ow,
            g.turn.player_index as int,
            d as u32,
        )
    &&& forall|p: int, k: int|
        0 <= p < h.players@.len() && 0 <= k < h.players@[p].territories@.len()
            ==> #[trigger] h.map.territories@[h.players@[p].territories@[k] as int].color
            == h.players@[p].color
}

/// Everything `attackWith` guarantees of an engagement between the first
/// selected territory `a` and the first targeted territory `d`: some
/// casualty split `(al, dl)` ending exactly one side decides between the
/// survival and the capture outcome.
pub open spec fn attack_outcome(g: Game, h: Game, a: int, d: int, troops: u32, al: u32, dl: u32) -> bool {
    &&& al <= troops
    &&& dl <= g.troops_at(d)
    &&& al == troops || dl == g.troops_at(d)
    &&& !(al == troops && dl == g.troops_at(d))
    &&& if dl == g.troops_at(d) {
        attack_capture_post(g, h, a, d, troops, al)
    } else {
        attack_survive_post(g, h, a, d, al, dl)
    }
}

/// Everything `attackAll` guarantees between its pre-state `g` and its
/// post-state `h`: an engagement committing the attacker's whole movable
/// garrison, or no change where no engagement is in place.
pub open spec fn attack_all_rel(g: Game, h: Game) -> bool {
    &&& (!crate::map::has_state(g.map.territories@, TerritoryState::Selected)
        || !crate::map::has_state(g.map.territories@, TerritoryState::Targeted)) ==> h == g
    &&& forall|a: int, d: int|
        #![trigger crate::map::is_first_with(g.map.territories@, TerritoryState::Selected, a), crate::map::is_first_with(g.map.territories@, TerritoryState::Targeted, d)]
        crate::map::is_first_with(g.map.territories@, TerritoryState::Selected, a)
            && crate::map::is_first_with(g.map.territories@, TerritoryState::Targeted, d) ==> (
        if g.troops_at(a) <= 1 || !g.map.territories@[a].neighbors@.contains(d as u32) {
            h == g
        } else {
            &&& h.map.territories@[a].troops >= 1
            &&& h.map.territories@[d].troops >= 1
            &&& exists|al: u32, dl: u32|
                #[trigger] attack_outcome(g, h, a, d, (g.troops_at(a) - 1) as u32, al, dl)
        })
}

/// Everything `fortifyAll` guarantees between its pre-state `g` and its
/// post-state `h`.
pub open spec fn fortify_all_rel(g: Game, h: Game) -> bool {
    &&& (!crate::map::has_state(g.map.territories@, TerritoryState::Selected)
        || !crate::map::has_state(g.map.territories@, TerritoryState::Targeted)) ==> h == g
    &&& forall|s: int, d: int|
        #![trigger crate::map::is_first_with(g.map.territories@, TerritoryState::Selected, s), crate::map::is_first_with(g.map.territories@, TerritoryState::Targeted, d)]
        crate::map::is_first_with(g.map.territories@, TerritoryState::Selected, s)
            && crate::map::is_first_with(g.map.territories@, TerritoryState::Targeted, d)
            ==> fortify_all_moved(g, h, s, d)
}

/// After a targeting click in the attack phase, exactly one territory on
/// the whole board carries the target marker — provided no territory of the
/// current player carried it already (a marker that only a phase switch in
/// the middle of a selection can leave behind).
pub proof fn lemma_one_target_after_click(g: Game, h: Game, t: int)
    requires
        g.wf(),
        0 <= t < g.n(),
        !g.cur_owns_spec(t),
        t != g.map.background_index,
        g.map.territories@[t].state != TerritoryState::Dormant,
        attack_click_post(g, h, t, true),
        forall|j: int|
            0 <= j < g.n() && g.cur_owns_spec(j) ==> (#[trigger] g.map.territories@[j]).state
                != TerritoryState::Targeted,
    ensures
        crate::map::state_count(h.map.territories@, TerritoryState::Targeted) == 1,
{
    assert(states_become(g, h, |j: int| target_state(g, t, j)));
    assert forall|j: int| 0 <= j < h.map.territories@.len() && j != t implies (
    #[trigger] h.map.territories@[j]).state != TerritoryState::Targeted by {
        assert(h.map.territories@[j].state == target_state(g, t, j));
    }
    assert(h.map.territories@[t].state == target_state(g, t, t));
    crate::map::lemma_state_count_single(h.map.territories@, TerritoryState::Targeted, t);
}

/// After a targeting click in the fortify phase, exactly one territory on
/// the whole board carries the target marker — provided no enemy territory
/// carried it already (a marker that only a phase switch in the middle of a
/// selection can leave behind).
pub proof fn lemma_one_target_after_fortify_click(g: Game, h: Game, t: int)
    requires
        g.wf(),
        0 <= t < g.n(),
        g.cur_owns_spec(t),
        cur_sel(g),
        g.map.territories@[t].state != TerritoryState::Selected,
        g.map.territories@[t].state != TerritoryState::Dormant,
        fortify_click_post(g, h, t, true),
        forall|j: int|
            0 <= j < g.n() && !g.cur_owns_spec(j) ==> (#[trigger] g.map.territories@[j]).state
                != TerritoryState::Targeted,
    ensures
        crate::map::state_count(h.map.territories@, TerritoryState::Targeted) == 1,
{
    assert(states_become(g, h, |j: int| fortify_target_state(g, t, j)));
    assert forall|j: int| 0 <= j < h.map.territories@.len() && j != t implies (
    #[trigger] h.map.territories@[j]).state != TerritoryState::Targeted by {
        assert(h.map.territories@[j].state == fortify_target_state(g, t, j));
    }
    assert(h.map.territories@[t].state == fortify_target_state(g, t, t));
    crate::map::lemma_state_count_single(h.map.territories@, TerritoryState::Targeted, t);
}

/// After a selecting click in the attack phase, exactly one territory on
/// the whole board carries the selection marker — provided none carried it
/// before the click.
pub proof fn lemma_one_selected_after_click(g: Game, h: Game, t: int)
    requires
        g.wf(),
        0 <= t < g.n(),
        g.cur_owns_spec(t),
        !cur_sel(g),
        attack_click_post(g, h, t, true),
        forall|j: int|
            0 <= j < g.n() ==> (#[trigger] g.map.territories@[j]).state
                != TerritoryState::Selected,
    ensures
        crate::map::state_count(h.map.territories@, TerritoryState::Selected) == 1,
{
    assert(states_become(g, h, |j: int| attack_select_state(g, t, j)));
    assert forall|j: int| 0 <= j < h.map.territories@.len() && j != t implies (
    #[trigger] h.map.territories@[j]).state != TerritoryState::Selected by {
        assert(h.map.territories@[j].state == attack_select_state(g, t, j));
    }
    assert(h.map.territories@[t].state == attack_select_state(g, t, t));
    crate::map::lemma_state_count_single(h.map.territories@, TerritoryState::Selected, t);
}

/// A capture transfers ownership exactly: afterwards the conqueror's list
/// holds the captured territory exactly once, nobody else's does, and every
/// territory is listed across all players exactly as often as before.
pub proof fn lemma_capture_exact(g: Game, h: Game, a: int, d: int, troops: u32, al: u32)
    requires
        g.wf(),
        0 <= d < g.n(),
        attack_capture_post(g, h, a, d, troops, al),
    ensures
        count_of(h.players@[g.turn.player_index as int].territories@, d as u32) == 1,
        forall|p: int|
            0 <= p < h.players@.len() && p != g.turn.player_index ==> count_of(
                #[trigger] h.players@[p].territories@,
                d as u32,
            ) == 0,
        forall|t: u32| #[trigger] owned_count(h.players@, t) == owned_count(g.players@, t),
{
    let ps = g.players@;
    let qs = h.players@;
    let cur = g.turn.player_index as int;
    let d32 = d as u32;
    assert(owned_count(ps, d32) == 1);
    crate::player::lemma_partition_has_owner(ps, g.n(), d32);
    let ow = choose|p: int|
        0 <= p < ps.len() && #[trigger] count_of(ps[p].territories@, d32) > 0 && ps[p].territories@.contains(d32);
    assert(capture_roster(ps, qs, ow, cur, d32));
    crate::player::lemma_owned_count_element_le(ps, ow, d32);
    crate::sums::lemma_count_contains(ps[ow].territories@, d32);
    assert(count_of(ps[ow].territories@, d32) == 1);
    assert forall|t: u32| #[trigger] owned_count(qs, t) == owned_count(ps, t) by {
        let mid = ps.update(ow, qs[ow]);
        let mid2 = if ow == cur {
            mid
        } else {
            mid.update(cur, qs[cur])
        };
        assert forall|p: int| 0 <= p < qs.len() implies mid2[p].territories@ == (
        #[trigger] qs[p].territories@) by {
            if p != ow && p != cur {
                assert(p_eq(qs[p], ps[p]));
            }
        }
        crate::player::lemma_owned_count_pointwise(mid2, qs, t);
        crate::player::lemma_owned_count_update(ps, ow, qs[ow], t);
        crate::sums::lemma_count_filter_out(ps[ow].territories@, d32, t);
        if ow == cur {
            crate::sums::lemma_count_push(
                crate::sums::without_value(ps[ow].territories@, d32),
                d32,
                t,
            );
        } else {
            crate::player::lemma_owned_count_update(mid, cur, qs[cur], t);
            crate::sums::lemma_count_push(ps[cur].territories@, d32, t);
        }
    }
    assert(count_of(qs[cur].territories@, d32) == 1) by {
        crate::sums::lemma_count_filter_out(ps[ow].territories@, d32, d32);
        if ow == cur {
            crate::sums::lemma_count_push(
                crate::sums::without_value(ps[ow].territories@, d32),
                d32,
                d32,
            );
        } else {
            crate::sums::lemma_count_push(ps[cur].territories@, d32, d32);
            crate::player::lemma_owned_count_two_le(ps, ow, cur, d32);
            crate::sums::lemma_count_nonneg(ps[cur].territories@, d32);
        }
    }
    assert forall|p: int|
        0 <= p < qs.len() && p != cur implies count_of(#[trigger] qs[p].territories@, d32)
        == 0 by {
        crate::sums::lemma_count_nonneg(qs[p].territories@, d32);
        crate::player::lemma_owned_count_two_le(qs, p, cur, d32);
        crate::sums::lemma_count_nonneg(ps[p].territories@, d32);
        assert(owned_count(qs, d32) == 1);
    }
}

/// The roster positions whose players still hold territory, in order, taken
/// from the first `i` players.
pub open spec fn active_seq(ps: Seq<Player>, i: int) -> Seq<usize>
    decreases i,
{
    if i <= 0 {
        Seq::empty()
    } else if ps[i - 1].territories@.len() > 0 {
        active_seq(ps, i - 1).push(ps[i - 1].index as usize)
    } else {
        active_seq(ps, i - 1)
    }
}

impl Game {
    /// Indices of the players still in the game.
    pub fn active_players(&self) -> (r: Vec<usize>)
        ensures
            r@ == active_seq(self.players@, self.players@.len() as int),
    {
        let mut r: Vec<usize> = Vec::new();
        let mut i: usize = 0;
        while i < self.players.len()
            invariant
                i <= self.players@.len(),
                r@ == active_seq(self.players@, i as int),
            decreases self.players@.len() - i,
        {
            if !self.players[i].is_eliminated() {
                r.push(self.players[i].index as usize);
            }
            i = i + 1;
        }
        r
    }

    /// The match is over once at most one player still holds territory.
    pub fn is_over(&self) -> (r: bool)
        ensures
            r == (active_seq(self.players@, self.players@.len() as int).len() <= 1),
    {
        let active_players: Vec<usize> = self.active_players();
        active_players.len() <= 1
    }

    pub fn get_troops_to_place(&self) -> (r: usize)
        ensures
            r == self.map.troops_to_place,
    {
        self.map.troops_to_place
    }

    pub fn set_troops_to_place(&mut self, t: usize)
        ensures
            final(self).map == (GameMap { troops_to_place: t, ..old(self).map }),
            final(self).players == old(self).players,
            final(self).turn == old(self).turn,
            final(self).rng == old(self).rng,
    {
        self.map.troops_to_place = t;
    }

    pub fn new_troops(&self) -> (r: u32)
        ensures
            r == self.turn.new_troops,
    {
        self.turn.new_troops
    }

    pub fn on_player_index(&self) -> (r: usize)
        ensures
            r == self.turn.player_index,
    {
        self.turn.player_index as usize
    }

    pub fn turn_phase(&self) -> (r: TurnPhase)
        ensures
            r == self.turn.phase,
    {
        self.turn.phase
    }

    /// The fixed per-turn reinforcement allowance.
    pub fn calc_troop_bonus(&self) -> (r: usize)
        ensures
            r == TROOP_BONUS,
    {
        5
    }

    pub fn on_player(&self) -> (r: &Player)
        requires
            self.turn.player_index < self.players@.len(),
        ensures
            *r == self.players@[self.turn.player_index as int],
    {
        &self.players[self.turn.player_index as usize]
    }

    /// Switches to the placement phase, unless a post-attack transfer is
    /// still owed.
    pub fn place_phase(&mut self)
        ensures
            final(self).map == old(self).map,
            final(self).players == old(self).players,
            final(self).rng == old(self).rng,
            final(self).turn.player_index == old(self).turn.player_index,
            final(self).turn.new_troops == old(self).turn.new_troops,
            final(self).turn.phase == (if old(self).turn.phase == TurnPhase::PostAttackFortify {
                TurnPhase::PostAttackFortify
            } else {
                TurnPhase::Place
            }),
    {
        if self.turn.phase != TurnPhase::PostAttackFortify {
            self.turn.phase = TurnPhase::Place;
        }
    }

    /// Switches to the attack phase, unless a post-attack transfer is still
    /// owed.
    pub fn attack_phase(&mut self)
        ensures
            final(self).map == old(self).map,
            final(self).players == old(self).players,
            final(self).rng == old(self).rng,
            final(self).turn.player_index == old(self).turn.player_index,
            final(self).turn.new_troops == old(self).turn.new_troops,
            final(self).turn.phase == (if old(self).turn.phase == TurnPhase::PostAttackFortify {
                TurnPhase::PostAttackFortify
            } else {
                TurnPhase::Attack
            }),
    {
        if self.turn.phase != TurnPhase::PostAttackFortify {
            self.turn.phase = TurnPhase::Attack;
        }
    }

    /// Switches to the fortify phase, unless a post-attack transfer is still
    /// owed.
    pub fn fortify_phase(&mut self)
        ensures
            final(self).map == old(self).map,
            final(self).players == old(self).players,
            final(self).rng == old(self).rng,
            final(self).turn.player_index == old(self).turn.player_index,
            final(self).turn.new_troops == old(self).turn.new_troops,
            final(self).turn.phase == (if old(self).turn.phase == TurnPhase::PostAttackFortify {
                TurnPhase::PostAttackFortify
            } else {
                TurnPhase::Fortify
            }),
    {
        if self.turn.phase != TurnPhase::PostAttackFortify {
            self.turn.phase = TurnPhase::Fortify;
        }
    }

    pub fn is_place_phase(&self) -> (r: bool)
        ensures
            r == (self.turn.phase == TurnPhase::Place),
    {
        self.turn.phase == TurnPhase::Place
    }

    pub fn is_attack_phase(&self) -> (r: bool)
        ensures
            r == (self.turn.phase == TurnPhase::Attack),
    {
        self.turn.phase == TurnPhase::Attack
    }

    /// Both the explicit fortify phase and the forced post-attack transfer
    /// count as fortifying.
    pub fn is_fortify_phase(&self) -> (r: bool)
        ensures
            r == (self.turn.phase == TurnPhase::Fortify || self.turn.phase
                == TurnPhase::PostAttackFortify),
    {
        self.turn.phase == TurnPhase::Fortify || self.turn.phase == TurnPhase::PostAttackFortify
    }

    /// Some territory is targeted.
    pub fn target_selected(&self) -> (r: bool)
        ensures
            r == crate::map::has_state(self.map.territories@, TerritoryState::Targeted),
    {
        self.map.find_state_index(TerritoryState::Targeted).is_some()
    }

    pub fn selected_territory_index(&self) -> (r: Option<usize>)
        ensures
            match r {
                Option::Some(i) => crate::map::is_first_with(
                    self.map.territories@,
                    TerritoryState::Selected,
                    i as int,
                ),
                Option::None => !crate::map::has_state(
                    self.map.territories@,
                    TerritoryState::Selected,
                ),
            },
    {
        self.map.find_state_index(TerritoryState::Selected)
    }

    pub fn targeted_territory_index(&self) -> (r: Option<usize>)
        ensures
            match r {
                Option::Some(i) => crate::map::is_first_with(
                    self.map.territories@,
                    TerritoryState::Targeted,
                    i as int,
                ),
                Option::None => !crate::map::has_state(
                    self.map.territories@,
                    TerritoryState::Targeted,
                ),
            },
    {
        self.map.find_state_index(TerritoryState::Targeted)
    }

    pub fn selected_territory_with_index(&self) -> (r: Option<(usize, &Territory)>)
        ensures
            match r {
                Option::Some(p) => crate::map::is_first_with(
                    self.map.territories@,
                    TerritoryState::Selected,
                    p.0 as int,
                ) && *p.1 == self.map.territories@[p.0 as int],
                Option::None => !crate::map::has_state(
                    self.map.territories@,
                    TerritoryState::Selected,
                ),
            },
    {
        match self.map.find_state_index(TerritoryState::Selected) {
            Some(i) => Some((i, &self.map.territories[i])),
            None => None,
        }
    }

    pub fn targeted_territory_with_index(&self) -> (r: Option<(usize, &Territory)>)
        ensures
            match r {
                Option::Some(p) => crate::map::is_first_with(
                    self.map.territories@,
                    TerritoryState::Targeted,
                    p.0 as int,
                ) && *p.1 == self.map.territories@[p.0 as int],
                Option::None => !crate::map::has_state(
                    self.map.territories@,
                    TerritoryState::Targeted,
                ),
            },
    {
        match self.map.find_state_index(TerritoryState::Targeted) {
            Some(i) => Some((i, &self.map.territories[i])),
            None => None,
        }
    }

    /// The garrison of the first selected territory, or 0 with nothing
    /// selected.
    pub fn troops_available_for_movement(&self) -> (r: usize)
        ensures
            if crate::map::has_state(self.map.territories@, TerritoryState::Selected) {
                exists|i: int|
                    #[trigger] crate::map::is_first_with(
                        self.map.territories@,
                        TerritoryState::Selected,
                        i,
                    ) && r == self.map.territories@[i].troops
            } else {
                r == 0
            },
    {
        match self.map.find_state_index(TerritoryState::Selected) {
            Some(i) => self.map.territories[i].troops as usize,
            None => 0,
        }
    }

    /// Total of the troops staged in the placement ledger.
    fn staged_sum(&self) -> (r: u32)
        requires
            self.map.staged_total() <= u32::MAX,
        ensures
            r == self.map.staged_total(),
    {
        let ghost c = self.map.placement_cache@;
        let mut acc: u32 = 0;
        let mut i: usize = 0;
        proof {
            assert(c.take(0) =~= Seq::<u32>::empty());
        }
        while i < self.map.placement_cache.len()
            invariant
                i <= c.len(),
                self.map.placement_cache@ == c,
                sum_u32(c) <= u32::MAX,
                acc == sum_u32(c.take(i as int)),
            decreases c.len() - i,
        {
            proof {
                crate::sums::lemma_sum_take_succ(c, i as int);
                crate::sums::lemma_sum_prefix_le(c, i + 1);
                crate::sums::lemma_sum_nonneg(c.take(i + 1));
            }
            acc = acc + self.map.placement_cache[i];
            i = i + 1;
        }
        proof {
            assert(c.take(c.len() as int) =~= c);
        }
        acc
    }

    /// Total of every garrison on the board.
    fn total_troops(&self) -> (r: u32)
        requires
            self.map.troops_total() <= u32::MAX,
        ensures
            r == self.map.troops_total(),
    {
        let ghost s = crate::map::troops_of(self.map.territories@);
        let mut acc: u32 = 0;
        let mut i: usize = 0;
        proof {
            assert(s.take(0) =~= Seq::<u32>::empty());
        }
        while i < self.map.territories.len()
            invariant
                i <= s.len(),
                s == crate::map::troops_of(self.map.territories@),
                s.len() == self.map.territories@.len(),
                sum_u32(s) <= u32::MAX,
                acc == sum_u32(s.take(i as int)),
            decreases s.len() - i,
        {
            proof {
                crate::sums::lemma_sum_take_succ(s, i as int);
                crate::sums::lemma_sum_prefix_le(s, i + 1);
                crate::sums::lemma_sum_nonneg(s.take(i + 1));
            }
            acc = acc + self.map.territories[i].troops;
            i = i + 1;
        }
        proof {
            assert(s.take(s.len() as int) =~= s);
        }
        acc
    }

    /// Troops staged this turn but not yet committed.
    pub fn troops_staged_for_placement(&self) -> (r: usize)
        requires
            self.map.staged_total() <= u32::MAX,
        ensures
            r == self.map.staged_total(),
    {
        self.staged_sum() as usize
    }

    /// Troops of this turn's allowance not yet staged.
    pub fn troops_available_for_placement(&self) -> (r: u32)
        requires
            self.map.staged_total() <= self.turn.new_troops,
        ensures
            r == self.turn.new_troops - self.map.staged_total(),
    {
        let uncommitted: u32 = self.turn.new_troops;
        let cached: u32 = self.staged_sum();
        uncommitted - cached
    }

    /// The whole allowance of this turn is staged.
    pub fn hit_troop_placement_limit(&self) -> (r: bool)
        requires
            self.map.staged_total() <= self.turn.new_troops,
        ensures
            r == (self.map.staged_total() == self.turn.new_troops),
    {
        self.troops_available_for_placement() == 0
    }

    /// Discards every staged troop and resets every marker: the cancel of the
    /// placement transaction.
    pub fn clear_placement_cache(&mut self)
        ensures
            final(self).players == old(self).players,
            final(self).turn == old(self).turn,
            final(self).rng == old(self).rng,
            final(self).map.territories@.len() == old(self).map.territories@.len(),
            forall|i: int|
                0 <= i < old(self).map.territories@.len() ==> #[trigger] final(self).map.territories@[i]
                    == (Territory {
                    state: TerritoryState::Dormant,
                    ..old(self).map.territories@[i]
                }),
            final(self).map.placement_cache@.len() == old(self).map.placement_cache@.len(),
            forall|i: int|
                0 <= i < old(self).map.placement_cache@.len() ==> #[trigger] final(self).map.placement_cache@[i]
                    == 0,
            final(self).map.width == old(self).map.width,
            final(self).map.height == old(self).map.height,
            final(self).map.background_color == old(self).map.background_color,
            final(self).map.background_index == old(self).map.background_index,
            final(self).map.troops_to_place == old(self).map.troops_to_place,
    {
        let ghost c0 = old(self).map.placement_cache@;
        let mut i: usize = 0;
        while i < self.map.placement_cache.len()
            invariant
                i <= c0.len(),
                self.map.placement_cache@.len() == c0.len(),
                forall|j: int| 0 <= j < i ==> #[trigger] self.map.placement_cache@[j] == 0,
                self.map.territories@ == old(self).map.territories@,
                self.map.width == old(self).map.width,
                self.map.height == old(self).map.height,
                self.map.background_color == old(self).map.background_color,
                self.map.background_index == old(self).map.background_index,
                self.map.troops_to_place == old(self).map.troops_to_place,
                self.players == old(self).players,
                self.turn == old(self).turn,
                self.rng == old(self).rng,
            decreases c0.len() - i,
        {
            self.map.placement_cache[i] = 0;
            i = i + 1;
        }
        self.unselect_all();
    }

    /// Applies every staged troop to its territory's garrison, spends that
    /// much of the turn's allowance, unselects everything and empties the
    /// ledger, all in one step.
    pub fn commit_placement_cache(&mut self)
        requires
            old(self).wf(),
        ensures
            final(self).wf(),
            final(self).players == old(self).players,
            final(self).rng == old(self).rng,
            final(self).turn.player_index == old(self).turn.player_index,
            final(self).turn.phase == old(self).turn.phase,
            final(self).turn.new_troops == old(self).turn.new_troops - old(self).map.staged_total(),
            final(self).map.territories@.len() == old(self).map.territories@.len(),
            forall|i: int|
                0 <= i < old(self).map.territories@.len() ==> #[trigger] final(self).map.territories@[i]
                    == (Territory {
                    troops: (old(self).map.territories@[i].troops
                        + old(self).map.placement_cache@[i]) as u32,
                    state: TerritoryState::Dormant,
                    ..old(self).map.territories@[i]
                }),
            final(self).map.placement_cache@.len() == old(self).map.placement_cache@.len(),
            forall|i: int|
                0 <= i < old(self).map.placement_cache@.len() ==> #[trigger] final(self).map.placement_cache@[i]
                    == 0,
            final(self).map.width == old(self).map.width,
            final(self).map.height == old(self).map.height,
            final(self).map.background_color == old(self).map.background_color,
            final(self).map.background_index == old(self).map.background_index,
            final(self).map.troops_to_place == old(self).map.troops_to_place,
    {
        let ghost t0 = old(self).map.territories@;
        let ghost c0 = old(self).map.placement_cache@;
        let ghost s0 = crate::map::troops_of(t0);
        proof {
            crate::sums::lemma_sum_nonneg(c0);
            assert forall|i: int| 0 <= i < t0.len() implies #[trigger] t0[i].troops + c0[i]
                <= u32::MAX by {
                crate::sums::lemma_sum_element_le(s0, i);
                crate::sums::lemma_sum_element_le(c0, i);
                assert(s0[i] == t0[i].troops);
            }
        }
        let troops_placed: u32 = self.staged_sum();
        let updated_troops_available = self.turn.new_troops - troops_placed;
        let mut i: usize = 0;
        while i < self.map.territories.len()
            invariant
                i <= t0.len(),
                self.map.territories@.len() == t0.len(),
                self.map.placement_cache@.len() == t0.len(),
                c0.len() == t0.len(),
                forall|j: int| 0 <= j < t0.len() ==> #[trigger] t0[j].troops + c0[j] <= u32::MAX,
                forall|j: int|
                    0 <= j < i ==> #[trigger] self.map.territories@[j] == (Territory {
                        troops: (t0[j].troops + c0[j]) as u32,
                        ..t0[j]
                    }),
                forall|j: int| 0 <= j < i ==> #[trigger] self.map.placement_cache@[j] == 0,
                forall|j: int| i <= j < t0.len() ==> #[trigger] self.map.territories@[j] == t0[j],
                forall|j: int| i <= j < t0.len() ==> #[trigger] self.map.placement_cache@[j] == c0[j],
                self.map.width == old(self).map.width,
                self.map.height == old(self).map.height,
                self.map.background_color == old(self).map.background_color,
                self.map.background_index == old(self).map.background_index,
                self.map.troops_to_place == old(self).map.troops_to_place,
                self.players == old(self).players,
                self.turn == old(self).turn,
                self.rng == old(self).rng,
            decreases t0.len() - i,
        {
            let staged = self.map.placement_cache[i];
            let current = self.map.territories[i].troops;
            self.map.territories[i].troops = current + staged;
            self.map.placement_cache[i] = 0;
            i = i + 1;
        }
        self.unselect_all();
        self.turn.new_troops = updated_troops_available;
        proof {
            let t2 = final(self).map.territories@;
            let c2 = final(self).map.placement_cache@;
            assert forall|j: int| 0 <= j < t0.len() implies #[trigger] t2[j] == (Territory {
                troops: (t0[j].troops + c0[j]) as u32,
                state: TerritoryState::Dormant,
                ..t0[j]
            }) by {}
            assert(crate::map::same_layout(old(self).map, final(self).map));
            crate::map::lemma_graph_wf_preserved(old(self).map, final(self).map);
            crate::sums::lemma_sum_zero(c2);
            assert forall|j: int| 0 <= j < t0.len() implies #[trigger] crate::map::troops_of(t2)[j]
                == s0[j] + c0[j] by {
                assert(t2[j].troops == t0[j].troops + c0[j]);
            }
            crate::sums::lemma_sum_pointwise_add(s0, c0, crate::map::troops_of(t2));
        }
    }

    /// Adds troops to a territory's garrison.
    pub fn add_troops(&mut self, target: &usize, troops: &usize)
        requires
            *target < old(self).map.territories@.len(),
            old(self).map.territories@[*target as int].troops + *troops <= u32::MAX,
        ensures
            final(self).players == old(self).players,
            final(self).turn == old(self).turn,
            final(self).rng == old(self).rng,
            final(self).map.territories@ == old(self).map.territories@.update(
                *target as int,
                (Territory {
                    troops: (old(self).map.territories@[*target as int].troops + *troops) as u32,
                    ..old(self).map.territories@[*target as int]
                }),
            ),
            final(self).map.width == old(self).map.width,
            final(self).map.height == old(self).map.height,
            final(self).map.background_color == old(self).map.background_color,
            final(self).map.background_index == old(self).map.background_index,
            final(self).map.troops_to_place == old(self).map.troops_to_place,
            final(self).map.placement_cache@ == old(self).map.placement_cache@,
    {
        let current_troops = self.map.territories[*target].troops;
        let new_troops = current_troops + (*troops as u32);
        self.map.territories[*target].troops = new_troops;
    }

    /// Removes troops from a territory's garrison; a removal larger than the
    /// garrison is rejected as a no-op rather than allowed to underflow.
    pub fn sub_troops(&mut self, target: &usize, troops: &usize)
        requires
            *target < old(self).map.territories@.len(),
        ensures
            final(self).players == old(self).players,
            final(self).turn == old(self).turn,
            final(self).rng == old(self).rng,
            *troops <= old(self).map.territories@[*target as int].troops ==> final(self).map.territories@
                == old(self).map.territories@.update(
                *target as int,
                (Territory {
                    troops: (old(self).map.territories@[*target as int].troops - *troops) as u32,
                    ..old(self).map.territories@[*target as int]
                }),
            ),
            *troops > old(self).map.territories@[*target as int].troops ==> final(self).map.territories@
                == old(self).map.territories@,
            final(self).map.width == old(self).map.width,
            final(self).map.height == old(self).map.height,
            final(self).map.background_color == old(self).map.background_color,
            final(self).map.background_index == old(self).map.background_index,
            final(self).map.troops_to_place == old(self).map.troops_to_place,
            final(self).map.placement_cache@ == old(self).map.placement_cache@,
    {
        let current_troops = self.map.territories[*target].troops;
        if *troops <= current_troops as usize {
            let new_troops = current_troops - (*troops as u32);
            self.map.territories[*target].troops = new_troops;
        }
        proof {
            if *troops > old(self).map.territories@[*target as int].troops {
                assert(final(self).map.territories@ =~= old(self).map.territories@);
            }
        }
    }

    /// Sets a territory's garrison outright.
    pub fn set_troops(&mut self, target: &usize, troops: &usize)
        requires
            *target < old(self).map.territories@.len(),
            *troops <= u32::MAX,
        ensures
            final(self).players == old(self).players,
            final(self).turn == old(self).turn,
            final(self).rng == old(self).rng,
            final(self).map.territories@ == old(self).map.territories@.update(
                *target as int,
                (Territory {
                    troops: *troops as u32,
                    ..old(self).map.territories@[*target as int]
                }),
            ),
            final(self).map.width == old(self).map.width,
            final(self).map.height == old(self).map.height,
            final(self).map.background_color == old(self).map.background_color,
            final(self).map.background_index == old(self).map.background_index,
            final(self).map.troops_to_place == old(self).map.troops_to_place,
            final(self).map.placement_cache@ == old(self).map.placement_cache@,
    {
        self.map.territories[*target].troops = *troops as u32;
    }

    /// Rebuilds an observably equal copy of the board.
    pub fn get_map(&self) -> (r: GameMap)
        ensures
            map_obs_eq(self.map, r),
    {
        let mut ts: Vec<Territory> = Vec::new();
        let mut i: usize = 0;
        while i < self.map.territories.len()
            invariant
                i <= self.map.territories@.len(),
                ts@.len() == i,
                forall|j: int|
                    0 <= j < i ==> #[trigger] crate::map::t_eq(
                        ts@[j],
                        self.map.territories@[j],
                    ),
            decreases self.map.territories@.len() - i,
        {
            ts.push(crate::map::copy_territory(&self.map.territories[i]));
            i = i + 1;
        }
        let m = GameMap {
            width: self.map.width,
            height: self.map.height,
            territories: ts,
            background_color: self.map.background_color,
            background_index: self.map.background_index,
            troops_to_place: self.map.troops_to_place,
            placement_cache: crate::map::copy_vec_u32(&self.map.placement_cache),
        };
        proof {
            assert forall|j: int| #![all_triggers] 0 <= j < self.map.territories@.len() implies {
                &&& m.territories@[j].neighbors@ == self.map.territories@[j].neighbors@
                &&& m.territories@[j].vertices@ == self.map.territories@[j].vertices@
                &&& m.territories@[j].center == self.map.territories@[j].center
                &&& m.territories@[j].color == self.map.territories@[j].color
                &&& m.territories@[j].troops == self.map.territories@[j].troops
                &&& m.territories@[j].state == self.map.territories@[j].state
            } by {
                assert(crate::map::t_eq(m.territories@[j], self.map.territories@[j]));
            }
        }
        m
    }

    /// Builds a match on the given board with the given dice seed: two
    /// players, territories dealt round-robin, colors painted, the first
    /// turn's allowance granted.
    pub fn new(seed: u64, map: GameMap) -> (g: Game)
        requires
            map.init_ok(),
        ensures
            g.wf(),
            g.turn.phase == TurnPhase::Place,
            g.turn.player_index == 0,
            g.turn.new_troops == (if map.troops_total() + TROOP_BONUS <= u32::MAX {
                TROOP_BONUS as int
            } else {
                u32::MAX - map.troops_total()
            }),
            g.players@.len() == 2,
            g.players@[0].index == 0,
            g.players@[0].color == 0xAA1111,
            g.players@[0].territories@ == rr_seq(0, 2, map.territories@.len() as int),
            g.players@[1].index == 1,
            g.players@[1].color == 0x11AA11,
            g.players@[1].territories@ == rr_seq(1, 2, map.territories@.len() as int),
            g.map.territories@.len() == map.territories@.len(),
            forall|t: int|
                0 <= t < map.territories@.len() ==> #[trigger] g.map.territories@[t] == (Territory {
                    color: (if t % 2 == 0 {
                        0xAA1111u32
                    } else {
                        0x11AA11u32
                    }),
                    ..map.territories@[t]
                }),
            g.map.placement_cache@ == map.placement_cache@,
            g.map.width == map.width,
            g.map.height == map.height,
            g.map.background_color == map.background_color,
            g.map.background_index == map.background_index,
            g.map.troops_to_place == map.troops_to_place,
    {
        let rng: StdRng = rng_from_seed(seed);
        let mut players: Vec<Player> = Vec::new();
        players.push(Player { index: 0, color: 0xAA1111, territories: Vec::new() });
        players.push(Player { index: 1, color: 0x11AA11, territories: Vec::new() });
        let turn = Turn { player_index: 0, phase: TurnPhase::Place, new_troops: 0 };
        let ghost m0 = map;
        let mut game = Game { map, players, turn, rng };
        let ghost n = m0.territories@.len() as int;
        game.assign_territories();
        proof {
            assert(game.players@[0].territories@ =~= rr_seq(0, 2, n));
            assert(game.players@[1].territories@ =~= rr_seq(1, 2, n));
            let ps = game.players@;
            assert forall|t: u32| t < n implies #[trigger] owned_count(ps, t) == 1 by {
                lemma_rr_count(0, 2, n, t);
                lemma_rr_count(1, 2, n, t);
                assert(ps.drop_last() =~= seq![ps[0]]);
                assert(seq![ps[0]].drop_last() =~= Seq::<Player>::empty());
                reveal_with_fuel(owned_count, 3);
            }
            assert forall|p: int, k: int|
                0 <= p < ps.len() && 0 <= k < ps[p].territories@.len() implies #[trigger] ps[p].territories@[k]
                < n by {
                lemma_rr_members(p, 2, n, k);
            }
            assert(players_partition(ps, n));
            crate::player::lemma_partition_disjoint(ps, n);
        }
        game.update_colors();
        proof {
            let ps = game.players@;
            assert forall|t: int| 0 <= t < n implies #[trigger] game.map.territories@[t]
                == (Territory {
                color: (if t % 2 == 0 {
                    0xAA1111u32
                } else {
                    0x11AA11u32
                }),
                ..m0.territories@[t]
            }) by {
                let p = t % 2;
                lemma_rr_count(p, 2, n, t as u32);
                crate::sums::lemma_count_contains(ps[p].territories@, t as u32);
                let k = choose|k: int|
                    0 <= k < ps[p].territories@.len() && ps[p].territories@[k] == t as u32;
                assert(game.map.territories@[ps[p].territories@[k] as int].color == ps[p].color);
            }
            assert(crate::map::troops_of(game.map.territories@) =~= crate::map::troops_of(
                m0.territories@,
            ));
            assert(crate::map::same_layout(m0, game.map));
            crate::map::lemma_graph_wf_preserved(m0, game.map);
        }
        let total = game.total_troops();
        let troops = if total <= u32::MAX - 5 {
            5
        } else {
            u32::MAX - total
        };
        game.turn.new_troops = troops;
        proof {
            crate::sums::lemma_sum_zero(game.map.placement_cache@);
        }
        game
    }

    /// Whether the current player owns territory `t`.
    fn cur_owns(&self, t: u32) -> (r: bool)
        requires
            self.turn.player_index < self.players@.len(),
        ensures
            r == self.cur().territories@.contains(t),
    {
        crate::map::vec_contains_u32(
            &self.players[self.turn.player_index as usize].territories,
            t,
        )
    }

    /// Whether any territory of the current player is selected.
    #[verifier::spinoff_prover]
    fn any_owned_selected(&self) -> (r: bool)
        requires
            self.turn.player_index < self.players@.len(),
            forall|k: int|
                0 <= k < self.cur().territories@.len() ==> #[trigger] self.cur().territories@[k]
                    < self.map.territories@.len(),
        ensures
            r == cur_sel(*self),
    {
        let own = &self.players[self.turn.player_index as usize].territories;
        proof {
            assert(own@ == self.cur().territories@);
            assert forall|j: int| 0 <= j < own@.len() implies #[trigger] own@[j]
                < self.map.territories@.len() by {
                assert(self.cur().territories@[j] < self.map.territories@.len());
            }
        }
        let mut k: usize = 0;
        while k < own.len()
            invariant
                own@ == self.cur().territories@,
                k <= own@.len(),
                forall|j: int|
                    0 <= j < own@.len() ==> #[trigger] own@[j] < self.map.territories@.len(),
                forall|j: int|
                    0 <= j < k ==> self.map.territories@[(#[trigger] own@[j]) as int].state
                        != TerritoryState::Selected,
            decreases own@.len() - k,
        {
            if self.map.territories[own[k] as usize].state == TerritoryState::Selected {
                return true;
            }
            k = k + 1;
        }
        false
    }

    /// A placement-phase click: stage one troop on an owned territory.
    fn place_click(&mut self, territory: usize) -> (r: bool)
        requires
            old(self).wf(),
            territory < old(self).map.territories@.len(),
        ensures
            final(self).wf(),
            place_click_post(*old(self), *final(self), territory as int, r),
    {
        let t32 = territory as u32;
        let allowed = !self.hit_troop_placement_limit();
        if self.cur_owns(t32) && allowed {
            self.map.territories[territory].state = TerritoryState::Selected;
            let staged = self.map.placement_cache[territory];
            proof {
                crate::sums::lemma_sum_element_le(old(self).map.placement_cache@, territory as int);
                crate::sums::lemma_sum_update(
                    old(self).map.placement_cache@,
                    territory as int,
                    (staged + 1) as u32,
                );
            }
            self.map.placement_cache[territory] = staged + 1;
            proof {
                assert(crate::map::troops_of(self.map.territories@) =~= crate::map::troops_of(
                    old(self).map.territories@,
                ));
                assert(crate::map::same_layout(old(self).map, self.map));
                crate::map::lemma_graph_wf_preserved(old(self).map, self.map);
            }
            true
        } else {
            false
        }
    }

    /// An attack-phase click: select an owned source and highlight its enemy
    /// neighbors, cancel on the selected source, or target a highlighted
    /// enemy territory.
    fn attack_click(&mut self, territory: usize) -> (r: bool)
        requires
            old(self).wf(),
            territory < old(self).map.territories@.len(),
        ensures
            final(self).wf(),
            attack_click_post(*old(self), *final(self), territory as int, r),
    {
        let ghost g = *old(self);
        let t32 = territory as u32;
        let owned = self.cur_owns(t32);
        if owned {
            if !self.any_owned_selected() {
                self.map.territories[territory].state = TerritoryState::Selected;
                let mut k: usize = 0;
                let ghost nbs = g.map.territories@[territory as int].neighbors@;
                while k < self.map.territories[territory].neighbors.len()
                    invariant
                        g.wf(),
                        territory < g.map.territories@.len(),
                        t32 == territory as u32,
                        g.cur_owns_spec(territory as int),
                        k <= nbs.len(),
                        self.players == g.players,
                        self.turn == g.turn,
                        self.rng == g.rng,
                        self.map.placement_cache@ == g.map.placement_cache@,
                        self.map.width == g.map.width,
                        self.map.height == g.map.height,
                        self.map.background_color == g.map.background_color,
                        self.map.background_index == g.map.background_index,
                        self.map.troops_to_place == g.map.troops_to_place,
                        self.map.territories@.len() == g.map.territories@.len(),
                        self.map.territories@[territory as int].neighbors@ == nbs,
                        nbs == g.map.territories@[territory as int].neighbors@,
                        forall|j: int|
                            0 <= j < g.map.territories@.len() ==> #[trigger] self.map.territories@[j]
                                == (Territory {
                                state: (if j == territory {
                                    TerritoryState::Selected
                                } else if listed_before(nbs, k as int, j) && !g.cur_owns_spec(j) {
                                    TerritoryState::Highlighted
                                } else {
                                    g.map.territories@[j].state
                                }),
                                ..g.map.territories@[j]
                            }),
                    decreases nbs.len() - k,
                {
                    let ghost prev = self.map.territories@;
                    let nb = self.map.territories[territory].neighbors[k];
                    proof {
                        assert(g.map.nbrs(territory as int)[k as int] == nb);
                        assert(nb < g.map.territories@.len());
                    }
                    if !self.cur_owns(nb) {
                        self.map.territories[nb as usize].state = TerritoryState::Highlighted;
                        proof {
                            assert(nb != t32);
                            assert(listed_before(nbs, k + 1, nb as int));
                        }
                    }
                    proof {
                        assert forall|j: int| 0 <= j < g.map.territories@.len() implies #[trigger] self
                            .map.territories@[j] == (Territory {
                            state: (if j == territory {
                                TerritoryState::Selected
                            } else if listed_before(nbs, k + 1, j) && !g.cur_owns_spec(j) {
                                TerritoryState::Highlighted
                            } else {
                                g.map.territories@[j].state
                            }),
                            ..g.map.territories@[j]
                        }) by {
                            if j != nb as int && listed_before(nbs, k + 1, j) && !listed_before(
                                nbs,
                                k as int,
                                j,
                            ) {
                                let k2 = choose|k2: int| 0 <= k2 < k + 1 && nbs[k2] == j;
                                assert(k2 == k as int);
                                assert(false);
                            }
                        }
                    }
                    k = k + 1;
                }
                proof {
                    assert forall|j: int| 0 <= j < g.map.territories@.len() implies #[trigger] self
                        .map.territories@[j] == (Territory {
                        state: attack_select_state(g, territory as int, j),
                        ..g.map.territories@[j]
                    }) by {
                        if listed_before(nbs, nbs.len() as int, j) {
                            let k2 = choose|k2: int| 0 <= k2 < nbs.len() && nbs[k2] == j;
                            assert(nbs[k2] == j as u32);
                            assert(nbs.contains(j as u32));
                        }
                        if nbs.contains(j as u32) && 0 <= j < g.map.territories@.len() {
                            let k2 = choose|k2: int| 0 <= k2 < nbs.len() && nbs[k2] == j as u32;
                            assert(listed_before(nbs, nbs.len() as int, j));
                        }
                    }
                    assert(crate::map::troops_of(self.map.territories@) =~= crate::map::troops_of(
                        g.map.territories@,
                    ));
                    assert(crate::map::same_layout(g.map, self.map));
                    crate::map::lemma_graph_wf_preserved(g.map, self.map);
                }
                true
            } else if self.map.territories[territory].is_selected() {
                self.unselect_all();
                proof {
                    assert(crate::map::troops_of(self.map.territories@) =~= crate::map::troops_of(
                        g.map.territories@,
                    ));
                    assert(crate::map::same_layout(g.map, self.map));
                    crate::map::lemma_graph_wf_preserved(g.map, self.map);
                }
                true
            } else {
                false
            }
        } else if territory != self.map.background_index && self.map.territories[territory]
            .is_highlighted() {
            let mut j: usize = 0;
            while j < self.map.territories.len()
                invariant
                    g.wf(),
                    territory < g.map.territories@.len(),
                    !g.cur_owns_spec(territory as int),
                    j <= g.map.territories@.len(),
                    self.players == g.players,
                    self.turn == g.turn,
                    self.rng == g.rng,
                    self.map.placement_cache@ == g.map.placement_cache@,
                    self.map.width == g.map.width,
                    self.map.height == g.map.height,
                    self.map.background_color == g.map.background_color,
                    self.map.background_index == g.map.background_index,
                    self.map.troops_to_place == g.map.troops_to_place,
                    self.map.territories@.len() == g.map.territories@.len(),
                    forall|i: int|
                        0 <= i < g.map.territories@.len() ==> #[trigger] self.map.territories@[i]
                            == (Territory {
                            state: (if i < j && !g.cur_owns_spec(i) {
                                TerritoryState::Dormant
                            } else {
                                g.map.territories@[i].state
                            }),
                            ..g.map.territories@[i]
                        }),
                decreases g.map.territories@.len() - j,
            {
                let j32 = j as u32;
                if !self.cur_owns(j32) {
                    self.map.territories[j].state = TerritoryState::Dormant;
                }
                j = j + 1;
            }
            self.map.territories[territory].state = TerritoryState::Targeted;
            proof {
                assert forall|i: int| 0 <= i < g.map.territories@.len() implies #[trigger] self
                    .map.territories@[i] == (Territory {
                    state: target_state(g, territory as int, i),
                    ..g.map.territories@[i]
                }) by {}
                assert(crate::map::troops_of(self.map.territories@) =~= crate::map::troops_of(
                    g.map.territories@,
                ));
                assert(crate::map::same_layout(g.map, self.map));
                crate::map::lemma_graph_wf_preserved(g.map, self.map);
            }
            true
        } else {
            false
        }
    }

    /// A fortify-phase click: select an owned source and highlight its
    /// friendly neighbors, cancel on the selected source, or target a
    /// highlighted owned territory.
    fn fortify_click(&mut self, territory: usize) -> (r: bool)
        requires
            old(self).wf(),
            territory < old(self).map.territories@.len(),
        ensures
            final(self).wf(),
            fortify_click_post(*old(self), *final(self), territory as int, r),
    {
        let ghost g = *old(self);
        let t32 = territory as u32;
        if self.cur_owns(t32) {
            if !self.any_owned_selected() {
                self.map.territories[territory].state = TerritoryState::Selected;
                let mut k: usize = 0;
                let ghost nbs = g.map.territories@[territory as int].neighbors@;
                while k < self.map.territories[territory].neighbors.len()
                    invariant
                        g.wf(),
                        territory < g.map.territories@.len(),
                        t32 == territory as u32,
                        g.cur_owns_spec(territory as int),
                        k <= nbs.len(),
                        self.players == g.players,
                        self.turn == g.turn,
                        self.rng == g.rng,
                        self.map.placement_cache@ == g.map.placement_cache@,
                        self.map.width == g.map.width,
                        self.map.height == g.map.height,
                        self.map.background_color == g.map.background_color,
                        self.map.background_index == g.map.background_index,
                        self.map.troops_to_place == g.map.troops_to_place,
                        self.map.territories@.len() == g.map.territories@.len(),
                        self.map.territories@[territory as int].neighbors@ == nbs,
                        nbs == g.map.territories@[territory as int].neighbors@,
                        forall|j: int|
                            0 <= j < g.map.territories@.len() ==> #[trigger] self.map.territories@[j]
                                == (Territory {
                                state: (if j == territory {
                                    TerritoryState::Selected
                                } else if listed_before(nbs, k as int, j) && g.cur_owns_spec(j) {
                                    TerritoryState::Highlighted
                                } else {
                                    g.map.territories@[j].state
                                }),
                                ..g.map.territories@[j]
                            }),
                    decreases nbs.len() - k,
                {
                    let nb = self.map.territories[territory].neighbors[k];
                    proof {
                        assert(g.map.nbrs(territory as int)[k as int] == nb);
                        assert(nb < g.map.territories@.len());
                    }
                    if self.cur_owns(nb) && nb != t32 {
                        self.map.territories[nb as usize].state = TerritoryState::Highlighted;
                        proof {
                            assert(listed_before(nbs, k + 1, nb as int));
                        }
                    }
                    proof {
                        assert forall|j: int| 0 <= j < g.map.territories@.len() implies #[trigger] self
                            .map.territories@[j] == (Territory {
                            state: (if j == territory {
                                TerritoryState::Selected
                            } else if listed_before(nbs, k + 1, j) && g.cur_owns_spec(j) {
                                TerritoryState::Highlighted
                            } else {
                                g.map.territories@[j].state
                            }),
                            ..g.map.territories@[j]
                        }) by {
                            if j != nb as int && listed_before(nbs, k + 1, j) && !listed_before(
                                nbs,
                                k as int,
                                j,
                            ) {
                                let k2 = choose|k2: int| 0 <= k2 < k + 1 && nbs[k2] == j;
                                assert(k2 == k as int);
                                assert(false);
                            }
                        }
                    }
                    k = k + 1;
                }
                proof {
                    assert forall|j: int| 0 <= j < g.map.territories@.len() implies #[trigger] self
                        .map.territories@[j] == (Territory {
                        state: fortify_select_state(g, territory as int, j),
                        ..g.map.territories@[j]
                    }) by {
                        if listed_before(nbs, nbs.len() as int, j) {
                            let k2 = choose|k2: int| 0 <= k2 < nbs.len() && nbs[k2] == j;
                            assert(nbs[k2] == j as u32);
                            assert(nbs.contains(j as u32));
                        }
                        if nbs.contains(j as u32) && 0 <= j < g.map.territories@.len() {
                            let k2 = choose|k2: int| 0 <= k2 < nbs.len() && nbs[k2] == j as u32;
                            assert(listed_before(nbs, nbs.len() as int, j));
                        }
                    }
                    assert(crate::map::troops_of(self.map.territories@) =~= crate::map::troops_of(
                        g.map.territories@,
                    ));
                    assert(crate::map::same_layout(g.map, self.map));
                    crate::map::lemma_graph_wf_preserved(g.map, self.map);
                }
                true
            } else if self.map.territories[territory].is_selected() {
                self.unselect_all();
                proof {
                    assert(crate::map::troops_of(self.map.territories@) =~= crate::map::troops_of(
                        g.map.territories@,
                    ));
                    assert(crate::map::same_layout(g.map, self.map));
                    crate::map::lemma_graph_wf_preserved(g.map, self.map);
                }
                true
            } else if self.map.territories[territory].is_highlighted() {
                let mut j: usize = 0;
                while j < self.map.territories.len()
                    invariant
                        g.wf(),
                        territory < g.map.territories@.len(),
                        g.cur_owns_spec(territory as int),
                        j <= g.map.territories@.len(),
                        self.players == g.players,
                        self.turn == g.turn,
                        self.rng == g.rng,
                        self.map.placement_cache@ == g.map.placement_cache@,
                        self.map.width == g.map.width,
                        self.map.height == g.map.height,
                        self.map.background_color == g.map.background_color,
                        self.map.background_index == g.map.background_index,
                        self.map.troops_to_place == g.map.troops_to_place,
                        self.map.territories@.len() == g.map.territories@.len(),
                        forall|i: int|
                            0 <= i < g.map.territories@.len() ==> #[trigger] self.map.territories@[i]
                                == (Territory {
                                state: (if i < j && g.cur_owns_spec(i) && g.map.territories@[i].state
                                    != TerritoryState::Selected {
                                    TerritoryState::Dormant
                                } else {
                                    g.map.territories@[i].state
                                }),
                                ..g.map.territories@[i]
                            }),
                    decreases g.map.territories@.len() - j,
                {
                    let j32 = j as u32;
                    let owned_j = self.cur_owns(j32);
                    if owned_j && self.map.territories[j].state != TerritoryState::Selected {
                        self.map.territories[j].state = TerritoryState::Dormant;
                    }
                    j = j + 1;
                }
                self.map.territories[territory].state = TerritoryState::Targeted;
                proof {
                    assert forall|i: int| 0 <= i < g.map.territories@.len() implies #[trigger] self
                        .map.territories@[i] == (Territory {
                        state: fortify_target_state(g, territory as int, i),
                        ..g.map.territories@[i]
                    }) by {}
                    assert(crate::map::troops_of(self.map.territories@) =~= crate::map::troops_of(
                        g.map.territories@,
                    ));
                    assert(crate::map::same_layout(g.map, self.map));
                    crate::map::lemma_graph_wf_preserved(g.map, self.map);
                }
                true
            } else {
                false
            }
        } else {
            false
        }
    }

    /// The roster position of a player claiming territory `t`, lowest first.
    fn find_owner(&self, t: u32) -> (r: Option<usize>)
        ensures
            match r {
                Option::Some(p) => p < self.players@.len() && self.players@[p as int].territories@.contains(t),
                Option::None => forall|q: int|
                    0 <= q < self.players@.len() ==> !(#[trigger] self.players@[q].territories@.contains(t)),
            },
    {
        let mut p: usize = 0;
        while p < self.players.len()
            invariant
                p <= self.players@.len(),
                forall|q: int| 0 <= q < p ==> !(#[trigger] self.players@[q].territories@.contains(t)),
            decreases self.players@.len() - p,
        {
            if crate::map::vec_contains_u32(&self.players[p].territories, t) {
                return Some(p);
            }
            p = p + 1;
        }
        None
    }

    /// Commits the attacker's whole movable garrison (all but one troop) to
    /// a single engagement.
    pub fn attack_all(&mut self)
        requires
            old(self).wf(),
        ensures
            final(self).wf(),
            attack_all_rel(*old(self), *final(self)),
    {
        match self.selected_territory_index() {
            Some(attacker) => {
                let attack_troops = self.map.territories[attacker].troops - 1;
                self.attack_with(attack_troops);
            },
            _ => (),
        }
    }

    /// Attacks with everything and, if the capture leaves a forced
    /// post-attack fortification, settles it at once by moving the whole
    /// movable garrison forward and returning to the attack phase.
    pub fn attack_tail(&mut self)
        requires
            old(self).wf(),
        ensures
            final(self).wf(),
            final(self).turn.phase != TurnPhase::PostAttackFortify,
            exists|mid: Game|
                #[trigger] attack_all_rel(*old(self), mid) && mid.wf() && (if mid.turn.phase
                    == TurnPhase::PostAttackFortify {
                    exists|mid2: Game|
                        #[trigger] fortify_all_rel(mid, mid2) && final(self).players
                            == mid2.players && final(self).map == mid2.map && final(self).turn.player_index == mid2.turn.player_index && final(self).turn.new_troops
                            == mid2.turn.new_troops && final(self).turn.phase == TurnPhase::Attack
                } else {
                    *final(self) == mid
                }),
    {
        self.attack_all();
        let ghost mid = *self;
        if self.turn_phase() == TurnPhase::PostAttackFortify {
            self.fortify_all();
            let ghost mid2 = *self;
            self.turn.phase = TurnPhase::Attack;
            proof {
                assert(fortify_all_rel(mid, mid2));
                assert(attack_all_rel(*old(self), mid));
            }
        } else {
            proof {
                assert(attack_all_rel(*old(self), mid));
            }
        }
    }

    /// Runs one whole engagement between the first selected territory (the
    /// attacker) and the first targeted one (the defender), committing
    /// `troops` troops. A command without both ends in place, with no troops,
    /// with more troops than the garrison can spare, or against a
    /// non-neighbor is rejected as a no-op.
    pub fn attack_with(&mut self, troops: u32)
        requires
            old(self).wf(),
        ensures
            final(self).wf(),
            (!crate::map::has_state(old(self).map.territories@, TerritoryState::Selected)
                || !crate::map::has_state(old(self).map.territories@, TerritoryState::Targeted))
                ==> *final(self) == *old(self),
            forall|a: int, d: int|
                #![trigger crate::map::is_first_with(old(self).map.territories@, TerritoryState::Selected, a), crate::map::is_first_with(old(self).map.territories@, TerritoryState::Targeted, d)]
                crate::map::is_first_with(old(self).map.territories@, TerritoryState::Selected, a)
                    && crate::map::is_first_with(
                    old(self).map.territories@,
                    TerritoryState::Targeted,
                    d,
                ) ==> (if troops < 1 || troops + 1 > old(self).troops_at(a) || !old(
                    self,
                ).map.territories@[a].neighbors@.contains(d as u32) {
                    *final(self) == *old(self)
                } else {
                    &&& final(self).map.territories@[a].troops >= 1
                    &&& final(self).map.territories@[d].troops >= 1
                    &&& exists|al: u32, dl: u32|
                        #[trigger] attack_outcome(
                            *old(self),
                            *final(self),
                            a,
                            d,
                            troops,
                            al,
                            dl,
                        )
                }),
    {
        let ghost g = *old(self);
        let sel = self.selected_territory_index();
        let targ = self.targeted_territory_index();
        let (attacker, defender) = match (sel, targ) {
            (Some(a), Some(d)) => (a, d),
            _ => {
                return ;
            },
        };
        proof {
            assert(g.map.territories@[attacker as int].troops >= 1);
            assert(g.map.territories@[defender as int].troops >= 1);
        }
        let at = self.map.territories[attacker].troops;
        if troops < 1 {
            return ;
        }
        if troops > at - 1 {
            return ;
        }
        let d32 = defender as u32;
        if !crate::map::vec_contains_u32(&self.map.territories[attacker].neighbors, d32) {
            return ;
        }
        let attack_reserves = at - troops;
        let defend_with = self.map.territories[defender].troops;
        let losses = roll_all(&mut self.rng, troops, defend_with);
        let remaining_attackers = troops - losses.attack_dice;
        let remaining_defenders = defend_with - losses.defend_dice;
        if remaining_defenders == 0 {
            let adjusted = if remaining_attackers > 3 {
                remaining_attackers - 2
            } else {
                1
            };
            let remaining_troops = adjusted + attack_reserves;
            self.map.territories[attacker].troops = remaining_troops;
            let transfer = if remaining_attackers < 3 {
                remaining_attackers
            } else {
                3
            };
            self.map.territories[defender].troops = transfer;
            proof {
                assert(owned_count(g.players@, d32) == 1);
                crate::player::lemma_partition_has_owner(g.players@, g.n(), d32);
            }
            let owner = match self.find_owner(d32) {
                Some(p) => p,
                None => {
                    return ;
                },
            };
            let ghost ps1 = self.players@;
            retain_ne(&mut self.players[owner].territories, d32);
            let ghost ps2 = self.players@;
            let player_idx = self.on_player_index();
            self.players[player_idx].capture_territory(d32);
            let ghost ps3 = self.players@;
            let ghost n = g.n();
            let ghost ow = owner as int;
            let ghost cur = g.turn.player_index as int;
            proof {
                assert(ps1 == g.players@);
                assert(ps2 =~= ps1.update(ow, ps2[ow]));
                assert(ps2[ow].territories@ == crate::sums::without_value(
                    ps1[ow].territories@,
                    d32,
                ));
                assert(ps3 =~= ps2.update(cur, ps3[cur]));
                assert(ps3[cur].territories@ == ps2[cur].territories@.push(d32));
                crate::sums::lemma_count_contains(ps1[ow].territories@, d32);
                crate::player::lemma_owned_count_element_le(ps1, ow, d32);
                assert forall|t: u32| t < n implies #[trigger] owned_count(ps3, t) == 1 by {
                    crate::player::lemma_owned_count_update(ps1, ow, ps2[ow], t);
                    crate::player::lemma_owned_count_update(ps2, cur, ps3[cur], t);
                    crate::sums::lemma_count_filter_out(ps1[ow].territories@, d32, t);
                    crate::sums::lemma_count_push(ps2[cur].territories@, d32, t);
                    assert(owned_count(ps1, t) == 1);
                    assert(owned_count(ps2, t) == owned_count(ps1, t) - count_of(
                        ps1[ow].territories@,
                        t,
                    ) + count_of(ps2[ow].territories@, t));
                    assert(owned_count(ps3, t) == owned_count(ps2, t) - count_of(
                        ps2[cur].territories@,
                        t,
                    ) + count_of(ps3[cur].territories@, t));
                    if t == d32 {
                        assert(count_of(ps1[ow].territories@, d32) == 1);
                        assert(count_of(ps2[ow].territories@, d32) == 0);
                        if ow != cur {
                            crate::player::lemma_owned_count_two_le(ps1, ow, cur, d32);
                            crate::sums::lemma_count_nonneg(ps1[cur].territories@, d32);
                            assert(count_of(ps2[cur].territories@, d32) == 0);
                        }
                        assert(count_of(ps3[cur].territories@, d32) == count_of(
                            ps2[cur].territories@,
                            d32,
                        ) + 1);
                    } else {
                        assert(count_of(ps2[ow].territories@, t) == count_of(
                            ps1[ow].territories@,
                            t,
                        ));
                        assert(count_of(ps3[cur].territories@, t) == count_of(
                            ps2[cur].territories@,
                            t,
                        ));
                    }
                }
                assert forall|p: int, k: int|
                    0 <= p < ps3.len() && 0 <= k < ps3[p].territories@.len() implies #[trigger] ps3[p].territories@[k]
                    < n by {
                    let filtered = crate::sums::without_value(ps1[ow].territories@, d32);
                    if p == cur && k == ps3[cur].territories@.len() - 1 {
                        assert(ps3[p].territories@[k] == d32);
                    } else {
                        assert(ps3[p].territories@[k] == ps2[p].territories@[k]);
                        if p == ow {
                            crate::sums::lemma_without_member(ps1[ow].territories@, d32, k);
                            let j = choose|j: int|
                                0 <= j < ps1[ow].territories@.len() && ps1[ow].territories@[j]
                                    == filtered[k];
                            assert(ps1[ow].territories@[j] < n);
                        } else {
                            assert(ps2[p].territories@[k] == ps1[p].territories@[k]);
                        }
                    }
                }
                assert(players_partition(ps3, n));
                crate::player::lemma_partition_disjoint(ps3, n);
            }
            self.update_colors();
            if remaining_troops <= 1 {
                self.unselect_all();
            } else {
                self.turn.phase = TurnPhase::PostAttackFortify;
            }
            proof {
                let a = attacker as int;
                let d = defender as int;
                let al = losses.attack_dice;
                let dl = losses.defend_dice;
                let s0 = crate::map::troops_of(g.map.territories@);
                let s2 = crate::map::troops_of(self.map.territories@);
                assert(s2 =~= s0.update(a, remaining_troops).update(d, transfer));
                crate::sums::lemma_sum_update(s0, a, remaining_troops);
                crate::sums::lemma_sum_update(s0.update(a, remaining_troops), d, transfer);
                assert(crate::map::same_layout(g.map, self.map));
                crate::map::lemma_graph_wf_preserved(g.map, self.map);
                assert(self.players@ == ps3);
                assert forall|p: int|
                    0 <= p < ps1.len() && p != ow && p != cur implies #[trigger] p_eq(
                    ps3[p],
                    ps1[p],
                ) by {
                    assert(ps3[p] == ps1[p]);
                }
                assert(capture_roster(ps1, ps3, ow, cur, d32)) by {
                    assert(ps3.len() == ps1.len());
                    assert forall|p: int| 0 <= p < ps1.len() implies #[trigger] ps3[p].index
                        == ps1[p].index && ps3[p].color == ps1[p].color by {
                        if p != ow && p != cur {
                            assert(ps3[p] == ps1[p]);
                        }
                    }
                    if ow == cur {
                        assert(ps3[ow].territories@ == crate::sums::without_value(
                            ps1[ow].territories@,
                            d32,
                        ).push(d32));
                    } else {
                        assert(ps3[ow].territories@ == crate::sums::without_value(
                            ps1[ow].territories@,
                            d32,
                        ));
                        assert(ps3[cur].territories@ == ps1[cur].territories@.push(d32));
                    }
                }
                assert forall|ow2: int|
                    0 <= ow2 < g.players@.len() && #[trigger] g.players@[ow2].territories@.contains(
                        d32,
                    ) implies capture_roster(g.players@, self.players@, ow2, cur, d32) by {
                    if ow2 != ow {
                        crate::sums::lemma_count_contains(ps1[ow2].territories@, d32);
                        crate::player::lemma_owned_count_two_le(ps1, ow, ow2, d32);
                        assert(owned_count(ps1, d32) == 1);
                        assert(false);
                    }
                    assert(ps3.len() == ps1.len());
                    assert forall|p: int| 0 <= p < ps1.len() implies #[trigger] ps3[p].index
                        == ps1[p].index && ps3[p].color == ps1[p].color by {
                        if p != ow && p != cur {
                            assert(ps3[p] == ps1[p]);
                        }
                    }
                    if ow == cur {
                        assert(ps3[ow].territories@ == crate::sums::without_value(
                            ps1[ow].territories@,
                            d32,
                        ).push(d32));
                    } else {
                        assert(ps3[ow].territories@ == crate::sums::without_value(
                            ps1[ow].territories@,
                            d32,
                        ));
                        assert(ps3[cur].territories@ == ps1[cur].territories@.push(d32));
                    }
                }
                assert(attack_capture_post(g, *self, a, d, troops, al));
                assert(attack_outcome(g, *self, a, d, troops, al, dl));
            }
        } else {
            self.map.territories[attacker].troops = attack_reserves + remaining_attackers;
            self.map.territories[defender].troops = remaining_defenders;
            proof {
                let a = attacker as int;
                let d = defender as int;
                let al = losses.attack_dice;
                let dl = losses.defend_dice;
                let s0 = crate::map::troops_of(g.map.territories@);
                let s2 = crate::map::troops_of(self.map.territories@);
                assert(s2 =~= s0.update(a, (attack_reserves + remaining_attackers) as u32).update(
                    d,
                    remaining_defenders,
                ));
                crate::sums::lemma_sum_update(
                    s0,
                    a,
                    (attack_reserves + remaining_attackers) as u32,
                );
                crate::sums::lemma_sum_update(
                    s0.update(a, (attack_reserves + remaining_attackers) as u32),
                    d,
                    remaining_defenders,
                );
                assert(crate::map::same_layout(g.map, self.map));
                crate::map::lemma_graph_wf_preserved(g.map, self.map);
                assert(attack_survive_post(g, *self, a, d, al, dl));
                assert(attack_outcome(g, *self, a, d, troops, al, dl));
            }
        }
    }

    /// Moves `troops` troops from the selected source to the targeted
    /// destination. A transfer that would not leave at least one troop
    /// behind is rejected as a no-op. Executing a transfer settles a pending
    /// post-attack fortification, returning the phase to attack.
    pub fn fortify_troops(&mut self, troops: usize)
        requires
            old(self).wf(),
        ensures
            final(self).wf(),
            (!crate::map::has_state(old(self).map.territories@, TerritoryState::Selected)
                || !crate::map::has_state(old(self).map.territories@, TerritoryState::Targeted))
                ==> *final(self) == *old(self),
            forall|s: int, d: int|
                #![trigger crate::map::is_first_with(old(self).map.territories@, TerritoryState::Selected, s), crate::map::is_first_with(old(self).map.territories@, TerritoryState::Targeted, d)]
                crate::map::is_first_with(old(self).map.territories@, TerritoryState::Selected, s)
                    && crate::map::is_first_with(
                    old(self).map.territories@,
                    TerritoryState::Targeted,
                    d,
                ) ==> (if troops >= old(self).troops_at(s) {
                    *final(self) == *old(self)
                } else {
                    fortify_moved(*old(self), *final(self), s, d, troops as int)
                }),
    {
        let selected_idx = self.selected_territory_index();
        let targeted_idx = self.targeted_territory_index();
        match (selected_idx, targeted_idx) {
            (Some(source), Some(destination)) => {
                let source_troops = self.map.territories[source].troops;
                if troops >= source_troops as usize {
                    return ;
                }
                let n32 = troops as u32;
                proof {
                    let s0 = crate::map::troops_of(old(self).map.territories@);
                    crate::sums::lemma_sum_two_elements_le(s0, source as int, destination as int);
                    crate::sums::lemma_sum_nonneg(old(self).map.placement_cache@);
                }
                self.map.territories[source].troops = source_troops - n32;
                let dest_troops = self.map.territories[destination].troops;
                self.map.territories[destination].troops = dest_troops + n32;
                if self.turn.phase == TurnPhase::PostAttackFortify {
                    self.turn.phase = TurnPhase::Attack;
                }
                self.unselect_all();
                proof {
                    let t2 = self.map.territories@;
                    let s0 = crate::map::troops_of(old(self).map.territories@);
                    let s2 = crate::map::troops_of(t2);
                    assert(s2 =~= s0.update(source as int, (s0[source as int] - troops) as u32)
                        .update(destination as int, (s0[destination as int] + troops) as u32));
                    crate::sums::lemma_sum_update(
                        s0,
                        source as int,
                        (s0[source as int] - troops) as u32,
                    );
                    crate::sums::lemma_sum_update(
                        s0.update(source as int, (s0[source as int] - troops) as u32),
                        destination as int,
                        (s0[destination as int] + troops) as u32,
                    );
                    assert(crate::map::same_layout(old(self).map, self.map));
                    crate::map::lemma_graph_wf_preserved(old(self).map, self.map);
                }
            },
            _ => (),
        }
    }

    /// Moves the whole movable garrison (all but one troop) from the
    /// selected source to the targeted destination.
    pub fn fortify_all(&mut self)
        requires
            old(self).wf(),
        ensures
            final(self).wf(),
            (!crate::map::has_state(old(self).map.territories@, TerritoryState::Selected)
                || !crate::map::has_state(old(self).map.territories@, TerritoryState::Targeted))
                ==> *final(self) == *old(self),
            forall|s: int, d: int|
                #![trigger crate::map::is_first_with(old(self).map.territories@, TerritoryState::Selected, s), crate::map::is_first_with(old(self).map.territories@, TerritoryState::Targeted, d)]
                crate::map::is_first_with(old(self).map.territories@, TerritoryState::Selected, s)
                    && crate::map::is_first_with(
                    old(self).map.territories@,
                    TerritoryState::Targeted,
                    d,
                ) ==> fortify_all_moved(*old(self), *final(self), s, d),
    {
        let selected_idx = self.selected_territory_index();
        let targeted_idx = self.targeted_territory_index();
        match (selected_idx, targeted_idx) {
            (Some(source), Some(destination)) => {
                let source_troops = self.map.territories[source].troops;
                let troops = source_troops - 1;
                proof {
                    let s0 = crate::map::troops_of(old(self).map.territories@);
                    crate::sums::lemma_sum_two_elements_le(s0, source as int, destination as int);
                    crate::sums::lemma_sum_nonneg(old(self).map.placement_cache@);
                }
                self.map.territories[source].troops = source_troops - troops;
                let dest_troops = self.map.territories[destination].troops;
                self.map.territories[destination].troops = dest_troops + troops;
                self.unselect_all();
                proof {
                    let t2 = self.map.territories@;
                    let s0 = crate::map::troops_of(old(self).map.territories@);
                    let s2 = crate::map::troops_of(t2);
                    assert(s2 =~= s0.update(source as int, 1u32).update(
                        destination as int,
                        (s0[destination as int] + (s0[source as int] - 1)) as u32,
                    ));
                    crate::sums::lemma_sum_update(s0, source as int, 1u32);
                    crate::sums::lemma_sum_update(
                        s0.update(source as int, 1u32),
                        destination as int,
                        (s0[destination as int] + (s0[source as int] - 1)) as u32,
                    );
                    assert(crate::map::same_layout(old(self).map, self.map));
                    crate::map::lemma_graph_wf_preserved(old(self).map, self.map);
                }
            },
            _ => (),
        }
    }

    /// The single click entry point, dispatched on the running phase; a
    /// click out of range, or during the forced post-attack transfer, does
    /// nothing.
    pub fn map_click_action(&mut self, territory: usize) -> (r: bool)
        requires
            old(self).wf(),
        ensures
            final(self).wf(),
            final(self).players == old(self).players,
            final(self).turn == old(self).turn,
            territory >= old(self).map.territories@.len() ==> !r && *final(self) == *old(self),
            territory < old(self).map.territories@.len() && old(self).turn.phase
                == TurnPhase::Place ==> place_click_post(
                *old(self),
                *final(self),
                territory as int,
                r,
            ),
            territory < old(self).map.territories@.len() && old(self).turn.phase
                == TurnPhase::Attack ==> attack_click_post(
                *old(self),
                *final(self),
                territory as int,
                r,
            ),
            territory < old(self).map.territories@.len() && old(self).turn.phase
                == TurnPhase::Fortify ==> fortify_click_post(
                *old(self),
                *final(self),
                territory as int,
                r,
            ),
            old(self).turn.phase == TurnPhase::PostAttackFortify ==> !r && *final(self) == *old(
                self,
            ),
    {
        if territory >= self.map.territories.len() {
            return false;
        }
        match self.turn.phase {
            TurnPhase::Place => self.place_click(territory),
            TurnPhase::Attack => self.attack_click(territory),
            TurnPhase::Fortify => self.fortify_click(territory),
            TurnPhase::PostAttackFortify => false,
        }
    }

    /// Ends the turn: the next player comes on, the phase returns to
    /// placement, stale selection markers are cleared, and the new allowance
    /// is granted (clamped only when the board is within the allowance of
    /// the representable total). Staged troops stay staged: only the
    /// explicit clear or commit commands close the placement transaction.
    pub fn init_turn(&mut self)
        requires
            old(self).wf(),
        ensures
            final(self).wf(),
            final(self).players == old(self).players,
            final(self).turn.player_index == ((old(self).turn.player_index + 1) as int) % (
            old(self).players@.len() as int),
            final(self).turn.phase == TurnPhase::Place,
            final(self).turn.new_troops == (if old(self).map.troops_total() + TROOP_BONUS
                <= u32::MAX {
                TROOP_BONUS as int
            } else {
                u32::MAX - old(self).map.troops_total()
            }),
            final(self).map.territories@.len() == old(self).map.territories@.len(),
            forall|i: int|
                0 <= i < old(self).map.territories@.len() ==> #[trigger] final(self).map.territories@[i]
                    == (Territory {
                    state: TerritoryState::Dormant,
                    ..old(self).map.territories@[i]
                }),
            final(self).map.placement_cache@ == old(self).map.placement_cache@,
            final(self).rng == old(self).rng,
            final(self).map.width == old(self).map.width,
            final(self).map.height == old(self).map.height,
            final(self).map.background_color == old(self).map.background_color,
            final(self).map.background_index == old(self).map.background_index,
            final(self).map.troops_to_place == old(self).map.troops_to_place,
    {
        let next = (self.turn.player_index + 1) % (self.players.len() as u32);
        self.turn.player_index = next;
        self.unselect_all();
        proof {
            assert(crate::map::troops_of(self.map.territories@) =~= crate::map::troops_of(
                old(self).map.territories@,
            ));
        }
        let total = self.total_troops();
        let troops = if total <= u32::MAX - 5 {
            5
        } else {
            u32::MAX - total
        };
        self.turn.new_troops = troops;
        self.turn.phase = TurnPhase::Place;
        proof {
            assert(crate::map::same_layout(old(self).map, self.map));
            crate::map::lemma_graph_wf_preserved(old(self).map, self.map);
        }
    }

    /// Paints every territory with its owner's color.
    pub fn update_colors(&mut self)
        requires
            forall|p: int, k: int|
                0 <= p < old(self).players@.len() && 0 <= k < old(self).players@[p].territories@.len()
                    ==> #[trigger] old(self).players@[p].territories@[k]
                    < old(self).map.territories@.len(),
            crate::player::players_disjoint(old(self).players@),
        ensures
            final(self).players == old(self).players,
            final(self).turn == old(self).turn,
            final(self).rng == old(self).rng,
            final(self).map.territories@.len() == old(self).map.territories@.len(),
            forall|p: int, k: int|
                0 <= p < old(self).players@.len() && 0 <= k < old(self).players@[p].territories@.len()
                    ==> #[trigger] final(self).map.territories@[old(self).players@[p].territories@[k] as int].color
                    == old(self).players@[p].color,
            forall|i: int|
                0 <= i < old(self).map.territories@.len() && !crate::map::player_listed(
                    old(self).players@,
                    i,
                ) ==> #[trigger] final(self).map.territories@[i] == old(self).map.territories@[i],
            forall|i: int|
                0 <= i < old(self).map.territories@.len() ==> (#[trigger] final(self).map.territories@[i]) == (Territory {
                    color: final(self).map.territories@[i].color,
                    ..old(self).map.territories@[i]
                }),
            final(self).map.width == old(self).map.width,
            final(self).map.height == old(self).map.height,
            final(self).map.background_color == old(self).map.background_color,
            final(self).map.background_index == old(self).map.background_index,
            final(self).map.troops_to_place == old(self).map.troops_to_place,
            final(self).map.placement_cache@ == old(self).map.placement_cache@,
    {
        self.map.set_all_territory_colors(&self.players);
    }

    /// Deals the territories round-robin: territory `i` goes to player
    /// `i mod playerCount`, appended in ascending order.
    pub fn assign_territories(&mut self)
        requires
            old(self).players@.len() >= 1,
            old(self).map.territories@.len() <= u32::MAX,
        ensures
            final(self).map == old(self).map,
            final(self).turn == old(self).turn,
            final(self).rng == old(self).rng,
            final(self).players@.len() == old(self).players@.len(),
            forall|p: int|
                0 <= p < old(self).players@.len() ==> {
                    &&& #[trigger] final(self).players@[p].territories@ == old(self).players@[p].territories@ + rr_seq(
                        p,
                        old(self).players@.len() as int,
                        old(self).map.territories@.len() as int,
                    )
                    &&& final(self).players@[p].index == old(self).players@[p].index
                    &&& final(self).players@[p].color == old(self).players@[p].color
                },
    {
        let ghost ps0 = old(self).players@;
        let player_count = self.players.len();
        let ghost pc = player_count as int;
        let n = self.map.territories.len();
        let mut counter: usize = 0;
        while counter < n
            invariant
                player_count == ps0.len(),
                player_count >= 1,
                n == old(self).map.territories@.len(),
                n <= u32::MAX,
                counter <= n,
                pc == player_count as int,
                self.map == old(self).map,
                self.turn == old(self).turn,
                self.rng == old(self).rng,
                self.players@.len() == ps0.len(),
                forall|p: int|
                    0 <= p < ps0.len() ==> {
                        &&& #[trigger] self.players@[p].territories@ == ps0[p].territories@
                            + rr_seq(p, pc, counter as int)
                        &&& self.players@[p].index == ps0[p].index
                        &&& self.players@[p].color == ps0[p].color
                    },
            decreases n - counter,
        {
            let ghost prev = self.players@;
            let idx = counter % player_count;
            self.players[idx].territories.push(counter as u32);
            proof {
                assert(forall|p: int|
                    0 <= p < ps0.len() && p != idx ==> self.players@[p] == prev[p]);
                assert(self.players@[idx as int].territories@ == prev[idx as int].territories@.push(
                    counter as u32,
                ));
                assert(counter as int % pc == idx as int);
                assert(rr_seq(idx as int, pc, counter + 1) == rr_seq(
                    idx as int,
                    pc,
                    counter as int,
                ).push(counter as u32));
                assert(ps0[idx as int].territories@ + rr_seq(idx as int, pc, counter + 1) =~= (
                ps0[idx as int].territories@ + rr_seq(idx as int, pc, counter as int)).push(
                    counter as u32,
                ));
                assert(forall|p: int|
                    0 <= p < ps0.len() && p != idx ==> rr_seq(p, pc, counter + 1) == rr_seq(
                        p,
                        pc,
                        counter as int,
                    ));
            }
            counter = counter + 1;
        }
    }

    /// Hands `territory` to exactly the player `player_index`, removing every
    /// claim any other player has on it.
    #[verifier::spinoff_prover]
    pub fn assign_territory(&mut self, territory: u32, player_index: u32)
        requires
            player_index < old(self).players@.len(),
        ensures
            final(self).map == old(self).map,
            final(self).turn == old(self).turn,
            final(self).rng == old(self).rng,
            final(self).players@.len() == old(self).players@.len(),
            forall|p: int|
                0 <= p < old(self).players@.len() && p != player_index ==> {
                    &&& #[trigger] final(self).players@[p].territories@ == crate::sums::without_value(old(self).players@[p].territories@, territory)
                    &&& final(self).players@[p].index == old(self).players@[p].index
                    &&& final(self).players@[p].color == old(self).players@[p].color
                },
            final(self).players@[player_index as int].territories@ == (if old(self).players@[player_index as int].territories@.contains(territory) {
                old(self).players@[player_index as int].territories@
            } else {
                old(self).players@[player_index as int].territories@.push(territory)
            }),
            final(self).players@[player_index as int].index == old(self).players@[player_index as int].index,
            final(self).players@[player_index as int].color == old(self).players@[player_index as int].color,
    {
        let ghost ps0 = old(self).players@;
        let mut i: usize = 0;
        while i < self.players.len()
            invariant
                player_index < ps0.len(),
                i <= ps0.len(),
                self.map == old(self).map,
                self.turn == old(self).turn,
                self.rng == old(self).rng,
                self.players@.len() == ps0.len(),
                forall|p: int| i <= p < ps0.len() ==> #[trigger] p_eq(self.players@[p], ps0[p]),
                forall|p: int|
                    0 <= p < i && p != player_index ==> {
                        &&& #[trigger] self.players@[p].territories@ == crate::sums::without_value(
                            ps0[p].territories@,
                            territory,
                        )
                        &&& self.players@[p].index == ps0[p].index
                        &&& self.players@[p].color == ps0[p].color
                    },
                i > player_index ==> {
                    &&& self.players@[player_index as int].territories@ == (if ps0[player_index as int].territories@.contains(territory) {
                        ps0[player_index as int].territories@
                    } else {
                        ps0[player_index as int].territories@.push(territory)
                    })
                    &&& self.players@[player_index as int].index == ps0[player_index as int].index
                    &&& self.players@[player_index as int].color == ps0[player_index as int].color
                },
            decreases ps0.len() - i,
        {
            let ghost prev = self.players@;
            proof {
                assert(p_eq(self.players@[i as int], ps0[i as int]));
            }
            if i != player_index as usize {
                retain_ne(&mut self.players[i].territories, territory);
                proof {
                    assert(self.players@[i as int].index == ps0[i as int].index);
                    assert(self.players@.len() == ps0.len());
                    assert(forall|p: int| 0 <= p < ps0.len() && p != i ==> self.players@[p] == prev[p]);
                    assert(self.players@[i as int].territories@ == crate::sums::without_value(
                        ps0[i as int].territories@,
                        territory,
                    ));
                }
            } else {
                if !crate::map::vec_contains_u32(&self.players[i].territories, territory) {
                    self.players[i].territories.push(territory);
                }
            }
            i = i + 1;
        }
    }

    /// Resets every territory's marker.
    pub fn unselect_all(&mut self)
        ensures
            final(self).players == old(self).players,
            final(self).turn == old(self).turn,
            final(self).rng == old(self).rng,
            final(self).map.territories@.len() == old(self).map.territories@.len(),
            forall|i: int|
                0 <= i < old(self).map.territories@.len() ==> #[trigger] final(self).map.territories@[i] == (Territory {
                    state: TerritoryState::Dormant,
                    ..old(self).map.territories@[i]
                }),
            final(self).map.width == old(self).map.width,
            final(self).map.height == old(self).map.height,
            final(self).map.background_color == old(self).map.background_color,
            final(self).map.background_index == old(self).map.background_index,
            final(self).map.troops_to_place == old(self).map.troops_to_place,
            final(self).map.placement_cache@ == old(self).map.placement_cache@,
    {
        let ghost t0 = old(self).map.territories@;
        let mut i: usize = 0;
        while i < self.map.territories.len()
            invariant
                i <= t0.len(),
                self.map.territories@.len() == t0.len(),
                forall|j: int|
                    0 <= j < i ==> #[trigger] self.map.territories@[j] == (Territory {
                        state: TerritoryState::Dormant,
                        ..t0[j]
                    }),
                forall|j: int| i <= j < t0.len() ==> #[trigger] self.map.territories@[j] == t0[j],
                self.map.width == old(self).map.width,
                self.map.height == old(self).map.height,
                self.map.background_color == old(self).map.background_color,
                self.map.background_index == old(self).map.background_index,
                self.map.troops_to_place == old(self).map.troops_to_place,
                self.map.placement_cache@ == old(self).map.placement_cache@,
                self.players == old(self).players,
                self.turn == old(self).turn,
                self.rng == old(self).rng,
            decreases t0.len() - i,
        {
            self.map.territories[i].state = TerritoryState::Dormant;
            i = i + 1;
        }
    }
}

} // verus!
