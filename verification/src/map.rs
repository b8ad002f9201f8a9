use vstd::prelude::*;

pub mod territory;

use crate::map::territory::{Territory, TerritoryState};
use crate::player::Player;
use crate::sums::{count_of, sum_u32};

verus! {

/// A group of territories sharing a border color.
pub struct Country {
    pub territories: Vec<usize>,
    pub border_color: u32,
}

/// The playing field: the territory arena plus the staged-placement ledger.
/// `placement_cache[i]` holds the troops staged for territory `i` this turn
/// but not yet committed to its garrison.
pub struct GameMap {
    pub width: u32,
    pub height: u32,
    pub territories: Vec<Territory>,
    pub background_color: usize,
    pub background_index: usize,
    pub troops_to_place: usize,
    pub placement_cache: Vec<u32>,
}

/// Full observable equality of two territories.
pub open spec fn t_eq(a: Territory, b: Territory) -> bool {
    &&& a.vertices@ == b.vertices@
    &&& a.center == b.center
    &&& a.color == b.color
    &&& a.troops == b.troops
    &&& a.state == b.state
    &&& a.neighbors@ == b.neighbors@
}

/// The garrison sizes of a territory sequence.
pub open spec fn troops_of(ts: Seq<Territory>) -> Seq<u32> {
    ts.map_values(|t: Territory| t.troops)
}

/// How many territories of `ts` carry the marker `st`.
pub open spec fn state_count(ts: Seq<Territory>, st: TerritoryState) -> int
    decreases ts.len(),
{
    if ts.len() == 0 {
        0
    } else {
        state_count(ts.drop_last(), st) + if ts.last().state == st {
            1int
        } else {
            0int
        }
    }
}

/// A sequence with no territory in state `st` counts zero of them.
pub proof fn lemma_state_count_zero(ts: Seq<Territory>, st: TerritoryState)
    requires
        forall|j: int| 0 <= j < ts.len() ==> (#[trigger] ts[j]).state != st,
    ensures
        state_count(ts, st) == 0,
    decreases ts.len(),
{
    if ts.len() > 0 {
        lemma_state_count_zero(ts.drop_last(), st);
    }
}

/// A sequence whose only territory in state `st` is at `i` counts exactly
/// one of them.
pub proof fn lemma_state_count_single(ts: Seq<Territory>, st: TerritoryState, i: int)
    requires
        0 <= i < ts.len(),
        ts[i].state == st,
        forall|j: int| 0 <= j < ts.len() && j != i ==> (#[trigger] ts[j]).state != st,
    ensures
        state_count(ts, st) == 1,
    decreases ts.len(),
{
    if i == ts.len() - 1 {
        lemma_state_count_zero(ts.drop_last(), st);
    } else {
        lemma_state_count_single(ts.drop_last(), st, i);
    }
}

impl GameMap {
    /// Number of territories.
    pub open spec fn n(self) -> int {
        self.territories@.len() as int
    }

    /// Total of the troops staged for placement.
    pub open spec fn staged_total(self) -> int {
        sum_u32(self.placement_cache@)
    }

    /// Total of all garrisons on the board.
    pub open spec fn troops_total(self) -> int {
        sum_u32(troops_of(self.territories@))
    }

    /// The neighbor list of territory `i`.
    pub open spec fn nbrs(self, i: int) -> Seq<u32> {
        self.territories@[i].neighbors@
    }

    /// Static validity of the board: the placement ledger covers every
    /// territory, the background index names no territory, and the adjacency
    /// relation stays in range and is symmetric.
    pub open spec fn graph_wf(self) -> bool {
        &&& self.placement_cache@.len() == self.territories@.len()
        &&& self.territories@.len() <= u32::MAX
        &&& self.background_index >= self.territories@.len()
        &&& forall|i: int, k: int|
            0 <= i < self.n() && 0 <= k < self.nbrs(i).len() ==> #[trigger] self.nbrs(i)[k]
                < self.n() && self.nbrs(self.nbrs(i)[k] as int).contains(i as u32)
    }

    /// A board ready to start a match: valid graph, nothing staged, nothing
    /// selected, every garrison manned, and a total that leaves arithmetic
    /// headroom.
    pub open spec fn init_ok(self) -> bool {
        &&& self.graph_wf()
        &&& forall|i: int| 0 <= i < self.n() ==> #[trigger] self.placement_cache@[i] == 0
        &&& forall|i: int|
            0 <= i < self.n() ==> #[trigger] self.territories@[i].state == TerritoryState::Dormant
        &&& forall|i: int| 0 <= i < self.n() ==> #[trigger] self.territories@[i].troops >= 1
        &&& self.troops_total() <= u32::MAX
    }
}

/// The immutable part of the board is the same in `a` and `b`: dimensions,
/// geometry and adjacency. Garrisons, markers, colors and the ledger's entries
/// may differ.
pub open spec fn same_layout(a: GameMap, b: GameMap) -> bool {
    &&& b.width == a.width
    &&& b.height == a.height
    &&& b.background_color == a.background_color
    &&& b.background_index == a.background_index
    &&& b.territories@.len() == a.territories@.len()
    &&& b.placement_cache@.len() == a.placement_cache@.len()
    &&& forall|i: int|
        0 <= i < a.territories@.len() ==> {
            &&& #[trigger] b.territories@[i].neighbors@ == a.territories@[i].neighbors@
            &&& b.territories@[i].vertices@ == a.territories@[i].vertices@
            &&& b.territories@[i].center == a.territories@[i].center
        }
}

/// Full observable equality of two boards.
pub open spec fn map_obs_eq(a: GameMap, b: GameMap) -> bool {
    &&& same_layout(a, b)
    &&& b.troops_to_place == a.troops_to_place
    &&& b.placement_cache@ == a.placement_cache@
    &&& forall|i: int|
        0 <= i < a.territories@.len() ==> {
            &&& #[trigger] b.territories@[i].color == a.territories@[i].color
            &&& b.territories@[i].troops == a.territories@[i].troops
            &&& b.territories@[i].state == a.territories@[i].state
        }
}

/// A board that keeps its layout keeps its static validity.
pub proof fn lemma_graph_wf_preserved(a: GameMap, b: GameMap)
    requires
        a.graph_wf(),
        same_layout(a, b),
    ensures
        b.graph_wf(),
{
    assert forall|i: int, k: int| 0 <= i < b.n() && 0 <= k < b.nbrs(i).len() implies #[trigger] b
        .nbrs(i)[k] < b.n() && b.nbrs(b.nbrs(i)[k] as int).contains(i as u32) by {
        assert(a.nbrs(i)[k] < a.n());
        assert(b.nbrs(b.nbrs(i)[k] as int) == a.nbrs(a.nbrs(i)[k] as int));
    }
}

impl GameMap {
    pub fn width(&self) -> (r: u32)
        ensures
            r == self.width,
    {
        self.width
    }

    pub fn height(&self) -> (r: u32)
        ensures
            r == self.height,
    {
        self.height
    }

    pub fn background_color(&self) -> (r: usize)
        ensures
            r == self.background_color,
    {
        self.background_color
    }

    pub fn territories(&self) -> (r: &Vec<Territory>)
        ensures
            r@ == self.territories@,
    {
        &self.territories
    }

    pub fn territory_count(&self) -> (r: usize)
        ensures
            r == self.territories@.len(),
    {
        self.territories.len()
    }

    pub fn troops_to_display(&self, index: usize) -> (r: u32)
        requires
            index < self.territories@.len(),
            self.placement_cache@.len() == self.territories@.len(),
            self.territories@[index as int].troops + self.placement_cache@[index as int]
                <= u32::MAX,
        ensures
            r == self.territories@[index as int].troops + self.placement_cache@[index as int],
    {
        self.territories[index].troops + self.placement_cache[index]
    }

    pub fn troops(&self) -> (r: Vec<u32>)
        requires
            self.placement_cache@.len() == self.territories@.len(),
            forall|i: int|
                0 <= i < self.territories@.len() ==> #[trigger] self.territories@[i].troops
                    + self.placement_cache@[i] <= u32::MAX,
        ensures
            r@.len() == self.territories@.len(),
            forall|i: int|
                0 <= i < self.territories@.len() ==> #[trigger] r@[i] == self.territories@[i].troops
                    + self.placement_cache@[i],
    {
        let mut r: Vec<u32> = Vec::new();
        let mut i: usize = 0;
        while i < self.territories.len()
            invariant
                i <= self.territories@.len(),
                self.placement_cache@.len() == self.territories@.len(),
                forall|j: int|
                    0 <= j < self.territories@.len() ==> #[trigger] self.territories@[j].troops
                        + self.placement_cache@[j] <= u32::MAX,
                r@.len() == i,
                forall|j: int|
                    0 <= j < i ==> #[trigger] r@[j] == self.territories@[j].troops
                        + self.placement_cache@[j],
            decreases self.territories@.len() - i,
        {
            r.push(self.troops_to_display(i));
            i = i + 1;
        }
        r
    }

    pub fn is_selected(&self, i: usize) -> (r: bool)
        requires
            i < self.territories@.len(),
        ensures
            r == (self.territories@[i as int].state == TerritoryState::Selected),
    {
        self.territories[i].is_selected()
    }

    pub fn is_targeted(&self, i: usize) -> (r: bool)
        requires
            i < self.territories@.len(),
        ensures
            r == (self.territories@[i as int].state == TerritoryState::Targeted),
    {
        self.territories[i].is_targeted()
    }

    pub fn is_highlighted(&self, i: usize) -> (r: bool)
        requires
            i < self.territories@.len(),
        ensures
            r == (self.territories@[i as int].state != TerritoryState::Dormant),
    {
        self.territories[i].is_highlighted()
    }

    pub fn bg_color_for(&self, index: usize) -> (r: usize)
        requires
            self.background_color + index + 1 <= usize::MAX,
        ensures
            r == self.background_color + index + 1,
    {
        self.background_color + index + 1
    }

    pub fn set_color_for(&mut self, index: usize, color: usize)
        requires
            index < old(self).territories@.len(),
            color <= u32::MAX,
        ensures
            final(self).territories@ == old(self).territories@.update(
                index as int,
                Territory { color: color as u32, ..old(self).territories@[index as int] },
            ),
            final(self).width == old(self).width,
            final(self).height == old(self).height,
            final(self).background_color == old(self).background_color,
            final(self).background_index == old(self).background_index,
            final(self).troops_to_place == old(self).troops_to_place,
            final(self).placement_cache@ == old(self).placement_cache@,
    {
        self.territories[index].color = color as u32;
    }

    pub fn color_for(&self, index: usize) -> (r: u32)
        requires
            index < self.territories@.len(),
        ensures
            r == self.territories@[index as int].color,
    {
        self.territories[index].color
    }
}

/// Some territory of `ts` carries the marker `st`.
pub open spec fn has_state(ts: Seq<Territory>, st: TerritoryState) -> bool {
    exists|i: int| 0 <= i < ts.len() && (#[trigger] ts[i]).state == st
}

/// `i` is the lowest index of `ts` whose territory carries the marker `st`.
pub open spec fn is_first_with(ts: Seq<Territory>, st: TerritoryState, i: int) -> bool {
    &&& 0 <= i < ts.len()
    &&& ts[i].state == st
    &&& forall|j: int| 0 <= j < i ==> (#[trigger] ts[j]).state != st
}

pub(crate) fn vec_contains_u32(v: &Vec<u32>, x: u32) -> (r: bool)
    ensures
        r == v@.contains(x),
{
    let mut i: usize = 0;
    while i < v.len()
        invariant
            i <= v@.len(),
            forall|j: int| 0 <= j < i ==> v@[j] != x,
        decreases v@.len() - i,
    {
        if v[i] == x {
            return true;
        }
        i = i + 1;
    }
    false
}

impl GameMap {
    /// Lowest territory index carrying the marker `st`, if any.
    pub(crate) fn find_state_index(&self, st: TerritoryState) -> (r: Option<usize>)
        ensures
            match r {
                Option::Some(i) => is_first_with(self.territories@, st, i as int),
                Option::None => !has_state(self.territories@, st),
            },
    {
        let mut i: usize = 0;
        while i < self.territories.len()
            invariant
                i <= self.territories@.len(),
                forall|j: int| 0 <= j < i ==> (#[trigger] self.territories@[j]).state != st,
            decreases self.territories@.len() - i,
        {
            if self.territories[i].state == st {
                return Some(i);
            }
            i = i + 1;
        }
        None
    }

    pub fn find_selected_index(&self) -> (r: Option<usize>)
        ensures
            match r {
                Option::Some(i) => is_first_with(self.territories@, TerritoryState::Selected, i as int),
                Option::None => !has_state(self.territories@, TerritoryState::Selected),
            },
    {
        self.find_state_index(TerritoryState::Selected)
    }

    /// A transfer is pending: some territory is selected and some is targeted.
    pub fn movement_eminent(&self) -> (r: bool)
        ensures
            r == (has_state(self.territories@, TerritoryState::Selected) && has_state(
                self.territories@,
                TerritoryState::Targeted,
            )),
    {
        let sel = self.find_state_index(TerritoryState::Selected);
        let targ = self.find_state_index(TerritoryState::Targeted);
        sel.is_some() && targ.is_some()
    }

    /// Center of the first selected territory, for drawing the transfer arrow.
    pub fn get_movement_arrow_start(&self) -> (r: usize)
        requires
            has_state(self.territories@, TerritoryState::Selected),
        ensures
            exists|i: int|
                #[trigger] is_first_with(self.territories@, TerritoryState::Selected, i) && r
                    == self.territories@[i].center,
    {
        match self.find_state_index(TerritoryState::Selected) {
            Some(i) => self.territories[i].center as usize,
            None => 0,
        }
    }

    /// Center of the first targeted territory, for drawing the transfer arrow.
    pub fn get_movement_arrow_end(&self) -> (r: usize)
        requires
            has_state(self.territories@, TerritoryState::Targeted),
        ensures
            exists|i: int|
                #[trigger] is_first_with(self.territories@, TerritoryState::Targeted, i) && r
                    == self.territories@[i].center,
    {
        match self.find_state_index(TerritoryState::Targeted) {
            Some(i) => self.territories[i].center as usize,
            None => 0,
        }
    }

    pub fn unselect(&mut self, index: usize)
        requires
            index < old(self).territories@.len(),
        ensures
            final(self).territories@ == old(self).territories@.update(
                index as int,
                (Territory {
                    state: TerritoryState::Dormant,
                    ..old(self).territories@[index as int]
                }),
            ),
            final(self).width == old(self).width,
            final(self).height == old(self).height,
            final(self).background_color == old(self).background_color,
            final(self).background_index == old(self).background_index,
            final(self).troops_to_place == old(self).troops_to_place,
            final(self).placement_cache@ == old(self).placement_cache@,
    {
        self.territories[index].state = TerritoryState::Dormant;
    }

    /// Toggles `index` as the source of an engagement: selecting it when no
    /// territory is selected, unselecting it when it already is, and refusing
    /// when another territory holds the selection.
    pub fn select_as_source(&mut self, index: usize) -> (r: bool)
        requires
            index < old(self).territories@.len(),
        ensures
            final(self).width == old(self).width,
            final(self).height == old(self).height,
            final(self).background_color == old(self).background_color,
            final(self).background_index == old(self).background_index,
            final(self).troops_to_place == old(self).troops_to_place,
            final(self).placement_cache@ == old(self).placement_cache@,
            if is_first_with(old(self).territories@, TerritoryState::Selected, index as int) {
                r && final(self).territories@ == old(self).territories@.update(
                    index as int,
                    (Territory {
                        state: TerritoryState::Dormant,
                        ..old(self).territories@[index as int]
                    }),
                )
            } else if has_state(old(self).territories@, TerritoryState::Selected) {
                !r && final(self).territories@ == old(self).territories@
            } else {
                r && final(self).territories@ == old(self).territories@.update(
                    index as int,
                    (Territory {
                        state: TerritoryState::Selected,
                        ..old(self).territories@[index as int]
                    }),
                )
            },
    {
        let selected = self.find_selected_index();
        match selected {
            Some(s) => {
                if s == index {
                    self.territories[index].state = TerritoryState::Dormant;
                    true
                } else {
                    false
                }
            },
            None => {
                self.territories[index].state = TerritoryState::Selected;
                true
            },
        }
    }

    /// Whether `target` is adjacent to `attacker`.
    pub fn can_attack(self, attacker: usize, target: usize) -> (r: bool)
        requires
            attacker < self.territories@.len(),
            target <= u32::MAX,
        ensures
            r == self.territories@[attacker as int].neighbors@.contains(target as u32),
    {
        let x = target as u32;
        vec_contains_u32(&self.territories[attacker].neighbors, x)
    }

    /// Maps a picked color back to the territory it designates, or to the
    /// background index when it designates none.
    pub fn territory_with_color(&self, color: usize) -> (r: usize)
        ensures
            if self.background_color < color && color - self.background_color - 1
                < self.territories@.len() {
                r == color - self.background_color - 1
            } else {
                r == self.background_index
            },
    {
        if color > self.background_color {
            let i = color - self.background_color - 1;
            if i < self.territories.len() {
                return i;
            }
        }
        self.background_index
    }
}

/// The vertex lists of the first `k` territories, laid end to end.
pub open spec fn flat_vertices(ts: Seq<Territory>, k: int) -> Seq<u32>
    decreases k,
{
    if k <= 0 {
        Seq::empty()
    } else {
        flat_vertices(ts, k - 1) + ts[k - 1].vertices@
    }
}

pub(crate) fn copy_vec_u32(v: &Vec<u32>) -> (r: Vec<u32>)
    ensures
        r@ == v@,
{
    let mut r: Vec<u32> = Vec::new();
    let mut i: usize = 0;
    while i < v.len()
        invariant
            i <= v@.len(),
            r@ == v@.take(i as int),
        decreases v@.len() - i,
    {
        r.push(v[i]);
        assert(r@ =~= v@.take(i + 1));
        i = i + 1;
    }
    assert(r@ =~= v@);
    r
}

/// Rebuilds a territory value equal to the given one.
pub(crate) fn copy_territory(t: &Territory) -> (r: Territory)
    ensures
        t_eq(r, *t),
{
    Territory {
        vertices: copy_vec_u32(&t.vertices),
        center: t.center,
        color: t.color,
        troops: t.troops,
        state: t.state,
        neighbors: copy_vec_u32(&t.neighbors),
    }
}

impl GameMap {
    /// All territory outlines flattened into one vertex list.
    pub fn vertices(&self) -> (r: Vec<u32>)
        ensures
            r@ == flat_vertices(self.territories@, self.territories@.len() as int),
    {
        let mut r: Vec<u32> = Vec::new();
        let mut i: usize = 0;
        while i < self.territories.len()
            invariant
                i <= self.territories@.len(),
                r@ == flat_vertices(self.territories@, i as int),
            decreases self.territories@.len() - i,
        {
            let mut j: usize = 0;
            while j < self.territories[i].vertices.len()
                invariant
                    i < self.territories@.len(),
                    j <= self.territories@[i as int].vertices@.len(),
                    r@ == flat_vertices(self.territories@, i as int) + self.territories@[
                        i as int
                    ].vertices@.take(j as int),
                decreases self.territories@[i as int].vertices@.len() - j,
            {
                r.push(self.territories[i].vertices[j]);
                assert(self.territories@[i as int].vertices@.take(j + 1)
                    =~= self.territories@[i as int].vertices@.take(j as int).push(
                    self.territories@[i as int].vertices@[j as int],
                ));
                j = j + 1;
            }
            assert(self.territories@[i as int].vertices@.take(
                self.territories@[i as int].vertices@.len() as int,
            ) =~= self.territories@[i as int].vertices@);
            i = i + 1;
        }
        r
    }

    /// The outline of one territory.
    pub fn vertices_for(&self, index: usize) -> (r: Vec<u32>)
        requires
            index < self.territories@.len(),
        ensures
            r@ == self.territories@[index as int].vertices@,
    {
        copy_vec_u32(&self.territories[index].vertices)
    }

    /// The label anchor of every territory.
    pub fn centers(&self) -> (r: Vec<u32>)
        ensures
            r@.len() == self.territories@.len(),
            forall|i: int|
                0 <= i < self.territories@.len() ==> #[trigger] r@[i] == self.territories@[
                    i
                ].center,
    {
        let mut r: Vec<u32> = Vec::new();
        let mut i: usize = 0;
        while i < self.territories.len()
            invariant
                i <= self.territories@.len(),
                r@.len() == i,
                forall|j: int| 0 <= j < i ==> #[trigger] r@[j] == self.territories@[j].center,
            decreases self.territories@.len() - i,
        {
            r.push(self.territories[i].center);
            i = i + 1;
        }
        r
    }
}

/// Direction in which the hit-test color ramp runs from a base blue value.
pub open spec fn ramp_sign(territory_blue: int) -> int {
    if territory_blue < 128 {
        1
    } else if territory_blue > 128 {
        -1
    } else {
        0
    }
}

impl GameMap {
    /// Whether a clicked blue value matches the ramp entry of territory
    /// `index` relative to the base blue of the board.
    pub fn match_color_with_index(index: &usize, territory_blue: isize, click_blue: isize) -> (r:
        bool)
        requires
            *index <= isize::MAX,
            territory_blue + *index <= isize::MAX,
            territory_blue - *index >= isize::MIN,
        ensures
            r == (territory_blue + ramp_sign(territory_blue as int) * (*index as int)
                == click_blue),
    {
        let sign: isize = if territory_blue < 128 {
            1
        } else if territory_blue > 128 {
            -1
        } else {
            0
        };
        let i = *index as isize;
        territory_blue + sign * i == click_blue
    }

    /// Stages `troops` more troops for territory `*index`, marks it selected,
    /// and returns the new staged amount for it.
    pub fn troop_placement_cache(&mut self, index: &usize, troops: usize) -> (r: usize)
        requires
            *index < old(self).territories@.len(),
            old(self).placement_cache@.len() == old(self).territories@.len(),
            old(self).placement_cache@[*index as int] + troops <= u32::MAX,
        ensures
            final(self).placement_cache@ == old(self).placement_cache@.update(
                *index as int,
                (old(self).placement_cache@[*index as int] + troops) as u32,
            ),
            final(self).territories@ == old(self).territories@.update(
                *index as int,
                (Territory {
                    state: TerritoryState::Selected,
                    ..old(self).territories@[*index as int]
                }),
            ),
            r == old(self).placement_cache@[*index as int] + troops,
            final(self).width == old(self).width,
            final(self).height == old(self).height,
            final(self).background_color == old(self).background_color,
            final(self).background_index == old(self).background_index,
            final(self).troops_to_place == old(self).troops_to_place,
    {
        let new_troops: u32 = self.placement_cache[*index] + (troops as u32);
        self.placement_cache[*index] = new_troops;
        self.territories[*index].state = TerritoryState::Selected;
        new_troops as usize
    }

    /// Marks territory `index` selected and stages `troops` more troops for it.
    pub fn cache_troop_placement(&mut self, index: usize, troops: usize) -> (r: usize)
        requires
            index < old(self).territories@.len(),
            old(self).placement_cache@.len() == old(self).territories@.len(),
            old(self).placement_cache@[index as int] + troops <= u32::MAX,
        ensures
            final(self).placement_cache@ == old(self).placement_cache@.update(
                index as int,
                (old(self).placement_cache@[index as int] + troops) as u32,
            ),
            final(self).territories@ == old(self).territories@.update(
                index as int,
                (Territory {
                    state: TerritoryState::Selected,
                    ..old(self).territories@[index as int]
                }),
            ),
            r == old(self).placement_cache@[index as int] + troops,
            final(self).width == old(self).width,
            final(self).height == old(self).height,
            final(self).background_color == old(self).background_color,
            final(self).background_index == old(self).background_index,
            final(self).troops_to_place == old(self).troops_to_place,
    {
        self.territories[index].state = TerritoryState::Selected;
        let r = self.troop_placement_cache(&index, troops);
        proof {
            assert(final(self).territories@ =~= old(self).territories@.update(
                index as int,
                (Territory {
                    state: TerritoryState::Selected,
                    ..old(self).territories@[index as int]
                }),
            ));
        }
        r
    }

    /// Adds each staged territory's staged amount to its garrison, unselects
    /// those territories, and empties the ledger.
    pub fn commit_troop_placement(&mut self)
        requires
            old(self).placement_cache@.len() == old(self).territories@.len(),
            forall|i: int|
                0 <= i < old(self).territories@.len() ==> #[trigger] old(self).territories@[i].troops
                    + old(self).placement_cache@[i] <= u32::MAX,
        ensures
            final(self).territories@.len() == old(self).territories@.len(),
            forall|i: int|
                0 <= i < old(self).territories@.len() ==> #[trigger] final(self).territories@[i]
                    == (if old(self).placement_cache@[i] > 0 {
                    (Territory {
                        troops: (old(self).territories@[i].troops + old(self).placement_cache@[i]) as u32,
                        state: TerritoryState::Dormant,
                        ..old(self).territories@[i]
                    })
                } else {
                    old(self).territories@[i]
                }),
            final(self).placement_cache@.len() == old(self).placement_cache@.len(),
            forall|i: int|
                0 <= i < old(self).placement_cache@.len() ==> #[trigger] final(self).placement_cache@[i] == 0,
            final(self).width == old(self).width,
            final(self).height == old(self).height,
            final(self).background_color == old(self).background_color,
            final(self).background_index == old(self).background_index,
            final(self).troops_to_place == old(self).troops_to_place,
    {
        let ghost t0 = old(self).territories@;
        let ghost c0 = old(self).placement_cache@;
        let mut i: usize = 0;
        while i < self.territories.len()
            invariant
                i <= t0.len(),
                self.territories@.len() == t0.len(),
                self.placement_cache@.len() == t0.len(),
                c0.len() == t0.len(),
                forall|j: int| 0 <= j < t0.len() ==> #[trigger] t0[j].troops + c0[j] <= u32::MAX,
                forall|j: int|
                    0 <= j < i ==> #[trigger] self.territories@[j] == (if c0[j] > 0 {
                        (Territory {
                            troops: (t0[j].troops + c0[j]) as u32,
                            state: TerritoryState::Dormant,
                            ..t0[j]
                        })
                    } else {
                        t0[j]
                    }),
                forall|j: int| 0 <= j < i ==> #[trigger] self.placement_cache@[j] == 0,
                forall|j: int| i <= j < t0.len() ==> #[trigger] self.territories@[j] == t0[j],
                forall|j: int| i <= j < t0.len() ==> #[trigger] self.placement_cache@[j] == c0[j],
                self.width == old(self).width,
                self.height == old(self).height,
                self.background_color == old(self).background_color,
                self.background_index == old(self).background_index,
                self.troops_to_place == old(self).troops_to_place,
            decreases t0.len() - i,
        {
            let staged = self.placement_cache[i];
            if staged > 0 {
                let current = self.territories[i].troops;
                self.territories[i].troops = current + staged;
                self.territories[i].state = TerritoryState::Dormant;
            }
            self.placement_cache[i] = 0;
            i = i + 1;
        }
    }

    /// Paints every territory with the color of the player that owns it.
    pub fn set_all_territory_colors(&mut self, players: &Vec<Player>)
        requires
            forall|p: int, k: int|
                0 <= p < players@.len() && 0 <= k < players@[p].territories@.len()
                    ==> #[trigger] players@[p].territories@[k] < old(self).territories@.len(),
            crate::player::players_disjoint(players@),
        ensures
            final(self).territories@.len() == old(self).territories@.len(),
            forall|p: int, k: int|
                0 <= p < players@.len() && 0 <= k < players@[p].territories@.len()
                    ==> #[trigger] final(self).territories@[players@[p].territories@[k] as int].color
                    == players@[p].color,
            forall|i: int|
                0 <= i < old(self).territories@.len() && !player_listed(players@, i)
                    ==> #[trigger] final(self).territories@[i] == old(self).territories@[i],
            forall|i: int|
                0 <= i < old(self).territories@.len() ==> (#[trigger] final(self).territories@[i])
                    == (Territory { color: final(self).territories@[i].color, ..old(self).territories@[i] }),
            final(self).width == old(self).width,
            final(self).height == old(self).height,
            final(self).background_color == old(self).background_color,
            final(self).background_index == old(self).background_index,
            final(self).troops_to_place == old(self).troops_to_place,
            final(self).placement_cache@ == old(self).placement_cache@,
    {
        let ghost t0 = old(self).territories@;
        let mut p: usize = 0;
        while p < players.len()
            invariant
                p <= players@.len(),
                self.territories@.len() == t0.len(),
                forall|q: int, k: int|
                    0 <= q < players@.len() && 0 <= k < players@[q].territories@.len()
                        ==> #[trigger] players@[q].territories@[k] < t0.len(),
                crate::player::players_disjoint(players@),
                forall|q: int, k: int|
                    0 <= q < p && 0 <= k < players@[q].territories@.len()
                        ==> #[trigger] self.territories@[players@[q].territories@[k] as int].color
                        == players@[q].color,
                forall|i: int|
                    0 <= i < t0.len() && !player_listed_upto(players@, p as int, i)
                        ==> #[trigger] self.territories@[i] == t0[i],
                forall|i: int|
                    0 <= i < t0.len() ==> (#[trigger] self.territories@[i]) == (Territory {
                        color: self.territories@[i].color,
                        ..t0[i]
                    }),
                self.width == old(self).width,
                self.height == old(self).height,
                self.background_color == old(self).background_color,
                self.background_index == old(self).background_index,
                self.troops_to_place == old(self).troops_to_place,
                self.placement_cache@ == old(self).placement_cache@,
            decreases players@.len() - p,
        {
            let color = players[p].color;
            let mut k: usize = 0;
            while k < players[p].territories.len()
                invariant
                    p < players@.len(),
                    k <= players@[p as int].territories@.len(),
                    self.territories@.len() == t0.len(),
                    forall|q: int, kk: int|
                        0 <= q < players@.len() && 0 <= kk < players@[q].territories@.len()
                            ==> #[trigger] players@[q].territories@[kk] < t0.len(),
                    crate::player::players_disjoint(players@),
                    color == players@[p as int].color,
                    forall|q: int, kk: int|
                        0 <= q < p && 0 <= kk < players@[q].territories@.len()
                            ==> #[trigger] self.territories@[players@[q].territories@[kk] as int].color
                            == players@[q].color,
                    forall|kk: int|
                        0 <= kk < k
                            ==> #[trigger] self.territories@[players@[p as int].territories@[kk] as int].color
                            == players@[p as int].color,
                    forall|i: int|
                        0 <= i < t0.len() && !player_listed_upto(players@, p as int, i) && !(exists|
                            kk: int,
                        |
                            0 <= kk < k && players@[p as int].territories@[kk] == i)
                            ==> #[trigger] self.territories@[i] == t0[i],
                    forall|i: int|
                        0 <= i < t0.len() ==> (#[trigger] self.territories@[i]) == (Territory {
                            color: self.territories@[i].color,
                            ..t0[i]
                        }),
                    self.width == old(self).width,
                    self.height == old(self).height,
                    self.background_color == old(self).background_color,
                    self.background_index == old(self).background_index,
                    self.troops_to_place == old(self).troops_to_place,
                    self.placement_cache@ == old(self).placement_cache@,
                decreases players@[p as int].territories@.len() - k,
            {
                let t = players[p].territories[k];
                self.set_color_for(t as usize, color as usize);
                proof {
                    assert(players@[p as int].territories@[k as int] == t);
                    assert(players@[p as int].territories@.contains(t));
                    assert forall|q: int, kk: int|
                        0 <= q < p && 0 <= kk < players@[q].territories@.len() implies #[trigger] self
                        .territories@[players@[q].territories@[kk] as int].color == players@[
                        q
                    ].color by {
                        if players@[q].territories@[kk] == t {
                            assert(players@[q].territories@.contains(t));
                        }
                    }
                }
                k = k + 1;
            }
            p = p + 1;
            assert forall|i: int|
                0 <= i < t0.len() && !player_listed_upto(players@, p as int, i) implies #[trigger] self
                .territories@[i] == t0[i] by {
                assert(!player_listed_upto(players@, p - 1, i));
            }
        }
    }
}

/// The fixed demonstration board: five territories in two countries.
pub open spec fn is_default_map(m: GameMap) -> bool {
    &&& m.width == 16
    &&& m.height == 16
    &&& m.background_color == 0
    &&& m.background_index == 16777215
    &&& m.troops_to_place == 0
    &&& m.placement_cache@ == seq![0u32, 0, 0, 0, 0]
    &&& m.territories@.len() == 5
    &&& m.territories@[0].vertices@ == seq![17u32, 23, 39, 85, 66, 17]
    &&& m.territories@[0].center == 52
    &&& m.territories@[0].color == 0xFF0000
    &&& m.territories@[0].troops == 167
    &&& m.territories@[0].state == TerritoryState::Dormant
    &&& m.territories@[0].neighbors@ == seq![1u32, 2, 3]
    &&& m.territories@[1].vertices@ == seq![23u32, 39, 56, 107, 94, 45, 23]
    &&& m.territories@[1].center == 75
    &&& m.territories@[1].color == 0xFF0000
    &&& m.territories@[1].troops == 289
    &&& m.territories@[1].state == TerritoryState::Dormant
    &&& m.territories@[1].neighbors@ == seq![0u32, 2, 4]
    &&& m.territories@[2].vertices@ == seq![85u32, 39, 56, 107, 169, 216, 85]
    &&& m.territories@[2].center == 104
    &&& m.territories@[2].color == 0x00FFCC
    &&& m.territories@[2].troops == 3
    &&& m.territories@[2].state == TerritoryState::Dormant
    &&& m.territories@[2].neighbors@ == seq![0u32, 1, 3, 4]
    &&& m.territories@[3].vertices@ == seq![66u32, 85, 216, 246, 128, 66]
    &&& m.territories@[3].center == 148
    &&& m.territories@[3].color == 0x00FFCC
    &&& m.territories@[3].troops == 4
    &&& m.territories@[3].state == TerritoryState::Dormant
    &&& m.territories@[3].neighbors@ == seq![0u32, 2]
    &&& m.territories@[4].vertices@ == seq![94u32, 220, 216, 169, 107, 94]
    &&& m.territories@[4].center == 156
    &&& m.territories@[4].color == 0x00FFCC
    &&& m.territories@[4].troops == 5
    &&& m.territories@[4].state == TerritoryState::Dormant
    &&& m.territories@[4].neighbors@ == seq![1u32, 2]
}

impl GameMap {
    /// Builds the fixed demonstration board.
    pub fn build_map() -> (r: GameMap)
        ensures
            r.init_ok(),
            is_default_map(r),
            r.troops_total() == 468,
    {
        let c1 = Country { territories: vec![0, 1], border_color: 0xFF0000 };
        let c2 = Country { territories: vec![2, 3], border_color: 0x00FFCC };
        let t1 = Territory {
            vertices: vec![17u32, 23, 39, 85, 66, 17],
            center: 52,
            color: c1.border_color,
            troops: 167,
            state: TerritoryState::Dormant,
            neighbors: vec![1u32, 2, 3],
        };
        let t2 = Territory {
            vertices: vec![23u32, 39, 56, 107, 94, 45, 23],
            center: 75,
            color: c1.border_color,
            troops: 289,
            state: TerritoryState::Dormant,
            neighbors: vec![0u32, 2, 4],
        };
        let t3 = Territory {
            vertices: vec![85u32, 39, 56, 107, 169, 216, 85],
            center: 104,
            color: c2.border_color,
            troops: 3,
            state: TerritoryState::Dormant,
            neighbors: vec![0u32, 1, 3, 4],
        };
        let t4 = Territory {
            vertices: vec![66u32, 85, 216, 246, 128, 66],
            center: 148,
            color: c2.border_color,
            troops: 4,
            state: TerritoryState::Dormant,
            neighbors: vec![0u32, 2],
        };
        let t5 = Territory {
            vertices: vec![94u32, 220, 216, 169, 107, 94],
            center: 156,
            color: c2.border_color,
            troops: 5,
            state: TerritoryState::Dormant,
            neighbors: vec![1u32, 2],
        };
        let m = GameMap {
            width: 16,
            height: 16,
            territories: vec![t1, t2, t3, t4, t5],
            background_color: 0,
            background_index: 16777215,
            troops_to_place: 0,
            placement_cache: vec![0u32, 0, 0, 0, 0],
        };
        proof {
            let ts = m.territories@;
            assert(ts[0].neighbors@[0] == 1);
            assert(ts[0].neighbors@[1] == 2);
            assert(ts[0].neighbors@[2] == 3);
            assert(ts[1].neighbors@[0] == 0);
            assert(ts[1].neighbors@[1] == 2);
            assert(ts[1].neighbors@[2] == 4);
            assert(ts[2].neighbors@[0] == 0);
            assert(ts[2].neighbors@[1] == 1);
            assert(ts[2].neighbors@[2] == 3);
            assert(ts[2].neighbors@[3] == 4);
            assert(ts[3].neighbors@[0] == 0);
            assert(ts[3].neighbors@[1] == 2);
            assert(ts[4].neighbors@[0] == 1);
            assert(ts[4].neighbors@[1] == 2);
            assert(m.graph_wf());
            assert(troops_of(ts) =~= seq![167u32, 289, 3, 4, 5]);
            assert(sum_u32(seq![167u32, 289, 3, 4, 5]) == 468) by {
                reveal_with_fuel(sum_u32, 6);
                assert(seq![167u32, 289, 3, 4, 5].drop_last() =~= seq![167u32, 289, 3, 4]);
                assert(seq![167u32, 289, 3, 4].drop_last() =~= seq![167u32, 289, 3]);
                assert(seq![167u32, 289, 3].drop_last() =~= seq![167u32, 289]);
                assert(seq![167u32, 289].drop_last() =~= seq![167u32]);
                assert(seq![167u32].drop_last() =~= Seq::<u32>::empty());
            }
        }
        m
    }

    /// A freshly authored board, ready for a match.
    pub fn new() -> (r: GameMap)
        ensures
            r.init_ok(),
            is_default_map(r),
            r.troops_total() == 468,
    {
        GameMap::build_map()
    }
}

/// Territory `i` occurs in some ownership list of `ps`.
pub open spec fn player_listed(ps: Seq<Player>, i: int) -> bool {
    exists|q: int, k: int|
        0 <= q < ps.len() && 0 <= k < ps[q].territories@.len() && #[trigger] ps[q].territories@[k]
            == i
}

/// Territory `i` occurs in the ownership list of a player before `p`.
pub open spec fn player_listed_upto(ps: Seq<Player>, p: int, i: int) -> bool {
    exists|q: int, k: int|
        0 <= q < p && q < ps.len() && 0 <= k < ps[q].territories@.len() && #[trigger] ps[
            q
        ].territories@[k] == i
}

} // verus!
