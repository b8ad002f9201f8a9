use vstd::prelude::*;

verus! {

/// Marker describing how a territory takes part in the current selection.
#[derive(Clone, Copy, PartialEq, Eq, Structural, Debug)]
pub enum TerritoryState {
    Dormant,
    Selected,
    Targeted,
    Highlighted,
}

/// A node of the territory graph: render geometry, owner color, garrison and
/// selection marker, plus the indices of its neighbors.
pub struct Territory {
    pub vertices: Vec<u32>,
    pub center: u32,
    pub color: u32,
    pub troops: u32,
    pub state: TerritoryState,
    pub neighbors: Vec<u32>,
}

impl Territory {
    pub fn is_selected(&self) -> (r: bool)
        ensures
            r == (self.state == TerritoryState::Selected),
    {
        self.state == TerritoryState::Selected
    }

    pub fn is_targeted(&self) -> (r: bool)
        ensures
            r == (self.state == TerritoryState::Targeted),
    {
        self.state == TerritoryState::Targeted
    }

    /// A territory counts as highlighted when it carries any non-dormant marker.
    pub fn is_highlighted(&self) -> (r: bool)
        ensures
            r == (self.state != TerritoryState::Dormant),
    {
        self.state == TerritoryState::Highlighted || self.is_selected() || self.is_targeted()
    }

    pub fn set_troops(&mut self, troops: u32)
        ensures
            *final(self) == (Territory { troops, ..*old(self) }),
    {
        self.troops = troops;
    }

    /// Adds to the garrison; a gain that would not fit is rejected as a no-op.
    pub fn add_troops(&mut self, troops: u32)
        ensures
            old(self).troops + troops <= u32::MAX ==> *final(self) == (Territory {
                troops: (old(self).troops + troops) as u32,
                ..*old(self)
            }),
            old(self).troops + troops > u32::MAX ==> *final(self) == *old(self),
    {
        if troops <= u32::MAX - self.troops {
            self.troops = self.troops + troops;
        }
    }

    /// Removes from the garrison; a loss larger than the garrison is rejected
    /// as a no-op rather than allowed to underflow.
    pub fn sub_troops(&mut self, troops: u32)
        ensures
            troops <= old(self).troops ==> *final(self) == (Territory {
                troops: (old(self).troops - troops) as u32,
                ..*old(self)
            }),
            troops > old(self).troops ==> *final(self) == *old(self),
    {
        if troops <= self.troops {
            let new_troops = self.troops - troops;
            self.troops = new_troops;
        }
    }

    pub fn vertices(&self) -> (r: &Vec<u32>)
        ensures
            r@ == self.vertices@,
    {
        &self.vertices
    }

    pub fn troops(&self) -> (r: u32)
        ensures
            r == self.troops,
    {
        self.troops
    }
}

} // verus!
