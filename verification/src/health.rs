use vstd::prelude::*;

verus! {

/// Hit points of an enemy or of the base.
#[derive(Clone, Copy, Debug, PartialEq, Eq, Structural)]
pub struct Health {
    pub max: i32,
    pub current: i32,
}

impl Health {
    /// `current` never exceeds `max`.
    pub open spec fn wf(self) -> bool {
        self.current <= self.max
    }

    /// No hit points are left: further damage changes nothing.
    pub open spec fn depleted(self) -> bool {
        self.current <= 0
    }

    /// The health after one request of `damage` points. A request on
    /// depleted health, or of no or negative damage, changes nothing.
    pub open spec fn damaged(self, damage: int) -> Health {
        if self.current > 0 && damage > 0 {
            Health { max: self.max, current: (self.current - damage) as i32 }
        } else {
            self
        }
    }

    /// The health after the requests `damages`, applied in order.
    pub open spec fn damaged_all(self, damages: Seq<i32>) -> Health
        decreases damages.len(),
    {
        if damages.len() == 0 {
            self
        } else {
            self.damaged_all(damages.drop_last()).damaged(damages.last() as int)
        }
    }

    /// The health after `hits` requests of one point each.
    pub open spec fn after_hits(self, hits: nat) -> Health {
        if self.current <= 0 {
            self
        } else if hits >= self.current {
            Health { max: self.max, current: 0 }
        } else {
            Health { max: self.max, current: (self.current - hits) as i32 }
        }
    }

    /// Full health of `max` points.
    pub fn new(max: i32) -> (h: Health)
        ensures
            h.max == max,
            h.current == max,
            h.wf(),
    {
        Health { max, current: max }
    }

    /// Takes `damage` points off `current`, unless the health is depleted
    /// already or `damage` is not positive.
    pub fn damage(&mut self, damage: i32)
        ensures
            *final(self) == old(self).damaged(damage as int),
            final(self).max == old(self).max,
            final(self).current <= old(self).current,
            old(self).wf() ==> final(self).wf(),
            old(self).depleted() ==> *final(self) == *old(self),
    {
        if self.current > 0 && damage > 0 {
            self.current = self.current - damage;
        }
    }

    /// One more hit of one point is one more request of one point.
    pub proof fn lemma_after_hits_step(self, hits: nat)
        ensures
            self.after_hits(hits + 1) == self.after_hits(hits).damaged(1),
            self.after_hits(0) == self,
    {
    }

    /// Whatever the requests, `current` never rises and never passes `max`,
    /// the maximum stays, and depleted health is left as it is: damage stops
    /// at the first request that brings `current` to zero or below.
    pub proof fn lemma_damage_is_clamped(self, damages: Seq<i32>)
        ensures
            self.damaged_all(damages).max == self.max,
            self.damaged_all(damages).current <= self.current,
            self.wf() ==> self.damaged_all(damages).wf(),
            self.depleted() ==> self.damaged_all(damages) == self,
        decreases damages.len(),
    {
        if damages.len() > 0 {
            self.lemma_damage_is_clamped(damages.drop_last());
        }
    }

    /// Once a prefix of the requests has depleted the health, the requests
    /// that follow change nothing.
    pub proof fn lemma_damage_stops_when_depleted(self, before: Seq<i32>, after: Seq<i32>)
        requires
            self.damaged_all(before).depleted(),
        ensures
            self.damaged_all(before + after) == self.damaged_all(before),
        decreases after.len(),
    {
        if after.len() == 0 {
            assert(before + after =~= before);
        } else {
            self.lemma_damage_stops_when_depleted(before, after.drop_last());
            assert((before + after).drop_last() =~= before + after.drop_last());
            assert((before + after).last() == after.last());
        }
    }
}

} // verus!
