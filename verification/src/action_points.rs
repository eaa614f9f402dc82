use vstd::prelude::*;

verus! {

/// Action points available to a combatant each turn.
#[derive(Debug, Clone, Copy, PartialEq, Eq, Structural)]
pub struct ActionPoints {
    pub current: i32,
    pub max: i32,
}

impl ActionPoints {
    /// A full pool: `current` starts at `max`.
    pub fn new(max: i32) -> (ap: Self)
        ensures
            ap.current == max,
            ap.max == max,
    {
        Self { current: max, max }
    }

    /// Spends `cost` AP. Returns true on success; no change on failure.
    pub fn spend(&mut self, cost: i32) -> (ok: bool)
        requires
            old(self).current >= cost ==> old(self).current - cost <= i32::MAX,
        ensures
            ok == (old(self).current >= cost),
            ok ==> final(self).current == old(self).current - cost,
            !ok ==> final(self).current == old(self).current,
            final(self).max == old(self).max,
    {
        if self.current >= cost {
            self.current = self.current - cost;
            true
        } else {
            false
        }
    }

    /// Restores AP to max. Schedule at the start of each turn.
    pub fn refresh(&mut self)
        ensures
            final(self).current == old(self).max,
            final(self).max == old(self).max,
    {
        self.current = self.max;
    }
}

/// Restores every combatant's AP to its max. Run at the start of each turn.
pub fn refresh_ap_system(pools: &mut Vec<ActionPoints>)
    ensures
        final(pools)@.len() == old(pools)@.len(),
        forall|i: int|
            0 <= i < final(pools)@.len() ==> (#[trigger] final(pools)@[i]).max == old(pools)@[i].max
                && final(pools)@[i].current == old(pools)@[i].max,
{
    let n = pools.len();
    let mut i: usize = 0;
    while i < n
        invariant
            n == old(pools)@.len(),
            pools@.len() == n,
            i <= n,
            forall|j: int| 0 <= j < i ==> (#[trigger] pools@[j]).max == old(pools)@[j].max && pools@[j].current == old(pools)@[j].max,
            forall|j: int| i <= j < n ==> #[trigger] pools@[j] == old(pools)@[j],
        decreases n - i,
    {
        let mut ap = pools[i];
        ap.refresh();
        pools.set(i, ap);
        i = i + 1;
    }
}

} // verus!
