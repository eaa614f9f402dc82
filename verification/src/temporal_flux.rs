use vstd::prelude::*;

verus! {

/// Flux above this value starts to reduce hit accuracy.
pub const HIGH_FLUX_THRESHOLD: u32 = 75;

/// Flux ceiling; reaching it triggers a Temporal Collapse.
pub const MAX_FLUX: u32 = 100;

/// Zone-level temporal instability counter.
///
/// Increases as temporal abilities are used; at maximum triggers a Temporal Collapse
/// that damages and disrupts all combatants. Affects hit accuracy above the threshold.
#[derive(Debug, Clone, Copy, PartialEq, Eq, Structural)]
pub struct TemporalFlux {
    pub flux: u32,
}

impl Default for TemporalFlux {
    /// A calm zone: no flux.
    fn default() -> (f: Self)
        ensures
            f.flux == 0,
    {
        TemporalFlux { flux: 0 }
    }
}

impl TemporalFlux {
    /// Add flux, clamped to [`MAX_FLUX`].
    pub fn add(&mut self, amount: u32)
        requires
            old(self).flux + amount <= u32::MAX,
        ensures
            final(self).flux == (if old(self).flux + amount < MAX_FLUX {
                old(self).flux + amount
            } else {
                MAX_FLUX as int
            }),
            final(self).flux <= MAX_FLUX,
            final(self).spec_is_overloaded() == (old(self).flux + amount >= MAX_FLUX),
    {
        let total = self.flux + amount;
        self.flux = if total < MAX_FLUX { total } else { MAX_FLUX };
    }

    /// Reset flux to zero (called after a Temporal Collapse).
    pub fn reset(&mut self)
        ensures
            final(self).flux == 0,
    {
        self.flux = 0;
    }

    /// Whether flux has reached the collapse point.
    pub open spec fn spec_is_overloaded(&self) -> bool {
        self.flux >= MAX_FLUX
    }

    /// Returns `true` when flux has reached [`MAX_FLUX`]: triggers a Temporal Collapse.
    #[verifier::when_used_as_spec(spec_is_overloaded)]
    pub fn is_overloaded(&self) -> (b: bool)
        ensures
            b == self.spec_is_overloaded(),
    {
        self.flux >= MAX_FLUX
    }
}

} // verus!
