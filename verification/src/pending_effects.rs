use vstd::prelude::*;

use crate::entity::Entity;

verus! {

/// Tracks the current battle round so delayed effects can resolve at the right time.
#[derive(Debug, Clone, Copy, PartialEq, Eq, Structural)]
pub struct CurrentRound(pub u32);

impl Default for CurrentRound {
    /// Round zero: no battle round has started.
    fn default() -> (r: Self)
        ensures
            r.0 == 0,
    {
        CurrentRound(0)
    }
}

/// A single deferred combat effect that resolves on a specific round.
#[derive(Debug, Clone, Copy, PartialEq, Eq, Structural)]
pub enum PendingEffect {
    /// Damage applied to a target on a later round (e.g. from Displacement).
    DelayedDamage { target: Entity, damage: i32, resolve_on_round: u32 },
    /// AP drain applied to a target on a later round (e.g. from Acceleration recoil).
    DrainAP { target: Entity, amount: i32, resolve_on_round: u32 },
}

/// The round on which an effect resolves.
pub open spec fn resolve_round(e: PendingEffect) -> u32 {
    match e {
        PendingEffect::DelayedDamage { resolve_on_round, .. } => resolve_on_round,
        PendingEffect::DrainAP { resolve_on_round, .. } => resolve_on_round,
    }
}

/// Whether `e` resolves on round `round`.
pub open spec fn due_on(round: u32) -> spec_fn(PendingEffect) -> bool {
    |e: PendingEffect| resolve_round(e) == round
}

/// Whether `e` resolves on some other round than `round`.
pub open spec fn not_due_on(round: u32) -> spec_fn(PendingEffect) -> bool {
    |e: PendingEffect| resolve_round(e) != round
}

/// All pending deferred combat effects, in the order they were queued.
#[derive(Debug, Clone)]
pub struct PendingEffects(pub Vec<PendingEffect>);

impl Default for PendingEffects {
    /// No effects pending.
    fn default() -> (p: Self)
        ensures
            p.0@ == Seq::<PendingEffect>::empty(),
    {
        PendingEffects(Vec::new())
    }
}

impl PendingEffects {
    /// Remove and return all effects scheduled to resolve on `current_round`.
    /// Both the returned effects and the ones left keep their queued order.
    pub fn drain_ready(&mut self, current_round: u32) -> (ready: Vec<PendingEffect>)
        ensures
            ready@ == old(self).0@.filter(due_on(current_round)),
            final(self).0@ == old(self).0@.filter(not_due_on(current_round)),
    {
        let ghost orig = self.0@;
        let mut ready: Vec<PendingEffect> = Vec::new();
        let mut keep: Vec<PendingEffect> = Vec::new();
        let mut i: usize = 0;
        proof {
            reveal(Seq::filter);
            assert(orig.subrange(0, 0) =~= Seq::<PendingEffect>::empty());
        }
        while i < self.0.len()
            invariant
                self.0@ == orig,
                i <= orig.len(),
                ready@ == orig.subrange(0, i as int).filter(due_on(current_round)),
                keep@ == orig.subrange(0, i as int).filter(not_due_on(current_round)),
            decreases orig.len() - i,
        {
            let e = self.0[i];
            let round = match e {
                PendingEffect::DelayedDamage { resolve_on_round, .. } => resolve_on_round,
                PendingEffect::DrainAP { resolve_on_round, .. } => resolve_on_round,
            };
            if round == current_round {
                ready.push(e);
            } else {
                keep.push(e);
            }
            proof {
                reveal(Seq::filter);
                let pre = orig.subrange(0, i as int);
                let post = orig.subrange(0, i + 1);
                assert(post.drop_last() =~= pre);
                assert(post.last() == e);
            }
            i = i + 1;
        }
        proof {
            assert(orig.subrange(0, orig.len() as int) =~= orig);
        }
        self.0 = keep;
        ready
    }
}

/// Draining loses and invents nothing: the drained effects and the ones left are,
/// together, the effects that were queued.
pub proof fn lemma_drain_partitions(queued: Seq<PendingEffect>, round: u32)
    ensures
        queued.filter(due_on(round)).to_multiset().add(queued.filter(not_due_on(round)).to_multiset())
            == queued.to_multiset(),
    decreases queued.len(),
{
    reveal(Seq::filter);
    broadcast use vstd::seq_lib::group_to_multiset_ensures;
    if queued.len() > 0 {
        let pre = queued.drop_last();
        lemma_drain_partitions(pre, round);
        assert(queued =~= pre.push(queued.last()));
        assert(queued.filter(due_on(round)).to_multiset().add(queued.filter(not_due_on(round)).to_multiset())
            =~= queued.to_multiset());
    } else {
        assert(queued.filter(due_on(round)).to_multiset().add(queued.filter(not_due_on(round)).to_multiset())
            =~= queued.to_multiset());
    }
}

} // verus!
