use vstd::prelude::*;

verus! {

/// Identifier of one combatant or other game object.
#[derive(Debug, Clone, Copy, PartialEq, Eq, Hash, Structural)]
pub struct Entity {
    pub bits: u64,
}

impl Entity {
    /// The entity with the given identifier bits.
    pub fn from_bits(bits: u64) -> (e: Self)
        ensures
            e.bits == bits,
    {
        Entity { bits }
    }

    /// The identifier bits of this entity.
    pub fn to_bits(self) -> (b: u64)
        ensures
            b == self.bits,
    {
        self.bits
    }
}

} // verus!
