//! Bitset over the eight logical keyboard modifier slots.

use vstd::prelude::*;

verus! {

/// Bit for the shift modifier slot.
pub const MOD_SHIFT: u8 = 1;

/// Bit for the caps-lock modifier slot.
pub const MOD_LOCK: u8 = 2;

/// Bit for the control modifier slot.
pub const MOD_CONTROL: u8 = 4;

/// Bit for the first programmable modifier group.
pub const MOD_1: u8 = 8;

/// Bit for the second programmable modifier group.
pub const MOD_2: u8 = 16;

/// Bit for the third programmable modifier group.
pub const MOD_3: u8 = 32;

/// Bit for the fourth programmable modifier group.
pub const MOD_4: u8 = 64;

/// Bit for the fifth programmable modifier group.
pub const MOD_5: u8 = 128;

/// A set of logical keyboard modifiers: one bit per slot (shift, lock,
/// control, and five programmable modifier groups).
#[derive(Clone, Copy, PartialEq, Eq, Structural, Debug)]
pub struct ModifierMask {
    pub bits: u8,
}

impl ModifierMask {
    /// The mask with no modifier set.
    pub fn empty() -> (r: ModifierMask)
        ensures
            r.bits == 0,
    {
        ModifierMask { bits: 0 }
    }

    /// The mask holding exactly the given slot bits.
    pub fn from_bits(bits: u8) -> (r: ModifierMask)
        ensures
            r.bits == bits,
    {
        ModifierMask { bits }
    }

    /// The union of two masks: every slot set in either.
    pub fn union(self, other: ModifierMask) -> (r: ModifierMask)
        ensures
            r.bits == (self.bits | other.bits),
    {
        ModifierMask { bits: self.bits | other.bits }
    }

    /// Whether every slot of `other` is also set in `self`.
    pub fn contains(self, other: ModifierMask) -> (r: bool)
        ensures
            r == ((self.bits & other.bits) == other.bits),
    {
        (self.bits & other.bits) == other.bits
    }
}

} // verus!
