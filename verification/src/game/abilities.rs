//! Typed ability definitions, loadout slots, and per-run cooldown state.

use super::classes::ClassId;
use vstd::prelude::*;

verus! {

/// Number of ability slots on the action bar.
pub const ABILITY_SLOT_COUNT: usize = 10;

/// Stable identifier of an ability definition.
#[derive(Clone, Copy, Debug, PartialEq, Eq, Structural, Hash, PartialOrd, Ord)]
pub struct AbilityId(pub u16);

impl AbilityId {
    /// The id of the built-in Cleave ability.
    pub fn cleave() -> (id: AbilityId)
        ensures
            id == AbilityId(1),
    {
        AbilityId(1)
    }
}

/// One of the ten action-bar slots, numbered 1 through 10.
#[derive(Clone, Copy, Debug, PartialEq, Eq, Structural, Hash, PartialOrd, Ord)]
pub struct AbilitySlot(u8);

impl AbilitySlot {
    #[verifier::type_invariant]
    spec fn numbered(&self) -> bool {
        1 <= self.0 <= 10
    }

    /// The slot's number, 1 through 10.
    pub closed spec fn spec_number(&self) -> int {
        self.0 as int
    }

    /// Slot 1, where the Grave Knight binds Cleave.
    pub fn cleave() -> (slot: AbilitySlot)
        ensures
            slot.spec_number() == 1,
    {
        AbilitySlot(1)
    }


    /// Slots are told apart by their numbers alone.
    pub proof fn lemma_number_injective(a: AbilitySlot, b: AbilitySlot)
        requires
            a.spec_number() == b.spec_number(),
        ensures
            a == b,
    {
    }

    pub fn new(number: u8) -> (slot: Option<Self>)
        ensures
            slot is Some <==> 1 <= number <= 10,
            slot matches Some(s) ==> s.spec_number() == number,
    {
        if number >= 1 && number <= 10 {
            Some(AbilitySlot(number))
        } else {
            None
        }
    }

    pub fn number(self) -> (n: u8)
        ensures
            n == self.spec_number(),
            1 <= n <= 10,
    {
        proof { use_type_invariant(&self); }
        self.0
    }

    /// Zero-based position in the action bar.
    pub fn index(self) -> (i: usize)
        ensures
            i == self.spec_number() - 1,
            i < ABILITY_SLOT_COUNT,
    {
        proof { use_type_invariant(&self); }
        (self.0 - 1) as usize
    }
}

/// How an ability chooses what it affects.
#[derive(Clone, Copy, Debug, PartialEq, Eq, Structural)]
pub enum AbilityTargeting {
    Immediate,
    HostileSingle { range: i32, line_of_sight: bool },
    Unsupported(u16),
}

/// What an ability does when it resolves.
#[derive(Clone, Copy, Debug, PartialEq, Eq, Structural)]
pub enum AbilityEffect {
    Cleave,
    GraveBolt { base_damage: i32 },
    Unsupported(u16),
}

/// Which classes may bind an ability.
#[derive(Clone, Copy, Debug, PartialEq, Eq, Structural)]
pub enum AbilityAvailability {
    Class(ClassId),
    Unsupported(u16),
}

/// Immutable static metadata for an ability.
#[derive(Clone, Debug, PartialEq, Eq)]
pub struct AbilityDefinition {
    pub id: AbilityId,
    pub name: String,
    pub description: String,
    pub mana_cost: i32,
    pub cooldown_turns: u8,
    pub targeting: AbilityTargeting,
    pub effect: AbilityEffect,
    pub availability: AbilityAvailability,
}

/// Per-run state of an equipped ability.
#[derive(Clone, Copy, Debug, PartialEq, Eq, Structural)]
pub struct AbilityState {
    pub ability_id: AbilityId,
    pub cooldown_remaining: u8,
}

} // verus!
