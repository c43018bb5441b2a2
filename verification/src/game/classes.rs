//! Validated player-class and ability catalogs.

use super::abilities::{
    AbilityAvailability, AbilityDefinition, AbilityEffect, AbilityId, AbilitySlot, AbilityState, AbilityTargeting,
    ABILITY_SLOT_COUNT,
};
use super::{CLEAVE_COOLDOWN_TURNS, PLAYER_ARMOR, PLAYER_DAMAGE, PLAYER_MAX_HEALTH};
use vstd::prelude::*;

verus! {

/// Stable identifier of a player class.
#[derive(Clone, Copy, Debug, PartialEq, Eq, Structural, Hash, PartialOrd, Ord)]
pub struct ClassId(pub u16);

impl ClassId {
    /// The id of the built-in Grave Knight class.
    pub fn grave_knight() -> (id: ClassId)
        ensures
            id == ClassId(1),
    {
        ClassId(1)
    }
}

/// An ability bound to an action-bar slot at the start of a run.
#[derive(Clone, Copy, Debug, PartialEq, Eq, Structural)]
pub struct AbilityBinding {
    pub slot: u8,
    pub ability_id: AbilityId,
}

/// Immutable static metadata for a player class.
#[derive(Clone, Debug, PartialEq, Eq)]
pub struct ClassDefinition {
    pub id: ClassId,
    pub name: String,
    pub description: String,
    pub max_health: i32,
    pub max_mana: i32,
    pub mana_regeneration: i32,
    pub armor: i32,
    pub base_damage: i32,
    pub starting_abilities: Vec<AbilityBinding>,
}

/// Why a catalog was refused.
#[derive(Clone, Debug, PartialEq, Eq)]
pub enum CatalogError {
    DuplicateAbility(AbilityId),
    DuplicateClass(ClassId),
    InvalidClassStats {
        class_id: ClassId,
        max_health: i32,
        max_mana: i32,
        mana_regeneration: i32,
        armor: i32,
        base_damage: i32,
    },
    AbilityCostExceedsClassMana { class_id: ClassId, ability_id: AbilityId, mana_cost: i32, max_mana: i32 },
    InvalidSlot { class_id: ClassId, slot: u8 },
    DuplicateSlot { class_id: ClassId, slot: u8 },
    UnknownAbility { class_id: ClassId, ability_id: AbilityId },
    UnavailableAbility { class_id: ClassId, ability_id: AbilityId },
    UnknownAvailabilityClass { ability_id: AbilityId, class_id: ClassId },
    UnsupportedAbility(AbilityId),
}

/// Metadata the engine cannot execute or that is out of range.
pub open spec fn ability_unsupported(a: AbilityDefinition) -> bool {
    ||| a.description@.len() == 0
    ||| a.targeting is Unsupported
    ||| a.effect is Unsupported
    ||| a.availability is Unsupported
    ||| (a.targeting matches AbilityTargeting::HostileSingle { range, .. } && range <= 0)
    ||| (a.effect matches AbilityEffect::GraveBolt { base_damage } && base_damage <= 0)
    ||| a.mana_cost < 0
}

/// Whether some ability before index `i` has the given id.
pub open spec fn ability_id_before(abilities: Seq<AbilityDefinition>, id: AbilityId, i: int) -> bool {
    exists|j: int| 0 <= j < i && abilities[j].id == id
}

/// Index of the first ability with the given id (meaningful when one exists).
pub open spec fn first_ability_index(abilities: Seq<AbilityDefinition>, id: AbilityId) -> int {
    choose|i: int| 0 <= i < abilities.len() && abilities[i].id == id && !ability_id_before(abilities, id, i)
}

/// The failure, if any, that ability `i` alone causes after its predecessors passed.
pub open spec fn ability_entry_failure(abilities: Seq<AbilityDefinition>, i: int) -> Option<CatalogError> {
    if ability_id_before(abilities, abilities[i].id, i) {
        Some(CatalogError::DuplicateAbility(abilities[i].id))
    } else if ability_unsupported(abilities[i]) {
        Some(CatalogError::UnsupportedAbility(abilities[i].id))
    } else {
        None
    }
}

/// The first failure among the first `n` abilities.
pub open spec fn abilities_failure(abilities: Seq<AbilityDefinition>, n: int) -> Option<CatalogError>
    decreases n,
{
    if n <= 0 {
        None
    } else {
        match abilities_failure(abilities, n - 1) {
            Some(e) => Some(e),
            None => ability_entry_failure(abilities, n - 1),
        }
    }
}

/// Out-of-range class statistics.
pub open spec fn class_stats_invalid(c: ClassDefinition) -> bool {
    c.max_health <= 0 || c.max_mana < 0 || c.mana_regeneration < 0 || c.armor < 0 || c.base_damage <= 0
}

/// The failure, if any, that binding `k` of class `c` causes after its predecessors passed.
pub open spec fn binding_failure(abilities: Seq<AbilityDefinition>, c: ClassDefinition, k: int) -> Option<CatalogError> {
    let b = c.starting_abilities@[k];
    if b.slot < 1 || b.slot > 10 {
        Some(CatalogError::InvalidSlot { class_id: c.id, slot: b.slot })
    } else if exists|j: int| 0 <= j < k && c.starting_abilities@[j].slot == b.slot {
        Some(CatalogError::DuplicateSlot { class_id: c.id, slot: b.slot })
    } else if !ability_id_before(abilities, b.ability_id, abilities.len() as int) {
        Some(CatalogError::UnknownAbility { class_id: c.id, ability_id: b.ability_id })
    } else {
        let a = abilities[first_ability_index(abilities, b.ability_id)];
        if a.availability != AbilityAvailability::Class(c.id) {
            Some(CatalogError::UnavailableAbility { class_id: c.id, ability_id: b.ability_id })
        } else if a.mana_cost > c.max_mana {
            Some(CatalogError::AbilityCostExceedsClassMana {
                class_id: c.id,
                ability_id: a.id,
                mana_cost: a.mana_cost,
                max_mana: c.max_mana,
            })
        } else {
            None
        }
    }
}

/// The first failure among the first `n` bindings of class `c`.
pub open spec fn bindings_failure(abilities: Seq<AbilityDefinition>, c: ClassDefinition, n: int) -> Option<CatalogError>
    decreases n,
{
    if n <= 0 {
        None
    } else {
        match bindings_failure(abilities, c, n - 1) {
            Some(e) => Some(e),
            None => binding_failure(abilities, c, n - 1),
        }
    }
}

/// The failure, if any, that class `i` alone causes after its predecessors passed.
pub open spec fn class_entry_failure(
    abilities: Seq<AbilityDefinition>,
    classes: Seq<ClassDefinition>,
    i: int,
) -> Option<CatalogError> {
    let c = classes[i];
    if exists|j: int| 0 <= j < i && classes[j].id == c.id {
        Some(CatalogError::DuplicateClass(c.id))
    } else if class_stats_invalid(c) {
        Some(CatalogError::InvalidClassStats {
            class_id: c.id,
            max_health: c.max_health,
            max_mana: c.max_mana,
            mana_regeneration: c.mana_regeneration,
            armor: c.armor,
            base_damage: c.base_damage,
        })
    } else {
        bindings_failure(abilities, c, c.starting_abilities@.len() as int)
    }
}

/// The first failure among the first `n` classes.
pub open spec fn classes_failure(
    abilities: Seq<AbilityDefinition>,
    classes: Seq<ClassDefinition>,
    n: int,
) -> Option<CatalogError>
    decreases n,
{
    if n <= 0 {
        None
    } else {
        match classes_failure(abilities, classes, n - 1) {
            Some(e) => Some(e),
            None => class_entry_failure(abilities, classes, n - 1),
        }
    }
}

/// Whether some class has the given id.
pub open spec fn class_id_known(classes: Seq<ClassDefinition>, id: ClassId) -> bool {
    exists|j: int| 0 <= j < classes.len() && classes[j].id == id
}

/// The failure, if any, of ability `i` naming a class the catalog lacks.
pub open spec fn availability_entry_failure(
    abilities: Seq<AbilityDefinition>,
    classes: Seq<ClassDefinition>,
    i: int,
) -> Option<CatalogError> {
    match abilities[i].availability {
        AbilityAvailability::Class(class_id) => if !class_id_known(classes, class_id) {
            Some(CatalogError::UnknownAvailabilityClass { ability_id: abilities[i].id, class_id })
        } else {
            None
        },
        AbilityAvailability::Unsupported(_) => None,
    }
}

/// The first availability failure among the first `n` abilities.
pub open spec fn availability_failure(
    abilities: Seq<AbilityDefinition>,
    classes: Seq<ClassDefinition>,
    n: int,
) -> Option<CatalogError>
    decreases n,
{
    if n <= 0 {
        None
    } else {
        match availability_failure(abilities, classes, n - 1) {
            Some(e) => Some(e),
            None => availability_entry_failure(abilities, classes, n - 1),
        }
    }
}

/// The error `GameCatalog::new` reports for these definitions, if any: the
/// first broken rule, checking abilities, then classes and their bindings,
/// then ability availability, each in list order.
pub open spec fn catalog_failure(abilities: Seq<AbilityDefinition>, classes: Seq<ClassDefinition>) -> Option<CatalogError> {
    match abilities_failure(abilities, abilities.len() as int) {
        Some(e) => Some(e),
        None => match classes_failure(abilities, classes, classes.len() as int) {
            Some(e) => Some(e),
            None => availability_failure(abilities, classes, abilities.len() as int),
        },
    }
}

/// A validated, immutable set of ability and class definitions.
#[derive(Clone, Debug, PartialEq, Eq)]
pub struct GameCatalog {
    abilities: Vec<AbilityDefinition>,
    classes: Vec<ClassDefinition>,
}

impl GameCatalog {
    pub closed spec fn spec_abilities(&self) -> Seq<AbilityDefinition> {
        self.abilities@
    }

    pub closed spec fn spec_classes(&self) -> Seq<ClassDefinition> {
        self.classes@
    }

    /// The catalog passes every rule `new` enforces.
    pub open spec fn valid(&self) -> bool {
        catalog_failure(self.spec_abilities(), self.spec_classes()) is None
    }

    /// The definition a lookup of `id` finds.
    pub open spec fn spec_ability(&self, id: AbilityId) -> Option<AbilityDefinition> {
        if ability_id_before(self.spec_abilities(), id, self.spec_abilities().len() as int) {
            Some(self.spec_abilities()[first_ability_index(self.spec_abilities(), id)])
        } else {
            None
        }
    }

    /// The class definition a lookup of `id` finds.
    pub open spec fn spec_class(&self, id: ClassId) -> Option<ClassDefinition> {
        if class_id_known(self.spec_classes(), id) {
            Some(self.spec_classes()[first_class_index(self.spec_classes(), id)])
        } else {
            None
        }
    }
}

/// Index of the first class with the given id (meaningful when one exists).
pub open spec fn first_class_index(classes: Seq<ClassDefinition>, id: ClassId) -> int {
    choose|i: int| 0 <= i < classes.len() && classes[i].id == id && !(exists|j: int| 0 <= j < i && classes[j].id == id)
}

/// The loadout after applying the first `n` bindings of `c` in order; a
/// later binding of the same slot replaces an earlier one.
pub open spec fn loadout_prefix(c: ClassDefinition, n: int) -> Seq<Option<AbilityId>>
    decreases n,
{
    if n <= 0 {
        Seq::new(ABILITY_SLOT_COUNT as nat, |i: int| None)
    } else {
        let prev = loadout_prefix(c, n - 1);
        let b = c.starting_abilities@[n - 1];
        if 1 <= b.slot <= 10 {
            prev.update(b.slot - 1, Some(b.ability_id))
        } else {
            prev
        }
    }
}

/// The starting loadout of a class: for each slot, the ability bound to it.
pub open spec fn loadout_of(c: ClassDefinition) -> Seq<Option<AbilityId>> {
    loadout_prefix(c, c.starting_abilities@.len() as int)
}

pub proof fn lemma_loadout_prefix_len(c: ClassDefinition, n: int)
    ensures
        loadout_prefix(c, n).len() == ABILITY_SLOT_COUNT,
    decreases n,
{
    if n > 0 {
        lemma_loadout_prefix_len(c, n - 1);
    }
}

pub proof fn lemma_abilities_failure_sticks(a: Seq<AbilityDefinition>, m: int, n: int)
    requires
        0 <= m <= n,
        abilities_failure(a, m) is Some,
    ensures
        abilities_failure(a, n) == abilities_failure(a, m),
    decreases n - m,
{
    if n > m {
        lemma_abilities_failure_sticks(a, m, n - 1);
    }
}

pub proof fn lemma_bindings_failure_sticks(a: Seq<AbilityDefinition>, c: ClassDefinition, m: int, n: int)
    requires
        0 <= m <= n,
        bindings_failure(a, c, m) is Some,
    ensures
        bindings_failure(a, c, n) == bindings_failure(a, c, m),
    decreases n - m,
{
    if n > m {
        lemma_bindings_failure_sticks(a, c, m, n - 1);
    }
}

pub proof fn lemma_classes_failure_sticks(a: Seq<AbilityDefinition>, cl: Seq<ClassDefinition>, m: int, n: int)
    requires
        0 <= m <= n,
        classes_failure(a, cl, m) is Some,
    ensures
        classes_failure(a, cl, n) == classes_failure(a, cl, m),
    decreases n - m,
{
    if n > m {
        lemma_classes_failure_sticks(a, cl, m, n - 1);
    }
}

pub proof fn lemma_availability_failure_sticks(a: Seq<AbilityDefinition>, cl: Seq<ClassDefinition>, m: int, n: int)
    requires
        0 <= m <= n,
        availability_failure(a, cl, m) is Some,
    ensures
        availability_failure(a, cl, n) == availability_failure(a, cl, m),
    decreases n - m,
{
    if n > m {
        lemma_availability_failure_sticks(a, cl, m, n - 1);
    }
}

/// The first index in `abilities` holding `id`, if any.
fn find_ability(abilities: &Vec<AbilityDefinition>, id: AbilityId) -> (r: Option<usize>)
    ensures
        r is Some <==> ability_id_before(abilities@, id, abilities@.len() as int),
        r matches Some(i) ==> i == first_ability_index(abilities@, id) && i < abilities@.len()
            && abilities@[i as int].id == id,
{
    let mut i: usize = 0;
    while i < abilities.len()
        invariant
            i <= abilities@.len(),
            !ability_id_before(abilities@, id, i as int),
        decreases abilities@.len() - i,
    {
        if abilities[i].id == id {
            proof {
                let f = first_ability_index(abilities@, id);
                assert(0 <= i < abilities@.len() && abilities@[i as int].id == id && !ability_id_before(abilities@, id, i as int));
                if f != i {
                    if f < i {
                        assert(ability_id_before(abilities@, id, i as int));
                    } else {
                        assert(ability_id_before(abilities@, id, f));
                    }
                }
            }
            return Some(i);
        }
        proof {
            assert forall|j: int| 0 <= j < i + 1 implies abilities@[j].id != id by {
                if j < i {
                    assert(!ability_id_before(abilities@, id, i as int));
                }
            }
        }
        i = i + 1;
    }
    None
}

/// The first index in `classes` holding `id`, if any.
fn find_class(classes: &Vec<ClassDefinition>, id: ClassId) -> (r: Option<usize>)
    ensures
        r is Some <==> class_id_known(classes@, id),
        r matches Some(i) ==> i == first_class_index(classes@, id) && i < classes@.len() && classes@[i as int].id == id,
{
    let mut i: usize = 0;
    while i < classes.len()
        invariant
            i <= classes@.len(),
            forall|j: int| 0 <= j < i ==> classes@[j].id != id,
        decreases classes@.len() - i,
    {
        if classes[i].id == id {
            proof {
                let f = first_class_index(classes@, id);
                assert(0 <= i < classes@.len() && classes@[i as int].id == id && !(exists|j: int| 0 <= j < i && classes@[j].id == id));
                if f != i {
                    assert(f < i || (exists|j: int| 0 <= j < f && classes@[j].id == id));
                }
            }
            return Some(i);
        }
        i = i + 1;
    }
    None
}

impl ClassDefinition {
    /// Materialize the ten-slot starting loadout.
    pub fn loadout(&self) -> (l: [Option<AbilityId>; ABILITY_SLOT_COUNT])
        ensures
            l@ == loadout_of(*self),
    {
        let mut loadout: [Option<AbilityId>; ABILITY_SLOT_COUNT] = [None, None, None, None, None, None, None, None, None, None];
        assert(loadout@ =~= loadout_prefix(*self, 0));
        let mut k: usize = 0;
        while k < self.starting_abilities.len()
            invariant
                k <= self.starting_abilities@.len(),
                loadout@ == loadout_prefix(*self, k as int),
            decreases self.starting_abilities@.len() - k,
        {
            let binding = self.starting_abilities[k];
            proof { lemma_loadout_prefix_len(*self, k as int); }
            match AbilitySlot::new(binding.slot) {
                Some(slot) => {
                    loadout.set(slot.index(), Some(binding.ability_id));
                },
                None => {},
            }
            assert(loadout@ =~= loadout_prefix(*self, k + 1));
            k = k + 1;
        }
        loadout
    }
}

/// Check every ability entry in order.
fn check_abilities(abilities: &Vec<AbilityDefinition>) -> (r: Result<(), CatalogError>)
    ensures
        match r {
            Ok(()) => abilities_failure(abilities@, abilities@.len() as int) is None,
            Err(e) => abilities_failure(abilities@, abilities@.len() as int) == Some(e),
        },
{
    let mut i: usize = 0;
    while i < abilities.len()
        invariant
            i <= abilities@.len(),
            abilities_failure(abilities@, i as int) is None,
        decreases abilities@.len() - i,
    {
        let a = &abilities[i];
        let mut j: usize = 0;
        while j < i
            invariant
                i < abilities@.len(),
                j <= i,
                *a == abilities@[i as int],
                !ability_id_before(abilities@, a.id, j as int),
                abilities_failure(abilities@, i as int) is None,
            decreases i - j,
        {
            if abilities[j].id == a.id {
                proof {
                    assert(ability_id_before(abilities@, a.id, i as int));
                    lemma_abilities_failure_sticks(abilities@, i + 1, abilities@.len() as int);
                }
                return Err(CatalogError::DuplicateAbility(a.id));
            }
            proof {
                assert forall|k: int| 0 <= k < j + 1 implies abilities@[k].id != a.id by {
                    if k < j {
                        assert(!ability_id_before(abilities@, a.id, j as int));
                    }
                }
            }
            j = j + 1;
        }
        let unsupported_range = match a.targeting {
            AbilityTargeting::HostileSingle { range, .. } => range <= 0,
            _ => false,
        };
        let unsupported_damage = match a.effect {
            AbilityEffect::GraveBolt { base_damage } => base_damage <= 0,
            _ => false,
        };
        if a.description.as_str().is_empty() || matches!(a.targeting, AbilityTargeting::Unsupported(_))
            || matches!(a.effect, AbilityEffect::Unsupported(_))
            || matches!(a.availability, AbilityAvailability::Unsupported(_)) || unsupported_range
            || unsupported_damage || a.mana_cost < 0
        {
            proof {
                lemma_abilities_failure_sticks(abilities@, i + 1, abilities@.len() as int);
            }
            return Err(CatalogError::UnsupportedAbility(a.id));
        }
        i = i + 1;
    }
    Ok(())
}

/// Check the bindings of one class in order.
fn check_bindings(abilities: &Vec<AbilityDefinition>, c: &ClassDefinition) -> (r: Result<(), CatalogError>)
    ensures
        match r {
            Ok(()) => bindings_failure(abilities@, *c, c.starting_abilities@.len() as int) is None,
            Err(e) => bindings_failure(abilities@, *c, c.starting_abilities@.len() as int) == Some(e),
        },
{
    let mut k: usize = 0;
    while k < c.starting_abilities.len()
        invariant
            k <= c.starting_abilities@.len(),
            bindings_failure(abilities@, *c, k as int) is None,
        decreases c.starting_abilities@.len() - k,
    {
        let b = c.starting_abilities[k];
        if b.slot < 1 || b.slot > 10 {
            proof { lemma_bindings_failure_sticks(abilities@, *c, k + 1, c.starting_abilities@.len() as int); }
            return Err(CatalogError::InvalidSlot { class_id: c.id, slot: b.slot });
        }
        let mut j: usize = 0;
        while j < k
            invariant
                k < c.starting_abilities@.len(),
                j <= k,
                b == c.starting_abilities@[k as int],
                forall|m: int| 0 <= m < j ==> c.starting_abilities@[m].slot != b.slot,
                bindings_failure(abilities@, *c, k as int) is None,
                1 <= b.slot <= 10,
            decreases k - j,
        {
            if c.starting_abilities[j].slot == b.slot {
                proof {
                    assert(c.starting_abilities@[j as int].slot == b.slot); lemma_bindings_failure_sticks(abilities@, *c, k + 1, c.starting_abilities@.len() as int); }
                return Err(CatalogError::DuplicateSlot { class_id: c.id, slot: b.slot });
            }
            j = j + 1;
        }
        match find_ability(abilities, b.ability_id) {
            None => {
                proof { lemma_bindings_failure_sticks(abilities@, *c, k + 1, c.starting_abilities@.len() as int); }
                return Err(CatalogError::UnknownAbility { class_id: c.id, ability_id: b.ability_id });
            },
            Some(index) => {
                let a = &abilities[index];
                if a.availability != AbilityAvailability::Class(c.id) {
                    proof { lemma_bindings_failure_sticks(abilities@, *c, k + 1, c.starting_abilities@.len() as int); }
                    return Err(CatalogError::UnavailableAbility { class_id: c.id, ability_id: b.ability_id });
                }
                if a.mana_cost > c.max_mana {
                    proof { lemma_bindings_failure_sticks(abilities@, *c, k + 1, c.starting_abilities@.len() as int); }
                    return Err(CatalogError::AbilityCostExceedsClassMana {
                        class_id: c.id,
                        ability_id: a.id,
                        mana_cost: a.mana_cost,
                        max_mana: c.max_mana,
                    });
                }
            },
        }
        k = k + 1;
    }
    Ok(())
}

/// Check every class entry in order.
fn check_classes(abilities: &Vec<AbilityDefinition>, classes: &Vec<ClassDefinition>) -> (r: Result<(), CatalogError>)
    ensures
        match r {
            Ok(()) => classes_failure(abilities@, classes@, classes@.len() as int) is None,
            Err(e) => classes_failure(abilities@, classes@, classes@.len() as int) == Some(e),
        },
{
    let mut i: usize = 0;
    while i < classes.len()
        invariant
            i <= classes@.len(),
            classes_failure(abilities@, classes@, i as int) is None,
        decreases classes@.len() - i,
    {
        let c = &classes[i];
        let mut j: usize = 0;
        while j < i
            invariant
                i < classes@.len(),
                j <= i,
                *c == classes@[i as int],
                forall|k: int| 0 <= k < j ==> classes@[k].id != c.id,
                classes_failure(abilities@, classes@, i as int) is None,
            decreases i - j,
        {
            if classes[j].id == c.id {
                proof {
                    assert(classes@[j as int].id == c.id); lemma_classes_failure_sticks(abilities@, classes@, i + 1, classes@.len() as int); }
                return Err(CatalogError::DuplicateClass(c.id));
            }
            j = j + 1;
        }
        if c.max_health <= 0 || c.max_mana < 0 || c.mana_regeneration < 0 || c.armor < 0 || c.base_damage <= 0 {
            proof { lemma_classes_failure_sticks(abilities@, classes@, i + 1, classes@.len() as int); }
            return Err(CatalogError::InvalidClassStats {
                class_id: c.id,
                max_health: c.max_health,
                max_mana: c.max_mana,
                mana_regeneration: c.mana_regeneration,
                armor: c.armor,
                base_damage: c.base_damage,
            });
        }
        match check_bindings(abilities, c) {
            Ok(()) => {},
            Err(e) => {
                proof { lemma_classes_failure_sticks(abilities@, classes@, i + 1, classes@.len() as int); }
                return Err(e);
            },
        }
        i = i + 1;
    }
    Ok(())
}

/// Check that every ability names a class of the catalog.
fn check_availability(abilities: &Vec<AbilityDefinition>, classes: &Vec<ClassDefinition>) -> (r: Result<(), CatalogError>)
    ensures
        match r {
            Ok(()) => availability_failure(abilities@, classes@, abilities@.len() as int) is None,
            Err(e) => availability_failure(abilities@, classes@, abilities@.len() as int) == Some(e),
        },
{
    let mut i: usize = 0;
    while i < abilities.len()
        invariant
            i <= abilities@.len(),
            availability_failure(abilities@, classes@, i as int) is None,
        decreases abilities@.len() - i,
    {
        match abilities[i].availability {
            AbilityAvailability::Class(class_id) => {
                if find_class(classes, class_id).is_none() {
                    proof { lemma_availability_failure_sticks(abilities@, classes@, i + 1, abilities@.len() as int); }
                    return Err(CatalogError::UnknownAvailabilityClass { ability_id: abilities[i].id, class_id });
                }
            },
            AbilityAvailability::Unsupported(_) => {},
        }
        i = i + 1;
    }
    Ok(())
}

impl GameCatalog {
    /// Validate definitions before they can be attached to a run.
    pub fn new(abilities: Vec<AbilityDefinition>, classes: Vec<ClassDefinition>) -> (r: Result<Self, CatalogError>)
        ensures
            match r {
                Ok(c) => catalog_failure(abilities@, classes@) is None && c.spec_abilities() == abilities@
                    && c.spec_classes() == classes@ && c.valid(),
                Err(e) => catalog_failure(abilities@, classes@) == Some(e),
            },
    {
        check_abilities(&abilities)?;
        check_classes(&abilities, &classes)?;
        check_availability(&abilities, &classes)?;
        Ok(GameCatalog { abilities, classes })
    }

    /// Look up an ability definition by id.
    pub fn ability(&self, id: AbilityId) -> (r: Option<&AbilityDefinition>)
        ensures
            r matches Some(d) ==> self.spec_ability(id) == Some(*d),
            r is None ==> self.spec_ability(id) is None,
    {
        match find_ability(&self.abilities, id) {
            Some(i) => Some(&self.abilities[i]),
            None => None,
        }
    }

    /// Look up a class definition by id.
    pub fn class(&self, id: ClassId) -> (r: Option<&ClassDefinition>)
        ensures
            r matches Some(d) ==> self.spec_class(id) == Some(*d),
            r is None ==> self.spec_class(id) is None,
    {
        match find_class(&self.classes, id) {
            Some(i) => Some(&self.classes[i]),
            None => None,
        }
    }

    /// The built-in prototype content: the Grave Knight with Cleave in slot
    /// 1 and Grave Bolt in slot 2.
    pub fn builtin() -> (c: Self)
        ensures
            builtin_catalog(c),
    {
        let cleave = AbilityDefinition {
            id: AbilityId(1),
            name: String::from_str("Cleave"),
            description: String::from_str("Strike every adjacent foe."),
            mana_cost: 3,
            cooldown_turns: CLEAVE_COOLDOWN_TURNS,
            targeting: AbilityTargeting::Immediate,
            effect: AbilityEffect::Cleave,
            availability: AbilityAvailability::Class(ClassId(1)),
        };
        let bolt = AbilityDefinition {
            id: AbilityId(2),
            name: String::from_str("Grave Bolt"),
            description: String::from_str("Hurl a bolt through unobstructed darkness."),
            mana_cost: 4,
            cooldown_turns: 3,
            targeting: AbilityTargeting::HostileSingle { range: 6, line_of_sight: true },
            effect: AbilityEffect::GraveBolt { base_damage: 8 },
            availability: AbilityAvailability::Class(ClassId(1)),
        };
        let mut bindings: Vec<AbilityBinding> = Vec::new();
        bindings.push(AbilityBinding { slot: 1, ability_id: AbilityId(1) });
        bindings.push(AbilityBinding { slot: 2, ability_id: AbilityId(2) });
        let knight = ClassDefinition {
            id: ClassId(1),
            name: String::from_str("Grave Knight"),
            description: String::from_str("An oath-bound warrior armored against the grave."),
            max_health: PLAYER_MAX_HEALTH,
            max_mana: 10,
            mana_regeneration: 1,
            armor: PLAYER_ARMOR,
            base_damage: PLAYER_DAMAGE,
            starting_abilities: bindings,
        };
        let mut abilities: Vec<AbilityDefinition> = Vec::new();
        abilities.push(cleave);
        abilities.push(bolt);
        let mut classes: Vec<ClassDefinition> = Vec::new();
        classes.push(knight);
        proof {
            reveal_strlit("Strike every adjacent foe.");
            reveal_strlit("Hurl a bolt through unobstructed darkness.");
            let a = abilities@;
            let cl = classes@;
            assert(!ability_id_before(a, a[0].id, 0));
            assert(ability_entry_failure(a, 0) is None);
            assert(!ability_id_before(a, a[1].id, 1));
            assert(ability_entry_failure(a, 1) is None);
            assert(abilities_failure(a, 0) is None);
            assert(abilities_failure(a, 1) is None);
            assert(abilities_failure(a, 2) is None);
            let c = cl[0];
            assert(ability_id_before(a, AbilityId(1), 2));
            assert(ability_id_before(a, AbilityId(2), 2));
            lemma_first_ability_index(a, AbilityId(1), 0);
            lemma_first_ability_index(a, AbilityId(2), 1);
            assert(binding_failure(a, c, 0) is None);
            assert(c.starting_abilities@[0].slot != c.starting_abilities@[1].slot);
            assert(binding_failure(a, c, 1) is None);
            assert(bindings_failure(a, c, 0) is None);
            assert(bindings_failure(a, c, 1) is None);
            assert(bindings_failure(a, c, 2) is None);
            assert(class_entry_failure(a, cl, 0) is None);
            assert(classes_failure(a, cl, 0) is None);
            assert(classes_failure(a, cl, 1) is None);
            assert(class_id_known(cl, ClassId(1)));
            assert(availability_entry_failure(a, cl, 0) is None);
            assert(availability_entry_failure(a, cl, 1) is None);
            assert(availability_failure(a, cl, 0) is None);
            assert(availability_failure(a, cl, 1) is None);
            assert(availability_failure(a, cl, 2) is None);
            assert(loadout_prefix(c, 0) =~= Seq::new(ABILITY_SLOT_COUNT as nat, |i: int| None));
            assert(loadout_prefix(c, 1) =~= loadout_prefix(c, 0).update(0, Some(AbilityId(1))));
            assert(loadout_prefix(c, 2) =~= seq![
                Some(AbilityId(1)), Some(AbilityId(2)), None, None, None, None, None, None, None, None
            ]);
        }
        let r = GameCatalog::new(abilities, classes);
        r.unwrap()
    }

    /// Fresh ability state (no cooldowns) for a class's starting loadout.
    pub(crate) fn initial_ability_state(&self, class_id: ClassId) -> (r: Option<[Option<AbilityState>; ABILITY_SLOT_COUNT]>)
        ensures
            r is Some <==> self.spec_class(class_id) is Some,
            r matches Some(states) ==> states@ == initial_states(loadout_of(self.spec_class(class_id).unwrap())),
    {
        match self.class(class_id) {
            Some(class) => {
                let loadout = class.loadout();
                let mut states: [Option<AbilityState>; ABILITY_SLOT_COUNT] = [None, None, None, None, None, None, None, None, None, None];
                let mut i: usize = 0;
                while i < ABILITY_SLOT_COUNT
                    invariant
                        i <= ABILITY_SLOT_COUNT,
                        loadout@.len() == ABILITY_SLOT_COUNT,
                        forall|j: int| 0 <= j < i ==> #[trigger] states@[j] == initial_states(loadout@)[j],
                        forall|j: int| i <= j < ABILITY_SLOT_COUNT ==> #[trigger] states@[j] is None,
                    decreases ABILITY_SLOT_COUNT - i,
                {
                    match loadout[i] {
                        Some(ability_id) => {
                            states.set(i, Some(AbilityState { ability_id, cooldown_remaining: 0 }));
                        },
                        None => {},
                    }
                    i = i + 1;
                }
                assert(states@ =~= initial_states(loadout@));
                Some(states)
            },
            None => None,
        }
    }
}

/// The built-in prototype content: the Grave Knight with Cleave in slot
/// 1 and Grave Bolt in slot 2.
pub open spec fn builtin_catalog(c: GameCatalog) -> bool {
    &&& c.valid()
    &&& c.spec_abilities().len() == 2
    &&& c.spec_classes().len() == 1
    &&& c.spec_abilities()[0].id == AbilityId(1)
    &&& c.spec_abilities()[0].name@ == "Cleave"@
    &&& c.spec_abilities()[0].mana_cost == 3
    &&& c.spec_abilities()[0].cooldown_turns == CLEAVE_COOLDOWN_TURNS
    &&& c.spec_abilities()[0].targeting == AbilityTargeting::Immediate
    &&& c.spec_abilities()[0].effect == AbilityEffect::Cleave
    &&& c.spec_abilities()[1].id == AbilityId(2)
    &&& c.spec_abilities()[1].name@ == "Grave Bolt"@
    &&& c.spec_abilities()[1].mana_cost == 4
    &&& c.spec_abilities()[1].cooldown_turns == 3
    &&& c.spec_abilities()[1].targeting == (AbilityTargeting::HostileSingle { range: 6, line_of_sight: true })
    &&& c.spec_abilities()[1].effect == (AbilityEffect::GraveBolt { base_damage: 8 })
    &&& c.spec_classes()[0].id == ClassId(1)
    &&& c.spec_classes()[0].name@ == "Grave Knight"@
    &&& c.spec_classes()[0].max_health == PLAYER_MAX_HEALTH
    &&& c.spec_classes()[0].max_mana == 10
    &&& c.spec_classes()[0].mana_regeneration == 1
    &&& c.spec_classes()[0].armor == PLAYER_ARMOR
    &&& c.spec_classes()[0].base_damage == PLAYER_DAMAGE
    &&& loadout_of(c.spec_classes()[0]) == seq![
            Some(AbilityId(1)), Some(AbilityId(2)), None, None, None, None, None, None, None, None
        ]
}

/// Fresh ability states for a loadout: each bound ability starts ready.
pub open spec fn initial_states(loadout: Seq<Option<AbilityId>>) -> Seq<Option<AbilityState>> {
    Seq::new(
        loadout.len(),
        |i: int|
            match loadout[i] {
                Some(ability_id) => Some(AbilityState { ability_id, cooldown_remaining: 0 }),
                None => None,
            },
    )
}

pub proof fn lemma_first_ability_index(a: Seq<AbilityDefinition>, id: AbilityId, i: int)
    requires
        0 <= i < a.len(),
        a[i].id == id,
        !ability_id_before(a, id, i),
    ensures
        first_ability_index(a, id) == i,
{
    let f = first_ability_index(a, id);
    assert(0 <= f < a.len() && a[f].id == id && !ability_id_before(a, id, f));
    if f < i {
        assert(ability_id_before(a, id, i));
    } else if f > i {
        assert(ability_id_before(a, id, f));
    }
}

pub proof fn lemma_first_ability_exists(a: Seq<AbilityDefinition>, id: AbilityId, n: int)
    requires
        n <= a.len(),
        ability_id_before(a, id, n),
    ensures
        exists|i: int| 0 <= i < n && a[i].id == id && !ability_id_before(a, id, i),
    decreases n,
{
    if ability_id_before(a, id, n - 1) {
        lemma_first_ability_exists(a, id, n - 1);
        let i = choose|i: int| 0 <= i < n - 1 && a[i].id == id && !ability_id_before(a, id, i);
        assert(0 <= i < n);
    } else {
        let j = choose|j: int| 0 <= j < n && a[j].id == id;
        if j < n - 1 {
            assert(ability_id_before(a, id, n - 1));
        }
        assert(a[n - 1].id == id && !ability_id_before(a, id, n - 1));
    }
}

pub proof fn lemma_abilities_valid_entries(a: Seq<AbilityDefinition>, n: int, i: int)
    requires
        0 <= i < n <= a.len(),
        abilities_failure(a, n) is None,
    ensures
        ability_entry_failure(a, i) is None,
    decreases n,
{
    if i < n - 1 {
        lemma_abilities_valid_entries(a, n - 1, i);
    }
}

pub proof fn lemma_classes_valid_entries(a: Seq<AbilityDefinition>, cl: Seq<ClassDefinition>, n: int, i: int)
    requires
        0 <= i < n <= cl.len(),
        classes_failure(a, cl, n) is None,
    ensures
        class_entry_failure(a, cl, i) is None,
    decreases n,
{
    if i < n - 1 {
        lemma_classes_valid_entries(a, cl, n - 1, i);
    }
}

/// A definition found in a valid catalog is executable metadata.
pub proof fn lemma_valid_ability(c: GameCatalog, id: AbilityId)
    requires
        c.valid(),
        c.spec_ability(id) is Some,
    ensures
        !ability_unsupported(c.spec_ability(id).unwrap()),
        c.spec_ability(id).unwrap().id == id,
{
    let a = c.spec_abilities();
    lemma_first_ability_exists(a, id, a.len() as int);
    let f = first_ability_index(a, id);
    assert(0 <= f < a.len() && a[f].id == id);
    lemma_abilities_valid_entries(a, a.len() as int, f);
}

/// A class found in a valid catalog has in-range statistics.
pub proof fn lemma_valid_class(c: GameCatalog, id: ClassId)
    requires
        c.valid(),
        c.spec_class(id) is Some,
    ensures
        !class_stats_invalid(c.spec_class(id).unwrap()),
        c.spec_class(id).unwrap().id == id,
{
    let cl = c.spec_classes();
    let j = choose|j: int| 0 <= j < cl.len() && cl[j].id == id;
    let f = first_class_index(cl, id);
    assert(exists|i: int| 0 <= i < cl.len() && cl[i].id == id && !(exists|k: int| 0 <= k < i && cl[k].id == id)) by {
        lemma_first_class_exists(cl, id, cl.len() as int);
    }
    assert(0 <= f < cl.len() && cl[f].id == id && !(exists|k: int| 0 <= k < f && cl[k].id == id));
    lemma_classes_valid_entries(c.spec_abilities(), cl, cl.len() as int, f);
}

pub proof fn lemma_first_class_exists(cl: Seq<ClassDefinition>, id: ClassId, n: int)
    requires
        n <= cl.len(),
        exists|j: int| 0 <= j < n && cl[j].id == id,
    ensures
        exists|i: int| 0 <= i < n && cl[i].id == id && !(exists|k: int| 0 <= k < i && cl[k].id == id),
    decreases n,
{
    if exists|j: int| 0 <= j < n - 1 && cl[j].id == id {
        lemma_first_class_exists(cl, id, n - 1);
        let i = choose|i: int| 0 <= i < n - 1 && cl[i].id == id && !(exists|k: int| 0 <= k < i && cl[k].id == id);
        assert(0 <= i < n);
    } else {
        let j = choose|j: int| 0 <= j < n && cl[j].id == id;
        assert(cl[n - 1].id == id);
    }
}

} // verus!
