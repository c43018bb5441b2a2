//! Validated item definitions, deterministic placement, inventory, and effects.

use crate::world::Position;
use vstd::prelude::*;

verus! {

/// Inventory capacity.
pub const INVENTORY_SLOT_COUNT: usize = 4;
/// Sight radius while carrying a Grave Torch.
pub const TORCH_VISION_RADIUS: i32 = 12;
/// Health a Health Potion restores at most.
pub const POTION_HEAL: i32 = 12;

/// Stable identifier of an item definition.
#[derive(Clone, Copy, Debug, PartialEq, Eq, Structural, Hash, PartialOrd, Ord)]
pub struct ItemId(pub u16);

impl ItemId {
    /// The Grave Torch.
    pub fn torch() -> (id: ItemId)
        ensures
            id == ItemId(1),
    {
        ItemId(1)
    }

    /// The Health Potion.
    pub fn health_potion() -> (id: ItemId)
        ensures
            id == ItemId(2),
    {
        ItemId(2)
    }
}

/// Stable identifier of one placed or carried item.
#[derive(Clone, Copy, Debug, PartialEq, Eq, Structural, Hash, PartialOrd, Ord)]
pub struct ItemInstanceId(pub u32);

/// What an item does.
#[derive(Clone, Copy, Debug, PartialEq, Eq, Structural)]
pub enum ItemEffect {
    TorchVision { radius: i32 },
    Heal { amount: i32 },
    Unsupported(u16),
}

/// Immutable static metadata for an item.
#[derive(Clone, Debug, PartialEq, Eq)]
pub struct ItemDefinition {
    pub id: ItemId,
    pub name: String,
    pub description: String,
    pub effect: ItemEffect,
    pub glyph_ascii: char,
    pub glyph_unicode: char,
}

/// One concrete item.
#[derive(Clone, Copy, Debug, PartialEq, Eq, Structural)]
pub struct ItemInstance {
    pub instance_id: ItemInstanceId,
    pub item_id: ItemId,
}

/// An item lying on the floor.
#[derive(Clone, Copy, Debug, PartialEq, Eq, Structural)]
pub struct GroundItem {
    pub item: ItemInstance,
    pub position: Position,
}

/// Why an item catalog or an item reference was refused.
#[derive(Clone, Debug, PartialEq, Eq)]
pub enum ItemCatalogError {
    DuplicateId(ItemId),
    UnsupportedDefinition(ItemId),
    UnknownItem { instance_id: ItemInstanceId, item_id: ItemId },
}

/// Metadata the engine cannot execute.
pub open spec fn item_unsupported(d: ItemDefinition) -> bool {
    ||| d.name@.len() == 0
    ||| d.description@.len() == 0
    ||| d.effect is Unsupported
    ||| (d.effect matches ItemEffect::TorchVision { radius } && radius <= 0)
    ||| (d.effect matches ItemEffect::Heal { amount } && amount <= 0)
}

/// Whether some definition before index `i` has the given id.
pub open spec fn item_id_before(defs: Seq<ItemDefinition>, id: ItemId, i: int) -> bool {
    exists|j: int| 0 <= j < i && defs[j].id == id
}

/// The first failure among the first `n` definitions.
pub open spec fn items_failure(defs: Seq<ItemDefinition>, n: int) -> Option<ItemCatalogError>
    decreases n,
{
    if n <= 0 {
        None
    } else {
        match items_failure(defs, n - 1) {
            Some(e) => Some(e),
            None => if item_id_before(defs, defs[n - 1].id, n - 1) {
                Some(ItemCatalogError::DuplicateId(defs[n - 1].id))
            } else if item_unsupported(defs[n - 1]) {
                Some(ItemCatalogError::UnsupportedDefinition(defs[n - 1].id))
            } else {
                None
            },
        }
    }
}

pub proof fn lemma_items_failure_sticks(defs: Seq<ItemDefinition>, m: int, n: int)
    requires
        0 <= m <= n,
        items_failure(defs, m) is Some,
    ensures
        items_failure(defs, n) == items_failure(defs, m),
    decreases n - m,
{
    if n > m {
        lemma_items_failure_sticks(defs, m, n - 1);
    }
}

pub proof fn lemma_items_valid_entries(defs: Seq<ItemDefinition>, n: int, i: int)
    requires
        0 <= i < n <= defs.len(),
        items_failure(defs, n) is None,
    ensures
        !item_unsupported(defs[i]),
        !item_id_before(defs, defs[i].id, i),
    decreases n,
{
    if i < n - 1 {
        lemma_items_valid_entries(defs, n - 1, i);
    }
}

/// A validated, immutable set of item definitions.
#[derive(Clone, Debug, PartialEq, Eq)]
pub struct ItemCatalog {
    definitions: Vec<ItemDefinition>,
}

impl ItemCatalog {
    pub closed spec fn spec_definitions(&self) -> Seq<ItemDefinition> {
        self.definitions@
    }

    /// The catalog passes every rule `new` enforces.
    pub open spec fn valid(&self) -> bool {
        items_failure(self.spec_definitions(), self.spec_definitions().len() as int) is None
    }

    /// The definition a lookup of `id` finds.
    pub open spec fn spec_item(&self, id: ItemId) -> Option<ItemDefinition> {
        if item_id_before(self.spec_definitions(), id, self.spec_definitions().len() as int) {
            Some(self.spec_definitions()[first_item_index(self.spec_definitions(), id)])
        } else {
            None
        }
    }

    /// Validate a complete immutable item catalog.
    pub fn new(definitions: Vec<ItemDefinition>) -> (r: Result<Self, ItemCatalogError>)
        ensures
            match r {
                Ok(c) => items_failure(definitions@, definitions@.len() as int) is None
                    && c.spec_definitions() == definitions@ && c.valid(),
                Err(e) => items_failure(definitions@, definitions@.len() as int) == Some(e),
            },
    {
        let mut i: usize = 0;
        while i < definitions.len()
            invariant
                i <= definitions@.len(),
                items_failure(definitions@, i as int) is None,
            decreases definitions@.len() - i,
        {
            let d = &definitions[i];
            let mut j: usize = 0;
            while j < i
                invariant
                    i < definitions@.len(),
                    j <= i,
                    *d == definitions@[i as int],
                    !item_id_before(definitions@, d.id, j as int),
                    items_failure(definitions@, i as int) is None,
                decreases i - j,
            {
                if definitions[j].id == d.id {
                    proof {
                        assert(item_id_before(definitions@, d.id, i as int));
                        lemma_items_failure_sticks(definitions@, i + 1, definitions@.len() as int);
                    }
                    return Err(ItemCatalogError::DuplicateId(d.id));
                }
                proof {
                    assert forall|k: int| 0 <= k < j + 1 implies definitions@[k].id != d.id by {
                        if k < j {
                            assert(!item_id_before(definitions@, d.id, j as int));
                        }
                    }
                }
                j = j + 1;
            }
            let bad_effect = match d.effect {
                ItemEffect::TorchVision { radius } => radius <= 0,
                ItemEffect::Heal { amount } => amount <= 0,
                ItemEffect::Unsupported(_) => true,
            };
            if d.name.as_str().is_empty() || d.description.as_str().is_empty() || bad_effect {
                proof { lemma_items_failure_sticks(definitions@, i + 1, definitions@.len() as int); }
                return Err(ItemCatalogError::UnsupportedDefinition(d.id));
            }
            i = i + 1;
        }
        Ok(ItemCatalog { definitions })
    }

    /// The built-in catalog: the Grave Torch and the Health Potion.
    pub fn builtin() -> (c: Self)
        ensures
            builtin_items(c),
    {
        let mut definitions: Vec<ItemDefinition> = Vec::new();
        definitions.push(ItemDefinition {
            id: ItemId(1),
            name: String::from_str("Grave Torch"),
            description: String::from_str("A pitch-black brand whose corpse-flame pushes back the dark."),
            glyph_ascii: 't',
            glyph_unicode: '†',
            effect: ItemEffect::TorchVision { radius: TORCH_VISION_RADIUS },
        });
        definitions.push(ItemDefinition {
            id: ItemId(2),
            name: String::from_str("Health Potion"),
            description: String::from_str("A bitter crimson draught that knits wounded flesh."),
            glyph_ascii: 'v',
            glyph_unicode: '¡',
            effect: ItemEffect::Heal { amount: POTION_HEAL },
        });
        proof {
            reveal_strlit("Grave Torch");
            reveal_strlit("A pitch-black brand whose corpse-flame pushes back the dark.");
            reveal_strlit("Health Potion");
            reveal_strlit("A bitter crimson draught that knits wounded flesh.");
            let d = definitions@;
            assert(items_failure(d, 0) is None);
            assert(!item_id_before(d, d[0].id, 0));
            assert(items_failure(d, 1) is None);
            assert(!item_id_before(d, d[1].id, 1));
            assert(items_failure(d, 2) is None);
        }
        let r = ItemCatalog::new(definitions);
        r.unwrap()
    }

    /// Look up an item definition by id.
    pub fn item(&self, id: ItemId) -> (r: Option<&ItemDefinition>)
        ensures
            r matches Some(d) ==> self.spec_item(id) == Some(*d),
            r is None ==> self.spec_item(id) is None,
    {
        let mut i: usize = 0;
        while i < self.definitions.len()
            invariant
                i <= self.definitions@.len(),
                !item_id_before(self.definitions@, id, i as int),
            decreases self.definitions@.len() - i,
        {
            if self.definitions[i].id == id {
                proof { lemma_first_item_index(self.definitions@, id, i as int); }
                return Some(&self.definitions[i]);
            }
            proof {
                assert forall|k: int| 0 <= k < i + 1 implies self.definitions@[k].id != id by {
                    if k < i {
                        assert(!item_id_before(self.definitions@, id, i as int));
                    }
                }
            }
            i = i + 1;
        }
        None
    }
}

/// Index of the first definition with the given id (meaningful when one exists).
/// The built-in items: the Grave Torch and the Health Potion.
pub open spec fn builtin_items(c: ItemCatalog) -> bool {
    &&& c.valid()
    &&& c.spec_definitions().len() == 2
    &&& c.spec_definitions()[0].id == ItemId(1)
    &&& c.spec_definitions()[0].name@ == "Grave Torch"@
    &&& c.spec_definitions()[0].effect == (ItemEffect::TorchVision { radius: TORCH_VISION_RADIUS })
    &&& c.spec_definitions()[0].glyph_ascii == 't'
    &&& c.spec_definitions()[0].glyph_unicode == '†'
    &&& c.spec_definitions()[1].id == ItemId(2)
    &&& c.spec_definitions()[1].name@ == "Health Potion"@
    &&& c.spec_definitions()[1].effect == (ItemEffect::Heal { amount: POTION_HEAL })
    &&& c.spec_definitions()[1].glyph_ascii == 'v'
    &&& c.spec_definitions()[1].glyph_unicode == '¡'
}

pub open spec fn first_item_index(defs: Seq<ItemDefinition>, id: ItemId) -> int {
    choose|i: int| 0 <= i < defs.len() && defs[i].id == id && !item_id_before(defs, id, i)
}

pub proof fn lemma_first_item_index(defs: Seq<ItemDefinition>, id: ItemId, i: int)
    requires
        0 <= i < defs.len(),
        defs[i].id == id,
        !item_id_before(defs, id, i),
    ensures
        first_item_index(defs, id) == i,
{
    let f = first_item_index(defs, id);
    assert(0 <= f < defs.len() && defs[f].id == id && !item_id_before(defs, id, f));
    if f < i {
        assert(item_id_before(defs, id, i));
    } else if f > i {
        assert(item_id_before(defs, id, f));
    }
}

pub proof fn lemma_first_item_exists(defs: Seq<ItemDefinition>, id: ItemId, n: int)
    requires
        n <= defs.len(),
        item_id_before(defs, id, n),
    ensures
        exists|i: int| 0 <= i < n && defs[i].id == id && !item_id_before(defs, id, i),
    decreases n,
{
    if item_id_before(defs, id, n - 1) {
        lemma_first_item_exists(defs, id, n - 1);
        let i = choose|i: int| 0 <= i < n - 1 && defs[i].id == id && !item_id_before(defs, id, i);
        assert(0 <= i < n);
    } else {
        let j = choose|j: int| 0 <= j < n && defs[j].id == id;
        if j < n - 1 {
            assert(item_id_before(defs, id, n - 1));
        }
        assert(defs[n - 1].id == id && !item_id_before(defs, id, n - 1));
    }
}

/// An item a catalog finds is one of its definitions.
pub proof fn lemma_found_item_listed(c: ItemCatalog, id: ItemId)
    requires
        c.spec_item(id) is Some,
    ensures
        exists|i: int| 0 <= i < c.spec_definitions().len() && #[trigger] c.spec_definitions()[i] == c.spec_item(id).unwrap(),
{
    let defs = c.spec_definitions();
    lemma_first_item_exists(defs, id, defs.len() as int);
    let f = first_item_index(defs, id);
    assert(0 <= f < defs.len() && defs[f] == c.spec_item(id).unwrap());
}

/// Definitions of a valid catalog are supported.
pub proof fn lemma_valid_item(c: ItemCatalog, id: ItemId)
    requires
        c.valid(),
        c.spec_item(id) is Some,
    ensures
        !item_unsupported(c.spec_item(id).unwrap()),
        c.spec_item(id).unwrap().id == id,
{
    lemma_first_item_exists(c.spec_definitions(), id, c.spec_definitions().len() as int);
    let f = first_item_index(c.spec_definitions(), id);
    assert(0 <= f < c.spec_definitions().len() && c.spec_definitions()[f].id == id);
    lemma_items_valid_entries(c.spec_definitions(), c.spec_definitions().len() as int, f);
}

} // verus!
