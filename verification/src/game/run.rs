//! Run-state queries, the event log, turn accounting, and field of view.

use super::visibility::{coords_small, has_line_of_sight};
use super::{
    AbilityDefinition, AbilityId, AbilitySlot, AbilityState, ActorId, ClassDefinition, ExplorationGame, ItemEffect,
    Telegraph, log_push, telegraph_target, visible_region, FIELD_OF_VIEW_RADIUS, INVENTORY_SLOT_COUNT,
};
use super::combat::saturate_i32;
use super::{ItemCatalog, ItemInstance, ABILITY_SLOT_COUNT};
use super::classes::lemma_valid_class;
use crate::world::{cheb, Position};
use vstd::prelude::*;

verus! {

impl ExplorationGame {
    /// Sight radius: the best carried torch, else the unaided radius.
    pub open spec fn vision_radius(&self) -> i32 {
        vision_radius_of(self.inventory@, self.item_catalog)
    }

    /// The first hostile telegraph aimed at `p`, in hostile order.
    pub open spec fn telegraph_aimed_at(&self, p: Position) -> Option<Telegraph> {
        telegraph_from(self.hostiles@, p, 0)
    }

    pub open spec fn aims_at(t: Option<Telegraph>, p: Position) -> bool {
        t matches Some(t) && telegraph_target(t) == p
    }

    /// The state of an ability slot.
    pub open spec fn spec_ability_state(&self, slot: AbilitySlot) -> Option<AbilityState> {
        self.abilities@[slot.spec_number() - 1]
    }

    pub fn is_visible(&self, position: Position) -> (b: bool)
        ensures
            b == self.visible@.contains(position),
    {
        self.visible.contains(&position)
    }

    pub fn is_explored(&self, position: Position) -> (b: bool)
        ensures
            b == self.explored@.contains(position),
    {
        self.explored.contains(&position)
    }

    /// The first telegraph, in hostile order, aimed at `position`.
    pub fn telegraph_at(&self, position: Position) -> (t: Option<Telegraph>)
        ensures
            t == self.telegraph_aimed_at(position),
    {
        let mut i: usize = 0;
        while i < self.hostiles.len()
            invariant
                i <= self.hostiles@.len(),
                telegraph_from(self.hostiles@, position, 0) == telegraph_from(self.hostiles@, position, i as int),
            decreases self.hostiles@.len() - i,
        {
            match self.hostiles[i].telegraph {
                Some(t) => {
                    if t.target() == position {
                        return Some(t);
                    }
                },
                None => {},
            }
            i = i + 1;
        }
        None
    }

    /// The current state of an ability slot.
    pub fn ability_state(&self, slot: AbilitySlot) -> (s: Option<AbilityState>)
        ensures
            s == self.spec_ability_state(slot),
    {
        self.abilities[slot.index()]
    }

    /// Look up an ability in the run's catalog.
    pub fn ability_definition(&self, id: AbilityId) -> (d: Option<&AbilityDefinition>)
        ensures
            d matches Some(d) ==> self.catalog.spec_ability(id) == Some(*d),
            d is None ==> self.catalog.spec_ability(id) is None,
    {
        self.catalog.ability(id)
    }

    /// Whether the player has the mana for the ability in a slot.
    pub fn can_afford_ability(&self, slot: AbilitySlot) -> (b: bool)
        ensures
            b == (self.spec_ability_state(slot) matches Some(st) && self.catalog.spec_ability(st.ability_id) matches Some(d)
                && self.player.mana >= d.mana_cost),
    {
        match self.ability_state(slot) {
            Some(state) => match self.ability_definition(state.ability_id) {
                Some(definition) => self.player.mana >= definition.mana_cost,
                None => false,
            },
            None => false,
        }
    }

    /// The selected class definition of this run.
    pub fn class_definition(&self) -> (c: &ClassDefinition)
        requires
            self.catalog.spec_class(self.class_id) is Some,
        ensures
            *c == self.spec_class_def(),
    {
        self.catalog.class(self.class_id).unwrap()
    }

    /// The sight radius the current inventory grants.
    pub fn effective_visibility_radius(&self) -> (r: i32)
        ensures
            r == self.vision_radius(),
    {
        let mut best: Option<i32> = None;
        let mut i: usize = 0;
        while i < INVENTORY_SLOT_COUNT
            invariant
                i <= INVENTORY_SLOT_COUNT,
                best == best_torch(self.inventory@, self.item_catalog, i as int),
            decreases INVENTORY_SLOT_COUNT - i,
        {
            let here: Option<i32> = match self.inventory[i] {
                Some(item) => match self.item_catalog.item(item.item_id) {
                    Some(d) => match d.effect {
                        ItemEffect::TorchVision { radius } => Some(radius),
                        _ => None,
                    },
                    None => None,
                },
                None => None,
            };
            assert(here == slot_torch_radius(self.inventory@, self.item_catalog, i as int));
            best = match (best, here) {
                (Some(a), Some(b)) => Some(if a >= b { a } else { b }),
                (Some(a), None) => Some(a),
                (None, b) => b,
            };
            i = i + 1;
        }
        match best {
            Some(r) => r,
            None => FIELD_OF_VIEW_RADIUS,
        }
    }

    /// Spend a turn: count it, regenerate mana by the class rate and,
    /// when `tick_cooldown` holds, let every cooldown recover by one.
    pub(crate) fn advance_turn(&mut self, tick_cooldown: bool)
        requires
            old(self).turn < u64::MAX,
            old(self).catalog.spec_class(old(self).class_id) is Some,
            old(self).player.max_mana >= 0,
        ensures
            *final(self) == (ExplorationGame {
                turn: (old(self).turn + 1) as u64,
                player: super::Player {
                    mana: regenerated(
                        old(self).player.mana as int,
                        old(self).spec_class_def().mana_regeneration as int,
                        old(self).player.max_mana as int,
                    ) as i32,
                    ..old(self).player
                },
                abilities: final(self).abilities,
                ..*old(self)
            }),
            final(self).abilities@ == if tick_cooldown { ticked(old(self).abilities@) } else { old(self).abilities@ },
            !tick_cooldown ==> final(self).abilities == old(self).abilities,
            old(self).wf() ==> final(self).wf(),
    {
        self.turn = self.turn + 1;
        let regen = self.class_definition().mana_regeneration;
        let wide = self.player.mana as i64 + regen as i64;
        let m: i32 = if wide > i32::MAX as i64 {
            i32::MAX
        } else if wide < i32::MIN as i64 {
            i32::MIN
        } else {
            wide as i32
        };
        self.player.mana = if m < 0 {
            0
        } else if m > self.player.max_mana {
            self.player.max_mana
        } else {
            m
        };
        if tick_cooldown {
            let ghost pre = *self;
            let mut i: usize = 0;
            while i < ABILITY_SLOT_COUNT
                invariant
                    *self == (ExplorationGame { abilities: self.abilities, ..pre }),
                    pre.abilities == old(self).abilities,
                    i <= ABILITY_SLOT_COUNT,
                    self.abilities@.len() == ABILITY_SLOT_COUNT,
                    forall|j: int| 0 <= j < i ==> #[trigger] self.abilities@[j] == tick_one(old(self).abilities@[j]),
                    forall|j: int| i <= j < ABILITY_SLOT_COUNT ==> #[trigger] self.abilities@[j] == old(self).abilities@[j],
                decreases ABILITY_SLOT_COUNT - i,
            {
                match self.abilities[i] {
                    Some(st) => {
                        let next = if st.cooldown_remaining > 0 { st.cooldown_remaining - 1 } else { 0 };
                        self.abilities.set(i, Some(AbilityState { cooldown_remaining: next, ..st }));
                    },
                    None => {},
                }
                i = i + 1;
            }
            assert(self.abilities@ =~= ticked(old(self).abilities@));
        }
        proof {
            if old(self).wf() {
                lemma_valid_class(self.catalog, self.class_id);
                if tick_cooldown {
                    assert forall|k: int| 0 <= k < ABILITY_SLOT_COUNT implies
                        (#[trigger] self.abilities@[k] is Some <==> old(self).abilities@[k] is Some)
                        && (self.abilities@[k] is Some ==> self.abilities@[k].unwrap().ability_id == old(self).abilities@[k].unwrap().ability_id) by {
                        assert(self.abilities@[k] == tick_one(old(self).abilities@[k]));
                    }
                }
            }
        }
    }

    /// Append a message, keeping the five most recent.
    pub(crate) fn push_event(&mut self, event: String)
        requires
            old(self).events@.len() <= 5,
        ensures
            *final(self) == (ExplorationGame { events: final(self).events, ..*old(self) }),
            final(self).log() == log_push(old(self).log(), event@),
            final(self).events@.len() <= 5,
            old(self).wf() ==> final(self).wf(),
    {
        let ghost e = event@;
        self.events.push(event);
        if self.events.len() > 5 {
            self.events.remove(0);
            assert(self.log() =~= log_push(old(self).log(), e));
        } else {
            assert(self.log() =~= log_push(old(self).log(), e));
        }
    }

    /// Whether a position holds the player or a hostile other than `except`.
    pub(crate) fn position_occupied(&self, position: Position, except: Option<ActorId>) -> (b: bool)
        ensures
            b == (position == self.player.position || exists|i: int|
                0 <= i < self.hostiles@.len() && except != Some(self.hostiles@[i].id) && self.hostiles@[i].position == position),
    {
        if position == self.player.position {
            return true;
        }
        let mut i: usize = 0;
        while i < self.hostiles.len()
            invariant
                i <= self.hostiles@.len(),
                forall|j: int| 0 <= j < i ==> !(except != Some(self.hostiles@[j].id) && self.hostiles@[j].position == position),
            decreases self.hostiles@.len() - i,
        {
            let a = self.hostiles[i];
            let excepted = match except {
                Some(id) => id == a.id,
                None => false,
            };
            if !excepted && a.position == position {
                return true;
            }
            i = i + 1;
        }
        false
    }

    /// Recompute which tiles the player sees and remember them as explored.
    pub fn recompute_visibility(&mut self)
        requires
            old(self).map.wf(),
            old(self).map.in_bounds(old(self).player.position),
            old(self).visible.wf(),
            old(self).visible.width == old(self).map.width,
            old(self).visible.height == old(self).map.height,
            old(self).explored.wf(),
            old(self).explored.width == old(self).map.width,
            old(self).explored.height == old(self).map.height,
        ensures
            *final(self) == (ExplorationGame { visible: final(self).visible, explored: final(self).explored, ..*old(self) }),
            final(self).visible.wf(),
            final(self).visible.width == old(self).map.width,
            final(self).visible.height == old(self).map.height,
            final(self).explored.wf(),
            final(self).explored.width == old(self).map.width,
            final(self).explored.height == old(self).map.height,
            final(self).visible@ == visible_region(&old(self).map, old(self).player.position, old(self).vision_radius() as int),
            final(self).explored@ == old(self).explored@.union(final(self).visible@),
            old(self).wf() ==> final(self).wf(),
    {
        let radius = self.effective_visibility_radius();
        let from = self.player.position;
        self.visible.clear();
        let positions = self.map.positions();
        let ghost region = visible_region(&self.map, from, radius as int);
        let mut i: usize = 0;
        while i < positions.len()
            invariant
                *self == (ExplorationGame { visible: self.visible, explored: self.explored, ..*old(self) }),
                from == self.player.position,
                radius == old(self).vision_radius(),
                region == visible_region(&self.map, from, radius as int),
                self.map.in_bounds(from),
                i <= positions@.len(),
                forall|j: int| 0 <= j < positions@.len() ==> grid_index_of(&self.map, #[trigger] positions@[j]) == j && self.map.in_bounds(positions@[j]),
                forall|p: Position| #[trigger] positions@.contains(p) <==> self.map.in_bounds(p),
                self.visible.wf(),
                self.visible.width == old(self).map.width,
                self.visible.height == old(self).map.height,
                self.explored.wf(),
                self.explored.width == old(self).map.width,
                self.explored.height == old(self).map.height,
                forall|p: Position| #[trigger] self.visible@.contains(p) <==> region.contains(p) && exists|j: int| 0 <= j < i && positions@[j] == p,
                forall|p: Position| #[trigger] self.explored@.contains(p) <==> old(self).explored@.contains(p) || self.visible@.contains(p),
            decreases positions@.len() - i,
        {
            let p = positions[i];
            assert(self.map.in_bounds(positions@[i as int]));
            let seen = from.chebyshev_distance(p) <= radius && has_line_of_sight(&self.map, from, p);
            let ghost before_visible = self.visible@;
            proof {
                crate::world::lemma_grid_index_bounds(self.map.width as int, self.map.height as int, p);
            }
            if seen {
                self.visible.insert(p);
                self.explored.insert(p);
            }
            proof {
                assert(self.visible@ == if seen { before_visible.insert(p) } else { before_visible });
                assert(seen == region.contains(p));
                assert forall|q: Position| #[trigger] self.visible@.contains(q) implies region.contains(q)
                    && exists|j: int| 0 <= j < i + 1 && positions@[j] == q by {
                    if q == p {
                        assert(positions@[i as int] == q);
                    } else {
                        assert(before_visible.contains(q));
                        let j = choose|j: int| 0 <= j < i && positions@[j] == q;
                        assert(0 <= j < i + 1 && positions@[j] == q);
                    }
                }
                assert forall|q: Position| region.contains(q) && (exists|j: int| 0 <= j < i + 1 && positions@[j] == q)
                    implies #[trigger] self.visible@.contains(q) by {
                    let j = choose|j: int| 0 <= j < i + 1 && positions@[j] == q;
                    if j == i {
                        assert(q == p);
                    } else {
                        assert(before_visible.contains(q));
                    }
                }
            }
            i = i + 1;
        }
        proof {
            assert forall|p: Position| #[trigger] self.visible@.contains(p) <== region.contains(p) by {
                if region.contains(p) {
                    assert(positions@.contains(p));
                    let j = choose|j: int| 0 <= j < positions@.len() && positions@[j] == p;
                }
            }
            assert(self.visible@ =~= region);
            assert(self.explored@ =~= old(self).explored@.union(self.visible@));
        }
    }
}

/// The first telegraph at or after hostile `i` aimed at `p`.
pub open spec fn telegraph_from(hostiles: Seq<super::Actor>, p: Position, i: int) -> Option<Telegraph>
    decreases hostiles.len() - i,
{
    if i < 0 || i >= hostiles.len() {
        None
    } else if ExplorationGame::aims_at(hostiles[i].telegraph, p) {
        hostiles[i].telegraph
    } else {
        telegraph_from(hostiles, p, i + 1)
    }
}

/// The sight radius inventory slot `i` grants, if it holds a torch.
pub open spec fn slot_torch_radius(inventory: Seq<Option<ItemInstance>>, catalog: ItemCatalog, i: int) -> Option<i32> {
    match inventory[i] {
        Some(item) => match catalog.spec_item(item.item_id) {
            Some(d) => match d.effect {
                ItemEffect::TorchVision { radius } => Some(radius),
                _ => None,
            },
            None => None,
        },
        None => None,
    }
}

/// The largest torch radius among the first `n` inventory slots.
pub open spec fn best_torch(inventory: Seq<Option<ItemInstance>>, catalog: ItemCatalog, n: int) -> Option<i32>
    decreases n,
{
    if n <= 0 {
        None
    } else {
        match (best_torch(inventory, catalog, n - 1), slot_torch_radius(inventory, catalog, n - 1)) {
            (Some(a), Some(b)) => Some(if a >= b { a } else { b }),
            (Some(a), None) => Some(a),
            (None, b) => b,
        }
    }
}

/// Sight radius for a carried inventory: the best torch, else the unaided radius.
pub open spec fn vision_radius_of(inventory: Seq<Option<ItemInstance>>, catalog: ItemCatalog) -> i32 {
    match best_torch(inventory, catalog, INVENTORY_SLOT_COUNT as int) {
        Some(r) => r,
        None => FIELD_OF_VIEW_RADIUS,
    }
}

/// Mana after a turn of regeneration, kept within `[0, max]`.
pub open spec fn regenerated(mana: int, regen: int, max: int) -> int {
    let m = saturate_i32(mana + regen);
    if m < 0 {
        0
    } else if m > max {
        max
    } else {
        m
    }
}

/// One turn of cooldown recovery on every equipped ability.
pub open spec fn ticked(slots: Seq<Option<AbilityState>>) -> Seq<Option<AbilityState>> {
    slots.map_values(|s: Option<AbilityState>| tick_one(s))
}

pub open spec fn tick_one(s: Option<AbilityState>) -> Option<AbilityState> {
    match s {
        Some(st) => Some(AbilityState {
            cooldown_remaining: if st.cooldown_remaining > 0 { (st.cooldown_remaining - 1) as u8 } else { 0 },
            ..st
        }),
        None => None,
    }
}

/// Row-major index of a position on a map.
pub open spec fn grid_index_of(map: &crate::world::DungeonMap, p: Position) -> int {
    crate::world::grid_index(map.width as int, p)
}

/// The best of the first `n` slots' torches is at least each of them, is
/// one of them, and is absent only when none of them is a torch.
proof fn lemma_best_torch_is_largest(inventory: Seq<Option<ItemInstance>>, catalog: ItemCatalog, n: int)
    ensures
        forall|k: int| 0 <= k < n && (#[trigger] slot_torch_radius(inventory, catalog, k)) is Some
            ==> best_torch(inventory, catalog, n) is Some
                && best_torch(inventory, catalog, n).unwrap() >= slot_torch_radius(inventory, catalog, k).unwrap(),
        best_torch(inventory, catalog, n) matches Some(m) ==> exists|k: int| 0 <= k < n
            && #[trigger] slot_torch_radius(inventory, catalog, k) == Some(m),
    decreases n,
{
    if n > 0 {
        lemma_best_torch_is_largest(inventory, catalog, n - 1);
        if let Some(m) = best_torch(inventory, catalog, n) {
            if best_torch(inventory, catalog, n - 1) == Some(m) {
                let k = choose|k: int| 0 <= k < n - 1 && #[trigger] slot_torch_radius(inventory, catalog, k) == Some(m);
                assert(0 <= k < n && slot_torch_radius(inventory, catalog, k) == Some(m));
            } else {
                assert(slot_torch_radius(inventory, catalog, n - 1) == Some(m));
            }
        }
    }
}

/// Sight reaches as far as the best carried torch: at least the radius of
/// every torch in the bag, exactly the radius of one of them when any is
/// carried, and the unaided radius when none is.
pub proof fn lemma_sight_follows_best_torch(inventory: Seq<Option<ItemInstance>>, catalog: ItemCatalog)
    ensures
        forall|k: int| 0 <= k < INVENTORY_SLOT_COUNT && (#[trigger] slot_torch_radius(inventory, catalog, k)) is Some
            ==> vision_radius_of(inventory, catalog) >= slot_torch_radius(inventory, catalog, k).unwrap(),
        (exists|k: int| 0 <= k < INVENTORY_SLOT_COUNT && (#[trigger] slot_torch_radius(inventory, catalog, k)) is Some)
            ==> exists|k: int| 0 <= k < INVENTORY_SLOT_COUNT
                && #[trigger] slot_torch_radius(inventory, catalog, k) == Some(vision_radius_of(inventory, catalog)),
        (forall|k: int| 0 <= k < INVENTORY_SLOT_COUNT ==> (#[trigger] slot_torch_radius(inventory, catalog, k)) is None)
            ==> vision_radius_of(inventory, catalog) == FIELD_OF_VIEW_RADIUS,
{
    lemma_best_torch_is_largest(inventory, catalog, INVENTORY_SLOT_COUNT as int);
}

} // verus!
