//! Item placement, pickup, carried-item use, and reference validation.

use super::run::{regenerated, ticked};
use super::{
    log_push, CommandOutcome, ExplorationGame, GroundItem, ItemCatalogError, ItemDefinition, ItemEffect, ItemId,
    ItemInstance, ItemInstanceId, INVENTORY_SLOT_COUNT,
};
use crate::rng::{shuffle_positions, shuffled};
use crate::text::{decimal, push_decimal, text};
use crate::world::{Position, Tile};
use vstd::prelude::*;

verus! {

/// Domain separator of the item-placement stream within a run's seed.
pub const ITEM_RNG_DOMAIN: u64 = 0x17E0_5EED_1A7E_DA7A;

/// "You take the `name` into slot `n`."
pub open spec fn take_text(name: Seq<char>, n: int) -> Seq<char> {
    "You take the "@ + name + " into slot "@ + decimal(n) + "."@
}

/// "You drink the `name` and restore `n` health."
pub open spec fn drink_text(name: Seq<char>, n: int) -> Seq<char> {
    "You drink the "@ + name + " and restore "@ + decimal(n) + " health."@
}

/// The items carried in the first `n` inventory slots, in slot order.
pub open spec fn carried_prefix(inventory: Seq<Option<ItemInstance>>, n: int) -> Seq<ItemInstance>
    decreases n,
{
    if n <= 0 {
        Seq::empty()
    } else {
        match inventory[n - 1] {
            Some(item) => carried_prefix(inventory, n - 1).push(item),
            None => carried_prefix(inventory, n - 1),
        }
    }
}

/// A ground item lying at `p`.
pub open spec fn ground_at(items: Seq<GroundItem>, p: Position, i: int) -> bool {
    0 <= i < items.len() && items[i].position == p
}

/// The first inventory slot that is empty.
pub open spec fn free_slot(inventory: Seq<Option<ItemInstance>>, i: int) -> bool {
    0 <= i < INVENTORY_SLOT_COUNT && inventory[i] is None
}

/// What a pickup command does.
pub open spec fn pickup_outcome(pre: ExplorationGame, post: ExplorationGame, r: CommandOutcome) -> bool {
    &&& (!(exists|g: int| ground_at(pre.ground_items@, pre.player.position, g)) ==> {
        &&& r == CommandOutcome::Rejected
        &&& post == (ExplorationGame { events: post.events, ..pre })
        &&& post.log() == log_push(pre.log(), "There is nothing here to take."@)
    })
    &&& ((exists|g: int| ground_at(pre.ground_items@, pre.player.position, g))
        && !(exists|s: int| free_slot(pre.inventory@, s)) ==> {
        &&& r == CommandOutcome::Rejected
        &&& post == (ExplorationGame { events: post.events, ..pre })
        &&& post.log() == log_push(pre.log(), "Your four item slots are full."@)
    })
    &&& ((exists|g: int| ground_at(pre.ground_items@, pre.player.position, g))
        && (exists|s: int| free_slot(pre.inventory@, s)) ==> {
        let g = choose|g: int| ground_at(pre.ground_items@, pre.player.position, g)
            && forall|h: int| 0 <= h < g ==> !ground_at(pre.ground_items@, pre.player.position, h);
        let s = choose|s: int| free_slot(pre.inventory@, s)
            && forall|t: int| 0 <= t < s ==> !free_slot(pre.inventory@, t);
        let item = pre.ground_items@[g].item;
        &&& r == CommandOutcome::Advanced
        &&& post.ground_items@ == pre.ground_items@.remove(g)
        &&& post.inventory@ == pre.inventory@.update(s, Some(item))
        &&& post.turn == pre.turn + 1
        &&& post.player == (super::Player {
            mana: regenerated(pre.player.mana as int, pre.spec_class_def().mana_regeneration as int,
                pre.player.max_mana as int) as i32,
            ..pre.player
        })
        &&& post.abilities@ == ticked(pre.abilities@)
        &&& post.visible@ == super::visible_region(&pre.map, pre.player.position, post.vision_radius() as int)
        &&& post.explored@ == pre.explored@.union(post.visible@)
        &&& post.log() == log_push(pre.log(), take_text(pre.item_catalog.spec_item(item.item_id).unwrap().name@, s + 1))
        &&& post == (ExplorationGame {
            ground_items: post.ground_items,
            inventory: post.inventory,
            turn: post.turn,
            player: post.player,
            abilities: post.abilities,
            visible: post.visible,
            explored: post.explored,
            events: post.events,
            ..pre
        })
    })
}

/// What using inventory slot `slot` does.
pub open spec fn item_use_outcome(pre: ExplorationGame, post: ExplorationGame, slot: u8, r: CommandOutcome) -> bool {
    &&& (r == CommandOutcome::Rejected <==> !pre.heal_usable(slot))
    &&& (r == CommandOutcome::Rejected ==> post == pre)
    &&& (r == CommandOutcome::Advanced ==> {
        let index = slot - 1;
        let item = pre.inventory@[index].unwrap();
        let d = pre.item_catalog.spec_item(item.item_id).unwrap();
        let amount = d.effect->amount;
        let healed = if pre.player.health + amount > pre.player.max_health {
            pre.player.max_health as int
        } else {
            pre.player.health + amount
        };
        &&& post.player == (super::Player {
            health: healed as i32,
            mana: regenerated(pre.player.mana as int, pre.spec_class_def().mana_regeneration as int,
                pre.player.max_mana as int) as i32,
            ..pre.player
        })
        &&& post.inventory@ == pre.inventory@.update(index, None)
        &&& !post.using_item
        &&& post.turn == pre.turn + 1
        &&& post.abilities@ == ticked(pre.abilities@)
        &&& post.visible@ == super::visible_region(&pre.map, pre.player.position, post.vision_radius() as int)
        &&& post.explored@ == pre.explored@.union(post.visible@)
        &&& post.log() == log_push(pre.log(), drink_text(d.name@, healed - pre.player.health))
        &&& post == (ExplorationGame {
            inventory: post.inventory,
            using_item: false,
            turn: post.turn,
            player: post.player,
            abilities: post.abilities,
            visible: post.visible,
            explored: post.explored,
            events: post.events,
            ..pre
        })
    })
}

impl ExplorationGame {
    /// Every item reference, carried items first in slot order, then ground
    /// items in placement order.
    pub open spec fn item_references(&self) -> Seq<ItemInstance> {
        carried_prefix(self.inventory@, INVENTORY_SLOT_COUNT as int) + self.ground_items@.map_values(|g: GroundItem| g.item)
    }

    /// A spawn candidate where an item may be placed: bare floor, not the
    /// player's tile, not the exit, and free of hostiles.
    pub open spec fn item_spot(&self, p: Position) -> bool {
        &&& self.map.tile_at(p) == Some(Tile::Floor)
        &&& p != self.player.position
        &&& p != self.map.exit
        &&& !exists|i: int| 0 <= i < self.hostiles@.len() && #[trigger] self.hostiles@[i].position == p
    }

    /// The spawn candidates where items may be placed, in map order.
    pub open spec fn item_spots(&self) -> Seq<Position> {
        self.map.spawn_candidates@.filter(|p: Position| self.item_spot(p))
    }

    /// Look up an item definition in the run's item catalog.
    pub fn item_definition(&self, id: ItemId) -> (r: Option<&ItemDefinition>)
        ensures
            r matches Some(d) ==> self.item_catalog.spec_item(id) == Some(*d),
            r is None ==> self.item_catalog.spec_item(id) is None,
    {
        self.item_catalog.item(id)
    }

    /// Check every carried and placed item against the item catalog.
    pub fn validate_item_references(&self) -> (r: Result<(), ItemCatalogError>)
        ensures
            r is Ok <==> forall|i: int| 0 <= i < self.item_references().len()
                ==> self.item_catalog.spec_item((#[trigger] self.item_references()[i]).item_id) is Some,
            r matches Err(e) ==> exists|i: int| 0 <= i < self.item_references().len()
                && self.item_catalog.spec_item((#[trigger] self.item_references()[i]).item_id) is None
                && (forall|j: int| 0 <= j < i ==> self.item_catalog.spec_item(self.item_references()[j].item_id) is Some)
                && e == (ItemCatalogError::UnknownItem {
                    instance_id: self.item_references()[i].instance_id,
                    item_id: self.item_references()[i].item_id,
                }),
    {
        let ghost refs = self.item_references();
        let ghost carried = carried_prefix(self.inventory@, INVENTORY_SLOT_COUNT as int);
        let mut seen: Vec<ItemInstance> = Vec::new();
        let mut i: usize = 0;
        while i < INVENTORY_SLOT_COUNT
            invariant
                refs == self.item_references(),
                carried == carried_prefix(self.inventory@, INVENTORY_SLOT_COUNT as int),
                refs == carried + self.ground_items@.map_values(|g: GroundItem| g.item),
                i <= INVENTORY_SLOT_COUNT,
                seen@ == carried_prefix(self.inventory@, i as int),
                forall|j: int| 0 <= j < seen@.len() ==> self.item_catalog.spec_item((#[trigger] seen@[j]).item_id) is Some,
            decreases INVENTORY_SLOT_COUNT - i,
        {
            match self.inventory[i] {
                Some(item) => {
                    if self.item_definition(item.item_id).is_none() {
                        proof {
                            assert(carried_prefix(self.inventory@, i + 1) == seen@.push(item));
                            lemma_carried_prefix_extends(self.inventory@, i as int + 1, INVENTORY_SLOT_COUNT as int);
                            assert(carried_prefix(self.inventory@, i + 1)[seen@.len() as int] == item);
                            assert(carried[seen@.len() as int] == item);
                            assert(refs[seen@.len() as int] == item);
                            assert forall|j: int| 0 <= j < seen@.len() implies
                                self.item_catalog.spec_item(refs[j].item_id) is Some by {
                                assert(carried_prefix(self.inventory@, i + 1)[j] == seen@[j]);
                                assert(refs[j] == carried[j]);
                            }
                        }
                        return Err(ItemCatalogError::UnknownItem { instance_id: item.instance_id, item_id: item.item_id });
                    }
                    seen.push(item);
                },
                None => {},
            }
            i = i + 1;
        }
        assert(seen@ == carried);
        let mut k: usize = 0;
        while k < self.ground_items.len()
            invariant
                refs == self.item_references(),
                seen@ == carried,
                refs == carried + self.ground_items@.map_values(|g: GroundItem| g.item),
                k <= self.ground_items@.len(),
                forall|j: int| 0 <= j < carried.len() + k ==> self.item_catalog.spec_item((#[trigger] refs[j]).item_id) is Some,
            decreases self.ground_items@.len() - k,
        {
            let item = self.ground_items[k].item;
            if self.item_definition(item.item_id).is_none() {
                assert(refs[carried.len() + k] == item);
                return Err(ItemCatalogError::UnknownItem { instance_id: item.instance_id, item_id: item.item_id });
            }
            assert(refs[carried.len() + k] == item);
            k = k + 1;
        }
        Ok(())
    }

    /// Lay an item on the floor with the next stable instance id.
    pub fn spawn_ground_item(&mut self, item_id: ItemId, position: Position) -> (id: ItemInstanceId)
        requires
            old(self).next_item_instance_id < u32::MAX,
        ensures
            id == ItemInstanceId(old(self).next_item_instance_id),
            final(self).ground_items@ == old(self).ground_items@.push(
                GroundItem { item: ItemInstance { instance_id: id, item_id }, position },
            ),
            *final(self) == (ExplorationGame {
                ground_items: final(self).ground_items,
                next_item_instance_id: (old(self).next_item_instance_id + 1) as u32,
                ..*old(self)
            }),
    {
        let instance_id = ItemInstanceId(self.next_item_instance_id);
        self.next_item_instance_id = self.next_item_instance_id + 1;
        self.ground_items.push(GroundItem { item: ItemInstance { instance_id, item_id }, position });
        instance_id
    }

    /// Place a Grave Torch and then a Health Potion on the first two spots of
    /// a seeded shuffle of the eligible spawn candidates (as many as there
    /// are spots).
    pub(crate) fn populate_items(&mut self)
        requires
            old(self).next_item_instance_id as int + 2 <= u32::MAX,
        ensures
            exists|perm: Seq<Position>| #[trigger] perm.to_multiset() == old(self).item_spots().to_multiset()
                && perm.len() == old(self).item_spots().len()
                && final(self).ground_items@ == old(self).ground_items@ + placed_items(old(self).next_item_instance_id, perm),
            final(self).ground_items@ == old(self).ground_items@ + placed_items(
                old(self).next_item_instance_id,
                shuffled(old(self).map.seed.0 ^ ITEM_RNG_DOMAIN, 0, old(self).item_spots()).0,
            ),
            final(self).next_item_instance_id == old(self).next_item_instance_id
                + (final(self).ground_items@.len() - old(self).ground_items@.len()),
            *final(self) == (ExplorationGame {
                ground_items: final(self).ground_items,
                next_item_instance_id: final(self).next_item_instance_id,
                ..*old(self)
            }),
    {
        let ghost spots = self.item_spots();
        let mut positions: Vec<Position> = Vec::new();
        let mut i: usize = 0;
        while i < self.map.spawn_candidates.len()
            invariant
                i <= self.map.spawn_candidates@.len(),
                positions@ == self.map.spawn_candidates@.subrange(0, i as int).filter(|p: Position| self.item_spot(p)),
            decreases self.map.spawn_candidates@.len() - i,
        {
            let p = self.map.spawn_candidates[i];
            let spot = self.map.tile(p) == Some(Tile::Floor) && p != self.player.position && p != self.map.exit
                && !self.hostile_present(p);
            proof {
                let s = self.map.spawn_candidates@.subrange(0, i as int + 1);
                assert(s.drop_last() =~= self.map.spawn_candidates@.subrange(0, i as int));
                assert(s.last() == p);
                reveal(Seq::filter);
            }
            if spot {
                positions.push(p);
            }
            i = i + 1;
        }
        assert(self.map.spawn_candidates@.subrange(0, self.map.spawn_candidates@.len() as int) =~= self.map.spawn_candidates@);
        assert(positions@ == spots);
        let _ = shuffle_positions(self.map.seed.0 ^ ITEM_RNG_DOMAIN, 0, &mut positions);
        let ghost perm = positions@;
        let first = self.next_item_instance_id;
        if positions.len() > 0 {
            self.spawn_ground_item(ItemId::torch(), positions[0]);
        }
        if positions.len() > 1 {
            self.spawn_ground_item(ItemId::health_potion(), positions[1]);
        }
        proof {
            assert(self.ground_items@ =~= old(self).ground_items@ + placed_items(first, perm));
        }
    }

    /// Index of the first ground item lying at `p`.
    fn first_ground_at(&self, p: Position) -> (r: Option<usize>)
        ensures
            r matches Some(g) ==> ground_at(self.ground_items@, p, g as int)
                && forall|h: int| 0 <= h < g ==> !ground_at(self.ground_items@, p, h),
            r is None ==> !exists|g: int| ground_at(self.ground_items@, p, g),
    {
        let mut g: usize = 0;
        while g < self.ground_items.len()
            invariant
                g <= self.ground_items@.len(),
                forall|h: int| 0 <= h < g ==> !ground_at(self.ground_items@, p, h),
            decreases self.ground_items@.len() - g,
        {
            if self.ground_items[g].position == p {
                return Some(g);
            }
            g = g + 1;
        }
        None
    }

    /// The lowest empty inventory slot.
    fn first_free_slot(&self) -> (r: Option<usize>)
        ensures
            r matches Some(s) ==> free_slot(self.inventory@, s as int)
                && forall|t: int| 0 <= t < s ==> !free_slot(self.inventory@, t),
            r is None ==> !exists|s: int| free_slot(self.inventory@, s),
    {
        let mut s: usize = 0;
        while s < INVENTORY_SLOT_COUNT
            invariant
                s <= INVENTORY_SLOT_COUNT,
                forall|t: int| 0 <= t < s ==> !free_slot(self.inventory@, t),
            decreases INVENTORY_SLOT_COUNT - s,
        {
            if self.inventory[s].is_none() {
                return Some(s);
            }
            s = s + 1;
        }
        None
    }

    /// Whether some hostile stands at `p`.
    pub fn hostile_present(&self, p: Position) -> (b: bool)
        ensures
            b == exists|i: int| 0 <= i < self.hostiles@.len() && #[trigger] self.hostiles@[i].position == p,
    {
        let mut i: usize = 0;
        while i < self.hostiles.len()
            invariant
                i <= self.hostiles@.len(),
                forall|j: int| 0 <= j < i ==> self.hostiles@[j].position != p,
            decreases self.hostiles@.len() - i,
        {
            if self.hostiles[i].position == p {
                return true;
            }
            i = i + 1;
        }
        false
    }

    /// Pick up the first item lying under the player into the lowest free
    /// slot; this spends a turn. Nothing to take, or no free slot, is refused
    /// with a message and costs nothing.
    pub(crate) fn pickup_item(&mut self) -> (r: CommandOutcome)
        requires
            old(self).wf(),
            old(self).turn < u64::MAX,
        ensures
            final(self).wf(),
            pickup_outcome(*old(self), *final(self), r),
    {
        let position = self.player.position;
        let g = match self.first_ground_at(position) {
            Some(g) => g,
            None => {
                self.push_event(text("There is nothing here to take."));
                return CommandOutcome::Rejected;
            },
        };
        let s = match self.first_free_slot() {
            Some(s) => s,
            None => {
                self.push_event(text("Your four item slots are full."));
                return CommandOutcome::Rejected;
            },
        };
        proof {
            assert(ground_at(old(self).ground_items@, position, g as int));
            assert(free_slot(old(self).inventory@, s as int));
            let gc = choose|gc: int| ground_at(old(self).ground_items@, position, gc)
                && forall|h: int| 0 <= h < gc ==> !ground_at(old(self).ground_items@, position, h);
            assert(gc == g) by {
                if gc < g { } else if gc > g { assert(!ground_at(old(self).ground_items@, position, g as int)); }
            }
            let sc = choose|sc: int| free_slot(old(self).inventory@, sc)
                && forall|t: int| 0 <= t < sc ==> !free_slot(old(self).inventory@, t);
            assert(sc == s) by {
                if sc < s { } else if sc > s { assert(!free_slot(old(self).inventory@, s as int)); }
            }
        }
        let ground = self.ground_items.remove(g);
        let item = ground.item;
        assert(old(self).items_wf());
        assert(self.item_catalog.spec_item(item.item_id) is Some);
        let mut message = text("You take the ");
        match self.item_definition(item.item_id) {
            Some(d) => message.append(d.name.as_str()),
            None => {},
        }
        message.append(" into slot ");
        push_decimal(&mut message, s as i64 + 1);
        message.append(".");
        proof {
            reveal_strlit("You take the ");
            reveal_strlit(" into slot ");
            reveal_strlit(".");
        }
        assert(message@ == take_text(old(self).item_catalog.spec_item(item.item_id).unwrap().name@, s + 1));
        self.inventory.set(s, Some(item));
        let ghost after_take = *self;
        assert(self.items_wf()) by {
            assert forall|i: int| 0 <= i < self.ground_items@.len() implies
                self.item_catalog.spec_item((#[trigger] self.ground_items@[i]).item.item_id) is Some by {
                if i < g { assert(self.ground_items@[i] == old(self).ground_items@[i]); }
                else { assert(self.ground_items@[i] == old(self).ground_items@[i + 1]); }
            }
        }
        self.recompute_visibility();
        self.advance_turn(true);
        self.push_event(message);
        CommandOutcome::Advanced
    }

    /// Use the item in inventory slot `slot` (numbered from one). Only a
    /// healing item used while wounded takes effect: it restores health up
    /// to the maximum, is consumed, closes item mode, and spends a turn.
    /// Anything else is refused silently and costs nothing.
    pub(crate) fn use_item_slot(&mut self, slot: u8) -> (r: CommandOutcome)
        requires
            old(self).wf(),
            old(self).turn < u64::MAX,
        ensures
            final(self).wf(),
            item_use_outcome(*old(self), *final(self), slot, r),
    {
        if slot < 1 || slot as usize > INVENTORY_SLOT_COUNT {
            return CommandOutcome::Rejected;
        }
        let index = (slot - 1) as usize;
        let item = match self.inventory[index] {
            Some(item) => item,
            None => {
                return CommandOutcome::Rejected;
            },
        };
        assert(self.items_wf());
        assert(self.inventory@[index as int] matches Some(it) ==> self.item_catalog.spec_item(it.item_id) is Some);
        let (amount, mut message) = match self.item_definition(item.item_id) {
            Some(d) => match d.effect {
                ItemEffect::Heal { amount } => {
                    if self.player.health < self.player.max_health {
                        let mut m = text("You drink the ");
                        m.append(d.name.as_str());
                        (amount, m)
                    } else {
                        return CommandOutcome::Rejected;
                    }
                },
                _ => {
                    return CommandOutcome::Rejected;
                },
            },
            None => {
                return CommandOutcome::Rejected;
            },
        };
        proof {
            super::items::lemma_valid_item(self.item_catalog, item.item_id);
        }
        let before = self.player.health;
        let wide = before as i64 + amount as i64;
        let healed: i32 = if wide > self.player.max_health as i64 { self.player.max_health } else { wide as i32 };
        self.player.health = healed;
        let restored = healed - before;
        self.inventory.set(index, None);
        self.using_item = false;
        self.recompute_visibility();
        self.advance_turn(true);
        message.append(" and restore ");
        push_decimal(&mut message, restored as i64);
        message.append(" health.");
        proof {
            reveal_strlit("You drink the ");
            reveal_strlit(" and restore ");
            reveal_strlit(" health.");
        }
        self.push_event(message);
        CommandOutcome::Advanced
    }

    /// Whether using inventory slot `slot` would take effect: the slot
    /// exists, holds a healing item, and the player is wounded.
    pub open spec fn heal_usable(&self, slot: u8) -> bool {
        &&& 1 <= slot <= INVENTORY_SLOT_COUNT
        &&& self.inventory@[slot - 1] matches Some(item)
        &&& self.item_catalog.spec_item(item.item_id) matches Some(d)
        &&& d.effect is Heal
        &&& self.player.health < self.player.max_health
    }
}

/// The ground items a placement lays on the first two shuffled spots: a
/// Grave Torch, then a Health Potion, numbered from `first`.
/// What item placement guarantees: at most a torch and then a potion, on
/// distinct floor tiles clear of the player, the exit and every hostile.
pub open spec fn placement_legal(g: ExplorationGame) -> bool {
    &&& g.ground_items@.len() <= 2
    &&& g.ground_items@.len() >= 1 ==> g.ground_items@[0].item.item_id == ItemId(1)
    &&& g.ground_items@.len() == 2 ==> g.ground_items@[1].item.item_id == ItemId(2)
        && g.ground_items@[0].position != g.ground_items@[1].position
    &&& forall|k: int| 0 <= k < g.ground_items@.len() ==> g.item_spot((#[trigger] g.ground_items@[k]).position)
}

/// The items a populated run starts with: a Grave Torch and then a Health
/// Potion on the first two spots of the shuffle, drawn on the map seed's
/// item stream, of the run's eligible spawn candidates.
pub open spec fn seeded_items(g: ExplorationGame) -> Seq<GroundItem> {
    placed_items(1, shuffled(g.map.seed.0 ^ ITEM_RNG_DOMAIN, 0, g.item_spots()).0)
}

/// Where items may go depends only on the map, the player's tile and the
/// hostiles.
pub proof fn lemma_item_spots_by_parts(a: ExplorationGame, b: ExplorationGame)
    requires
        a.map.tiles@ == b.map.tiles@,
        a.map.width == b.map.width,
        a.map.height == b.map.height,
        a.map.exit == b.map.exit,
        a.map.spawn_candidates@ == b.map.spawn_candidates@,
        a.player.position == b.player.position,
        a.hostiles@ == b.hostiles@,
    ensures
        a.item_spots() == b.item_spots(),
{
    let fa = |p: Position| a.item_spot(p);
    let fb = |p: Position| b.item_spot(p);
    assert forall|p: Position| #[trigger] fa(p) == fb(p) by {
        assert(a.map.tile_at(p) == b.map.tile_at(p));
        assert(a.item_spot(p) == b.item_spot(p));
    }
    assert(fa =~= fb);
    assert(a.item_spots() == a.map.spawn_candidates@.filter(fa));
    assert(b.item_spots() == b.map.spawn_candidates@.filter(fb));
}

/// Filtering a sequence without repeats leaves one without repeats.
pub proof fn lemma_filter_keeps_distinct(s: Seq<Position>, pred: spec_fn(Position) -> bool)
    requires
        s.no_duplicates(),
    ensures
        s.filter(pred).no_duplicates(),
    decreases s.len(),
{
    reveal(Seq::filter);
    if s.len() > 0 {
        let rest = s.drop_last();
        assert(rest.no_duplicates());
        lemma_filter_keeps_distinct(rest, pred);
        if pred(s.last()) {
            let kept = rest.filter(pred);
            if kept.contains(s.last()) {
                rest.lemma_filter_contains_rev(pred, s.last());
                let i = choose|i: int| 0 <= i < rest.len() && rest[i] == s.last();
                assert(s[i] == s[s.len() - 1]);
            }
            let f = kept.push(s.last());
            assert forall|i: int, j: int| 0 <= i < f.len() && 0 <= j < f.len() && i != j implies f[i] != f[j] by {
                if i == f.len() - 1 {
                    assert(f[j] == kept[j]);
                } else if j == f.len() - 1 {
                    assert(f[i] == kept[i]);
                }
            }
        }
    }
}

pub open spec fn placed_items(first: u32, perm: Seq<Position>) -> Seq<GroundItem> {
    let torch = GroundItem { item: ItemInstance { instance_id: ItemInstanceId(first), item_id: ItemId(1) }, position: perm[0] };
    let potion = GroundItem {
        item: ItemInstance { instance_id: ItemInstanceId((first + 1) as u32), item_id: ItemId(2) },
        position: perm[1],
    };
    if perm.len() == 0 {
        Seq::empty()
    } else if perm.len() == 1 {
        seq![torch]
    } else {
        seq![torch, potion]
    }
}

pub proof fn lemma_carried_prefix_extends(inventory: Seq<Option<ItemInstance>>, m: int, n: int)
    requires
        0 <= m <= n,
    ensures
        carried_prefix(inventory, n).len() >= carried_prefix(inventory, m).len(),
        forall|j: int| 0 <= j < carried_prefix(inventory, m).len()
            ==> carried_prefix(inventory, n)[j] == #[trigger] carried_prefix(inventory, m)[j],
    decreases n - m,
{
    if m < n {
        lemma_carried_prefix_extends(inventory, m, n - 1);
    }
}

} // verus!
