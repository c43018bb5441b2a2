//! Fog-aware, read-only inspection facts for presentation adapters.

use super::population::kind_description;
use super::targeting::{entry_lt, insert_sorted};
use super::{kind_name, telegraph_target, ActorId, ActorKind, ExplorationGame, GroundItem, ItemInstance, Telegraph, INVENTORY_SLOT_COUNT};
use crate::text::text;
use crate::world::{tile_description, tile_name, Position, Tile};
use vstd::prelude::*;

verus! {

/// The modal state of the inspection cursor.
#[derive(Clone, Copy, Debug, PartialEq, Eq, Structural)]
pub struct InspectState {
    pub cursor: Position,
}

/// How much the player knows about an inspected tile.
#[derive(Clone, Copy, Debug, PartialEq, Eq, Structural)]
pub enum InspectionVisibility {
    Unknown,
    Remembered,
    Visible,
}

/// A named fact with a description.
#[derive(Clone, Debug, PartialEq, Eq)]
pub struct InspectionDetail {
    pub name: String,
    pub description: String,
}

/// What the player can see of a creature.
#[derive(Clone, Debug, PartialEq, Eq)]
pub struct EntityInspection {
    pub actor_id: ActorId,
    pub name: String,
    pub description: String,
    pub health: i32,
    pub max_health: i32,
    pub armor: i32,
    pub active: bool,
}

/// Everything the player knows about one tile.
#[derive(Clone, Debug, PartialEq, Eq)]
pub struct Inspection {
    pub position: Position,
    pub visibility: InspectionVisibility,
    pub terrain: Option<InspectionDetail>,
    pub entities: Vec<EntityInspection>,
    pub markers: Vec<InspectionDetail>,
    pub items: Vec<InspectionDetail>,
    pub carried_items: Vec<InspectionDetail>,
}

/// The text of a detail.
pub open spec fn detail_view(d: InspectionDetail) -> (Seq<char>, Seq<char>) {
    (d.name@, d.description@)
}

/// The facts of an entity entry.
pub open spec fn entity_view(e: EntityInspection) -> (ActorId, Seq<char>, Seq<char>, i32, i32, i32, bool) {
    (e.actor_id, e.name@, e.description@, e.health, e.max_health, e.armor, e.active)
}

/// The marker a telegraph shows on the hostile making it.
pub open spec fn telegraph_marker(t: Telegraph) -> (Seq<char>, Seq<char>) {
    match t {
        Telegraph::GhoulLunge { .. } => ("Ghoul Lunge"@, "The ghoul gathers itself to cross the marked ground."@),
        Telegraph::CultistHex { .. } => ("Cultist Hex"@, "A death-hex coils toward its chosen tile."@),
    }
}

/// The marker a telegraph shows on the tile it targets.
pub open spec fn target_marker(t: Telegraph) -> (Seq<char>, Seq<char>) {
    match t {
        Telegraph::GhoulLunge { .. } => ("Targeted by Ghoul Lunge"@, "A ravenous trajectory converges upon this ground."@),
        Telegraph::CultistHex { .. } => ("Targeted by Cultist Hex"@, "A grave-priest's death-hex is fixed upon this ground."@),
    }
}

/// Telegraph markers at `p` from the first `n` hostiles, in hostile order:
/// each hostile standing at `p` shows its own telegraph, and each telegraph
/// aimed at `p` shows as a target.
pub open spec fn markers_upto(hostiles: Seq<super::Actor>, p: Position, n: int) -> Seq<(Seq<char>, Seq<char>)>
    decreases n,
{
    if n <= 0 {
        Seq::empty()
    } else {
        let a = hostiles[n - 1];
        let prev = markers_upto(hostiles, p, n - 1);
        let own = match a.telegraph {
            Some(t) => if a.position == p { prev.push(telegraph_marker(t)) } else { prev },
            None => prev,
        };
        match a.telegraph {
            Some(t) => if telegraph_target(t) == p { own.push(target_marker(t)) } else { own },
            None => own,
        }
    }
}

impl ExplorationGame {
    /// Definitions of the items among the first `n` ground items lying at
    /// `p`, in placement order.
    pub open spec fn ground_details(&self, p: Position, n: int) -> Seq<(Seq<char>, Seq<char>)>
        decreases n,
    {
        if n <= 0 {
            Seq::empty()
        } else {
            let g = self.ground_items@[n - 1];
            let prev = self.ground_details(p, n - 1);
            if g.position == p && self.item_catalog.spec_item(g.item.item_id) is Some {
                let d = self.item_catalog.spec_item(g.item.item_id).unwrap();
                prev.push((d.name@, d.description@))
            } else {
                prev
            }
        }
    }

    /// Definitions of the items in the first `n` inventory slots, each named
    /// as carried.
    pub open spec fn carried_details(&self, n: int) -> Seq<(Seq<char>, Seq<char>)>
        decreases n,
    {
        if n <= 0 {
            Seq::empty()
        } else {
            let prev = self.carried_details(n - 1);
            match self.inventory@[n - 1] {
                Some(item) => match self.item_catalog.spec_item(item.item_id) {
                    Some(d) => prev.push(("Carried: "@ + d.name@, d.description@)),
                    None => prev,
                },
                None => prev,
            }
        }
    }

    /// The facts an inspection of `p` lists for the hostiles there, ordered
    /// by id.
    pub open spec fn hostile_entries(&self, p: Position, order: Seq<ActorId>) -> Seq<(ActorId, Seq<char>, Seq<char>, i32, i32, i32, bool)> {
        order.map_values(|id: ActorId| {
            let a = self.spec_hostile(id).unwrap();
            (a.id, kind_name(a.kind), kind_description(a.kind), a.health, a.max_health, a.armor, a.active)
        })
    }

    /// `order` lists by id the hostiles standing at `p`.
    pub open spec fn ids_at(&self, p: Position, order: Seq<ActorId>) -> bool {
        &&& forall|i: int, k: int| 0 <= i < k < order.len() ==> (#[trigger] order[i]).0 < (#[trigger] order[k]).0
        &&& forall|id: ActorId| order.contains(id) <==> exists|j: int| 0 <= j < self.hostiles@.len()
            && #[trigger] self.hostiles@[j].id == id && self.hostiles@[j].position == p
    }

    /// The player's own entry, when inspecting the player's tile.
    pub open spec fn player_entry(&self) -> (ActorId, Seq<char>, Seq<char>, i32, i32, i32, bool) {
        let c = self.spec_class_def();
        (ActorId(0), c.name@, c.description@, self.player.health, self.player.max_health, self.player.armor, true)
    }

    /// What the player knows about the tile at `position`: nothing when
    /// unexplored; its terrain when only remembered; when in view also the
    /// player (if there), the hostiles by id, telegraph markers, items on
    /// the floor and (on the player's tile) the carried items.
    pub fn inspect(&self, position: Position) -> (r: Inspection)
        requires
            self.wf(),
        ensures
            r.position == position,
            r.visibility == if !self.explored@.contains(position) {
                InspectionVisibility::Unknown
            } else if !self.visible@.contains(position) {
                InspectionVisibility::Remembered
            } else {
                InspectionVisibility::Visible
            },
            !self.explored@.contains(position) ==> r.terrain is None,
            self.explored@.contains(position) ==> match self.map.tile_at(position) {
                Some(t) => r.terrain matches Some(d) && detail_view(d) == (tile_name(t), tile_description(t)),
                None => r.terrain is None,
            },
            r.visibility != InspectionVisibility::Visible ==> r.entities@.len() == 0 && r.markers@.len() == 0
                && r.items@.len() == 0 && r.carried_items@.len() == 0,
            r.visibility == InspectionVisibility::Visible ==> {
                &&& exists|order: Seq<ActorId>| #[trigger] self.ids_at(position, order)
                    && r.entities@.map_values(|e: EntityInspection| entity_view(e)) == if position == self.player.position {
                        seq![self.player_entry()] + self.hostile_entries(position, order)
                    } else {
                        self.hostile_entries(position, order)
                    }
                &&& r.markers@.map_values(|d: InspectionDetail| detail_view(d)) == markers_upto(self.hostiles@, position, self.hostiles@.len() as int)
                &&& r.items@.map_values(|d: InspectionDetail| detail_view(d)) == self.ground_details(position, self.ground_items@.len() as int)
                &&& r.carried_items@.map_values(|d: InspectionDetail| detail_view(d)) == if position == self.player.position {
                    self.carried_details(INVENTORY_SLOT_COUNT as int)
                } else {
                    Seq::empty()
                }
            },
    {
        if !self.is_explored(position) {
            return Inspection {
                position,
                visibility: InspectionVisibility::Unknown,
                terrain: None,
                entities: Vec::new(),
                markers: Vec::new(),
                items: Vec::new(),
                carried_items: Vec::new(),
            };
        }
        let terrain = match self.map.tile(position) {
            Some(t) => Some(tile_detail(t)),
            None => None,
        };
        if !self.is_visible(position) {
            return Inspection {
                position,
                visibility: InspectionVisibility::Remembered,
                terrain,
                entities: Vec::new(),
                markers: Vec::new(),
                items: Vec::new(),
                carried_items: Vec::new(),
            };
        }
        let entities = self.entities_at(position);
        let markers = self.markers_at(position);
        let items = self.items_at(position);
        let carried_items = if position == self.player.position {
            self.carried_at()
        } else {
            let v: Vec<InspectionDetail> = Vec::new();
            assert(v@.map_values(|d: InspectionDetail| detail_view(d)) =~= Seq::empty());
            v
        };
        Inspection { position, visibility: InspectionVisibility::Visible, terrain, entities, markers, items, carried_items }
    }

    fn entities_at(&self, position: Position) -> (v: Vec<EntityInspection>)
        requires
            self.wf(),
        ensures
            exists|order: Seq<ActorId>| #[trigger] self.ids_at(position, order)
                && v@.map_values(|e: EntityInspection| entity_view(e)) == if position == self.player.position {
                    seq![self.player_entry()] + self.hostile_entries(position, order)
                } else {
                    self.hostile_entries(position, order)
                },
    {
        let mut v: Vec<EntityInspection> = Vec::new();
        if position == self.player.position {
            let class = self.class_definition();
            v.push(EntityInspection {
                actor_id: ActorId(0),
                name: class.name.clone(),
                description: class.description.clone(),
                health: self.player.health,
                max_health: self.player.max_health,
                armor: self.player.armor,
                active: true,
            });
        }
        let ghost prefix = v@.map_values(|e: EntityInspection| entity_view(e));
        proof {
            assert(prefix =~= if position == self.player.position { seq![self.player_entry()] } else { Seq::empty() });
        }
        let order = self.ids_standing_at(position);
        let mut k: usize = 0;
        while k < order.len()
            invariant
                self.wf(),
                self.ids_at(position, order@),
                k <= order@.len(),
                v@.map_values(|e: EntityInspection| entity_view(e)) == prefix + self.hostile_entries(position, order@).subrange(0, k as int),
            decreases order@.len() - k,
        {
            let id = order[k];
            proof {
                assert(order@.contains(id));
            }
            let index = self.hostile_index(id).unwrap();
            let a = self.hostiles[index];
            let ghost before = v@.map_values(|e: EntityInspection| entity_view(e));
            v.push(EntityInspection {
                actor_id: a.id,
                name: text(a.kind.name()),
                description: text(a.kind.description()),
                health: a.health,
                max_health: a.max_health,
                armor: a.armor,
                active: a.active,
            });
            proof {
                assert(v@.map_values(|e: EntityInspection| entity_view(e)) =~= before.push(self.hostile_entries(position, order@)[k as int]));
                assert(self.hostile_entries(position, order@).subrange(0, k as int + 1)
                    =~= self.hostile_entries(position, order@).subrange(0, k as int).push(self.hostile_entries(position, order@)[k as int]));
            }
            k = k + 1;
        }
        proof {
            assert(self.hostile_entries(position, order@).subrange(0, order@.len() as int) =~= self.hostile_entries(position, order@));
        }
        v
    }

    /// Ids of the hostiles standing at `position`, in increasing order.
    fn ids_standing_at(&self, position: Position) -> (ids: Vec<ActorId>)
        requires
            self.wf(),
        ensures
            self.ids_at(position, ids@),
    {
        let mut entries: Vec<(i32, u32)> = Vec::new();
        let mut j: usize = 0;
        while j < self.hostiles.len()
            invariant
                self.wf(),
                j <= self.hostiles@.len(),
                forall|a: int, b: int| 0 <= a < b < entries@.len() ==> entry_lt(#[trigger] entries@[a], #[trigger] entries@[b]),
                forall|e: (i32, u32)| #[trigger] entries@.contains(e) <==> exists|k: int| 0 <= k < j
                    && (#[trigger] self.hostiles@[k]).position == position && e == (0i32, self.hostiles@[k].id.0),
            decreases self.hostiles@.len() - j,
        {
            let a = self.hostiles[j];
            if a.position == position {
                let e = (0i32, a.id.0);
                proof {
                    assert forall|x: (i32, u32)| #[trigger] entries@.contains(x) implies x.1 != e.1 by {
                        let k = choose|k: int| 0 <= k < j && (#[trigger] self.hostiles@[k]).position == position
                            && x == (0i32, self.hostiles@[k].id.0);
                        assert(self.hostiles@[k].id != self.hostiles@[j as int].id);
                    }
                }
                insert_sorted(&mut entries, e);
            }
            proof {
                assert forall|x: (i32, u32)| #[trigger] entries@.contains(x) <== exists|k: int| 0 <= k < j + 1
                    && (#[trigger] self.hostiles@[k]).position == position && x == (0i32, self.hostiles@[k].id.0) by {
                    if exists|k: int| 0 <= k < j + 1 && (#[trigger] self.hostiles@[k]).position == position
                        && x == (0i32, self.hostiles@[k].id.0) {
                        let k = choose|k: int| 0 <= k < j + 1 && (#[trigger] self.hostiles@[k]).position == position
                            && x == (0i32, self.hostiles@[k].id.0);
                        if k < j {
                            assert(exists|k2: int| 0 <= k2 < j && (#[trigger] self.hostiles@[k2]).position == position
                                && x == (0i32, self.hostiles@[k2].id.0));
                        }
                    }
                }
            }
            j = j + 1;
        }
        let mut ids: Vec<ActorId> = Vec::new();
        let mut i: usize = 0;
        while i < entries.len()
            invariant
                i <= entries@.len(),
                ids@.len() == i,
                forall|k: int| 0 <= k < i ==> #[trigger] ids@[k] == ActorId(entries@[k].1),
            decreases entries@.len() - i,
        {
            ids.push(ActorId(entries[i].1));
            i = i + 1;
        }
        proof {
            assert forall|a: int, b: int| 0 <= a < b < ids@.len() implies (#[trigger] ids@[a]).0 < (#[trigger] ids@[b]).0 by {
                assert(entry_lt(entries@[a], entries@[b]));
                assert(entries@.contains(entries@[a]));
                assert(entries@.contains(entries@[b]));
            }
            assert forall|id: ActorId| ids@.contains(id) <==> exists|j: int| 0 <= j < self.hostiles@.len()
                && #[trigger] self.hostiles@[j].id == id && self.hostiles@[j].position == position by {
                if ids@.contains(id) {
                    let k = choose|k: int| 0 <= k < ids@.len() && ids@[k] == id;
                    assert(entries@.contains(entries@[k]));
                }
                if exists|j: int| 0 <= j < self.hostiles@.len() && #[trigger] self.hostiles@[j].id == id && self.hostiles@[j].position == position {
                    let j = choose|j: int| 0 <= j < self.hostiles@.len() && #[trigger] self.hostiles@[j].id == id && self.hostiles@[j].position == position;
                    let e = (0i32, id.0);
                    assert(entries@.contains(e));
                    let k = choose|k: int| 0 <= k < entries@.len() && entries@[k] == e;
                    assert(ids@[k] == id);
                }
            }
        }
        ids
    }

    fn markers_at(&self, position: Position) -> (v: Vec<InspectionDetail>)
        ensures
            v@.map_values(|d: InspectionDetail| detail_view(d)) == markers_upto(self.hostiles@, position, self.hostiles@.len() as int),
    {
        let mut v: Vec<InspectionDetail> = Vec::new();
        let mut j: usize = 0;
        while j < self.hostiles.len()
            invariant
                j <= self.hostiles@.len(),
                v@.map_values(|d: InspectionDetail| detail_view(d)) == markers_upto(self.hostiles@, position, j as int),
            decreases self.hostiles@.len() - j,
        {
            let a = self.hostiles[j];
            let ghost before = v@.map_values(|d: InspectionDetail| detail_view(d));
            match a.telegraph {
                Some(t) => {
                    if a.position == position {
                        let d = telegraph_detail(t);
                        let ghost mid = v@.map_values(|d: InspectionDetail| detail_view(d));
                        v.push(d);
                        assert(v@.map_values(|d: InspectionDetail| detail_view(d)) =~= mid.push(telegraph_marker(t)));
                    }
                    if t.target() == position {
                        let d = telegraph_target_detail(t);
                        let ghost mid = v@.map_values(|d: InspectionDetail| detail_view(d));
                        v.push(d);
                        assert(v@.map_values(|d: InspectionDetail| detail_view(d)) =~= mid.push(target_marker(t)));
                    }
                },
                None => {},
            }
            j = j + 1;
        }
        v
    }

    fn items_at(&self, position: Position) -> (v: Vec<InspectionDetail>)
        ensures
            v@.map_values(|d: InspectionDetail| detail_view(d)) == self.ground_details(position, self.ground_items@.len() as int),
    {
        let mut v: Vec<InspectionDetail> = Vec::new();
        let mut j: usize = 0;
        while j < self.ground_items.len()
            invariant
                j <= self.ground_items@.len(),
                v@.map_values(|d: InspectionDetail| detail_view(d)) == self.ground_details(position, j as int),
            decreases self.ground_items@.len() - j,
        {
            let g = self.ground_items[j];
            if g.position == position {
                match self.item_definition(g.item.item_id) {
                    Some(d) => {
                        let ghost mid = v@.map_values(|d: InspectionDetail| detail_view(d));
                        v.push(InspectionDetail { name: d.name.clone(), description: d.description.clone() });
                        assert(v@.map_values(|d: InspectionDetail| detail_view(d)) =~= mid.push((d.name@, d.description@)));
                    },
                    None => {},
                }
            }
            j = j + 1;
        }
        v
    }

    fn carried_at(&self) -> (v: Vec<InspectionDetail>)
        ensures
            v@.map_values(|d: InspectionDetail| detail_view(d)) == self.carried_details(INVENTORY_SLOT_COUNT as int),
    {
        let mut v: Vec<InspectionDetail> = Vec::new();
        let mut j: usize = 0;
        while j < INVENTORY_SLOT_COUNT
            invariant
                j <= INVENTORY_SLOT_COUNT,
                v@.map_values(|d: InspectionDetail| detail_view(d)) == self.carried_details(j as int),
            decreases INVENTORY_SLOT_COUNT - j,
        {
            match self.inventory[j] {
                Some(item) => match self.item_definition(item.item_id) {
                    Some(d) => {
                        let mut name = text("Carried: ");
                        name.append(d.name.as_str());
                        proof {
                            reveal_strlit("Carried: ");
                        }
                        let ghost mid = v@.map_values(|d: InspectionDetail| detail_view(d));
                        v.push(InspectionDetail { name, description: d.description.clone() });
                        assert(v@.map_values(|d: InspectionDetail| detail_view(d)) =~= mid.push(("Carried: "@ + d.name@, d.description@)));
                    },
                    None => {},
                },
                None => {},
            }
            j = j + 1;
        }
        v
    }
}

/// The name and description of a terrain tile.
pub fn tile_detail(tile: Tile) -> (d: InspectionDetail)
    ensures
        detail_view(d) == (tile_name(tile), tile_description(tile)),
{
    let definition = tile.definition();
    InspectionDetail { name: text(definition.name), description: text(definition.description) }
}

/// The name and description of a telegraphed attack at its origin.
pub fn telegraph_detail(telegraph: Telegraph) -> (d: InspectionDetail)
    ensures
        detail_view(d) == telegraph_marker(telegraph),
{
    match telegraph {
        Telegraph::GhoulLunge { .. } => InspectionDetail {
            name: text("Ghoul Lunge"),
            description: text("The ghoul gathers itself to cross the marked ground."),
        },
        Telegraph::CultistHex { .. } => InspectionDetail {
            name: text("Cultist Hex"),
            description: text("A death-hex coils toward its chosen tile."),
        },
    }
}

/// The name and description of the tile a telegraphed attack targets.
pub fn telegraph_target_detail(telegraph: Telegraph) -> (d: InspectionDetail)
    ensures
        detail_view(d) == target_marker(telegraph),
{
    match telegraph {
        Telegraph::GhoulLunge { .. } => InspectionDetail {
            name: text("Targeted by Ghoul Lunge"),
            description: text("A ravenous trajectory converges upon this ground."),
        },
        Telegraph::CultistHex { .. } => InspectionDetail {
            name: text("Targeted by Cultist Hex"),
            description: text("A grave-priest's death-hex is fixed upon this ground."),
        },
    }
}

} // verus!
