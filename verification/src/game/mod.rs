//! Synchronous, deterministic game-domain state.

mod abilities;
mod ai;
mod classes;
mod combat;
mod engine;
mod inspection;
mod inventory;
mod items;
mod lifecycle;
mod movement;
mod pathing;
mod population;
mod run;
mod targeting;
mod visibility;

pub use abilities::{
    AbilityAvailability, AbilityDefinition, AbilityEffect, AbilityId, AbilitySlot, AbilityState, AbilityTargeting,
    ABILITY_SLOT_COUNT,
};
pub use classes::{AbilityBinding, CatalogError, ClassDefinition, ClassId, GameCatalog};
pub use classes::{initial_states, loadout_of};
pub use combat::{mitigated_damage, spread_damage, COMBAT_RNG_DOMAIN};
pub use engine::{applied, command_step, has_headroom};
pub use lifecycle::{fresh_run, populated_run};
pub use inventory::placement_legal;
pub use population::{lemma_population_has_every_kind, population_legal, MonsterDefinition};
pub use inspection::{
    telegraph_detail, telegraph_target_detail, tile_detail, EntityInspection, InspectState, Inspection, InspectionDetail,
    InspectionVisibility,
};
pub use targeting::{actor_at, actor_with_id, TargetValidity, TargetingState};
pub use visibility::{has_line_of_sight, line_of_sight};
pub use pathing::{can_step, first_step_to, is_shortest_route_to, lemma_first_step_unique};
pub use crate::world::RunSeed;
use crate::text::{push_decimal, text};
use crate::world::{
    cheb, distance_fits, shifted, walkable, DungeonGenerator, DungeonMap, GenerationError, Position, PositionSet,
    Tile, GENERATOR_VERSION,
};
use visibility::coords_small;
pub use items::{
    builtin_items, lemma_found_item_listed, GroundItem, ItemCatalog, ItemCatalogError, ItemDefinition, ItemEffect, ItemId, ItemInstance, ItemInstanceId,
    INVENTORY_SLOT_COUNT, POTION_HEAL, TORCH_VISION_RADIUS,
};

use vstd::prelude::*;

verus! {
/// Semantic commands the engine accepts.
#[derive(Clone, Copy, Debug, PartialEq, Eq, Structural)]
pub enum Command {
    Move(Direction),
    Wait,
    UseAbility(AbilitySlot),
    MoveCursor(Direction),
    CycleTarget { backwards: bool },
    ConfirmTarget,
    CancelMode,
    ToggleInspect,
    PickupItem,
    ToggleItemUse,
    UseItemSlot(u8),
}

/// Eight-direction movement independent of any keyboard representation.
#[derive(Clone, Copy, Debug, PartialEq, Eq, Structural)]
pub enum Direction {
    North,
    NorthEast,
    East,
    SouthEast,
    South,
    SouthWest,
    West,
    NorthWest,
}

/// The unit step of a direction.
pub open spec fn direction_delta(d: Direction) -> (int, int) {
    match d {
        Direction::North => (0, -1),
        Direction::NorthEast => (1, -1),
        Direction::East => (1, 0),
        Direction::SouthEast => (1, 1),
        Direction::South => (0, 1),
        Direction::SouthWest => (-1, 1),
        Direction::West => (-1, 0),
        Direction::NorthWest => (-1, -1),
    }
}

/// The position one step from `p` in direction `d`.
pub open spec fn step_from(p: Position, d: Direction) -> Position {
    shifted(p, direction_delta(d).0, direction_delta(d).1)
}

impl Direction {
    pub fn delta(self) -> (r: (i32, i32))
        ensures
            r.0 == direction_delta(self).0,
            r.1 == direction_delta(self).1,
    {
        match self {
            Direction::North => (0, -1),
            Direction::NorthEast => (1, -1),
            Direction::East => (1, 0),
            Direction::SouthEast => (1, 1),
            Direction::South => (0, 1),
            Direction::SouthWest => (-1, 1),
            Direction::West => (-1, 0),
            Direction::NorthWest => (-1, -1),
        }
    }

    /// The eight directions in clockwise order from north.
    pub fn all() -> (ds: [Direction; 8])
        ensures
            ds@ == seq![
                Direction::North, Direction::NorthEast, Direction::East, Direction::SouthEast,
                Direction::South, Direction::SouthWest, Direction::West, Direction::NorthWest
            ],
    {
        [
            Direction::North,
            Direction::NorthEast,
            Direction::East,
            Direction::SouthEast,
            Direction::South,
            Direction::SouthWest,
            Direction::West,
            Direction::NorthWest,
        ]
    }
}

/// Phase of a run.
#[derive(Clone, Copy, Debug, PartialEq, Eq, Structural)]
pub enum RunStatus {
    Title,
    Active,
    Victory,
    Death,
}

/// Whether a command consumed a turn.
#[derive(Clone, Copy, Debug, PartialEq, Eq, Structural)]
pub enum CommandOutcome {
    Advanced,
    Rejected,
}

/// Stable identifier of a hostile; the player inspects as id 0.
#[derive(Clone, Copy, Debug, PartialEq, Eq, Structural, Hash, PartialOrd, Ord)]
pub struct ActorId(pub u32);

/// Hostile species.
#[derive(Clone, Copy, Debug, PartialEq, Eq, Structural)]
pub enum ActorKind {
    Skeleton,
    Ghoul,
    Cultist,
}

/// A telegraphed attack aimed at a tile.
#[derive(Clone, Copy, Debug, PartialEq, Eq, Structural)]
pub enum Telegraph {
    GhoulLunge { target: Position },
    CultistHex { target: Position },
}

pub open spec fn telegraph_target(t: Telegraph) -> Position {
    match t {
        Telegraph::GhoulLunge { target } => target,
        Telegraph::CultistHex { target } => target,
    }
}

impl Telegraph {
    pub fn target(self) -> (p: Position)
        ensures
            p == telegraph_target(self),
    {
        match self {
            Telegraph::GhoulLunge { target } => target,
            Telegraph::CultistHex { target } => target,
        }
    }
}

/// Display name of a hostile species.
pub open spec fn kind_name(k: ActorKind) -> Seq<char> {
    match k {
        ActorKind::Skeleton => "Skeleton"@,
        ActorKind::Ghoul => "Ghoul"@,
        ActorKind::Cultist => "Cultist"@,
    }
}

impl ActorKind {
    pub fn name(self) -> (s: &'static str)
        ensures
            s@ == kind_name(self),
    {
        match self {
            ActorKind::Skeleton => "Skeleton",
            ActorKind::Ghoul => "Ghoul",
            ActorKind::Cultist => "Cultist",
        }
    }
}

/// The player's body and resources.
#[derive(Clone, Copy, Debug, PartialEq, Eq, Structural)]
pub struct Player {
    pub position: Position,
    pub health: i32,
    pub max_health: i32,
    pub mana: i32,
    pub max_mana: i32,
    pub armor: i32,
    pub damage: i32,
}

/// A hostile creature.
#[derive(Clone, Copy, Debug, PartialEq, Eq, Structural)]
pub struct Actor {
    pub id: ActorId,
    pub kind: ActorKind,
    pub position: Position,
    pub health: i32,
    pub max_health: i32,
    pub armor: i32,
    pub damage: i32,
    pub active: bool,
    pub telegraph: Option<Telegraph>,
}

/// A fresh player of a class standing at `position`.
pub open spec fn player_of_class(position: Position, class: ClassDefinition) -> Player {
    Player {
        position,
        health: class.max_health,
        max_health: class.max_health,
        mana: class.max_mana,
        max_mana: class.max_mana,
        armor: class.armor,
        damage: class.base_damage,
    }
}

impl Player {
    pub fn from_class(position: Position, class: &ClassDefinition) -> (p: Player)
        ensures
            p == player_of_class(position, *class),
    {
        Player {
            position,
            health: class.max_health,
            max_health: class.max_health,
            mana: class.max_mana,
            max_mana: class.max_mana,
            armor: class.armor,
            damage: class.base_damage,
        }
    }
}

/// Structured failures produced by game-domain validation.
#[derive(Clone, Debug, PartialEq, Eq)]
pub enum GameError {
    InvalidCommand,
    UnknownClass(ClassId),
    Generation(GenerationError),
}

/// The complete state of one run.
#[derive(Clone, Debug, PartialEq, Eq)]
pub struct ExplorationGame {
    pub map: DungeonMap,
    pub player: Player,
    pub hostiles: Vec<Actor>,
    pub class_id: ClassId,
    pub abilities: [Option<AbilityState>; ABILITY_SLOT_COUNT],
    pub turn: u64,
    pub status: RunStatus,
    pub help: bool,
    pub targeting: Option<TargetingState>,
    pub inspecting: Option<InspectState>,
    pub using_item: bool,
    pub inventory: [Option<ItemInstance>; INVENTORY_SLOT_COUNT],
    pub ground_items: Vec<GroundItem>,
    pub visible: PositionSet,
    pub explored: PositionSet,
    pub events: Vec<String>,
    pub fixed_seed: Option<RunSeed>,
    pub next_actor_id: u32,
    pub enemy_turns_enabled: bool,
    pub debug_godmode_enabled: bool,
    pub godmode: bool,
    pub character_info: bool,
    pub combat_roll_count: u64,
    pub next_item_instance_id: u32,
    pub catalog: GameCatalog,
    pub item_catalog: ItemCatalog,
}

/// The event log after appending `e`: at most five entries, oldest dropped.
pub open spec fn log_push(log: Seq<Seq<char>>, e: Seq<char>) -> Seq<Seq<char>> {
    if log.len() + 1 > 5 {
        log.push(e).drop_first()
    } else {
        log.push(e)
    }
}

/// Positions of `map` within `radius` of `from` and in its line of sight.
pub open spec fn visible_region(map: &DungeonMap, from: Position, radius: int) -> Set<Position> {
    Set::new(|p: Position| map.in_bounds(p) && cheb(from, p) <= radius && line_of_sight(map, from, p))
}

/// A hostile whose state the engine can act on safely.
pub open spec fn actor_ok(map: &DungeonMap, a: Actor) -> bool {
    &&& map.in_bounds(a.position)
    &&& a.health > 0
    &&& a.armor >= 0
    &&& (a.telegraph matches Some(t) ==> map.in_bounds(telegraph_target(t)))
}

impl ExplorationGame {
    /// The event log as text.
    pub open spec fn log(&self) -> Seq<Seq<char>> {
        self.events@.map_values(|e: String| e@)
    }

    /// Everything but the interaction modes and the message log equals
    /// `other`: what a refused command may change.
    pub open spec fn same_play(&self, other: ExplorationGame) -> bool {
        *self == ExplorationGame {
            targeting: self.targeting,
            inspecting: self.inspecting,
            using_item: self.using_item,
            events: self.events,
            ..other
        }
    }

    /// The class definition of the run.
    pub open spec fn spec_class_def(&self) -> ClassDefinition {
        self.catalog.spec_class(self.class_id).unwrap()
    }

    /// Hostiles are on the map, alive, unarmored or armored, and uniquely numbered.
    pub open spec fn hostiles_wf(&self) -> bool {
        &&& forall|i: int| 0 <= i < self.hostiles@.len() ==> actor_ok(&self.map, #[trigger] self.hostiles@[i])
        &&& forall|i: int| 0 <= i < self.hostiles@.len() ==> (#[trigger] self.hostiles@[i]).id.0 < self.next_actor_id
        &&& forall|i: int, j: int|
            0 <= i < j < self.hostiles@.len() ==> (#[trigger] self.hostiles@[i]).id != (#[trigger] self.hostiles@[j]).id
    }

    /// Every carried or placed item refers to a catalog definition.
    pub open spec fn items_wf(&self) -> bool {
        &&& forall|i: int|
            0 <= i < INVENTORY_SLOT_COUNT ==> (#[trigger] self.inventory@[i] matches Some(item)
                ==> self.item_catalog.spec_item(item.item_id) is Some)
        &&& forall|i: int|
            0 <= i < self.ground_items@.len() ==> self.item_catalog.spec_item((#[trigger] self.ground_items@[i]).item.item_id) is Some
    }

    /// The run's structural invariant.
    pub open spec fn wf(&self) -> bool {
        &&& self.map.wf()
        &&& self.map.in_bounds(self.player.position)
        &&& self.visible.wf()
        &&& self.visible.width == self.map.width
        &&& self.visible.height == self.map.height
        &&& self.explored.wf()
        &&& self.explored.width == self.map.width
        &&& self.explored.height == self.map.height
        &&& self.catalog.valid()
        &&& self.catalog.spec_class(self.class_id) is Some
        &&& self.item_catalog.valid()
        &&& 0 <= self.player.health <= self.player.max_health
        &&& self.player.max_health >= 1
        &&& 0 <= self.player.mana <= self.player.max_mana
        &&& self.player.armor >= 0
        &&& self.hostiles_wf()
        &&& self.items_wf()
        &&& self.events@.len() <= 5
        &&& (self.targeting matches Some(t) ==> {
            &&& self.map.in_bounds(t.cursor)
            &&& 1 <= t.ability_slot.spec_number() <= ABILITY_SLOT_COUNT
            &&& self.abilities@[t.ability_slot.spec_number() - 1] is Some
            &&& self.catalog.spec_ability(self.abilities@[t.ability_slot.spec_number() - 1].unwrap().ability_id) is Some
        })
        &&& (self.inspecting matches Some(s) ==> self.map.in_bounds(s.cursor))
    }
}



/// Sight radius without a light source.
pub const FIELD_OF_VIEW_RADIUS: i32 = 8;
/// Starting health of the Grave Knight.
pub const PLAYER_MAX_HEALTH: i32 = 32;
/// Armor of the Grave Knight.
pub const PLAYER_ARMOR: i32 = 2;
/// Base weapon damage of the Grave Knight.
pub const PLAYER_DAMAGE: i32 = 6;
/// Turns Cleave needs to recover.
pub const CLEAVE_COOLDOWN_TURNS: u8 = 4;

} // verus!
