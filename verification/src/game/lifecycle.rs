//! Run construction, restart, and the free toggles around play.

use super::classes::lemma_valid_class;
use super::classes::builtin_catalog;
use super::inventory::{lemma_filter_keeps_distinct, lemma_item_spots_by_parts, placed_items, placement_legal, seeded_items};
use super::population::{POPULATION_RNG_DOMAIN, kind_for_index, lemma_shuffled_candidates, population_legal, populated, spawned_hostiles};
use super::items::builtin_items;
use super::run::{best_torch, vision_radius_of};
use super::{
    ItemId, initial_states, loadout_of, log_push, player_of_class, visible_region, ClassId, CommandOutcome, ExplorationGame,
    GameCatalog, GameError, ItemCatalog, Player, RunSeed, RunStatus, FIELD_OF_VIEW_RADIUS, INVENTORY_SLOT_COUNT,
};
use crate::rng::{drawn_usize, fresh_seed, shuffled};
use crate::text::text;
use crate::world::{
    default_config, generated, layout_of, DungeonGenerator, DungeonMap, GenerationError, PositionSet, Tile, GENERATOR_VERSION,
};
use vstd::prelude::*;

verus! {

/// What construction gives a run besides its map, class, seed and phase: an
/// empty bag, no foes yet, full resources, and one opening message.
pub open spec fn fresh_run(g: ExplorationGame, map: DungeonMap, fixed_seed: Option<RunSeed>, status: RunStatus,
    class_id: ClassId, catalog: GameCatalog) -> bool {
    let class = catalog.spec_class(class_id).unwrap();
    &&& g.map == map
    &&& g.player == player_of_class(map.player_start, class)
    &&& g.hostiles@.len() == 0
    &&& g.class_id == class_id
    &&& g.abilities@ == initial_states(loadout_of(class))
    &&& g.turn == 0
    &&& g.status == status
    &&& !g.help
    &&& g.targeting is None
    &&& g.inspecting is None
    &&& !g.using_item
    &&& (forall|i: int| 0 <= i < INVENTORY_SLOT_COUNT ==> #[trigger] g.inventory@[i] is None)
    &&& g.ground_items@.len() == 0
    &&& g.visible@ == visible_region(&map, map.player_start, FIELD_OF_VIEW_RADIUS as int)
    &&& g.explored@ == g.visible@
    &&& g.log() == seq!["The crypt waits in silence."@]
    &&& g.fixed_seed == fixed_seed
    &&& g.next_actor_id == 1
    &&& !g.enemy_turns_enabled
    &&& !g.debug_godmode_enabled
    &&& !g.godmode
    &&& !g.character_info
    &&& g.combat_roll_count == 0
    &&& g.next_item_instance_id == 1
    &&& g.catalog == catalog
    &&& builtin_items(g.item_catalog)
}

/// A populated run for `seed`: the map the default generator makes for the
/// seed, the class's player at its start, the seeded hostiles and items,
/// fresh resources, nothing open, only the start's surroundings seen, and
/// enemy turns switched on.
pub open spec fn populated_run(g: ExplorationGame, seed: RunSeed, fixed_seed: Option<RunSeed>, status: RunStatus,
    class_id: ClassId) -> bool {
    let class = g.catalog.spec_class(class_id).unwrap();
    &&& g.wf()
    &&& g.map.is_valid()
    &&& g.map.seed == seed
    &&& g.map.generator_version == GENERATOR_VERSION
    &&& g.map.width == default_config().width
    &&& g.map.height == default_config().height
    &&& generated(default_config(), seed) == Some(layout_of(g.map))
    &&& g.hostiles@ == spawned_hostiles(g.map)
    &&& g.ground_items@ == seeded_items(g)
    &&& !g.help
    &&& !g.character_info
    &&& g.visible@ == visible_region(&g.map, g.map.player_start, FIELD_OF_VIEW_RADIUS as int)
    &&& g.explored@ == g.visible@
    &&& g.player == player_of_class(g.map.player_start, class)
    &&& g.class_id == class_id
    &&& g.abilities@ == initial_states(loadout_of(class))
    &&& g.turn == 0
    &&& g.status == status
    &&& g.targeting is None
    &&& g.inspecting is None
    &&& !g.using_item
    &&& (forall|i: int| 0 <= i < INVENTORY_SLOT_COUNT ==> #[trigger] g.inventory@[i] is None)
    &&& g.fixed_seed == fixed_seed
    &&& g.enemy_turns_enabled
    &&& !g.godmode
    &&& g.combat_roll_count == 0
    &&& builtin_items(g.item_catalog)
    &&& g.next_actor_id == 1 + g.hostiles@.len()
    &&& population_legal(g)
    &&& placement_legal(g)
    &&& g.next_item_instance_id == 1 + g.ground_items@.len()
}

/// Seeded runs are reproducible: two populated runs for the same seed,
/// remembered seed, phase and class of one catalog have the same map
/// (dimensions, seed, version and layout), player, hostiles, items,
/// abilities, counters and field of view.
pub proof fn lemma_seeded_runs_agree(a: ExplorationGame, b: ExplorationGame, seed: RunSeed, fixed_seed: Option<RunSeed>,
    status: RunStatus, class_id: ClassId)
    requires
        populated_run(a, seed, fixed_seed, status, class_id),
        populated_run(b, seed, fixed_seed, status, class_id),
        a.catalog == b.catalog,
    ensures
        a.map.width == b.map.width && a.map.height == b.map.height,
        a.map.seed == b.map.seed && a.map.generator_version == b.map.generator_version,
        layout_of(a.map) == layout_of(b.map),
        a.player == b.player,
        a.hostiles@ == b.hostiles@,
        a.ground_items@ == b.ground_items@,
        a.abilities@ == b.abilities@,
        a.turn == b.turn && a.status == b.status && a.combat_roll_count == b.combat_roll_count,
        a.next_actor_id == b.next_actor_id && a.next_item_instance_id == b.next_item_instance_id,
        a.visible@ == b.visible@ && a.explored@ == b.explored@,
{
    assert(Some(layout_of(a.map)) == Some(layout_of(b.map)));
    assert(a.map.tiles@ == b.map.tiles@);
    assert(a.map.spawn_candidates@ == b.map.spawn_candidates@);
    assert(a.hostiles@ =~= b.hostiles@);
    lemma_item_spots_by_parts(a, b);
    assert forall|p: crate::world::Position| #[trigger] a.map.blocks_sight_at(p) == b.map.blocks_sight_at(p) by {
        assert(a.map.tile_at(p) == b.map.tile_at(p));
    }
    let from = a.map.player_start;
    assert forall|p: crate::world::Position| #[trigger] a.visible@.contains(p) == b.visible@.contains(p) by {
        assert forall|s: int| #[trigger] super::visibility::los_blocked_at(&a.map, from, p, s)
            == super::visibility::los_blocked_at(&b.map, from, p, s) by {
            let q = super::visibility::los_point(from, p, s);
            let r = super::visibility::los_previous(from, p, s);
            assert(a.map.blocks_sight_at(q) == b.map.blocks_sight_at(q));
            assert(a.map.blocks_sight_at(crate::world::Position { x: q.x, y: r.y })
                == b.map.blocks_sight_at(crate::world::Position { x: q.x, y: r.y }));
            assert(a.map.blocks_sight_at(crate::world::Position { x: r.x, y: q.y })
                == b.map.blocks_sight_at(crate::world::Position { x: r.x, y: q.y }));
        }
        let steps = super::visibility::los_steps(from, p);
        if super::visibility::line_of_sight(&a.map, from, p) && from != p {
            assert forall|s: int| 1 <= s <= steps implies !#[trigger] super::visibility::los_blocked_at(&b.map, from, p, s) by {
                assert(!super::visibility::los_blocked_at(&a.map, from, p, s));
            }
        }
        if super::visibility::line_of_sight(&b.map, from, p) && from != p {
            assert forall|s: int| 1 <= s <= steps implies !#[trigger] super::visibility::los_blocked_at(&a.map, from, p, s) by {
                assert(!super::visibility::los_blocked_at(&b.map, from, p, s));
            }
        }
        assert(super::visibility::line_of_sight(&a.map, from, p) == super::visibility::line_of_sight(&b.map, from, p));
    }
    assert(a.visible@ =~= b.visible@);
}

impl ExplorationGame {
    /// A run on `map` for `class_id` of `catalog`, before population.
    pub fn from_map(map: DungeonMap, fixed_seed: Option<RunSeed>, status: RunStatus, class_id: ClassId, catalog: GameCatalog)
        -> (r: Result<Self, GameError>)
        requires
            map.wf(),
            map.in_bounds(map.player_start),
            catalog.valid(),
        ensures
            r is Ok <==> catalog.spec_class(class_id) is Some,
            r matches Err(e) ==> e == GameError::UnknownClass(class_id),
            r matches Ok(g) ==> g.wf() && fresh_run(g, map, fixed_seed, status, class_id, catalog),
    {
        let abilities = match catalog.initial_ability_state(class_id) {
            Some(a) => a,
            None => {
                return Err(GameError::UnknownClass(class_id));
            },
        };
        let player = match catalog.class(class_id) {
            Some(class) => Player::from_class(map.player_start, class),
            None => {
                return Err(GameError::UnknownClass(class_id));
            },
        };
        proof {
            lemma_valid_class(catalog, class_id);
        }
        let width = map.width;
        let height = map.height;
        let mut events: Vec<String> = Vec::new();
        events.push(text("The crypt waits in silence."));
        let item_catalog = ItemCatalog::builtin();
        let mut game = ExplorationGame {
            map,
            player,
            hostiles: Vec::new(),
            class_id,
            abilities,
            turn: 0,
            status,
            help: false,
            targeting: None,
            inspecting: None,
            using_item: false,
            inventory: [None, None, None, None],
            ground_items: Vec::new(),
            visible: PositionSet::new(width, height),
            explored: PositionSet::new(width, height),
            events,
            fixed_seed,
            next_actor_id: 1,
            enemy_turns_enabled: false,
            debug_godmode_enabled: false,
            godmode: false,
            character_info: false,
            combat_roll_count: 0,
            next_item_instance_id: 1,
            catalog,
            item_catalog,
        };
        proof {
            reveal_with_fuel(best_torch, 5);
            assert(game.vision_radius() == FIELD_OF_VIEW_RADIUS);
            assert(game.log() =~= seq!["The crypt waits in silence."@]);
        }
        game.recompute_visibility();
        proof {
            assert(game.explored@ =~= game.visible@);
        }
        Ok(game)
    }

    /// Generate the map for `effective` and build a populated title-screen
    /// run for `class_id`.
    fn with_effective_seed_and_catalog(fixed_seed: Option<RunSeed>, effective: RunSeed, class_id: ClassId,
        catalog: GameCatalog) -> (r: Result<Self, GameError>)
        requires
            catalog.valid(),
        ensures
            r matches Ok(g) ==> catalog.spec_class(class_id) is Some
                && populated_run(g, effective, fixed_seed, RunStatus::Title, class_id) && g.catalog == catalog
                && g.log() == seq!["The crypt waits in silence."@] && !g.debug_godmode_enabled,
            catalog.spec_class(class_id) is None ==> r is Err,
            r matches Err(GameError::UnknownClass(c)) ==> c == class_id && catalog.spec_class(class_id) is None,
            r matches Err(GameError::Generation(e)) ==> e == (GenerationError::Exhausted { seed: effective, attempts: 32 }),
            !(r matches Err(GameError::InvalidCommand)),
            r matches Err(GameError::Generation(_)) <==> generated(default_config(), effective) is None,
            r is Ok <==> generated(default_config(), effective) is Some && catalog.spec_class(class_id) is Some,
    {
        let generator = DungeonGenerator::default();
        let map = match generator.generate(effective) {
            Ok(map) => map,
            Err(e) => {
                return Err(GameError::Generation(e));
            },
        };
        let mut game = match Self::from_map(map, fixed_seed, RunStatus::Title, class_id, catalog) {
            Ok(g) => g,
            Err(e) => {
                return Err(e);
            },
        };
        game.populate_run();
        Ok(game)
    }

    /// Place hostiles and items on a fresh run and switch enemy turns on.
    fn populate_run(&mut self)
        requires
            old(self).wf(),
            old(self).map.is_valid(),
            old(self).hostiles@.len() == 0,
            old(self).next_actor_id == 1,
            old(self).ground_items@.len() == 0,
            old(self).next_item_instance_id == 1,
            old(self).player.position == old(self).map.player_start,
            builtin_items(old(self).item_catalog),
        ensures
            final(self).wf(),
            population_legal(*final(self)),
            placement_legal(*final(self)),
            final(self).enemy_turns_enabled,
            final(self).next_actor_id == 1 + final(self).hostiles@.len(),
            final(self).hostiles@.len() <= 15,
            final(self).ground_items@.len() <= 2,
            final(self).next_item_instance_id == 1 + final(self).ground_items@.len(),
            final(self).hostiles@ == spawned_hostiles(old(self).map),
            final(self).ground_items@ == seeded_items(*final(self)),
            *final(self) == (ExplorationGame {
                hostiles: final(self).hostiles,
                next_actor_id: final(self).next_actor_id,
                ground_items: final(self).ground_items,
                next_item_instance_id: final(self).next_item_instance_id,
                enemy_turns_enabled: true,
                ..*old(self)
            }),
    {
        proof {
            assert forall|i: int| 0 <= i < self.map.spawn_candidates@.len() implies
                self.map.in_bounds(#[trigger] self.map.spawn_candidates@[i]) by {
                assert(self.map.tile_is(self.map.spawn_candidates@[i], Tile::Floor));
            }
        }
        let ghost before = *self;
        self.populate_enemies();
        proof {
            let cands = before.map.spawn_candidates@;
            let n = self.hostiles@.len() as int;
            let perm = choose|perm: Seq<crate::world::Position>| #[trigger] perm.to_multiset() == cands.to_multiset()
                && perm.len() == cands.len()
                && forall|k: int| 0 <= k < n ==> #[trigger] self.hostiles@[0 + k] == populated(1, k, perm[k]);
            assert(cands.no_duplicates());
            lemma_shuffled_candidates(cands, perm);
            assert forall|k: int| 0 <= k < n implies (#[trigger] self.hostiles@[k]).kind == kind_for_index(k)
                && self.map.tile_is(self.hostiles@[k].position, Tile::Floor)
                && self.hostiles@[k].position != self.player.position
                && self.hostiles@[k].position != self.map.exit by {
                assert(self.hostiles@[0 + k] == populated(1, k, perm[k]));
                assert(cands.contains(perm[k]));
                let i = choose|i: int| 0 <= i < cands.len() && cands[i] == perm[k];
                assert(self.map.tile_is(cands[i], Tile::Floor));
            }
            assert forall|i: int, j: int| 0 <= i < j < n implies
                (#[trigger] self.hostiles@[i]).position != (#[trigger] self.hostiles@[j]).position by {
                assert(self.hostiles@[0 + i] == populated(1, i, perm[i]));
                assert(self.hostiles@[0 + j] == populated(1, j, perm[j]));
            }
            assert(population_legal(*self));
            let spawned = spawned_hostiles(before.map);
            assert(self.hostiles@.len() == spawned.len());
            assert forall|k: int| 0 <= k < n implies self.hostiles@[k] == #[trigger] spawned[k] by {
                assert(self.hostiles@[0 + k] == populated(1, k, shuffled(before.map.seed.0 ^ POPULATION_RNG_DOMAIN,
                    drawn_usize(before.map.seed.0 ^ POPULATION_RNG_DOMAIN, 0, 8, 15).1, cands).0[k]));
            }
            assert(self.hostiles@ =~= spawned);
        }
        let ghost mid = *self;
        self.populate_items();
        proof {
            let perm = choose|perm: Seq<crate::world::Position>| #[trigger] perm.to_multiset() == mid.item_spots().to_multiset()
                && perm.len() == mid.item_spots().len()
                && self.ground_items@ == mid.ground_items@ + super::inventory::placed_items(mid.next_item_instance_id, perm);
            assert(self.ground_items@.len() <= 2);
            let spots = mid.item_spots();
            let pred = |p: crate::world::Position| mid.item_spot(p);
            assert(spots == mid.map.spawn_candidates@.filter(pred));
            lemma_filter_keeps_distinct(mid.map.spawn_candidates@, pred);
            lemma_shuffled_candidates(spots, perm);
            assert(mid.ground_items@.len() == 0);
            assert(self.ground_items@ == placed_items(1, perm));
            assert forall|k: int| 0 <= k < self.ground_items@.len() implies
                self.item_spot((#[trigger] self.ground_items@[k]).position) by {
                assert(self.ground_items@[k].position == perm[k]);
                assert(spots.contains(perm[k]));
                let i = choose|i: int| 0 <= i < spots.len() && spots[i] == perm[k];
                mid.map.spawn_candidates@.lemma_filter_pred(pred, i);
            }
            assert(placement_legal(*self));
            assert forall|i: int| 0 <= i < self.ground_items@.len() implies
                self.item_catalog.spec_item((#[trigger] self.ground_items@[i]).item.item_id) is Some by {
                    let defs = self.item_catalog.spec_definitions();
                assert(defs[0].id == ItemId(1));
                assert(defs[1].id == ItemId(2));
            }
        }
        let ghost items_placed = *self;
        self.enemy_turns_enabled = true;
        proof {
            lemma_item_spots_by_parts(*self, mid);
            assert(self.ground_items@ == seeded_items(*self));
        }
    }

    /// A populated title-screen run of the Grave Knight for `effective`,
    /// remembering `fixed_seed` for restarts.
    pub fn with_effective_seed_and_debug(fixed_seed: Option<RunSeed>, effective: RunSeed, debug_godmode_enabled: bool)
        -> (r: Result<Self, GenerationError>)
        ensures
            r matches Ok(g) ==> populated_run(g, effective, fixed_seed, RunStatus::Title, ClassId(1)) && builtin_catalog(g.catalog)
                && g.debug_godmode_enabled == debug_godmode_enabled
                && g.log() == seq!["The crypt waits in silence."@],
            r matches Err(e) ==> e == (GenerationError::Exhausted { seed: effective, attempts: 32 }),
            r is Ok <==> generated(default_config(), effective) is Some,
    {
        let catalog = GameCatalog::builtin();
        match Self::with_effective_seed_and_catalog(fixed_seed, effective, ClassId::grave_knight(), catalog) {
            Ok(mut game) => {
                let ghost before = game;
                game.debug_godmode_enabled = debug_godmode_enabled;
                proof {
                    lemma_item_spots_by_parts(game, before);
                }
                Ok(game)
            },
            Err(GameError::Generation(e)) => Err(e),
            Err(_) => {
                proof {
                    assert(catalog.spec_class(ClassId(1)) is Some);
                }
                Err(GenerationError::InvalidConfig)
            },
        }
    }

    /// A populated title-screen run of the Grave Knight for `effective`.
    pub fn with_effective_seed(fixed_seed: Option<RunSeed>, effective: RunSeed) -> (r: Result<Self, GenerationError>)
        ensures
            r matches Ok(g) ==> populated_run(g, effective, fixed_seed, RunStatus::Title, ClassId(1)) && builtin_catalog(g.catalog)
                && !g.debug_godmode_enabled && g.log() == seq!["The crypt waits in silence."@],
            r matches Err(e) ==> e == (GenerationError::Exhausted { seed: effective, attempts: 32 }),
            r is Ok <==> generated(default_config(), effective) is Some,
    {
        Self::with_effective_seed_and_debug(fixed_seed, effective, false)
    }

    /// A title-screen run from an explicit seed, or a fresh random one.
    pub fn new(seed: Option<RunSeed>) -> (r: Result<Self, GenerationError>)
        ensures
            r matches Ok(g) ==> (seed matches Some(s) ==> g.map.seed == s)
                && populated_run(g, g.map.seed, seed, RunStatus::Title, ClassId(1)) && builtin_catalog(g.catalog)
                && !g.debug_godmode_enabled && g.log() == seq!["The crypt waits in silence."@],
            r matches Err(e) ==> e is Exhausted && (seed matches Some(s) ==> e == (GenerationError::Exhausted { seed: s, attempts: 32 })),
            seed matches Some(s) ==> (r is Ok <==> generated(default_config(), s) is Some),
    {
        let effective = match seed {
            Some(s) => s,
            None => RunSeed(fresh_seed()),
        };
        Self::with_effective_seed(seed, effective)
    }

    /// A title-screen run of a built-in class.
    pub fn new_with_class(seed: Option<RunSeed>, class_id: ClassId) -> (r: Result<Self, GameError>)
        ensures
            r matches Ok(g) ==> (seed matches Some(s) ==> g.map.seed == s)
                && populated_run(g, g.map.seed, seed, RunStatus::Title, class_id) && builtin_catalog(g.catalog)
                && !g.debug_godmode_enabled && g.log() == seq!["The crypt waits in silence."@],
            class_id != ClassId(1) ==> r == Err::<Self, GameError>(GameError::UnknownClass(class_id)) || r matches Err(GameError::Generation(_)),
            r matches Err(GameError::UnknownClass(c)) ==> c == class_id && class_id != ClassId(1),
            !(r matches Err(GameError::InvalidCommand)),
            seed matches Some(s) ==> (r is Ok <==> generated(default_config(), s) is Some && class_id == ClassId(1)),
            seed matches Some(s) ==> (r matches Err(GameError::UnknownClass(_))
                <==> generated(default_config(), s) is Some && class_id != ClassId(1)),
    {
        Self::new_with_catalog(seed, class_id, GameCatalog::builtin())
    }

    /// A title-screen run of a class from a validated catalog.
    pub fn new_with_catalog(seed: Option<RunSeed>, class_id: ClassId, catalog: GameCatalog) -> (r: Result<Self, GameError>)
        requires
            catalog.valid(),
        ensures
            r matches Ok(g) ==> (seed matches Some(s) ==> g.map.seed == s) && catalog.spec_class(class_id) is Some
                && populated_run(g, g.map.seed, seed, RunStatus::Title, class_id) && g.catalog == catalog
                && !g.debug_godmode_enabled && g.log() == seq!["The crypt waits in silence."@],
            catalog.spec_class(class_id) is None ==> r is Err,
            r matches Err(GameError::UnknownClass(c)) ==> c == class_id && catalog.spec_class(class_id) is None,
            r matches Err(GameError::Generation(e)) ==> e is Exhausted
                && (seed matches Some(s) ==> e == (GenerationError::Exhausted { seed: s, attempts: 32 })),
            !(r matches Err(GameError::InvalidCommand)),
            seed matches Some(s) ==> (r is Ok <==> generated(default_config(), s) is Some && catalog.spec_class(class_id) is Some),
            seed matches Some(s) ==> (r matches Err(GameError::UnknownClass(_))
                <==> generated(default_config(), s) is Some && catalog.spec_class(class_id) is None),
    {
        let effective = match seed {
            Some(s) => s,
            None => RunSeed(fresh_seed()),
        };
        Self::with_effective_seed_and_catalog(seed, effective, class_id, catalog)
    }

    /// The seed the current map was generated from.
    pub fn seed(&self) -> (s: RunSeed)
        ensures
            s == self.map.seed,
    {
        self.map.seed
    }

    /// The dungeon generator version of this build.
    pub fn generator_version(&self) -> (v: u32)
        ensures
            v == GENERATOR_VERSION,
    {
        GENERATOR_VERSION
    }

    /// Leave the title screen; only a title-screen run changes.
    pub fn start(&mut self)
        requires
            old(self).events@.len() <= 5,
        ensures
            old(self).status == RunStatus::Title ==> *final(self) == (ExplorationGame {
                status: RunStatus::Active,
                events: final(self).events,
                ..*old(self)
            }) && final(self).log() == log_push(old(self).log(), "You descend into the ossuary."@),
            old(self).status != RunStatus::Title ==> *final(self) == *old(self),
            old(self).wf() ==> final(self).wf(),
    {
        if self.status == RunStatus::Title {
            self.status = RunStatus::Active;
            self.push_event(text("You descend into the ossuary."));
        }
    }

    /// Allow or forbid the debug godmode; forbidding it also switches it off.
    pub fn set_debug_godmode_enabled(&mut self, enabled: bool)
        ensures
            *final(self) == (ExplorationGame {
                debug_godmode_enabled: enabled,
                godmode: if enabled { old(self).godmode } else { false },
                ..*old(self)
            }),
    {
        self.debug_godmode_enabled = enabled;
        if !enabled {
            self.godmode = false;
        }
    }

    /// Flip godmode, when the debug switch allows it, and announce it.
    pub fn toggle_godmode(&mut self)
        requires
            old(self).events@.len() <= 5,
        ensures
            old(self).debug_godmode_enabled ==> *final(self) == (ExplorationGame {
                godmode: !old(self).godmode,
                events: final(self).events,
                ..*old(self)
            }) && final(self).log() == log_push(
                old(self).log(),
                if final(self).godmode { "GODMODE enabled."@ } else { "GODMODE disabled."@ },
            ),
            !old(self).debug_godmode_enabled ==> *final(self) == *old(self),
            old(self).wf() ==> final(self).wf(),
    {
        if self.debug_godmode_enabled {
            self.godmode = !self.godmode;
            if self.godmode {
                self.push_event(text("GODMODE enabled."));
            } else {
                self.push_event(text("GODMODE disabled."));
            }
        }
    }

    /// Show or hide the character sheet.
    pub fn toggle_character_info(&mut self)
        ensures
            *final(self) == (ExplorationGame { character_info: !old(self).character_info, ..*old(self) }),
    {
        self.character_info = !self.character_info;
    }

    /// Show or hide the help overlay.
    pub fn toggle_help(&mut self)
        ensures
            *final(self) == (ExplorationGame { help: !old(self).help, ..*old(self) }),
    {
        self.help = !self.help;
    }

    /// Restart as an active run: an explicitly seeded run regenerates its own
    /// seed, an unseeded one uses `fresh_seed`. Class and catalog carry over;
    /// everything else starts afresh. On a generation failure the run is
    /// left as it was.
    pub fn restart_with_seed(&mut self, fresh_seed: RunSeed) -> (r: Result<(), GenerationError>)
        requires
            old(self).wf(),
        ensures
            ({
                let effective = match old(self).fixed_seed {
                    Some(s) => s,
                    None => fresh_seed,
                };
                &&& r is Ok ==> populated_run(*final(self), effective, old(self).fixed_seed, RunStatus::Active,
                    old(self).class_id) && final(self).catalog == old(self).catalog
                    && final(self).debug_godmode_enabled == old(self).debug_godmode_enabled
                    && final(self).log().len() == 2
                    && final(self).log()[0] == "The crypt waits in silence."@
                    && final(self).log()[1] == "The dungeon reforms around you."@
                &&& r matches Err(e) ==> e == (GenerationError::Exhausted { seed: effective, attempts: 32 })
                    && *final(self) == *old(self)
                &&& r is Ok <==> generated(default_config(), effective) is Some
            }),
    {
        let effective = match self.fixed_seed {
            Some(s) => s,
            None => fresh_seed,
        };
        let generator = DungeonGenerator::default();
        let map = match generator.generate(effective) {
            Ok(map) => map,
            Err(e) => {
                return Err(e);
            },
        };
        let debug = self.debug_godmode_enabled;
        let mut catalog = GameCatalog::builtin();
        std::mem::swap(&mut catalog, &mut self.catalog);
        let replacement = Self::from_map(map, self.fixed_seed, RunStatus::Active, self.class_id, catalog);
        match replacement {
            Ok(mut game) => {
                game.populate_run();
                let ghost populated_game = game;
                game.debug_godmode_enabled = debug;
                *self = game;
                self.push_event(text("The dungeon reforms around you."));
                proof {
                    lemma_item_spots_by_parts(*self, populated_game);
                    assert(self.log() =~= seq!["The crypt waits in silence."@, "The dungeon reforms around you."@]);
                }
                Ok(())
            },
            Err(_) => {
                proof {
                    assert(false);
                }
                Err(GenerationError::InvalidConfig)
            },
        }
    }

    /// Restart with a fresh random seed unless the run was explicitly seeded.
    pub fn restart(&mut self) -> (r: Result<(), GenerationError>)
        requires
            old(self).wf(),
        ensures
            r is Ok ==> (old(self).fixed_seed matches Some(s) ==> final(self).map.seed == s)
                && populated_run(*final(self), final(self).map.seed, old(self).fixed_seed, RunStatus::Active,
                    old(self).class_id) && final(self).catalog == old(self).catalog
                && final(self).debug_godmode_enabled == old(self).debug_godmode_enabled,
            r matches Err(e) ==> e is Exhausted && *final(self) == *old(self),
            old(self).fixed_seed matches Some(s) ==> (r is Ok <==> generated(default_config(), s) is Some),
    {
        self.restart_with_seed(RunSeed(fresh_seed()))
    }
}

} // verus!
