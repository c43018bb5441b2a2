//! Stable actor allocation and deterministic floor population.

use super::{Actor, ActorId, ActorKind, ExplorationGame, kind_name};
use crate::rng::{draw_usize, drawn_usize, shuffle_positions, shuffled};
use crate::world::{DungeonMap, Position, Tile};
use vstd::prelude::*;

verus! {

/// Domain separator of the population stream within a run's seed.
pub const POPULATION_RNG_DOMAIN: u64 = 0x000A_11CE_5EED_DA7A;

/// Static statistics and presentation of a hostile species.
#[derive(Clone, Copy, Debug, PartialEq, Eq)]
pub struct MonsterDefinition {
    pub kind: ActorKind,
    pub name: &'static str,
    pub description: &'static str,
    pub glyph: char,
    pub health: i32,
    pub armor: i32,
    pub damage: i32,
    pub population_order: u8,
}

/// Flavor text of a hostile species.
pub open spec fn kind_description(k: ActorKind) -> Seq<char> {
    match k {
        ActorKind::Skeleton => "A restless soldier held together by old malice."@,
        ActorKind::Ghoul => "A ravenous corpse poised to lunge."@,
        ActorKind::Cultist => "A grave-priest weaving distant hexes."@,
    }
}

/// Map glyph of a hostile species.
pub open spec fn kind_glyph(k: ActorKind) -> char {
    match k {
        ActorKind::Skeleton => 's',
        ActorKind::Ghoul => 'g',
        ActorKind::Cultist => 'c',
    }
}

/// Starting health of a hostile species.
pub open spec fn kind_health(k: ActorKind) -> i32 {
    match k {
        ActorKind::Skeleton => 10,
        ActorKind::Ghoul => 14,
        ActorKind::Cultist => 9,
    }
}

/// Armor of a hostile species.
pub open spec fn kind_armor(k: ActorKind) -> i32 {
    match k {
        ActorKind::Skeleton => 1,
        ActorKind::Ghoul => 0,
        ActorKind::Cultist => 0,
    }
}

/// Melee or spell damage of a hostile species.
pub open spec fn kind_damage(k: ActorKind) -> i32 {
    match k {
        ActorKind::Skeleton => 5,
        ActorKind::Ghoul => 7,
        ActorKind::Cultist => 6,
    }
}

/// Place of a species in the population rotation.
pub open spec fn kind_order(k: ActorKind) -> u8 {
    match k {
        ActorKind::Skeleton => 0,
        ActorKind::Ghoul => 1,
        ActorKind::Cultist => 2,
    }
}

/// The species of the `index`th spawned hostile: skeleton, ghoul, cultist, repeating.
pub open spec fn kind_for_index(index: int) -> ActorKind {
    if index % 3 == 0 {
        ActorKind::Skeleton
    } else if index % 3 == 1 {
        ActorKind::Ghoul
    } else {
        ActorKind::Cultist
    }
}

/// A freshly spawned, dormant hostile.
pub open spec fn spawned(id: ActorId, kind: ActorKind, position: Position, health: i32, armor: i32, damage: i32) -> Actor {
    Actor { id, kind, position, health, max_health: health, armor, damage, active: false, telegraph: None }
}

/// The `k`th hostile a population places: numbered from `first_id`, of the
/// rotating species, with that species' statistics, at `position`.
pub open spec fn populated(first_id: u32, k: int, position: Position) -> Actor {
    let kind = kind_for_index(k);
    spawned(ActorId((first_id + k) as u32), kind, position, kind_health(kind), kind_armor(kind), kind_damage(kind))
}

/// The hostiles a run on `map` starts with: a count drawn from eight to
/// fifteen on the map seed's population stream (at most the number of
/// spawn candidates), placed in order on a shuffle of the candidates drawn
/// next on that stream, with kinds rotating skeleton, ghoul, cultist.
pub open spec fn spawned_hostiles(map: DungeonMap) -> Seq<Actor> {
    let cands = map.spawn_candidates@;
    let stream = map.seed.0 ^ POPULATION_RNG_DOMAIN;
    let drawn = drawn_usize(stream, 0, 8, 15);
    let perm = shuffled(stream, drawn.1, cands).0;
    let n = if drawn.0 < cands.len() { drawn.0 as int } else { cands.len() as int };
    Seq::new(n as nat, |k: int| populated(1, k, perm[k]))
}

/// What seeded population guarantees: eight to fifteen hostiles whose
/// kinds rotate skeleton, ghoul, cultist, on distinct floor tiles that are
/// neither the player's tile nor the exit.
pub open spec fn population_legal(g: ExplorationGame) -> bool {
    &&& 8 <= g.hostiles@.len() <= 15
    &&& forall|k: int| 0 <= k < g.hostiles@.len() ==> (#[trigger] g.hostiles@[k]).kind == kind_for_index(k)
    &&& forall|k: int| 0 <= k < g.hostiles@.len() ==> {
        let p = (#[trigger] g.hostiles@[k]).position;
        &&& g.map.tile_is(p, Tile::Floor)
        &&& p != g.player.position
        &&& p != g.map.exit
    }
    &&& forall|i: int, j: int|
        0 <= i < j < g.hostiles@.len() ==> (#[trigger] g.hostiles@[i]).position != (#[trigger] g.hostiles@[j]).position
}

/// A legally populated run holds a skeleton, a ghoul and a cultist.
pub proof fn lemma_population_has_every_kind(g: ExplorationGame)
    requires
        population_legal(g),
    ensures
        exists|i: int| 0 <= i < g.hostiles@.len() && #[trigger] g.hostiles@[i].kind == ActorKind::Skeleton,
        exists|i: int| 0 <= i < g.hostiles@.len() && #[trigger] g.hostiles@[i].kind == ActorKind::Ghoul,
        exists|i: int| 0 <= i < g.hostiles@.len() && #[trigger] g.hostiles@[i].kind == ActorKind::Cultist,
{
    assert(g.hostiles@[0].kind == kind_for_index(0));
    assert(g.hostiles@[1].kind == kind_for_index(1));
    assert(g.hostiles@[2].kind == kind_for_index(2));
}

/// A shuffle of distinct candidates is distinct, and draws only candidates.
pub proof fn lemma_shuffled_candidates(cands: Seq<Position>, perm: Seq<Position>)
    requires
        perm.to_multiset() == cands.to_multiset(),
        cands.no_duplicates(),
    ensures
        perm.no_duplicates(),
        forall|k: int| 0 <= k < perm.len() ==> cands.contains(#[trigger] perm[k]),
{
    broadcast use vstd::seq_lib::group_to_multiset_ensures;
    cands.lemma_multiset_has_no_duplicates();
    perm.lemma_multiset_has_no_duplicates_conv();
    assert forall|k: int| 0 <= k < perm.len() implies cands.contains(#[trigger] perm[k]) by {
        assert(perm.contains(perm[k]));
        assert(perm.to_multiset().count(perm[k]) > 0);
    }
}

impl ActorKind {
    pub fn description(self) -> (s: &'static str)
        ensures
            s@ == kind_description(self),
    {
        match self {
            ActorKind::Skeleton => "A restless soldier held together by old malice.",
            ActorKind::Ghoul => "A ravenous corpse poised to lunge.",
            ActorKind::Cultist => "A grave-priest weaving distant hexes.",
        }
    }

    pub fn definition(self) -> (d: MonsterDefinition)
        ensures
            d.kind == self,
            d.name@ == kind_name(self),
            d.description@ == kind_description(self),
            d.glyph == kind_glyph(self),
            d.health == kind_health(self),
            d.armor == kind_armor(self),
            d.damage == kind_damage(self),
            d.population_order == kind_order(self),
    {
        match self {
            ActorKind::Skeleton => MonsterDefinition {
                kind: self,
                name: self.name(),
                description: self.description(),
                glyph: 's',
                health: 10,
                armor: 1,
                damage: 5,
                population_order: 0,
            },
            ActorKind::Ghoul => MonsterDefinition {
                kind: self,
                name: self.name(),
                description: self.description(),
                glyph: 'g',
                health: 14,
                armor: 0,
                damage: 7,
                population_order: 1,
            },
            ActorKind::Cultist => MonsterDefinition {
                kind: self,
                name: self.name(),
                description: self.description(),
                glyph: 'c',
                health: 9,
                armor: 0,
                damage: 6,
                population_order: 2,
            },
        }
    }
}

impl ExplorationGame {
    /// Add a dormant hostile with the next stable id, and return that id.
    pub fn spawn_hostile(&mut self, kind: ActorKind, position: Position, health: i32, armor: i32, damage: i32) -> (id: ActorId)
        requires
            old(self).next_actor_id < u32::MAX,
        ensures
            id == ActorId(old(self).next_actor_id),
            final(self).hostiles@ == old(self).hostiles@.push(spawned(id, kind, position, health, armor, damage)),
            *final(self) == (ExplorationGame {
                hostiles: final(self).hostiles,
                next_actor_id: (old(self).next_actor_id + 1) as u32,
                ..*old(self)
            }),
            old(self).hostiles_wf() && old(self).map.in_bounds(position) && health > 0 && armor >= 0
                ==> final(self).hostiles_wf(),
    {
        let id = ActorId(self.next_actor_id);
        self.next_actor_id = self.next_actor_id + 1;
        self.hostiles.push(Actor {
            id,
            kind,
            position,
            health,
            max_health: health,
            armor,
            damage,
            active: false,
            telegraph: None,
        });
        id
    }

    /// Place between eight and fifteen hostiles (fewer when the map offers
    /// fewer spawn candidates) on distinct draws from a seeded shuffle of the
    /// candidates, rotating skeleton, ghoul, cultist.
    pub(crate) fn populate_enemies(&mut self)
        requires
            old(self).next_actor_id as int + 15 <= u32::MAX,
        ensures
            ({
                let cands = old(self).map.spawn_candidates@;
                let n = final(self).hostiles@.len() - old(self).hostiles@.len();
                &&& (if cands.len() < 8 { cands.len() as int } else { 8int }) <= n
                &&& n <= (if cands.len() < 15 { cands.len() as int } else { 15int })
                &&& final(self).hostiles@.subrange(0, old(self).hostiles@.len() as int) == old(self).hostiles@
                &&& exists|perm: Seq<Position>| #[trigger] perm.to_multiset() == cands.to_multiset()
                    && perm.len() == cands.len()
                    && forall|k: int| 0 <= k < n ==>
                        #[trigger] final(self).hostiles@[old(self).hostiles@.len() + k] == populated(old(self).next_actor_id, k, perm[k])
                &&& final(self).next_actor_id == old(self).next_actor_id + n
            }),
            ({
                let cands = old(self).map.spawn_candidates@;
                let stream = old(self).map.seed.0 ^ POPULATION_RNG_DOMAIN;
                let drawn = drawn_usize(stream, 0, 8, 15);
                let perm = shuffled(stream, drawn.1, cands).0;
                let n = final(self).hostiles@.len() - old(self).hostiles@.len();
                &&& n == if drawn.0 < cands.len() { drawn.0 as int } else { cands.len() as int }
                &&& forall|k: int| 0 <= k < n ==>
                    #[trigger] final(self).hostiles@[old(self).hostiles@.len() + k] == populated(old(self).next_actor_id, k, perm[k])
            }),
            *final(self) == (ExplorationGame {
                hostiles: final(self).hostiles,
                next_actor_id: final(self).next_actor_id,
                ..*old(self)
            }),
            old(self).hostiles_wf() && (forall|i: int| 0 <= i < old(self).map.spawn_candidates@.len()
                ==> old(self).map.in_bounds(#[trigger] old(self).map.spawn_candidates@[i]))
                ==> final(self).hostiles_wf(),
    {
        let stream = self.map.seed.0 ^ POPULATION_RNG_DOMAIN;
        let (drawn, word) = draw_usize(stream, 0, 8, 15);
        let available = self.map.spawn_candidates.len();
        let count = if drawn < available { drawn } else { available };
        let mut positions = self.map.spawn_candidates.clone();
        proof {
            assert(positions@ == self.map.spawn_candidates@);
        }
        let _ = shuffle_positions(stream, word, &mut positions);
        let ghost perm = positions@;
        let ghost pre = *self;
        let ghost base = old(self).hostiles@.len();
        let first = self.next_actor_id;
        let mut index: usize = 0;
        proof {
            broadcast use vstd::seq_lib::group_to_multiset_ensures;
            assert(positions@.len() == old(self).map.spawn_candidates@.len());
        }
        while index < count
            invariant
                *self == (ExplorationGame { hostiles: self.hostiles, next_actor_id: self.next_actor_id, ..pre }),
                pre == *old(self),
                first == old(self).next_actor_id,
                first as int + 15 <= u32::MAX,
                count <= 15,
                count <= positions@.len(),
                positions@ == perm,
                perm.to_multiset() == old(self).map.spawn_candidates@.to_multiset(),
                index <= count,
                self.next_actor_id == first + index,
                self.hostiles@.len() == base + index,
                self.hostiles@.subrange(0, base as int) == old(self).hostiles@,
                forall|k: int| 0 <= k < index ==> #[trigger] self.hostiles@[base + k] == populated(first, k, perm[k]),
                old(self).hostiles_wf() && (forall|i: int| 0 <= i < old(self).map.spawn_candidates@.len()
                    ==> old(self).map.in_bounds(#[trigger] old(self).map.spawn_candidates@[i])) ==> self.hostiles_wf(),
            decreases count - index,
        {
            let kind = if index % 3 == 0 {
                ActorKind::Skeleton
            } else if index % 3 == 1 {
                ActorKind::Ghoul
            } else {
                ActorKind::Cultist
            };
            let definition = kind.definition();
            let position = positions[index];
            proof {
                broadcast use vstd::seq_lib::group_to_multiset_ensures;
                assert(perm.contains(position));
                assert(old(self).map.spawn_candidates@.to_multiset().count(position) > 0);
                assert(old(self).map.spawn_candidates@.contains(position));
            }
            let ghost before = self.hostiles@;
            self.spawn_hostile(kind, position, definition.health, definition.armor, definition.damage);
            proof {
                assert forall|k: int| 0 <= k < index + 1 implies #[trigger] self.hostiles@[base + k] == populated(first, k, perm[k]) by {
                    if k < index {
                        assert(self.hostiles@[base + k] == before[base + k]);
                    }
                }
                assert(self.hostiles@.subrange(0, base as int) =~= before.subrange(0, base as int));
            }
            index = index + 1;
        }
        proof {
            broadcast use vstd::seq_lib::group_to_multiset_ensures;
            assert(perm.len() == old(self).map.spawn_candidates@.len());
        }
    }
}

} // verus!
