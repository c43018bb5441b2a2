//! Hostile-target selection and validation.

use super::abilities::AbilitySlot;
use super::combat::{destroyed_text, rolled_damage};
use super::run::regenerated;
use super::visibility::has_line_of_sight;
use super::{
    kind_name, line_of_sight, log_push, step_from, AbilityDefinition, AbilityEffect, AbilityState, AbilityTargeting, Actor, ActorId,
    CommandOutcome, Direction, ExplorationGame,
};
use crate::text::{decimal, push_decimal, text};
use crate::world::{cheb, Position};
use vstd::prelude::*;

verus! {

/// The modal state of choosing a target for an ability.
#[derive(Clone, Copy, Debug, PartialEq, Eq, Structural)]
pub struct TargetingState {
    pub ability_slot: AbilitySlot,
    pub cursor: Position,
    pub selected_actor: Option<ActorId>,
}

/// Whether a position holds a hostile the ability can reach.
#[derive(Clone, Copy, Debug, PartialEq, Eq, Structural)]
pub enum TargetValidity {
    Valid(ActorId),
    NoHostile,
    OutOfRange,
    Blocked,
}

/// The first hostile at or after index `i` standing at `p`.
pub open spec fn actor_at(hostiles: Seq<Actor>, p: Position, i: int) -> Option<Actor>
    decreases hostiles.len() - i,
{
    if i < 0 || i >= hostiles.len() {
        None
    } else if hostiles[i].position == p {
        Some(hostiles[i])
    } else {
        actor_at(hostiles, p, i + 1)
    }
}

/// The first hostile at or after index `i` with the given id.
pub open spec fn actor_with_id(hostiles: Seq<Actor>, id: ActorId, i: int) -> Option<Actor>
    decreases hostiles.len() - i,
{
    if i < 0 || i >= hostiles.len() {
        None
    } else if hostiles[i].id == id {
        Some(hostiles[i])
    } else {
        actor_with_id(hostiles, id, i + 1)
    }
}

/// Strict lexicographic order on (distance, id) pairs.
pub open spec fn entry_lt(a: (i32, u32), b: (i32, u32)) -> bool {
    a.0 < b.0 || (a.0 == b.0 && a.1 < b.1)
}

/// "No valid target answers `name`."
pub open spec fn no_target_text(name: Seq<char>) -> Seq<char> {
    "No valid target answers "@ + name + "."@
}

/// "`ability` strikes `kind` `id` for `d` damage."
pub open spec fn bolt_text(ability: Seq<char>, kind: Seq<char>, id: u32, d: int) -> Seq<char> {
    ability + " strikes "@ + kind + " "@ + decimal(id as int) + " for "@ + decimal(d) + " damage."@
}

/// "Not enough mana for `name`."
pub open spec fn no_mana_text(name: Seq<char>) -> Seq<char> {
    "Not enough mana for "@ + name + "."@
}

pub proof fn lemma_actor_with_id_found(hostiles: Seq<Actor>, id: ActorId, i: int, j: int)
    requires
        0 <= i <= j < hostiles.len(),
        hostiles[j].id == id,
        forall|k: int| i <= k < j ==> hostiles[k].id != id,
    ensures
        actor_with_id(hostiles, id, i) == Some(hostiles[j]),
    decreases j - i,
{
    if i < j {
        lemma_actor_with_id_found(hostiles, id, i + 1, j);
    }
}

pub proof fn lemma_actor_with_id_absent(hostiles: Seq<Actor>, id: ActorId, i: int)
    requires
        0 <= i,
        forall|k: int| i <= k < hostiles.len() ==> hostiles[k].id != id,
    ensures
        actor_with_id(hostiles, id, i) is None,
    decreases hostiles.len() - i,
{
    if i < hostiles.len() {
        lemma_actor_with_id_absent(hostiles, id, i + 1);
    }
}

impl ExplorationGame {
    /// What `target_validity` reports for an ability slot and a position.
    pub open spec fn spec_target_validity(&self, slot: AbilitySlot, p: Position) -> TargetValidity {
        match self.spec_ability_state(slot) {
            None => TargetValidity::NoHostile,
            Some(st) => match self.catalog.spec_ability(st.ability_id) {
                None => TargetValidity::NoHostile,
                Some(d) => match d.targeting {
                    AbilityTargeting::HostileSingle { range, line_of_sight: needs_sight } => match actor_at(self.hostiles@, p, 0) {
                        None => TargetValidity::NoHostile,
                        Some(a) => if cheb(self.player.position, p) > range {
                            TargetValidity::OutOfRange
                        } else if needs_sight && !line_of_sight(&self.map, self.player.position, p) {
                            TargetValidity::Blocked
                        } else {
                            TargetValidity::Valid(a.id)
                        },
                    },
                    _ => TargetValidity::NoHostile,
                },
            },
        }
    }

    /// The hostile with the given id.
    pub open spec fn spec_hostile(&self, id: ActorId) -> Option<Actor> {
        actor_with_id(self.hostiles@, id, 0)
    }

    /// A hostile the ability in `slot` can reach where it stands.
    pub open spec fn targetable(&self, slot: AbilitySlot, a: Actor) -> bool {
        self.spec_target_validity(slot, a.position) is Valid
    }

    /// Candidate order: nearer first, then lower id.
    pub open spec fn target_before(&self, a: ActorId, b: ActorId) -> bool {
        let da = cheb(self.player.position, self.spec_hostile(a).unwrap().position);
        let db = cheb(self.player.position, self.spec_hostile(b).unwrap().position);
        da < db || (da == db && a.0 < b.0)
    }

    /// The hostile with the given id.
    pub fn hostile(&self, id: ActorId) -> (r: Option<&Actor>)
        ensures
            r matches Some(a) ==> self.spec_hostile(id) == Some(*a),
            r is None ==> self.spec_hostile(id) is None,
    {
        let mut i: usize = 0;
        while i < self.hostiles.len()
            invariant
                i <= self.hostiles@.len(),
                actor_with_id(self.hostiles@, id, 0) == actor_with_id(self.hostiles@, id, i as int),
            decreases self.hostiles@.len() - i,
        {
            if self.hostiles[i].id == id {
                return Some(&self.hostiles[i]);
            }
            i = i + 1;
        }
        None
    }

    /// Index of the hostile with the given id.
    pub(crate) fn hostile_index(&self, id: ActorId) -> (r: Option<usize>)
        ensures
            r matches Some(i) ==> i < self.hostiles@.len() && self.hostiles@[i as int].id == id
                && self.spec_hostile(id) == Some(self.hostiles@[i as int])
                && forall|k: int| 0 <= k < i ==> self.hostiles@[k].id != id,
            r is None ==> self.spec_hostile(id) is None
                && forall|k: int| 0 <= k < self.hostiles@.len() ==> self.hostiles@[k].id != id,
    {
        let mut i: usize = 0;
        while i < self.hostiles.len()
            invariant
                i <= self.hostiles@.len(),
                forall|k: int| 0 <= k < i ==> self.hostiles@[k].id != id,
            decreases self.hostiles@.len() - i,
        {
            if self.hostiles[i].id == id {
                proof { lemma_actor_with_id_found(self.hostiles@, id, 0, i as int); }
                return Some(i);
            }
            i = i + 1;
        }
        proof { lemma_actor_with_id_absent(self.hostiles@, id, 0); }
        None
    }

    /// The first hostile standing at `p`.
    pub(crate) fn hostile_at(&self, p: Position) -> (r: Option<usize>)
        ensures
            r matches Some(i) ==> i < self.hostiles@.len() && self.hostiles@[i as int].position == p
                && actor_at(self.hostiles@, p, 0) == Some(self.hostiles@[i as int])
                && forall|k: int| 0 <= k < i ==> self.hostiles@[k].position != p,
            r is None ==> actor_at(self.hostiles@, p, 0) is None
                && forall|k: int| 0 <= k < self.hostiles@.len() ==> self.hostiles@[k].position != p,
    {
        let mut i: usize = 0;
        while i < self.hostiles.len()
            invariant
                i <= self.hostiles@.len(),
                forall|k: int| 0 <= k < i ==> self.hostiles@[k].position != p,
                actor_at(self.hostiles@, p, 0) == actor_at(self.hostiles@, p, i as int),
            decreases self.hostiles@.len() - i,
        {
            if self.hostiles[i].position == p {
                return Some(i);
            }
            i = i + 1;
        }
        None
    }

    /// Whether the ability in `slot` can strike a hostile at `position`.
    pub fn target_validity(&self, slot: AbilitySlot, position: Position) -> (v: TargetValidity)
        requires
            self.wf(),
        ensures
            v == self.spec_target_validity(slot, position),
    {
        let state = match self.ability_state(slot) {
            Some(s) => s,
            None => {
                return TargetValidity::NoHostile;
            },
        };
        let definition = match self.ability_definition(state.ability_id) {
            Some(d) => d,
            None => {
                return TargetValidity::NoHostile;
            },
        };
        let (range, needs_sight) = match definition.targeting {
            AbilityTargeting::HostileSingle { range, line_of_sight } => (range, line_of_sight),
            _ => {
                return TargetValidity::NoHostile;
            },
        };
        let index = match self.hostile_at(position) {
            Some(i) => i,
            None => {
                return TargetValidity::NoHostile;
            },
        };
        assert(crate::game::actor_ok(&self.map, self.hostiles@[index as int]));
        if self.player.position.chebyshev_distance(position) > range {
            return TargetValidity::OutOfRange;
        }
        if needs_sight && !has_line_of_sight(&self.map, self.player.position, position) {
            return TargetValidity::Blocked;
        }
        TargetValidity::Valid(self.hostiles[index].id)
    }

    /// The hostiles the ability in `slot` can reach, nearest first and then
    /// by id.
    pub fn valid_targets(&self, slot: AbilitySlot) -> (ids: Vec<ActorId>)
        requires
            self.wf(),
        ensures
            forall|i: int| 0 <= i < ids@.len() ==> ((#[trigger] self.spec_hostile(ids@[i])) matches Some(a)
                && self.targetable(slot, a)),
            forall|j: int| 0 <= j < self.hostiles@.len() && self.targetable(slot, #[trigger] self.hostiles@[j])
                ==> ids@.contains(self.hostiles@[j].id),
            forall|i: int, k: int| 0 <= i < k < ids@.len() ==> self.target_before(#[trigger] ids@[i], #[trigger] ids@[k]),
    {
        let mut entries: Vec<(i32, u32)> = Vec::new();
        let mut j: usize = 0;
        while j < self.hostiles.len()
            invariant
                self.wf(),
                j <= self.hostiles@.len(),
                forall|a: int, b: int| 0 <= a < b < entries@.len() ==> entry_lt(#[trigger] entries@[a], #[trigger] entries@[b]),
                forall|e: (i32, u32)| #[trigger] entries@.contains(e) <==> exists|k: int| 0 <= k < j
                    && self.targetable(slot, #[trigger] self.hostiles@[k]) && e == (cheb(self.player.position,
                    self.hostiles@[k].position) as i32, self.hostiles@[k].id.0),
            decreases self.hostiles@.len() - j,
        {
            let a = self.hostiles[j];
            assert(crate::game::actor_ok(&self.map, a));
            let valid = match self.target_validity(slot, a.position) {
                TargetValidity::Valid(_) => true,
                _ => false,
            };
            if valid {
                let e = (self.player.position.chebyshev_distance(a.position), a.id.0);
                proof {
                    assert forall|x: (i32, u32)| #[trigger] entries@.contains(x) implies x.1 != e.1 by {
                        let k = choose|k: int| 0 <= k < j && self.targetable(slot, #[trigger] self.hostiles@[k])
                            && x == (cheb(self.player.position, self.hostiles@[k].position) as i32, self.hostiles@[k].id.0);
                        assert(self.hostiles@[k].id != self.hostiles@[j as int].id);
                    }
                }
                insert_sorted(&mut entries, e);
            }
            proof {
                assert forall|x: (i32, u32)| #[trigger] entries@.contains(x) <== exists|k: int| 0 <= k < j + 1
                    && self.targetable(slot, #[trigger] self.hostiles@[k]) && x == (cheb(self.player.position,
                    self.hostiles@[k].position) as i32, self.hostiles@[k].id.0) by {
                    if exists|k: int| 0 <= k < j + 1 && self.targetable(slot, #[trigger] self.hostiles@[k])
                        && x == (cheb(self.player.position, self.hostiles@[k].position) as i32, self.hostiles@[k].id.0) {
                        let k = choose|k: int| 0 <= k < j + 1 && self.targetable(slot, #[trigger] self.hostiles@[k])
                            && x == (cheb(self.player.position, self.hostiles@[k].position) as i32, self.hostiles@[k].id.0);
                        if k < j {
                            assert(exists|k2: int| 0 <= k2 < j && self.targetable(slot, #[trigger] self.hostiles@[k2])
                                && x == (cheb(self.player.position, self.hostiles@[k2].position) as i32, self.hostiles@[k2].id.0));
                        }
                    }
                }
            }
            j = j + 1;
        }
        let mut ids: Vec<ActorId> = Vec::new();
        let mut i: usize = 0;
        while i < entries.len()
            invariant
                self.wf(),
                i <= entries@.len(),
                ids@.len() == i,
                forall|k: int| 0 <= k < i ==> (#[trigger] ids@[k]).0 == entries@[k].1,
            decreases entries@.len() - i,
        {
            ids.push(ActorId(entries[i].1));
            i = i + 1;
        }
        proof {
            assert forall|k: int| 0 <= k < ids@.len() implies ((#[trigger] self.spec_hostile(ids@[k])) matches Some(a)
                && self.targetable(slot, a) && a.id.0 == entries@[k].1 && entries@[k].0 == cheb(self.player.position, a.position)) by {
                assert(entries@.contains(entries@[k]));
                let h = choose|h: int| 0 <= h < self.hostiles@.len() && self.targetable(slot, #[trigger] self.hostiles@[h])
                    && entries@[k] == (cheb(self.player.position, self.hostiles@[h].position) as i32, self.hostiles@[h].id.0);
                lemma_unique_found(self, h);
            }
            assert forall|h: int| 0 <= h < self.hostiles@.len() && self.targetable(slot, #[trigger] self.hostiles@[h])
                implies ids@.contains(self.hostiles@[h].id) by {
                let e = (cheb(self.player.position, self.hostiles@[h].position) as i32, self.hostiles@[h].id.0);
                assert(entries@.contains(e));
                let k = choose|k: int| 0 <= k < entries@.len() && entries@[k] == e;
                assert(ids@[k] == self.hostiles@[h].id);
            }
            assert forall|a: int, b: int| 0 <= a < b < ids@.len() implies self.target_before(#[trigger] ids@[a], #[trigger] ids@[b]) by {
                assert(entry_lt(entries@[a], entries@[b]));
                assert(self.spec_hostile(ids@[a]) is Some);
                assert(self.spec_hostile(ids@[b]) is Some);
            }
        }
        ids
    }
}

/// What moving the targeting cursor does.
pub open spec fn cursor_outcome(pre: ExplorationGame, post: ExplorationGame, direction: Direction, r: CommandOutcome) -> bool {
    &&& (r == CommandOutcome::Rejected)
    &&& (post == (ExplorationGame { targeting: post.targeting, ..pre }))
    &&& (post.targeting == match pre.targeting {
        Some(t) => if pre.map.in_bounds(step_from(t.cursor, direction)) {
            Some(TargetingState {
                cursor: step_from(t.cursor, direction),
                selected_actor: match actor_at(pre.hostiles@, step_from(t.cursor, direction), 0) {
                    Some(a) => Some(a.id),
                    None => None,
                },
                ..t
            })
        } else {
            Some(t)
        },
        None => None,
    })
}

/// What cycling the target does.
pub open spec fn cycle_outcome(pre: ExplorationGame, post: ExplorationGame, backwards: bool, r: CommandOutcome) -> bool {
    &&& (r == CommandOutcome::Rejected)
    &&& (post == (ExplorationGame { targeting: post.targeting, ..pre }))
    &&& (pre.targeting is None ==> post.targeting is None)
    &&& (pre.targeting matches Some(t) ==> exists|ids: Seq<ActorId>| #[trigger] pre.candidate_list(t.ability_slot, ids)
        && if ids.len() == 0 {
            post.targeting is None
        } else {
            let n = ids.len() as int;
            let current = match t.selected_actor {
                Some(id) => if ids.contains(id) { Some(choose|i: int| 0 <= i < n && ids[i] == id
                    && forall|k: int| 0 <= k < i ==> ids[k] != id) } else { None },
                None => None,
            };
            let index = if backwards {
                match current { Some(i) => if i == 0 { n - 1 } else { i - 1 }, None => n - 1 }
            } else {
                match current { Some(i) => if i + 1 == n { 0 } else { i + 1 }, None => 0 }
            };
            post.targeting == Some(TargetingState {
                selected_actor: Some(ids[index]),
                cursor: pre.spec_hostile(ids[index]).unwrap().position,
                ..t
            })
        })
}

/// What confirming the target does.
pub open spec fn confirm_outcome(pre: ExplorationGame, post: ExplorationGame, r: CommandOutcome) -> bool {
    &&& (r == CommandOutcome::Advanced <==> pre.confirm_fires())
    &&& (r == CommandOutcome::Rejected ==> {
        &&& post.same_play(pre)
        &&& post.inspecting == pre.inspecting
        &&& post.using_item == pre.using_item
        &&& post.targeting == match pre.targeting {
            Some(t) => if pre.selection_gone(t) { None } else { Some(t) },
            None => None,
        }
        &&& post.log() == match pre.confirm_refusal() {
            Some(m) => log_push(pre.log(), m),
            None => pre.log(),
        }
    })
    &&& (r == CommandOutcome::Advanced ==> pre.bolt_result(post))
}

impl ExplorationGame {
    /// `ids` lists exactly the hostiles the ability in `slot` can reach, in
    /// candidate order.
    pub open spec fn candidate_list(&self, slot: AbilitySlot, ids: Seq<ActorId>) -> bool {
        &&& forall|i: int| 0 <= i < ids.len() ==> ((#[trigger] self.spec_hostile(ids[i])) matches Some(a)
            && self.targetable(slot, a))
        &&& forall|j: int| 0 <= j < self.hostiles@.len() && self.targetable(slot, #[trigger] self.hostiles@[j])
            ==> ids.contains(self.hostiles@[j].id)
        &&& forall|i: int, k: int| 0 <= i < k < ids.len() ==> self.target_before(#[trigger] ids[i], #[trigger] ids[k])
    }

    /// The targeting state and log after asking to target with `slot`.
    pub open spec fn targeting_opened(&self, slot: AbilitySlot, post: ExplorationGame) -> bool {
        exists|ids: Seq<ActorId>| #[trigger] self.candidate_list(slot, ids) && if ids.len() == 0 {
            &&& post.targeting == self.targeting
            &&& post.log() == log_push(self.log(), no_target_text(
                match self.spec_ability_state(slot) {
                    Some(st) => match self.catalog.spec_ability(st.ability_id) {
                        Some(d) => d.name@,
                        None => "ability"@,
                    },
                    None => "ability"@,
                }))
        } else {
            &&& post.targeting == Some(TargetingState {
                ability_slot: slot,
                cursor: self.spec_hostile(ids[0]).unwrap().position,
                selected_actor: Some(ids[0]),
            })
            &&& post.events == self.events
        }
    }

    /// Open targeting for the ability in `slot` on the first candidate; with
    /// no candidate, say so. Either way no turn passes.
    pub(crate) fn begin_targeting(&mut self, slot: AbilitySlot) -> (r: CommandOutcome)
        requires
            old(self).wf(),
        ensures
            r == CommandOutcome::Rejected,
            final(self).wf(),
            final(self).inspecting == old(self).inspecting,
            final(self).using_item == old(self).using_item,
            final(self).same_play(*old(self)),
            old(self).targeting_opened(slot, *final(self)),
    {
        let candidates = self.valid_targets(slot);
        if candidates.len() == 0 {
            let mut message = text("No valid target answers ");
            match self.ability_state(slot) {
                Some(state) => match self.ability_definition(state.ability_id) {
                    Some(d) => message.append(d.name.as_str()),
                    None => message.append("ability"),
                },
                None => message.append("ability"),
            }
            message.append(".");
            proof {
                reveal_strlit("No valid target answers ");
                reveal_strlit(".");
                assert(old(self).candidate_list(slot, candidates@));
            }
            self.push_event(message);
            return CommandOutcome::Rejected;
        }
        let id = candidates[0];
        let index = match self.hostile_index(id) {
            Some(i) => i,
            None => {
                return CommandOutcome::Rejected;
            },
        };
        let _ = slot.index();
        let cursor = self.hostiles[index].position;
        proof {
            assert(self.spec_hostile(candidates@[0]) is Some);
            assert(crate::game::actor_ok(&self.map, self.hostiles@[index as int]));
            assert(self.candidate_list(slot, candidates@));
        }
        self.targeting = Some(TargetingState { ability_slot: slot, cursor, selected_actor: Some(id) });
        CommandOutcome::Rejected
    }

    /// Move the targeting cursor one step, staying on the map; the hostile
    /// under it, if any, becomes the selection. No turn passes.
    pub(crate) fn move_target_cursor(&mut self, direction: Direction) -> (r: CommandOutcome)
        requires
            old(self).wf(),
        ensures
            final(self).wf(),
            cursor_outcome(*old(self), *final(self), direction, r),
    {
        let mut targeting = match self.targeting {
            Some(t) => t,
            None => {
                return CommandOutcome::Rejected;
            },
        };
        let (dx, dy) = direction.delta();
        let candidate = targeting.cursor.offset(dx, dy);
        if self.map.contains(candidate) {
            targeting.cursor = candidate;
            targeting.selected_actor = match self.hostile_at(candidate) {
                Some(i) => Some(self.hostiles[i].id),
                None => None,
            };
            self.targeting = Some(targeting);
        }
        CommandOutcome::Rejected
    }

    /// Select the next (or previous) candidate, wrapping around; with no
    /// candidate left, leave targeting. No turn passes.
    pub(crate) fn cycle_target(&mut self, backwards: bool) -> (r: CommandOutcome)
        requires
            old(self).wf(),
        ensures
            final(self).wf(),
            cycle_outcome(*old(self), *final(self), backwards, r),
    {
        let mut targeting = match self.targeting {
            Some(t) => t,
            None => {
                return CommandOutcome::Rejected;
            },
        };
        let candidates = self.valid_targets(targeting.ability_slot);
        proof { assert(self.candidate_list(targeting.ability_slot, candidates@)); }
        let n = candidates.len();
        if n == 0 {
            self.targeting = None;
            return CommandOutcome::Rejected;
        }
        let current: Option<usize> = match targeting.selected_actor {
            Some(id) => position_of(&candidates, id),
            None => None,
        };
        let index = if backwards {
            match current {
                Some(i) => if i == 0 { n - 1 } else { i - 1 },
                None => n - 1,
            }
        } else {
            match current {
                Some(i) => if i + 1 == n { 0 } else { i + 1 },
                None => 0,
            }
        };
        let id = candidates[index];
        let h = match self.hostile_index(id) {
            Some(h) => h,
            None => {
                return CommandOutcome::Rejected;
            },
        };
        proof {
            assert(self.spec_hostile(candidates@[index as int]) is Some);
            assert(crate::game::actor_ok(&self.map, self.hostiles@[h as int]));
        }
        targeting.selected_actor = Some(id);
        targeting.cursor = self.hostiles[h].position;
        self.targeting = Some(targeting);
        CommandOutcome::Rejected
    }

    /// The target of a confirmation is gone: the selected hostile no longer lives.
    pub open spec fn selection_gone(&self, t: TargetingState) -> bool {
        t.selected_actor matches Some(id) && self.spec_hostile(id) is None
    }

    /// The ability definition a targeting state refers to.
    pub open spec fn targeted_ability(&self, t: TargetingState) -> AbilityDefinition {
        self.catalog.spec_ability(self.spec_ability_state(t.ability_slot).unwrap().ability_id).unwrap()
    }

    /// Whether confirming now fires the bolt.
    pub open spec fn confirm_fires(&self) -> bool {
        &&& self.targeting matches Some(t)
        &&& !self.selection_gone(t)
        &&& self.spec_target_validity(t.ability_slot, t.cursor) is Valid
        &&& self.targeted_ability(t).effect is GraveBolt
        &&& self.player.mana >= self.targeted_ability(t).mana_cost
    }

    /// The message a refused confirmation leaves, if any.
    pub open spec fn confirm_refusal(&self) -> Option<Seq<char>> {
        match self.targeting {
            None => None,
            Some(t) => if self.selection_gone(t) {
                Some("The chosen target is gone."@)
            } else {
                match self.spec_target_validity(t.ability_slot, t.cursor) {
                    TargetValidity::NoHostile => Some("No living foe stands beneath the cursor."@),
                    TargetValidity::OutOfRange => Some("That foe lies beyond the bolt's reach."@),
                    TargetValidity::Blocked => Some("Stone and shadow block the Grave Bolt."@),
                    TargetValidity::Valid(_) => if !(self.targeted_ability(t).effect is GraveBolt) {
                        None
                    } else if self.player.mana < self.targeted_ability(t).mana_cost {
                        Some(no_mana_text(self.targeted_ability(t).name@))
                    } else {
                        None
                    },
                }
            },
        }
    }

    /// What a confirmation that fires leaves behind.
    pub open spec fn bolt_result(&self, post: ExplorationGame) -> bool {
        let t = self.targeting.unwrap();
        let st = self.spec_ability_state(t.ability_slot).unwrap();
        let d = self.targeted_ability(t);
        let id = self.spec_target_validity(t.ability_slot, t.cursor)->Valid_0;
        let a = self.spec_hostile(id).unwrap();
        let dmg = rolled_damage(self.map.seed, self.combat_roll_count, d.effect->base_damage as int, a.armor as int);
        &&& post.targeting is None
        &&& post.turn == self.turn + 1
        &&& post.combat_roll_count == self.combat_roll_count + 1
        &&& post.player == (super::Player {
            mana: regenerated(self.player.mana - d.mana_cost, self.spec_class_def().mana_regeneration as int,
                self.player.max_mana as int) as i32,
            ..self.player
        })
        &&& post.abilities@ == self.abilities@.update(t.ability_slot.spec_number() - 1,
            Some(AbilityState { cooldown_remaining: d.cooldown_turns, ..st }))
        &&& (exists|i: int| 0 <= i < self.hostiles@.len() && self.hostiles@[i] == a
            && post.hostiles@ == if a.health - dmg <= 0 {
                self.hostiles@.remove(i)
            } else {
                self.hostiles@.update(i, Actor { health: (a.health - dmg) as i32, ..a })
            })
        &&& post.log() == if a.health - dmg <= 0 {
            log_push(log_push(self.log(), bolt_text(d.name@, kind_name(a.kind), id.0, dmg)), destroyed_text(kind_name(a.kind)))
        } else {
            log_push(self.log(), bolt_text(d.name@, kind_name(a.kind), id.0, dmg))
        }
        &&& post == (ExplorationGame {
            targeting: None,
            turn: post.turn,
            combat_roll_count: post.combat_roll_count,
            player: post.player,
            abilities: post.abilities,
            hostiles: post.hostiles,
            events: post.events,
            ..*self
        })
    }

    /// Fire the targeted ability at the hostile under the cursor. A missing,
    /// unreachable or blocked target, or too little mana, is refused with a
    /// message and costs nothing (a vanished selection also ends
    /// targeting). A bolt spends mana, starts the cooldown, ends targeting
    /// and takes a turn in which cooldowns do not recover.
    pub(crate) fn confirm_target(&mut self) -> (r: CommandOutcome)
        requires
            old(self).wf(),
            old(self).turn < u64::MAX,
            old(self).combat_roll_count < u64::MAX,
        ensures
            final(self).wf(),
            final(self).combat_roll_count + final(self).hostiles@.len() <= old(self).combat_roll_count + 2 * old(self).hostiles@.len() + 1,
            confirm_outcome(*old(self), *final(self), r),
    {
        let targeting = match self.targeting {
            Some(t) => t,
            None => {
                return CommandOutcome::Rejected;
            },
        };
        match targeting.selected_actor {
            Some(id) => {
                if self.hostile(id).is_none() {
                    self.targeting = None;
                    self.push_event(text("The chosen target is gone."));
                    return CommandOutcome::Rejected;
                }
            },
            None => {},
        }
        let id = match self.target_validity(targeting.ability_slot, targeting.cursor) {
            TargetValidity::Valid(id) => id,
            TargetValidity::NoHostile => {
                self.push_event(text("No living foe stands beneath the cursor."));
                return CommandOutcome::Rejected;
            },
            TargetValidity::OutOfRange => {
                self.push_event(text("That foe lies beyond the bolt's reach."));
                return CommandOutcome::Rejected;
            },
            TargetValidity::Blocked => {
                self.push_event(text("Stone and shadow block the Grave Bolt."));
                return CommandOutcome::Rejected;
            },
        };
        let slot = targeting.ability_slot;
        let state = self.ability_state(slot).unwrap();
        let definition = self.ability_definition(state.ability_id).unwrap();
        match definition.effect {
            AbilityEffect::GraveBolt { .. } => {},
            _ => {
                return CommandOutcome::Rejected;
            },
        }
        if self.player.mana < definition.mana_cost {
            let mut message = text("Not enough mana for ");
            message.append(definition.name.as_str());
            message.append(".");
            proof {
                reveal_strlit("Not enough mana for ");
                reveal_strlit(".");
            }
            self.push_event(message);
            return CommandOutcome::Rejected;
        }
        self.fire_bolt(id);
        CommandOutcome::Advanced
    }

    fn fire_bolt(&mut self, id: ActorId)
        requires
            old(self).wf(),
            old(self).turn < u64::MAX,
            old(self).combat_roll_count < u64::MAX,
            old(self).confirm_fires(),
            old(self).spec_target_validity(old(self).targeting.unwrap().ability_slot, old(self).targeting.unwrap().cursor)
                == TargetValidity::Valid(id),
        ensures
            final(self).wf(),
            old(self).bolt_result(*final(self)),
    {
        let targeting = self.targeting.unwrap();
        let slot = targeting.ability_slot;
        let slot_index = slot.index();
        let state = self.ability_state(slot).unwrap();
        let definition = self.ability_definition(state.ability_id).unwrap();
        let base_damage = match definition.effect {
            AbilityEffect::GraveBolt { base_damage } => base_damage,
            _ => 1,
        };
        let cost = definition.mana_cost;
        let cooldown = definition.cooldown_turns;
        let name = definition.name.clone();
        proof {
            super::classes::lemma_valid_ability(self.catalog, state.ability_id);
            lemma_actor_at_member(self.hostiles@, targeting.cursor, 0);
            let k = choose|k: int| 0 <= k < self.hostiles@.len() && self.hostiles@[k] == actor_at(self.hostiles@, targeting.cursor, 0).unwrap();
            lemma_unique_found(self, k);
        }
        let index = self.hostile_index(id).unwrap();
        self.bolt_hit(index, base_damage, name.as_str());
        self.abilities.set(slot_index, Some(AbilityState { cooldown_remaining: cooldown, ..state }));
        self.player.mana = self.player.mana - cost;
        self.targeting = None;
        self.advance_turn(false);
    }

    /// Hit the hostile at `index` with a bolt of `base_damage`, announcing it
    /// under the ability's name; a hostile brought to zero health is removed.
    fn bolt_hit(&mut self, index: usize, base_damage: i32, name: &str)
        requires
            old(self).wf(),
            index < old(self).hostiles@.len(),
            old(self).combat_roll_count < u64::MAX,
        ensures
            ({
                let a = old(self).hostiles@[index as int];
                let d = rolled_damage(old(self).map.seed, old(self).combat_roll_count, base_damage as int, a.armor as int);
                &&& final(self).hostiles@ == if a.health - d <= 0 {
                    old(self).hostiles@.remove(index as int)
                } else {
                    old(self).hostiles@.update(index as int, Actor { health: (a.health - d) as i32, ..a })
                }
                &&& final(self).log() == if a.health - d <= 0 {
                    log_push(log_push(old(self).log(), bolt_text(name@, kind_name(a.kind), a.id.0, d)), destroyed_text(kind_name(a.kind)))
                } else {
                    log_push(old(self).log(), bolt_text(name@, kind_name(a.kind), a.id.0, d))
                }
            }),
            final(self).wf(),
            *final(self) == (ExplorationGame {
                hostiles: final(self).hostiles,
                events: final(self).events,
                combat_roll_count: (old(self).combat_roll_count + 1) as u64,
                ..*old(self)
            }),
    {
        let mut message = text(name);
        assert(crate::game::actor_ok(&self.map, self.hostiles@[index as int]));
        let armor = self.hostiles[index].armor;
        let damage = self.roll_damage(base_damage, armor);
        let mut actor = self.hostiles[index];
        let id = actor.id;
        actor.health = actor.health - damage;
        self.hostiles.set(index, actor);
        let kind = actor.kind;
        message.append(" strikes ");
        message.append(kind.name());
        message.append(" ");
        push_decimal(&mut message, id.0 as i64);
        message.append(" for ");
        push_decimal(&mut message, damage as i64);
        message.append(" damage.");
        proof {
            reveal_strlit(" strikes ");
            reveal_strlit(" ");
            reveal_strlit(" for ");
            reveal_strlit(" damage.");
        }
        self.push_event(message);
        if actor.health <= 0 {
            self.hostiles.remove(index);
            let mut gone = text("The ");
            gone.append(kind.name());
            gone.append(" is destroyed.");
            proof {
                reveal_strlit("The ");
                reveal_strlit(" is destroyed.");
            }
            self.push_event(gone);
            assert(self.hostiles@ =~= old(self).hostiles@.remove(index as int));
        }
        proof {
            assert(self.hostiles_wf()) by {
                assert forall|i: int| 0 <= i < self.hostiles@.len() implies crate::game::actor_ok(&self.map, #[trigger] self.hostiles@[i]) by {
                    if actor.health <= 0 {
                        if i < index { assert(self.hostiles@[i] == old(self).hostiles@[i]); }
                        else { assert(self.hostiles@[i] == old(self).hostiles@[i + 1]); }
                    } else {
                        if i != index { assert(self.hostiles@[i] == old(self).hostiles@[i]); }
                    }
                }
            }
        }
    }

    /// Leave targeting. No turn passes.
    pub(crate) fn cancel_targeting(&mut self) -> (r: CommandOutcome)
        ensures
            r == CommandOutcome::Rejected,
            *final(self) == (ExplorationGame { targeting: None, ..*old(self) }),
    {
        self.targeting = None;
        CommandOutcome::Rejected
    }
}

/// Index of the first occurrence of `id`.
fn position_of(ids: &Vec<ActorId>, id: ActorId) -> (r: Option<usize>)
    ensures
        r is None <==> !ids@.contains(id),
        r matches Some(i) ==> i < ids@.len() && ids@[i as int] == id
            && i == (choose|k: int| 0 <= k < ids@.len() && ids@[k] == id && forall|m: int| 0 <= m < k ==> ids@[m] != id),
{
    let mut i: usize = 0;
    while i < ids.len()
        invariant
            i <= ids@.len(),
            forall|k: int| 0 <= k < i ==> ids@[k] != id,
        decreases ids@.len() - i,
    {
        if ids[i] == id {
            proof {
                let c = choose|k: int| 0 <= k < ids@.len() && ids@[k] == id && forall|m: int| 0 <= m < k ==> ids@[m] != id;
                assert(0 <= i < ids@.len() && ids@[i as int] == id && forall|m: int| 0 <= m < i ==> ids@[m] != id);
                if c < i {
                } else if c > i {
                    assert(ids@[i as int] != id);
                }
            }
            return Some(i);
        }
        i = i + 1;
    }
    None
}

pub proof fn lemma_actor_at_member(hostiles: Seq<Actor>, p: Position, i: int)
    requires
        0 <= i,
        actor_at(hostiles, p, i) is Some,
    ensures
        exists|k: int| i <= k < hostiles.len() && hostiles[k] == actor_at(hostiles, p, i).unwrap() && hostiles[k].position == p,
    decreases hostiles.len() - i,
{
    if i < hostiles.len() && hostiles[i].position != p {
        lemma_actor_at_member(hostiles, p, i + 1);
    }
}

/// The hostile at index `h` is the one its id finds.
pub proof fn lemma_unique_found(g: &ExplorationGame, h: int)
    requires
        g.hostiles_wf(),
        0 <= h < g.hostiles@.len(),
    ensures
        g.spec_hostile(g.hostiles@[h].id) == Some(g.hostiles@[h]),
{
    assert forall|k: int| 0 <= k < h implies g.hostiles@[k].id != g.hostiles@[h].id by {
        assert(g.hostiles@[k].id != g.hostiles@[h].id);
    }
    lemma_actor_with_id_found(g.hostiles@, g.hostiles@[h].id, 0, h);
}

/// Insert `e` into a strictly increasing list of entries whose ids differ
/// from its own.
pub(crate) fn insert_sorted(v: &mut Vec<(i32, u32)>, e: (i32, u32))
    requires
        forall|a: int, b: int| 0 <= a < b < old(v)@.len() ==> entry_lt(#[trigger] old(v)@[a], #[trigger] old(v)@[b]),
        forall|x: (i32, u32)| #[trigger] old(v)@.contains(x) ==> x.1 != e.1,
    ensures
        forall|a: int, b: int| 0 <= a < b < final(v)@.len() ==> entry_lt(#[trigger] final(v)@[a], #[trigger] final(v)@[b]),
        forall|x: (i32, u32)| #[trigger] final(v)@.contains(x) <==> old(v)@.contains(x) || x == e,
        final(v)@.len() == old(v)@.len() + 1,
{
    let mut pos: usize = 0;
    while pos < v.len() && !(e.0 < v[pos].0 || (e.0 == v[pos].0 && e.1 < v[pos].1))
        invariant
            v@ == old(v)@,
            pos <= v@.len(),
            forall|k: int| 0 <= k < pos ==> entry_lt(#[trigger] v@[k], e),
            forall|x: (i32, u32)| #[trigger] old(v)@.contains(x) ==> x.1 != e.1,
        decreases v@.len() - pos,
    {
        assert(v@.contains(v@[pos as int]));
        pos = pos + 1;
    }
    let ghost before = v@;
    proof {
        assert forall|k: int| pos <= k < before.len() implies entry_lt(e, #[trigger] before[k]) by {
            if pos < before.len() {
                let c = before[pos as int];
                if k > pos {
                    assert(entry_lt(before[pos as int], before[k]));
                }
            }
        }
    }
    v.insert(pos, e);
    proof {
        assert forall|x: (i32, u32)| #[trigger] v@.contains(x) <==> before.contains(x) || x == e by {
            if v@.contains(x) {
                let k = choose|k: int| 0 <= k < v@.len() && v@[k] == x;
                if k < pos {
                    assert(before[k] == x);
                } else if k > pos {
                    assert(before[k - 1] == x);
                }
            }
            if before.contains(x) {
                let k = choose|k: int| 0 <= k < before.len() && before[k] == x;
                if k < pos {
                    assert(v@[k] == x);
                } else {
                    assert(v@[k + 1] == x);
                }
            }
            if x == e {
                assert(v@[pos as int] == e);
            }
        }
    }
}

/// An actor found by id stands in the list with that id.
proof fn lemma_actor_with_id_member(hostiles: Seq<Actor>, id: ActorId, i: int)
    requires
        actor_with_id(hostiles, id, i) is Some,
    ensures
        exists|j: int| 0 <= i <= j < hostiles.len() && hostiles[j] == actor_with_id(hostiles, id, i).unwrap()
            && hostiles[j].id == id,
    decreases hostiles.len() - i,
{
    if 0 <= i < hostiles.len() && hostiles[i].id != id {
        lemma_actor_with_id_member(hostiles, id, i + 1);
        let j = choose|j: int| 0 <= i + 1 <= j < hostiles.len() && hostiles[j] == actor_with_id(hostiles, id, i + 1).unwrap()
            && hostiles[j].id == id;
        assert(0 <= i <= j < hostiles.len());
    }
}

/// Two id lists, each strictly ordered by candidate order, with the same
/// members are the same list.
proof fn lemma_ordered_ids_unique(g: ExplorationGame, s1: Seq<ActorId>, s2: Seq<ActorId>)
    requires
        forall|i: int, k: int| 0 <= i < k < s1.len() ==> g.target_before(#[trigger] s1[i], #[trigger] s1[k]),
        forall|i: int, k: int| 0 <= i < k < s2.len() ==> g.target_before(#[trigger] s2[i], #[trigger] s2[k]),
        forall|x: ActorId| s1.contains(x) <==> s2.contains(x),
    ensures
        s1 == s2,
    decreases s1.len(),
{
    if s1.len() == 0 {
        if s2.len() > 0 {
            assert(s2.contains(s2[0]));
        }
        assert(s1 =~= s2);
    } else {
        assert(s1.contains(s1[0]));
        assert(s2.len() > 0);
        let a = s1[0];
        let b = s2[0];
        if a != b {
            assert(s2.contains(a));
            let k = choose|k: int| 0 <= k < s2.len() && s2[k] == a;
            assert(k > 0);
            assert(g.target_before(b, a));
            assert(s2.contains(b));
            assert(s1.contains(b));
            let m = choose|m: int| 0 <= m < s1.len() && s1[m] == b;
            assert(m > 0);
            assert(g.target_before(a, b));
            assert(false);
        }
        let t1 = s1.drop_first();
        let t2 = s2.drop_first();
        assert forall|x: ActorId| t1.contains(x) <==> t2.contains(x) by {
            if t1.contains(x) {
                let i = choose|i: int| 0 <= i < t1.len() && t1[i] == x;
                assert(s1[i + 1] == x);
                assert(g.target_before(a, x));
                assert(s1.contains(x));
                let k = choose|k: int| 0 <= k < s2.len() && s2[k] == x;
                assert(k != 0);
                assert(t2[k - 1] == x);
            }
            if t2.contains(x) {
                let i = choose|i: int| 0 <= i < t2.len() && t2[i] == x;
                assert(s2[i + 1] == x);
                assert(g.target_before(b, x));
                assert(s2.contains(x));
                let k = choose|k: int| 0 <= k < s1.len() && s1[k] == x;
                assert(k != 0);
                assert(t1[k - 1] == x);
            }
        }
        assert forall|i: int, k: int| 0 <= i < k < t1.len() implies g.target_before(#[trigger] t1[i], #[trigger] t1[k]) by {
            assert(t1[i] == s1[i + 1] && t1[k] == s1[k + 1]);
        }
        assert forall|i: int, k: int| 0 <= i < k < t2.len() implies g.target_before(#[trigger] t2[i], #[trigger] t2[k]) by {
            assert(t2[i] == s2[i + 1] && t2[k] == s2[k + 1]);
        }
        lemma_ordered_ids_unique(g, t1, t2);
        assert(s1 =~= s2) by {
            assert forall|i: int| 0 <= i < s1.len() implies s1[i] == s2[i] by {
                if i > 0 {
                    assert(s1[i] == t1[i - 1]);
                    assert(s2[i] == t2[i - 1]);
                }
            }
        }
    }
}

/// A run has one candidate list per ability slot.
pub proof fn lemma_candidate_list_unique(g: ExplorationGame, slot: AbilitySlot, s1: Seq<ActorId>, s2: Seq<ActorId>)
    requires
        g.candidate_list(slot, s1),
        g.candidate_list(slot, s2),
    ensures
        s1 == s2,
{
    assert forall|x: ActorId| s1.contains(x) <==> s2.contains(x) by {
        if s1.contains(x) {
            let i = choose|i: int| 0 <= i < s1.len() && s1[i] == x;
            assert(g.spec_hostile(s1[i]) is Some);
            lemma_actor_with_id_member(g.hostiles@, x, 0);
            let j = choose|j: int| 0 <= 0 <= j < g.hostiles@.len() && g.hostiles@[j] == g.spec_hostile(x).unwrap()
                && g.hostiles@[j].id == x;
            assert(g.targetable(slot, g.hostiles@[j]));
        }
        if s2.contains(x) {
            let i = choose|i: int| 0 <= i < s2.len() && s2[i] == x;
            assert(g.spec_hostile(s2[i]) is Some);
            lemma_actor_with_id_member(g.hostiles@, x, 0);
            let j = choose|j: int| 0 <= 0 <= j < g.hostiles@.len() && g.hostiles@[j] == g.spec_hostile(x).unwrap()
                && g.hostiles@[j].id == x;
            assert(g.targetable(slot, g.hostiles@[j]));
        }
    }
    lemma_ordered_ids_unique(g, s1, s2);
}

/// Cycling forward moves the selection to the next candidate, and from the
/// last candidate wraps around to the first: from candidate `i` of `n` it
/// selects candidate `(i + 1) mod n`.
pub proof fn lemma_forward_cycle_wraps(pre: ExplorationGame, post: ExplorationGame, r: CommandOutcome, ids: Seq<ActorId>, i: int)
    requires
        cycle_outcome(pre, post, false, r),
        pre.targeting matches Some(t) && pre.candidate_list(t.ability_slot, ids) && t.selected_actor == Some(ids[i]),
        0 <= i < ids.len(),
    ensures
        post.targeting matches Some(u) && u.selected_actor == Some(ids[(i + 1) % (ids.len() as int)]),
{
    let t = pre.targeting.unwrap();
    let w = choose|w: Seq<ActorId>| #[trigger] pre.candidate_list(t.ability_slot, w) && if w.len() == 0 {
        post.targeting is None
    } else {
        let n = w.len() as int;
        let current = match t.selected_actor {
            Some(id) => if w.contains(id) { Some(choose|i: int| 0 <= i < n && w[i] == id
                && forall|k: int| 0 <= k < i ==> w[k] != id) } else { None },
            None => None,
        };
        let index = match current { Some(i) => if i + 1 == n { 0 } else { i + 1 }, None => 0 };
        post.targeting == Some(TargetingState {
            selected_actor: Some(w[index]),
            cursor: pre.spec_hostile(w[index]).unwrap().position,
            ..t
        })
    };
    lemma_candidate_list_unique(pre, t.ability_slot, w, ids);
    let n = ids.len() as int;
    let id = ids[i];
    assert(ids.contains(id));
    assert forall|k: int| 0 <= k < i implies ids[k] != id by {
        assert(pre.target_before(ids[k], ids[i]));
    }
    let c = choose|c: int| 0 <= c < n && ids[c] == id && forall|k: int| 0 <= k < c ==> ids[k] != id;
    if c < i {
        assert(ids[c] != id);
    } else if c > i {
        assert(ids[i] != id);
    }
    assert(c == i);
    if i + 1 == n {
        assert((i + 1) % n == 0) by {
            vstd::arithmetic::div_mod::lemma_fundamental_div_mod_converse(i + 1, n, 1, 0);
        }
    } else {
        assert((i + 1) % n == i + 1) by {
            vstd::arithmetic::div_mod::lemma_fundamental_div_mod_converse(i + 1, n, 0, i + 1);
        }
    }
}

/// Cycling backward moves the selection to the previous candidate, and from
/// the first candidate wraps around to the last: from candidate `i` of `n`
/// it selects candidate `(i + n - 1) mod n`.
pub proof fn lemma_backward_cycle_wraps(pre: ExplorationGame, post: ExplorationGame, r: CommandOutcome, ids: Seq<ActorId>, i: int)
    requires
        cycle_outcome(pre, post, true, r),
        pre.targeting matches Some(t) && pre.candidate_list(t.ability_slot, ids) && t.selected_actor == Some(ids[i]),
        0 <= i < ids.len(),
    ensures
        post.targeting matches Some(u) && u.selected_actor == Some(ids[(i + ids.len() - 1) % (ids.len() as int)]),
{
    let t = pre.targeting.unwrap();
    let w = choose|w: Seq<ActorId>| #[trigger] pre.candidate_list(t.ability_slot, w) && if w.len() == 0 {
        post.targeting is None
    } else {
        let n = w.len() as int;
        let current = match t.selected_actor {
            Some(id) => if w.contains(id) { Some(choose|i: int| 0 <= i < n && w[i] == id
                && forall|k: int| 0 <= k < i ==> w[k] != id) } else { None },
            None => None,
        };
        let index = match current { Some(i) => if i == 0 { n - 1 } else { i - 1 }, None => n - 1 };
        post.targeting == Some(TargetingState {
            selected_actor: Some(w[index]),
            cursor: pre.spec_hostile(w[index]).unwrap().position,
            ..t
        })
    };
    lemma_candidate_list_unique(pre, t.ability_slot, w, ids);
    let n = ids.len() as int;
    let id = ids[i];
    assert(ids.contains(id));
    assert forall|k: int| 0 <= k < i implies ids[k] != id by {
        assert(pre.target_before(ids[k], ids[i]));
    }
    let c = choose|c: int| 0 <= c < n && ids[c] == id && forall|k: int| 0 <= k < c ==> ids[k] != id;
    if c < i {
        assert(ids[c] != id);
    } else if c > i {
        assert(ids[i] != id);
    }
    assert(c == i);
    if i == 0 {
        assert((i + n - 1) % n == n - 1) by {
            vstd::arithmetic::div_mod::lemma_fundamental_div_mod_converse(n - 1, n, 0, n - 1);
        }
    } else {
        assert((i + n - 1) % n == i - 1) by {
            vstd::arithmetic::div_mod::lemma_fundamental_div_mod_converse(i + n - 1, n, 1, i - 1);
        }
    }
}

/// A Grave Bolt that fires is paid for: the player's mana drops by the
/// ability's cost before the turn's regeneration, and the result is kept
/// between zero and the maximum.
pub proof fn lemma_fired_bolt_costs_mana(pre: ExplorationGame, post: ExplorationGame)
    requires
        confirm_outcome(pre, post, CommandOutcome::Advanced),
    ensures
        ({
            let cost = pre.targeted_ability(pre.targeting.unwrap()).mana_cost as int;
            let regen = pre.spec_class_def().mana_regeneration as int;
            let v = pre.player.mana - cost + regen;
            post.player.mana == if v < 0 { 0 } else if v > pre.player.max_mana { pre.player.max_mana as int } else { v }
        }),
{
}

} // verus!
