//! Player movement: steps, diagonal corner rules, doors, bump attacks and the exit.

use super::combat::{destroyed_text, rolled_damage, strike_text};
use super::run::{regenerated, ticked};
use super::targeting::actor_at;
use super::{
    direction_delta, kind_name, log_push, step_from, visible_region, walkable, Actor, CommandOutcome, Direction,
    ExplorationGame, RunStatus,
};
use crate::text::text;
use crate::world::{shifted, Position, Tile};
use vstd::prelude::*;

verus! {

/// `post` is `pre` one turn later: the turn counter, mana regeneration,
/// and (when `tick` holds) cooldown recovery.
pub open spec fn turn_passed(pre: ExplorationGame, post: ExplorationGame, tick: bool) -> bool {
    &&& post.turn == pre.turn + 1
    &&& post.player.mana == regenerated(pre.player.mana as int, pre.spec_class_def().mana_regeneration as int,
        pre.player.max_mana as int)
    &&& post.abilities@ == if tick { ticked(pre.abilities@) } else { pre.abilities@ }
}

/// A bump attack on the first hostile at `dst`, then a turn.
pub open spec fn bump_result(pre: ExplorationGame, post: ExplorationGame, dst: Position) -> bool {
    let a = actor_at(pre.hostiles@, dst, 0).unwrap();
    let d = rolled_damage(pre.map.seed, pre.combat_roll_count, pre.player.damage as int, a.armor as int);
    &&& exists|i: int| 0 <= i < pre.hostiles@.len() && pre.hostiles@[i] == a
        && (forall|k: int| 0 <= k < i ==> pre.hostiles@[k].position != dst)
        && post.hostiles@ == if a.health - d <= 0 {
            pre.hostiles@.remove(i)
        } else {
            pre.hostiles@.update(i, Actor { health: (a.health - d) as i32, ..a })
        }
    &&& post.log() == if a.health - d <= 0 {
        log_push(log_push(pre.log(), strike_text(kind_name(a.kind), d)), destroyed_text(kind_name(a.kind)))
    } else {
        log_push(pre.log(), strike_text(kind_name(a.kind), d))
    }
    &&& post == (ExplorationGame {
        hostiles: post.hostiles,
        events: post.events,
        combat_roll_count: (pre.combat_roll_count + 1) as u64,
        turn: post.turn,
        player: super::Player { mana: post.player.mana, ..pre.player },
        abilities: post.abilities,
        ..pre
    })
}

/// A forced door at `dst`, then a turn and a fresh look around.
pub open spec fn door_result(pre: ExplorationGame, post: ExplorationGame, dst: Position) -> bool {
    &&& post.map.same_except_tile(&pre.map, dst, Tile::OpenDoor)
    &&& post.visible@ == visible_region(&post.map, pre.player.position, pre.vision_radius() as int)
    &&& post.explored@ == pre.explored@.union(post.visible@)
    &&& post.log() == log_push(pre.log(), "You force open the ancient door."@)
    &&& post == (ExplorationGame {
        map: post.map,
        visible: post.visible,
        explored: post.explored,
        events: post.events,
        turn: post.turn,
        player: super::Player { mana: post.player.mana, ..pre.player },
        abilities: post.abilities,
        ..pre
    })
}

/// A step onto `dst`, then a turn and a fresh look around; the exit wins.
pub open spec fn step_result(pre: ExplorationGame, post: ExplorationGame, dst: Position) -> bool {
    &&& post.player.position == dst
    &&& post.visible@ == visible_region(&pre.map, dst, pre.vision_radius() as int)
    &&& post.explored@ == pre.explored@.union(post.visible@)
    &&& post.status == if dst == pre.map.exit { RunStatus::Victory } else { pre.status }
    &&& post.log() == log_push(pre.log(), if dst == pre.map.exit {
        "You escape the ossuary alive."@
    } else {
        "You advance through the dark."@
    })
    &&& post == (ExplorationGame {
        visible: post.visible,
        explored: post.explored,
        events: post.events,
        turn: post.turn,
        status: post.status,
        player: super::Player {
            position: dst,
            mana: post.player.mana,
            ..pre.player
        },
        abilities: post.abilities,
        ..pre
    })
}

/// What a move command does.
pub open spec fn move_outcome(pre: ExplorationGame, post: ExplorationGame, direction: Direction, r: CommandOutcome) -> bool {
    &&& (r == CommandOutcome::Rejected <==> pre.move_refused(direction))
    &&& (r == CommandOutcome::Rejected ==> post == pre)
    &&& (r == CommandOutcome::Advanced ==> {
        let dst = step_from(pre.player.position, direction);
        &&& turn_passed(pre, post, true)
        &&& match actor_at(pre.hostiles@, dst, 0) {
            Some(a) => bump_result(pre, post, dst),
            None => if pre.map.tile_is(dst, Tile::ClosedDoor) {
                door_result(pre, post, dst)
            } else {
                step_result(pre, post, dst)
            },
        }
    })
}

impl ExplorationGame {
    /// A diagonal step needs both orthogonal neighbours walkable; straight
    /// steps need nothing extra.
    pub open spec fn corners_clear(&self, d: Direction) -> bool {
        let (dx, dy) = direction_delta(d);
        dx == 0 || dy == 0 || (self.map.is_walkable_at(shifted(self.player.position, dx, 0))
            && self.map.is_walkable_at(shifted(self.player.position, 0, dy)))
    }

    /// Whether a move in direction `d` is refused.
    pub open spec fn move_refused(&self, d: Direction) -> bool {
        let dst = step_from(self.player.position, d);
        ||| self.map.tile_at(dst) is None
        ||| !self.corners_clear(d)
        ||| (actor_at(self.hostiles@, dst, 0) is None && self.map.tile_at(dst) != Some(Tile::ClosedDoor)
            && !walkable(self.map.tile_at(dst).unwrap()))
    }

    /// Move one step, attack the hostile in the way, or force a door. A
    /// step onto the exit wins at once. Moving off the map, into a wall or
    /// past a blocked corner is refused and costs nothing.
    pub(crate) fn move_player(&mut self, direction: Direction) -> (r: CommandOutcome)
        requires
            old(self).wf(),
            old(self).turn < u64::MAX,
            old(self).combat_roll_count < u64::MAX,
        ensures
            final(self).wf(),
            final(self).combat_roll_count + final(self).hostiles@.len() <= old(self).combat_roll_count + 2 * old(self).hostiles@.len() + 1,
            move_outcome(*old(self), *final(self), direction, r),
    {
        let (dx, dy) = direction.delta();
        let position = self.player.position;
        let destination = position.offset(dx, dy);
        let tile = match self.map.tile(destination) {
            Some(t) => t,
            None => {
                return CommandOutcome::Rejected;
            },
        };
        if dx != 0 && dy != 0 {
            let horizontal = self.map.tile(position.offset(dx, 0));
            let vertical = self.map.tile(position.offset(0, dy));
            let h_ok = match horizontal {
                Some(t) => t.is_walkable(),
                None => false,
            };
            let v_ok = match vertical {
                Some(t) => t.is_walkable(),
                None => false,
            };
            if !h_ok || !v_ok {
                return CommandOutcome::Rejected;
            }
        }
        match self.hostile_at(destination) {
            Some(index) => {
                self.bump_attack(index, destination);
                return CommandOutcome::Advanced;
            },
            None => {},
        }
        if tile == Tile::ClosedDoor {
            self.force_door(destination);
            return CommandOutcome::Advanced;
        }
        if !tile.is_walkable() {
            return CommandOutcome::Rejected;
        }
        self.step_to(destination);
        CommandOutcome::Advanced
    }

    fn bump_attack(&mut self, index: usize, dst: Position)
        requires
            old(self).wf(),
            old(self).turn < u64::MAX,
            old(self).combat_roll_count < u64::MAX,
            index < old(self).hostiles@.len(),
            old(self).hostiles@[index as int].position == dst,
            actor_at(old(self).hostiles@, dst, 0) == Some(old(self).hostiles@[index as int]),
            forall|k: int| 0 <= k < index ==> old(self).hostiles@[k].position != dst,
        ensures
            final(self).wf(),
            turn_passed(*old(self), *final(self), true),
            bump_result(*old(self), *final(self), dst),
    {
        assert(super::actor_ok(&self.map, self.hostiles@[index as int]));
        self.basic_attack(index);
        proof {
            assert(self.hostiles_wf()) by {
                assert forall|i: int| 0 <= i < self.hostiles@.len() implies super::actor_ok(&self.map, #[trigger] self.hostiles@[i])
                    && self.hostiles@[i].id.0 < self.next_actor_id by {
                    let a = old(self).hostiles@[index as int];
                    if a.health - rolled_damage(old(self).map.seed, old(self).combat_roll_count, old(self).player.damage as int, a.armor as int) <= 0 {
                        if i < index { assert(self.hostiles@[i] == old(self).hostiles@[i]); }
                        else { assert(self.hostiles@[i] == old(self).hostiles@[i + 1]); }
                    } else {
                        if i != index { assert(self.hostiles@[i] == old(self).hostiles@[i]); }
                    }
                }
                assert forall|i: int, j: int| 0 <= i < j < self.hostiles@.len() implies
                    (#[trigger] self.hostiles@[i]).id != (#[trigger] self.hostiles@[j]).id by {
                    let a = old(self).hostiles@[index as int];
                    if a.health - rolled_damage(old(self).map.seed, old(self).combat_roll_count, old(self).player.damage as int, a.armor as int) <= 0 {
                        let oi = if i < index { i } else { i + 1 };
                        let oj = if j < index { j } else { j + 1 };
                        assert(self.hostiles@[i] == old(self).hostiles@[oi]);
                        assert(self.hostiles@[j] == old(self).hostiles@[oj]);
                    } else {
                        assert(self.hostiles@[i].id == old(self).hostiles@[i].id);
                        assert(self.hostiles@[j].id == old(self).hostiles@[j].id);
                    }
                }
            }
        }
        self.advance_turn(true);
    }

    fn force_door(&mut self, dst: Position)
        requires
            old(self).wf(),
            old(self).turn < u64::MAX,
            old(self).map.tile_is(dst, Tile::ClosedDoor),
        ensures
            final(self).wf(),
            turn_passed(*old(self), *final(self), true),
            door_result(*old(self), *final(self), dst),
    {
        self.map.open_door(dst);
        proof {
            assert forall|i: int| 0 <= i < self.hostiles@.len() implies super::actor_ok(&self.map, #[trigger] self.hostiles@[i]) by {
                assert(super::actor_ok(&old(self).map, self.hostiles@[i]));
            }
            assert(self.map.in_bounds(self.player.position));
        }
        self.advance_turn(true);
        self.recompute_visibility();
        self.push_event(text("You force open the ancient door."));
    }

    fn step_to(&mut self, dst: Position)
        requires
            old(self).wf(),
            old(self).turn < u64::MAX,
            old(self).map.in_bounds(dst),
        ensures
            final(self).wf(),
            turn_passed(*old(self), *final(self), true),
            step_result(*old(self), *final(self), dst),
    {
        self.player.position = dst;
        self.advance_turn(true);
        self.recompute_visibility();
        if dst == self.map.exit {
            self.status = RunStatus::Victory;
            self.push_event(text("You escape the ossuary alive."));
        } else {
            self.push_event(text("You advance through the dark."));
        }
    }
}

} // verus!
