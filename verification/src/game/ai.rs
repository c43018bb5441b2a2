//! Enemy activation, telegraphs, pursuit, retreat and melee.

use super::combat::player_hit;
use super::pathing::{can_step, first_step_to, is_shortest_route_to, next_step_toward, route_reaches, step_ok};
use super::targeting::{actor_with_id, entry_lt, insert_sorted};
use super::{
    kind_name, line_of_sight, log_push, visible_region, Actor, ActorId, ActorKind, ExplorationGame, RunStatus,
    Telegraph, FIELD_OF_VIEW_RADIUS,
};
use super::visibility::has_line_of_sight;
use crate::text::{decimal, push_decimal, text};
use crate::world::{cheb, Position, PositionSet, Tile};
use vstd::prelude::*;

verus! {

/// "`kind` `id`", the way messages name a hostile.
pub open spec fn actor_label(kind: ActorKind, id: ActorId) -> Seq<char> {
    kind_name(kind) + " "@ + decimal(id.0 as int)
}

/// What an enemy turn may change: hostile positions, alertness and
/// telegraphs, doors, the player's health, the phase, the log and the
/// combat stream. Hostiles keep their order, ids and statistics.
pub open spec fn ai_frame(pre: ExplorationGame, post: ExplorationGame) -> bool {
    &&& post == (ExplorationGame {
        hostiles: post.hostiles,
        map: post.map,
        player: super::Player { health: post.player.health, ..pre.player },
        status: post.status,
        events: post.events,
        combat_roll_count: post.combat_roll_count,
        ..pre
    })
    &&& post.hostiles@.len() == pre.hostiles@.len()
    &&& forall|i: int| 0 <= i < pre.hostiles@.len() ==> {
        let a = #[trigger] post.hostiles@[i];
        let b = pre.hostiles@[i];
        &&& a.id == b.id
        &&& a.kind == b.kind
        &&& a.health == b.health
        &&& a.max_health == b.max_health
        &&& a.armor == b.armor
        &&& a.damage == b.damage
    }
    &&& post.map.width == pre.map.width
    &&& post.map.height == pre.map.height
    &&& post.map.seed == pre.map.seed
    &&& post.map.exit == pre.map.exit
    &&& post.map.keeps_terrain_of(&pre.map)
    &&& pre.combat_roll_count <= post.combat_roll_count <= pre.combat_roll_count + 1
    &&& (post.status == pre.status || post.status == RunStatus::Death)
}

/// What a pursuit by hostile `id` does.
pub open spec fn pursue_outcome(pre: ExplorationGame, post: ExplorationGame, id: ActorId) -> bool {
    match pre.spec_hostile(id) {
        None => post == pre,
        Some(a) => {
            let occ = pre.others_positions(id);
            let goal = pre.player.position;
            if !route_reaches(&pre.map, occ, goal, a.position, goal) {
                post == pre
            } else {
                exists|s: Position| #[trigger] pre.pursuit_first_step(id, a.position, s) && {
                    if s == goal {
                        player_hit(pre, post, a.damage as int, actor_label(a.kind, id))
                    } else if pre.map.tile_is(s, Tile::ClosedDoor) {
                        &&& post.map.same_except_tile(&pre.map, s, Tile::OpenDoor)
                        &&& post.log() == log_push(pre.log(), actor_label(a.kind, id) + " opens a door."@)
                        &&& post == (ExplorationGame { map: post.map, events: post.events, ..pre })
                    } else {
                        exists|i: int| 0 <= i < pre.hostiles@.len() && pre.hostiles@[i] == a
                            && post.hostiles@ == pre.hostiles@.update(i, Actor { position: s, ..a })
                            && post == (ExplorationGame { hostiles: post.hostiles, ..pre })
                    }
                }
            }
        },
    }
}

/// "Ghoul `id` marks (`x`, `y`) for a lunge." or the cultist's hex variant.
pub open spec fn mark_text(kind: ActorKind, id: ActorId, p: Position) -> Seq<char> {
    kind_name(kind) + " "@ + decimal(id.0 as int) + " marks ("@ + decimal(p.x as int) + ", "@ + decimal(p.y as int)
        + if kind == ActorKind::Ghoul { ") for a lunge."@ } else { ") with a hex."@ }
}

/// What a retreat by hostile `id` does.
pub open spec fn retreat_outcome(pre: ExplorationGame, post: ExplorationGame, id: ActorId) -> bool {
    match pre.spec_hostile(id) {
        None => post == pre,
        Some(a) => match pre.retreat_pick(id, a.position, 8).0 {
            None => post == pre,
            Some(p) => {
                &&& exists|i: int| 0 <= i < pre.hostiles@.len() && pre.hostiles@[i] == a
                    && post.hostiles@ == pre.hostiles@.update(i, Actor { position: p, ..a })
                &&& post.log() == log_push(pre.log(), "Cultist "@ + decimal(id.0 as int) + " retreats."@)
                &&& post == (ExplorationGame { hostiles: post.hostiles, events: post.events, ..pre })
            },
        },
    }
}

/// What a telegraph `t` of hostile `id` does when it comes due.
pub open spec fn resolve_outcome(pre: ExplorationGame, post: ExplorationGame, id: ActorId, t: Telegraph) -> bool {
    match pre.spec_hostile(id) {
        None => post == pre,
        Some(a) => {
            let target = super::telegraph_target(t);
            let still = pre.player.position == target && line_of_sight(&pre.map, a.position, target);
            match t {
                Telegraph::GhoulLunge { .. } => if still && cheb(a.position, target) <= 2 {
                    player_hit(pre, post, a.damage as int, "Ghoul "@ + decimal(id.0 as int) + " lunges and"@)
                } else {
                    let moves = pre.map.is_walkable_at(target) && !pre.held_except(target, id);
                    &&& exists|i: int| 0 <= i < pre.hostiles@.len() && pre.hostiles@[i] == a
                        && post.hostiles@ == if moves { pre.hostiles@.update(i, Actor { position: target, ..a }) } else { pre.hostiles@ }
                    &&& post.log() == log_push(pre.log(), "Ghoul "@ + decimal(id.0 as int) + " lunges through empty darkness."@)
                    &&& post == (ExplorationGame { hostiles: post.hostiles, events: post.events, ..pre })
                },
                Telegraph::CultistHex { .. } => if still && cheb(a.position, target) <= FIELD_OF_VIEW_RADIUS {
                    player_hit(pre, post, a.damage as int, "Cultist "@ + decimal(id.0 as int) + "'s hex"@)
                } else {
                    &&& post.log() == log_push(pre.log(), "Cultist "@ + decimal(id.0 as int) + "'s hex strikes only dust."@)
                    &&& post == (ExplorationGame { events: post.events, ..pre })
                },
            }
        },
    }
}

/// Hostile `id` marks the player's tile with telegraph `t`.
pub open spec fn mark_outcome(pre: ExplorationGame, post: ExplorationGame, id: ActorId, t: Telegraph) -> bool {
    let a = pre.spec_hostile(id).unwrap();
    &&& exists|i: int| 0 <= i < pre.hostiles@.len() && pre.hostiles@[i] == a
        && post.hostiles@ == pre.hostiles@.update(i, Actor { telegraph: Some(t), ..a })
    &&& post.log() == log_push(pre.log(), mark_text(a.kind, id, pre.player.position))
    &&& post == (ExplorationGame { hostiles: post.hostiles, events: post.events, ..pre })
}

/// What the action of an awake hostile `id` does: a due telegraph resolves;
/// otherwise skeletons strike or pursue, ghouls strike, mark a lunge two
/// tiles off in sight, or pursue, and cultists retreat when within two
/// tiles, mark a hex in sight and range, or pursue.
pub open spec fn action_outcome(pre: ExplorationGame, post: ExplorationGame, id: ActorId) -> bool {
    match pre.spec_hostile(id) {
        None => post == pre,
        Some(a) => match a.telegraph {
            Some(t) => exists|mid: ExplorationGame| (exists|i: int| 0 <= i < pre.hostiles@.len() && pre.hostiles@[i] == a
                    && mid.hostiles@ == pre.hostiles@.update(i, Actor { telegraph: None, ..a }))
                && mid == (ExplorationGame { hostiles: mid.hostiles, ..pre })
                && #[trigger] resolve_outcome(mid, post, id, t),
            None => {
                let d = cheb(a.position, pre.player.position);
                let label = actor_label(a.kind, id);
                let sees = line_of_sight(&pre.map, a.position, pre.player.position);
                let goal = pre.player.position;
                match a.kind {
                    ActorKind::Skeleton => if d == 1 {
                        player_hit(pre, post, a.damage as int, label)
                    } else {
                        pursue_outcome(pre, post, id)
                    },
                    ActorKind::Ghoul => if d == 1 {
                        player_hit(pre, post, a.damage as int, label)
                    } else if d == 2 && sees {
                        mark_outcome(pre, post, id, Telegraph::GhoulLunge { target: goal })
                    } else {
                        pursue_outcome(pre, post, id)
                    },
                    ActorKind::Cultist => if d <= 2 {
                        retreat_outcome(pre, post, id)
                    } else if d <= FIELD_OF_VIEW_RADIUS && sees {
                        mark_outcome(pre, post, id, Telegraph::CultistHex { target: goal })
                    } else {
                        pursue_outcome(pre, post, id)
                    },
                }
            },
        },
    }
}

/// One hostile's turn: a dormant hostile wakes when the player is within
/// the sight radius and in line of sight, and an awake hostile acts.
pub open spec fn hostile_turn(pre: ExplorationGame, post: ExplorationGame, id: ActorId) -> bool {
    match pre.spec_hostile(id) {
        None => post == pre,
        Some(a) => {
            let wakes = !a.active && cheb(a.position, pre.player.position) <= FIELD_OF_VIEW_RADIUS
                && line_of_sight(&pre.map, a.position, pre.player.position);
            if wakes {
                exists|mid: ExplorationGame| (exists|i: int| 0 <= i < pre.hostiles@.len() && pre.hostiles@[i] == a
                    && mid.hostiles@ == pre.hostiles@.update(i, Actor { active: true, ..a }))
                    && mid.log() == log_push(pre.log(), actor_label(a.kind, id) + " awakens."@)
                    && mid == (ExplorationGame { hostiles: mid.hostiles, events: mid.events, ..pre })
                    && #[trigger] action_outcome(mid, post, id)
            } else if a.active {
                action_outcome(pre, post, id)
            } else {
                post == pre
            }
        },
    }
}

/// A round of enemy turns: hostiles act one by one in id order, each
/// only while the player lives, and the player's view is then recomputed.
pub open spec fn enemy_round(pre: ExplorationGame, post: ExplorationGame, ids: Seq<ActorId>, chain: Seq<ExplorationGame>) -> bool {
    &&& forall|i: int, k: int| 0 <= i < k < ids.len() ==> (#[trigger] ids[i]).0 < (#[trigger] ids[k]).0
    &&& forall|id: ActorId| ids.contains(id) <==> exists|j: int| 0 <= j < pre.hostiles@.len()
        && #[trigger] pre.hostiles@[j].id == id
    &&& 1 <= chain.len() <= ids.len() + 1
    &&& chain[0] == pre
    &&& forall|i: int| 0 <= i < chain.len() - 1 ==> chain[i].status != RunStatus::Death
        && #[trigger] hostile_turn(chain[i], chain[i + 1], ids[i])
    &&& (chain.len() == ids.len() + 1 || chain.last().status == RunStatus::Death)
    &&& post.visible@ == visible_region(&chain.last().map, chain.last().player.position,
        chain.last().vision_radius() as int)
    &&& post.explored@ == chain.last().explored@.union(post.visible@)
    &&& post == (ExplorationGame { visible: post.visible, explored: post.explored, ..chain.last() })
}

/// `ai_frame` without the bound on combat rolls: what a whole round of
/// enemy turns may change.
pub open spec fn ai_frame_many(pre: ExplorationGame, post: ExplorationGame) -> bool {
    &&& post == (ExplorationGame {
        hostiles: post.hostiles,
        map: post.map,
        player: super::Player { health: post.player.health, ..pre.player },
        status: post.status,
        events: post.events,
        combat_roll_count: post.combat_roll_count,
        ..pre
    })
    &&& post.hostiles@.len() == pre.hostiles@.len()
    &&& forall|i: int| 0 <= i < pre.hostiles@.len() ==> (#[trigger] post.hostiles@[i]).id == pre.hostiles@[i].id
    &&& post.map.width == pre.map.width
    &&& post.map.height == pre.map.height
    &&& post.map.seed == pre.map.seed
    &&& post.map.exit == pre.map.exit
    &&& post.map.keeps_terrain_of(&pre.map)
    &&& pre.combat_roll_count <= post.combat_roll_count
}

pub proof fn lemma_ai_frame_many_step(a: ExplorationGame, b: ExplorationGame, c: ExplorationGame)
    requires
        ai_frame_many(a, b),
        ai_frame(b, c),
    ensures
        ai_frame_many(a, c),
{
    assert forall|i: int| 0 <= i < a.hostiles@.len() implies (#[trigger] c.hostiles@[i]).id == a.hostiles@[i].id by {
        assert(b.hostiles@[i].id == a.hostiles@[i].id);
    }
}

pub proof fn lemma_ai_frame_trans(a: ExplorationGame, b: ExplorationGame, c: ExplorationGame)
    requires
        ai_frame(a, b),
        ai_frame(b, c),
        b.combat_roll_count == a.combat_roll_count || c.combat_roll_count == b.combat_roll_count,
    ensures
        ai_frame(a, c),
{
    assert forall|i: int| 0 <= i < a.hostiles@.len() implies {
        let x = #[trigger] c.hostiles@[i];
        let y = a.hostiles@[i];
        &&& x.id == y.id
        &&& x.kind == y.kind
        &&& x.health == y.health
        &&& x.max_health == y.max_health
        &&& x.armor == y.armor
        &&& x.damage == y.damage
    } by {
        assert(b.hostiles@[i].id == a.hostiles@[i].id);
    }
}

impl ExplorationGame {
    /// Where the hostiles other than `id` stand.
    pub open spec fn others_positions(&self, id: ActorId) -> Set<Position> {
        Set::new(|p: Position| exists|i: int| 0 <= i < self.hostiles@.len() && self.hostiles@[i].id != id
            && #[trigger] self.hostiles@[i].position == p)
    }

    /// The hostile with `id` strikes the player in melee.
    fn enemy_melee(&mut self, id: ActorId)
        requires
            old(self).wf(),
            old(self).combat_roll_count < u64::MAX,
        ensures
            final(self).wf(),
            ai_frame(*old(self), *final(self)),
            match old(self).spec_hostile(id) {
                None => *final(self) == *old(self),
                Some(a) => player_hit(*old(self), *final(self), a.damage as int, actor_label(a.kind, id)),
            },
    {
        let (kind, damage) = match self.hostile(id) {
            Some(a) => (a.kind, a.damage),
            None => {
                return;
            },
        };
        let mut source = text(kind.name());
        source.append(" ");
        push_decimal(&mut source, id.0 as i64);
        proof {
            reveal_strlit(" ");
        }
        self.damage_player(damage, source.as_str());
    }

    /// The positions of the other hostiles as a set over the map.
    fn occupied_by_others(&self, id: ActorId) -> (s: PositionSet)
        requires
            self.wf(),
        ensures
            s@ == self.others_positions(id),
    {
        let mut s = PositionSet::new(self.map.width, self.map.height);
        let mut i: usize = 0;
        while i < self.hostiles.len()
            invariant
                self.wf(),
                s.wf(),
                s.width == self.map.width,
                s.height == self.map.height,
                i <= self.hostiles@.len(),
                forall|p: Position| #[trigger] s@.contains(p) <==> exists|k: int| 0 <= k < i && self.hostiles@[k].id != id
                    && #[trigger] self.hostiles@[k].position == p,
            decreases self.hostiles@.len() - i,
        {
            let a = self.hostiles[i];
            assert(super::actor_ok(&self.map, a));
            let ghost before = s@;
            if a.id != id {
                proof {
                    crate::world::lemma_grid_index_bounds(self.map.width as int, self.map.height as int, a.position);
                }
                s.insert(a.position);
            }
            proof {
                assert forall|p: Position| #[trigger] s@.contains(p) <==> exists|k: int| 0 <= k < i + 1 && self.hostiles@[k].id != id
                    && #[trigger] self.hostiles@[k].position == p by {
                    if exists|k: int| 0 <= k < i + 1 && self.hostiles@[k].id != id && #[trigger] self.hostiles@[k].position == p {
                        let k = choose|k: int| 0 <= k < i + 1 && self.hostiles@[k].id != id && #[trigger] self.hostiles@[k].position == p;
                        if k < i {
                            assert(before.contains(p));
                        }
                    }
                    if before.contains(p) {
                        let k = choose|k: int| 0 <= k < i && self.hostiles@[k].id != id && #[trigger] self.hostiles@[k].position == p;
                        assert(0 <= k < i + 1);
                    }
                }
            }
            i = i + 1;
        }
        assert(s@ =~= self.others_positions(id));
        s
    }

    /// The hostile with `id` closes in on the player along a pursuit route:
    /// it strikes when the next step is the player's tile, opens a closed
    /// door in the way (staying put), or steps forward. Without a route it
    /// stays put.
    fn pursue(&mut self, id: ActorId)
        requires
            old(self).wf(),
            old(self).combat_roll_count < u64::MAX,
            old(self).events@.len() <= 5,
        ensures
            final(self).wf(),
            ai_frame(*old(self), *final(self)),
            pursue_outcome(*old(self), *final(self), id),
    {
        let index = match self.hostile_index(id) {
            Some(i) => i,
            None => {
                return;
            },
        };
        let a = self.hostiles[index];
        assert(super::actor_ok(&self.map, a));
        let occupied = self.occupied_by_others(id);
        let goal = self.player.position;
        let next = match next_step_toward(&self.map, a.position, goal, &occupied) {
            Some(n) => n,
            None => {
                return;
            },
        };
        proof {
            assert(self.pursuit_first_step(id, a.position, next));
        }
        if next == goal {
            self.enemy_melee(id);
            return;
        }
        proof {
            let path = choose|path: Seq<Position>| #[trigger] is_shortest_route_to(&self.map, occupied@, goal, a.position, goal, path)
                && path.len() >= 2 && path[1] == next;
            assert(super::pathing::pursuit_move(&self.map, occupied@, goal, path[0], path[1]));
            self.map.lemma_tile_exists_any(next);
        }
        let is_door = match self.map.tile(next) {
            Some(Tile::ClosedDoor) => true,
            _ => false,
        };
        if is_door {
            self.map.open_door(next);
            let mut message = text(a.kind.name());
            message.append(" ");
            push_decimal(&mut message, id.0 as i64);
            message.append(" opens a door.");
            proof {
                reveal_strlit(" ");
                reveal_strlit(" opens a door.");
                assert forall|i: int| 0 <= i < self.hostiles@.len() implies super::actor_ok(&self.map, #[trigger] self.hostiles@[i]) by {
                    assert(super::actor_ok(&old(self).map, self.hostiles@[i]));
                }
            }
            self.push_event(message);
        } else {
            let mut moved = a;
            moved.position = next;
            self.hostiles.set(index, moved);
            proof {
                assert(self.hostiles_wf()) by {
                    assert forall|i: int| 0 <= i < self.hostiles@.len() implies super::actor_ok(&self.map, #[trigger] self.hostiles@[i])
                        && self.hostiles@[i].id.0 < self.next_actor_id by {
                        if i != index {
                            assert(self.hostiles@[i] == old(self).hostiles@[i]);
                        }
                    }
                    assert forall|i: int, j: int| 0 <= i < j < self.hostiles@.len() implies
                        (#[trigger] self.hostiles@[i]).id != (#[trigger] self.hostiles@[j]).id by {
                        assert(self.hostiles@[i].id == old(self).hostiles@[i].id);
                        assert(self.hostiles@[j].id == old(self).hostiles@[j].id);
                    }
                }
            }
        }
    }

    /// Whether `p` holds the player or a hostile other than `id`.
    pub open spec fn held_except(&self, p: Position, id: ActorId) -> bool {
        p == self.player.position || exists|i: int| 0 <= i < self.hostiles@.len() && Some(id) != Some(self.hostiles@[i].id)
            && self.hostiles@[i].position == p
    }

    /// The retreat a cultist standing at `from` picks among the first `k`
    /// directions: the first strictly farther reachable free tile beats
    /// later ones that are only as far.
    pub open spec fn retreat_pick(&self, id: ActorId, from: Position, k: int) -> (Option<Position>, int)
        decreases k,
    {
        if k <= 0 {
            (None, cheb(from, self.player.position))
        } else {
            let prev = self.retreat_pick(id, from, k - 1);
            let c = super::pathing::neighbour(from, k - 1);
            let dc = cheb(c, self.player.position);
            if dc > prev.1 && step_ok(&self.map, from, c) && !self.held_except(c, id) {
                (Some(c), dc)
            } else {
                prev
            }
        }
    }

    /// The cultist with `id` backs away to the tile that most increases its
    /// distance from the player, if any.
    fn retreat(&mut self, id: ActorId)
        requires
            old(self).wf(),
            old(self).events@.len() <= 5,
        ensures
            final(self).wf(),
            ai_frame(*old(self), *final(self)),
            retreat_outcome(*old(self), *final(self), id),
    {
        let index = match self.hostile_index(id) {
            Some(i) => i,
            None => {
                return;
            },
        };
        let a = self.hostiles[index];
        assert(super::actor_ok(&self.map, a));
        let start = a.position;
        let mut best: Option<Position> = None;
        let mut best_distance = start.chebyshev_distance(self.player.position);
        let dirs = super::Direction::all();
        let mut k: usize = 0;
        while k < 8
            invariant
                self.wf(),
                super::actor_ok(&self.map, a),
                start == a.position,
                k <= 8,
                dirs@ == seq![
                    super::Direction::North, super::Direction::NorthEast, super::Direction::East, super::Direction::SouthEast,
                    super::Direction::South, super::Direction::SouthWest, super::Direction::West, super::Direction::NorthWest
                ],
                (best, best_distance as int) == self.retreat_pick(id, start, k as int),
                best matches Some(p) ==> self.map.in_bounds(p),
            decreases 8 - k,
        {
            let (dx, dy) = dirs[k].delta();
            let cand = start.offset(dx, dy);
            assert(cand == super::pathing::neighbour(start, k as int));
            let distance = cand.chebyshev_distance(self.player.position);
            if distance > best_distance && can_step(&self.map, start, cand) && !self.position_occupied(cand, Some(id)) {
                proof {
                    self.map.lemma_tile_exists_any(cand);
                }
                best = Some(cand);
                best_distance = distance;
            }
            k = k + 1;
        }
        match best {
            Some(p) => {
                let mut moved = a;
                moved.position = p;
                self.hostiles.set(index, moved);
                let mut message = text("Cultist ");
                push_decimal(&mut message, id.0 as i64);
                message.append(" retreats.");
                proof {
                    reveal_strlit("Cultist ");
                    reveal_strlit(" retreats.");
                    assert(self.hostiles_wf()) by {
                        assert forall|i: int| 0 <= i < self.hostiles@.len() implies super::actor_ok(&self.map, #[trigger] self.hostiles@[i])
                            && self.hostiles@[i].id.0 < self.next_actor_id by {
                            if i != index {
                                assert(self.hostiles@[i] == old(self).hostiles@[i]);
                            }
                        }
                        assert forall|i: int, j: int| 0 <= i < j < self.hostiles@.len() implies
                            (#[trigger] self.hostiles@[i]).id != (#[trigger] self.hostiles@[j]).id by {
                            assert(self.hostiles@[i].id == old(self).hostiles@[i].id);
                            assert(self.hostiles@[j].id == old(self).hostiles@[j].id);
                        }
                    }
                }
                self.push_event(message);
            },
            None => {},
        }
    }

    /// Carry out a telegraph of hostile `id` that has come due.
    fn resolve_telegraph(&mut self, id: ActorId, telegraph: Telegraph)
        requires
            old(self).wf(),
            old(self).combat_roll_count < u64::MAX,
            old(self).map.in_bounds(super::telegraph_target(telegraph)),
        ensures
            final(self).wf(),
            ai_frame(*old(self), *final(self)),
            resolve_outcome(*old(self), *final(self), id, telegraph),
    {
        let index = match self.hostile_index(id) {
            Some(i) => i,
            None => {
                return;
            },
        };
        let a = self.hostiles[index];
        assert(super::actor_ok(&self.map, a));
        let target = telegraph.target();
        let still = self.player.position == target && has_line_of_sight(&self.map, a.position, target);
        let mut label = text(match telegraph {
            Telegraph::GhoulLunge { .. } => "Ghoul ",
            Telegraph::CultistHex { .. } => "Cultist ",
        });
        push_decimal(&mut label, id.0 as i64);
        proof {
            reveal_strlit("Ghoul ");
            reveal_strlit("Cultist ");
        }
        match telegraph {
            Telegraph::GhoulLunge { .. } => {
                if still && a.position.chebyshev_distance(target) <= 2 {
                    label.append(" lunges and");
                    proof { reveal_strlit(" lunges and"); }
                    self.damage_player(a.damage, label.as_str());
                } else {
                    let walkable_target = match self.map.tile(target) {
                        Some(t) => t.is_walkable(),
                        None => false,
                    };
                    if walkable_target && !self.position_occupied(target, Some(id)) {
                        let mut moved = a;
                        moved.position = target;
                        self.hostiles.set(index, moved);
                        proof {
                            assert(self.hostiles_wf()) by {
                                assert forall|i: int| 0 <= i < self.hostiles@.len() implies super::actor_ok(&self.map, #[trigger] self.hostiles@[i])
                                    && self.hostiles@[i].id.0 < self.next_actor_id by {
                                    if i != index {
                                        assert(self.hostiles@[i] == old(self).hostiles@[i]);
                                    }
                                }
                                assert forall|i: int, j: int| 0 <= i < j < self.hostiles@.len() implies
                                    (#[trigger] self.hostiles@[i]).id != (#[trigger] self.hostiles@[j]).id by {
                                    assert(self.hostiles@[i].id == old(self).hostiles@[i].id);
                                    assert(self.hostiles@[j].id == old(self).hostiles@[j].id);
                                }
                            }
                        }
                    }
                    label.append(" lunges through empty darkness.");
                    proof { reveal_strlit(" lunges through empty darkness."); }
                    self.push_event(label);
                }
            },
            Telegraph::CultistHex { .. } => {
                if still && a.position.chebyshev_distance(target) <= FIELD_OF_VIEW_RADIUS {
                    label.append("'s hex");
                    proof { reveal_strlit("'s hex"); }
                    self.damage_player(a.damage, label.as_str());
                } else {
                    label.append("'s hex strikes only dust.");
                    proof { reveal_strlit("'s hex strikes only dust."); }
                    self.push_event(label);
                }
            },
        }
    }

    /// Hostile `id` marks the player's tile with telegraph `t`.
    fn mark(&mut self, index: usize, t: Telegraph)
        requires
            old(self).wf(),
            index < old(self).hostiles@.len(),
            super::telegraph_target(t) == old(self).player.position,
        ensures
            final(self).wf(),
            ai_frame(*old(self), *final(self)),
            old(self).spec_hostile(old(self).hostiles@[index as int].id) == Some(old(self).hostiles@[index as int])
                ==> mark_outcome(*old(self), *final(self), old(self).hostiles@[index as int].id, t),
    {
        let a = self.hostiles[index];
        let mut marked = a;
        marked.telegraph = Some(t);
        self.hostiles.set(index, marked);
        let target = self.player.position;
        let mut message = text(a.kind.name());
        message.append(" ");
        push_decimal(&mut message, a.id.0 as i64);
        message.append(" marks (");
        push_decimal(&mut message, target.x as i64);
        message.append(", ");
        push_decimal(&mut message, target.y as i64);
        match a.kind {
            ActorKind::Ghoul => message.append(") for a lunge."),
            _ => message.append(") with a hex."),
        }
        proof {
            reveal_strlit(" ");
            reveal_strlit(" marks (");
            reveal_strlit(", ");
            reveal_strlit(") for a lunge.");
            reveal_strlit(") with a hex.");
            assert(self.hostiles_wf()) by {
                assert forall|i: int| 0 <= i < self.hostiles@.len() implies super::actor_ok(&self.map, #[trigger] self.hostiles@[i])
                    && self.hostiles@[i].id.0 < self.next_actor_id by {
                    if i != index {
                        assert(self.hostiles@[i] == old(self).hostiles@[i]);
                    }
                }
                assert forall|i: int, j: int| 0 <= i < j < self.hostiles@.len() implies
                    (#[trigger] self.hostiles@[i]).id != (#[trigger] self.hostiles@[j]).id by {
                    assert(self.hostiles@[i].id == old(self).hostiles@[i].id);
                    assert(self.hostiles@[j].id == old(self).hostiles@[j].id);
                }
            }
        }
        self.push_event(message);
    }

    /// The action of awake hostile `id`.
    fn run_enemy_action(&mut self, id: ActorId)
        requires
            old(self).wf(),
            old(self).combat_roll_count < u64::MAX,
        ensures
            final(self).wf(),
            ai_frame(*old(self), *final(self)),
            action_outcome(*old(self), *final(self), id),
    {
        let index = match self.hostile_index(id) {
            Some(i) => i,
            None => {
                return;
            },
        };
        let a = self.hostiles[index];
        assert(super::actor_ok(&self.map, a));
        match a.telegraph {
            Some(t) => {
                let mut cleared = a;
                cleared.telegraph = None;
                self.hostiles.set(index, cleared);
                proof {
                    assert(self.hostiles_wf()) by {
                        assert forall|i: int| 0 <= i < self.hostiles@.len() implies super::actor_ok(&self.map, #[trigger] self.hostiles@[i])
                            && self.hostiles@[i].id.0 < self.next_actor_id by {
                            if i != index {
                                assert(self.hostiles@[i] == old(self).hostiles@[i]);
                            }
                        }
                        assert forall|i: int, j: int| 0 <= i < j < self.hostiles@.len() implies
                            (#[trigger] self.hostiles@[i]).id != (#[trigger] self.hostiles@[j]).id by {
                            assert(self.hostiles@[i].id == old(self).hostiles@[i].id);
                            assert(self.hostiles@[j].id == old(self).hostiles@[j].id);
                        }
                    }
                    super::targeting::lemma_unique_found(self, index as int);
                }
                let ghost mid = *self;
                self.resolve_telegraph(id, t);
                proof {
                    assert(resolve_outcome(mid, *self, id, t));
                    lemma_ai_frame_trans(*old(self), mid, *self);
                }
                return;
            },
            None => {},
        }
        let distance = a.position.chebyshev_distance(self.player.position);
        match a.kind {
            ActorKind::Skeleton => {
                if distance == 1 {
                    self.enemy_melee(id);
                } else {
                    self.pursue(id);
                }
            },
            ActorKind::Ghoul => {
                if distance == 1 {
                    self.enemy_melee(id);
                } else if distance == 2 && has_line_of_sight(&self.map, a.position, self.player.position) {
                    let target = self.player.position;
                    self.mark(index, Telegraph::GhoulLunge { target });
                } else {
                    self.pursue(id);
                }
            },
            ActorKind::Cultist => {
                if distance <= 2 {
                    self.retreat(id);
                } else if distance <= FIELD_OF_VIEW_RADIUS && has_line_of_sight(&self.map, a.position, self.player.position) {
                    let target = self.player.position;
                    self.mark(index, Telegraph::CultistHex { target });
                } else {
                    self.pursue(id);
                }
            },
        }
    }

    /// One hostile's turn: waking, then acting when awake.
    fn hostile_turn_exec(&mut self, id: ActorId)
        requires
            old(self).wf(),
            old(self).combat_roll_count < u64::MAX,
        ensures
            final(self).wf(),
            ai_frame(*old(self), *final(self)),
            hostile_turn(*old(self), *final(self), id),
    {
        let index = match self.hostile_index(id) {
            Some(i) => i,
            None => {
                return;
            },
        };
        let a = self.hostiles[index];
        assert(super::actor_ok(&self.map, a));
        if !a.active && a.position.chebyshev_distance(self.player.position) <= FIELD_OF_VIEW_RADIUS
            && has_line_of_sight(&self.map, a.position, self.player.position) {
            let mut awake = a;
            awake.active = true;
            self.hostiles.set(index, awake);
            let mut message = text(a.kind.name());
            message.append(" ");
            push_decimal(&mut message, id.0 as i64);
            message.append(" awakens.");
            proof {
                reveal_strlit(" ");
                reveal_strlit(" awakens.");
                assert(self.hostiles_wf()) by {
                    assert forall|i: int| 0 <= i < self.hostiles@.len() implies super::actor_ok(&self.map, #[trigger] self.hostiles@[i])
                        && self.hostiles@[i].id.0 < self.next_actor_id by {
                        if i != index {
                            assert(self.hostiles@[i] == old(self).hostiles@[i]);
                        }
                    }
                    assert forall|i: int, j: int| 0 <= i < j < self.hostiles@.len() implies
                        (#[trigger] self.hostiles@[i]).id != (#[trigger] self.hostiles@[j]).id by {
                        assert(self.hostiles@[i].id == old(self).hostiles@[i].id);
                        assert(self.hostiles@[j].id == old(self).hostiles@[j].id);
                    }
                }
            }
            self.push_event(message);
            let ghost mid = *self;
            proof {
                super::targeting::lemma_unique_found(self, index as int);
            }
            self.run_enemy_action(id);
            proof {
                assert(action_outcome(mid, *self, id));
                lemma_ai_frame_trans(*old(self), mid, *self);
            }
        } else if a.active {
            self.run_enemy_action(id);
        }
    }

    /// The hostiles' ids in increasing order.
    fn sorted_ids(&self) -> (ids: Vec<ActorId>)
        requires
            self.wf(),
        ensures
            ids@.len() <= self.hostiles@.len(),
            forall|i: int, k: int| 0 <= i < k < ids@.len() ==> (#[trigger] ids@[i]).0 < (#[trigger] ids@[k]).0,
            forall|id: ActorId| ids@.contains(id) <==> exists|j: int| 0 <= j < self.hostiles@.len()
                && #[trigger] self.hostiles@[j].id == id,
    {
        let mut entries: Vec<(i32, u32)> = Vec::new();
        let mut j: usize = 0;
        while j < self.hostiles.len()
            invariant
                self.wf(),
                j <= self.hostiles@.len(),
                entries@.len() <= j,
                forall|a: int, b: int| 0 <= a < b < entries@.len() ==> entry_lt(#[trigger] entries@[a], #[trigger] entries@[b]),
                forall|e: (i32, u32)| #[trigger] entries@.contains(e) <==> exists|k: int| 0 <= k < j
                    && e == (0i32, (#[trigger] self.hostiles@[k]).id.0),
            decreases self.hostiles@.len() - j,
        {
            let a = self.hostiles[j];
            let e = (0i32, a.id.0);
            proof {
                assert forall|x: (i32, u32)| #[trigger] entries@.contains(x) implies x.1 != e.1 by {
                    let k = choose|k: int| 0 <= k < j && x == (0i32, (#[trigger] self.hostiles@[k]).id.0);
                    assert(self.hostiles@[k].id != self.hostiles@[j as int].id);
                }
            }
            insert_sorted(&mut entries, e);
            proof {
                assert forall|x: (i32, u32)| #[trigger] entries@.contains(x) <== exists|k: int| 0 <= k < j + 1
                    && x == (0i32, (#[trigger] self.hostiles@[k]).id.0) by {
                    if exists|k: int| 0 <= k < j + 1 && x == (0i32, (#[trigger] self.hostiles@[k]).id.0) {
                        let k = choose|k: int| 0 <= k < j + 1 && x == (0i32, (#[trigger] self.hostiles@[k]).id.0);
                        if k < j {
                            assert(exists|k2: int| 0 <= k2 < j && x == (0i32, (#[trigger] self.hostiles@[k2]).id.0));
                        }
                    }
                }
            }
            j = j + 1;
        }
        let mut ids: Vec<ActorId> = Vec::new();
        let mut i: usize = 0;
        while i < entries.len()
            invariant
                i <= entries@.len(),
                ids@.len() == i,
                forall|k: int| 0 <= k < i ==> #[trigger] ids@[k] == ActorId(entries@[k].1),
            decreases entries@.len() - i,
        {
            ids.push(ActorId(entries[i].1));
            i = i + 1;
        }
        proof {
            assert forall|a: int, b: int| 0 <= a < b < ids@.len() implies (#[trigger] ids@[a]).0 < (#[trigger] ids@[b]).0 by {
                assert(entry_lt(entries@[a], entries@[b]));
                assert(entries@.contains(entries@[a]));
                assert(entries@.contains(entries@[b]));
            }
            assert forall|id: ActorId| ids@.contains(id) <==> exists|j: int| 0 <= j < self.hostiles@.len()
                && #[trigger] self.hostiles@[j].id == id by {
                if ids@.contains(id) {
                    let k = choose|k: int| 0 <= k < ids@.len() && ids@[k] == id;
                    assert(entries@.contains(entries@[k]));
                }
                if exists|j: int| 0 <= j < self.hostiles@.len() && #[trigger] self.hostiles@[j].id == id {
                    let j = choose|j: int| 0 <= j < self.hostiles@.len() && #[trigger] self.hostiles@[j].id == id;
                    let e = (0i32, id.0);
                    assert(entries@.contains(e));
                    let k = choose|k: int| 0 <= k < entries@.len() && entries@[k] == e;
                    assert(ids@[k] == id);
                }
            }
        }
        ids
    }

    /// Every hostile takes its turn in id order until the player dies; then
    /// the player's view is recomputed.
    pub(crate) fn run_enemy_turns(&mut self)
        requires
            old(self).wf(),
            old(self).status != RunStatus::Death,
            old(self).combat_roll_count + old(self).hostiles@.len() <= u64::MAX,
        ensures
            final(self).wf(),
            exists|ids: Seq<ActorId>, chain: Seq<ExplorationGame>| #[trigger] enemy_round(*old(self), *final(self), ids, chain),
            ai_frame_many(*old(self), ExplorationGame { visible: old(self).visible, explored: old(self).explored, ..*final(self) }),
            old(self).explored@.subset_of(final(self).explored@),
            old(self).visible@.subset_of(old(self).explored@) ==> final(self).visible@.subset_of(final(self).explored@),
    {
        let ids = self.sorted_ids();
        let ghost mut chain: Seq<ExplorationGame> = seq![*self];
        let mut k: usize = 0;
        while k < ids.len() && self.status != RunStatus::Death
            invariant
                self.wf(),
                k <= ids@.len(),
                ids@.len() <= old(self).hostiles@.len(),
                old(self).combat_roll_count + old(self).hostiles@.len() <= u64::MAX,
                self.combat_roll_count <= old(self).combat_roll_count + k,
                chain.len() == k + 1,
                chain[0] == *old(self),
                ai_frame_many(*old(self), *self),
                chain.last() == *self,
                forall|i: int| 0 <= i < chain.len() - 1 ==> chain[i].status != RunStatus::Death
                    && #[trigger] hostile_turn(chain[i], chain[i + 1], ids@[i]),
            decreases ids@.len() - k,
        {
            let id = ids[k];
            let ghost before = *self;
            self.hostile_turn_exec(id);
            proof {
                lemma_ai_frame_many_step(*old(self), before, *self);
                let old_chain = chain;
                chain = chain.push(*self);
                assert forall|i: int| 0 <= i < chain.len() - 1 implies chain[i].status != RunStatus::Death
                    && #[trigger] hostile_turn(chain[i], chain[i + 1], ids@[i]) by {
                    if i < k {
                        assert(0 <= i < old_chain.len() - 1);
                        assert(hostile_turn(old_chain[i], old_chain[i + 1], ids@[i]));
                        assert(old_chain[i].status != RunStatus::Death);
                        assert(chain[i] == old_chain[i]);
                        assert(chain[i + 1] == old_chain[i + 1]);
                    } else {
                        assert(i == k);
                        assert(chain[i] == old_chain[k as int]);
                        assert(old_chain[k as int] == before);
                        assert(chain[i + 1] == *self);
                    }
                }
            }
            k = k + 1;
        }
        let ghost last = *self;
        self.recompute_visibility();
        proof {
            assert(chain.last() == last);
            assert(enemy_round(*old(self), *self, ids@, chain));
            assert((ExplorationGame { visible: old(self).visible, explored: old(self).explored, ..*self })
                == (ExplorationGame { visible: old(self).visible, explored: old(self).explored, ..last }));
        }
    }

    /// `s` is where hostile `id` at `from` steps toward the player: the first
    /// step of a shortest pursuit route, the earliest in direction order.
    pub open spec fn pursuit_first_step(&self, id: ActorId, from: Position, s: Position) -> bool {
        let occ = self.others_positions(id);
        let goal = self.player.position;
        (s == from && from == goal) || first_step_to(&self.map, occ, goal, from, goal, s)
    }
}

/// No hostile gains a telegraph between `pre` and `post`.
pub open spec fn no_new_marks(pre: ExplorationGame, post: ExplorationGame) -> bool {
    &&& post.hostiles@.len() == pre.hostiles@.len()
    &&& forall|j: int| 0 <= j < pre.hostiles@.len() && (#[trigger] pre.hostiles@[j]).telegraph is None
        ==> post.hostiles@[j].telegraph is None
}

/// Pursuit by an unmarked hostile marks nothing.
proof fn lemma_pursuit_marks_nothing(pre: ExplorationGame, post: ExplorationGame, id: ActorId)
    requires
        pursue_outcome(pre, post, id),
        pre.spec_hostile(id) matches Some(a) && a.telegraph is None,
    ensures
        no_new_marks(pre, post),
{
    let a = pre.spec_hostile(id).unwrap();
    let occ = pre.others_positions(id);
    let goal = pre.player.position;
    if route_reaches(&pre.map, occ, goal, a.position, goal) {
        let s = choose|s: Position| #[trigger] pre.pursuit_first_step(id, a.position, s) && {
            if s == goal {
                player_hit(pre, post, a.damage as int, actor_label(a.kind, id))
            } else if pre.map.tile_is(s, Tile::ClosedDoor) {
                &&& post.map.same_except_tile(&pre.map, s, Tile::OpenDoor)
                &&& post.log() == log_push(pre.log(), actor_label(a.kind, id) + " opens a door."@)
                &&& post == (ExplorationGame { map: post.map, events: post.events, ..pre })
            } else {
                exists|i: int| 0 <= i < pre.hostiles@.len() && pre.hostiles@[i] == a
                    && post.hostiles@ == pre.hostiles@.update(i, Actor { position: s, ..a })
                    && post == (ExplorationGame { hostiles: post.hostiles, ..pre })
            }
        };
        if s != goal && !pre.map.tile_is(s, Tile::ClosedDoor) {
            let i = choose|i: int| 0 <= i < pre.hostiles@.len() && pre.hostiles@[i] == a
                && post.hostiles@ == pre.hostiles@.update(i, Actor { position: s, ..a })
                && post == (ExplorationGame { hostiles: post.hostiles, ..pre });
            assert forall|j: int| 0 <= j < pre.hostiles@.len() && (#[trigger] pre.hostiles@[j]).telegraph is None
                implies post.hostiles@[j].telegraph is None by {
                if j == i {
                    assert(post.hostiles@[j] == Actor { position: s, ..a });
                } else {
                    assert(post.hostiles@[j] == pre.hostiles@[j]);
                }
            }
        }
    }
}

/// An awake ghoul with nothing marked that stands farther than two tiles
/// from the player marks nothing on its turn (it pursues instead): no
/// hostile gains a telegraph.
pub proof fn lemma_far_ghoul_does_not_mark(pre: ExplorationGame, post: ExplorationGame, id: ActorId)
    requires
        action_outcome(pre, post, id),
        pre.spec_hostile(id) matches Some(a) && a.kind == ActorKind::Ghoul && a.telegraph is None
            && cheb(a.position, pre.player.position) > 2,
    ensures
        no_new_marks(pre, post),
{
    lemma_pursuit_marks_nothing(pre, post, id);
}

/// An awake skeleton with nothing marked never marks: it strikes when
/// next to the player and pursues otherwise.
pub proof fn lemma_skeleton_never_marks(pre: ExplorationGame, post: ExplorationGame, id: ActorId)
    requires
        action_outcome(pre, post, id),
        pre.spec_hostile(id) matches Some(a) && a.kind == ActorKind::Skeleton && a.telegraph is None,
    ensures
        no_new_marks(pre, post),
{
    let a = pre.spec_hostile(id).unwrap();
    if cheb(a.position, pre.player.position) != 1 {
        lemma_pursuit_marks_nothing(pre, post, id);
    }
}

/// An awake cultist with nothing marked within two tiles of the player
/// backs away (or holds) and marks nothing.
pub proof fn lemma_near_cultist_retreats_unmarked(pre: ExplorationGame, post: ExplorationGame, id: ActorId)
    requires
        action_outcome(pre, post, id),
        pre.spec_hostile(id) matches Some(a) && a.kind == ActorKind::Cultist && a.telegraph is None
            && cheb(a.position, pre.player.position) <= 2,
    ensures
        no_new_marks(pre, post),
        post.player == pre.player,
{
    let a = pre.spec_hostile(id).unwrap();
    assert(retreat_outcome(pre, post, id));
    match pre.retreat_pick(id, a.position, 8).0 {
        None => {},
        Some(p) => {
            let i = choose|i: int| 0 <= i < pre.hostiles@.len() && pre.hostiles@[i] == a
                && post.hostiles@ == pre.hostiles@.update(i, Actor { position: p, ..a });
            assert forall|j: int| 0 <= j < pre.hostiles@.len() && (#[trigger] pre.hostiles@[j]).telegraph is None
                implies post.hostiles@[j].telegraph is None by {
                if j == i {
                    assert(post.hostiles@[j] == Actor { position: p, ..a });
                } else {
                    assert(post.hostiles@[j] == pre.hostiles@[j]);
                }
            }
        },
    }
}

/// An awake ghoul with nothing marked, exactly two tiles from the player
/// and in sight of it, marks the player's tile for a lunge.
pub proof fn lemma_ghoul_marks_from_two_tiles(pre: ExplorationGame, post: ExplorationGame, id: ActorId)
    requires
        action_outcome(pre, post, id),
        pre.spec_hostile(id) matches Some(a) && a.kind == ActorKind::Ghoul && a.telegraph is None
            && cheb(a.position, pre.player.position) == 2
            && line_of_sight(&pre.map, a.position, pre.player.position),
    ensures
        exists|i: int| 0 <= i < post.hostiles@.len() && (#[trigger] post.hostiles@[i]).id == id
            && post.hostiles@[i].telegraph == Some(Telegraph::GhoulLunge { target: pre.player.position }),
{
    let a = pre.spec_hostile(id).unwrap();
    assert(mark_outcome(pre, post, id, Telegraph::GhoulLunge { target: pre.player.position }));
    let i = choose|i: int| 0 <= i < pre.hostiles@.len() && pre.hostiles@[i] == a
        && post.hostiles@ == pre.hostiles@.update(i, Actor { telegraph: Some(Telegraph::GhoulLunge { target: pre.player.position }), ..a });
    lemma_actor_with_id_is_named(pre.hostiles@, id, 0);
    assert(post.hostiles@[i].id == id);
}

/// An actor found by id carries that id.
proof fn lemma_actor_with_id_is_named(hostiles: Seq<Actor>, id: ActorId, i: int)
    requires
        actor_with_id(hostiles, id, i) is Some,
    ensures
        actor_with_id(hostiles, id, i).unwrap().id == id,
    decreases hostiles.len() - i,
{
    if 0 <= i < hostiles.len() && hostiles[i].id != id {
        lemma_actor_with_id_is_named(hostiles, id, i + 1);
    }
}

} // verus!
