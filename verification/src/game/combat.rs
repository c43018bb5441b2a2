//! Player attacks, armor, incoming hits, and the seeded combat stream.

use super::run::regenerated;
use super::targeting::{entry_lt, insert_sorted};
use super::{kind_name, log_push, AbilitySlot, Actor, ActorId, CommandOutcome, ExplorationGame, RunStatus};
use crate::world::cheb;
use crate::rng::{combat_spread, roll_combat_spread};
use crate::text::{decimal, push_decimal, text};
use crate::world::RunSeed;
use vstd::prelude::*;

verus! {

/// Domain separator of the combat stream within a run's seed.
pub const COMBAT_RNG_DOMAIN: u64 = 0xC04B_A700_DA6A_6E55;

/// Damage left after armor; a hit always does at least one point.
pub open spec fn mitigated(raw: int, armor: int) -> int {
    if raw - armor < 1 {
        1
    } else {
        raw - armor
    }
}

/// `x` clamped into the range of `i32`.
pub open spec fn saturate_i32(x: int) -> int {
    if x > i32::MAX {
        i32::MAX as int
    } else if x < i32::MIN {
        i32::MIN as int
    } else {
        x
    }
}

/// Damage of a hit: base damage plus the drawn spread (saturating, at least
/// one), reduced by armor.
pub open spec fn hit_damage(base: int, spread: int, armor: int) -> int {
    let raw = saturate_i32(base + spread);
    mitigated(if raw < 1 { 1 } else { raw }, armor)
}

/// The damage of the combat roll numbered `roll` in a run with seed `seed`.
pub open spec fn rolled_damage(seed: RunSeed, roll: u64, base: int, armor: int) -> int {
    hit_damage(base, combat_spread(seed.0 ^ COMBAT_RNG_DOMAIN, roll) as int, armor)
}

/// "`source` hits you for `d` damage."
pub open spec fn hits_you_text(source: Seq<char>, d: int) -> Seq<char> {
    source + " hits you for "@ + decimal(d) + " damage."@
}

/// "The `name` falls."
pub open spec fn falls_text(name: Seq<char>) -> Seq<char> {
    "The "@ + name + " falls."@
}

/// "You strike the `kind` for `d` damage."
pub open spec fn strike_text(kind: Seq<char>, d: int) -> Seq<char> {
    "You strike the "@ + kind + " for "@ + decimal(d) + " damage."@
}

/// "The `kind` is destroyed."
pub open spec fn destroyed_text(kind: Seq<char>) -> Seq<char> {
    "The "@ + kind + " is destroyed."@
}

/// "You unleash `name`."
pub open spec fn unleash_text(name: Seq<char>) -> Seq<char> {
    "You unleash "@ + name + "."@
}

/// "`ability` hits `kind` `id` for `d` damage."
pub open spec fn cleave_hit_text(ability: Seq<char>, kind: Seq<char>, id: u32, d: int) -> Seq<char> {
    ability + " hits "@ + kind + " "@ + decimal(id as int) + " for "@ + decimal(d) + " damage."@
}

/// The last `n` entries of a log.
pub open spec fn keep_last(s: Seq<Seq<char>>, n: int) -> Seq<Seq<char>> {
    if s.len() > n {
        s.subrange(s.len() - n, s.len() as int)
    } else {
        s
    }
}

/// Armor reduces a hit, never below one point.
pub fn mitigated_damage(raw_damage: i32, armor: i32) -> (d: i32)
    requires
        i32::MIN <= raw_damage - armor <= i32::MAX,
    ensures
        d == mitigated(raw_damage as int, armor as int),
        d >= 1,
{
    let reduced = raw_damage - armor;
    if reduced < 1 {
        1
    } else {
        reduced
    }
}

fn saturating_add_i32(a: i32, b: i32) -> (r: i32)
    ensures
        r == saturate_i32(a + b),
{
    let wide = a as i64 + b as i64;
    if wide > i32::MAX as i64 {
        i32::MAX
    } else if wide < i32::MIN as i64 {
        i32::MIN
    } else {
        wide as i32
    }
}

/// Damage of a hit from its base damage, the spread drawn for it, and the
/// target's armor.
pub fn spread_damage(base_damage: i32, spread: i32, armor: i32) -> (d: i32)
    requires
        armor >= 0,
    ensures
        d == hit_damage(base_damage as int, spread as int, armor as int),
        1 <= d,
{
    let raw = saturating_add_i32(base_damage, spread);
    let raw = if raw < 1 {
        1
    } else {
        raw
    };
    mitigated_damage(raw, armor)
}

/// `post` is `pre` after a hit of base damage `base` from `source` lands on
/// the player: health drops by the rolled damage, stopping at zero (one under
/// godmode), and at zero the run ends in death.
pub open spec fn player_hit(pre: ExplorationGame, post: ExplorationGame, base: int, source: Seq<char>) -> bool {
    let d = rolled_damage(pre.map.seed, pre.combat_roll_count, base, pre.player.armor as int);
    let floor: int = if pre.godmode { 1 } else { 0 };
    let health = if pre.player.health - d > floor { pre.player.health - d } else { floor };
    &&& post.player == (super::Player { health: health as i32, ..pre.player })
    &&& post.status == if health == 0 { RunStatus::Death } else { pre.status }
    &&& post.log() == if health == 0 {
        log_push(log_push(pre.log(), hits_you_text(source, d)), falls_text(pre.spec_class_def().name@))
    } else {
        log_push(pre.log(), hits_you_text(source, d))
    }
    &&& post == (ExplorationGame {
        player: post.player,
        status: post.status,
        events: post.events,
        combat_roll_count: (pre.combat_roll_count + 1) as u64,
        ..pre
    })
}

impl ExplorationGame {
    /// Draw the next hit from the run's combat stream.
    pub fn roll_damage(&mut self, base_damage: i32, armor: i32) -> (d: i32)
        requires
            old(self).combat_roll_count < u64::MAX,
            armor >= 0,
        ensures
            d == rolled_damage(old(self).map.seed, old(self).combat_roll_count, base_damage as int, armor as int),
            1 <= d,
            exists|s: int| -2 <= s <= 2 && d == #[trigger] hit_damage(base_damage as int, s, armor as int),
            *final(self) == (ExplorationGame {
                combat_roll_count: (old(self).combat_roll_count + 1) as u64,
                ..*old(self)
            }),
    {
        let spread = roll_combat_spread(self.map.seed.0 ^ COMBAT_RNG_DOMAIN, self.combat_roll_count);
        self.combat_roll_count = self.combat_roll_count + 1;
        let d = spread_damage(base_damage, spread, armor);
        assert(d == hit_damage(base_damage as int, spread as int, armor as int));
        d
    }

    /// Apply an incoming variable-damage hit and return the damage after
    /// armor. Health stops at zero (at one under godmode); at zero the run
    /// ends in death.
    pub fn damage_player(&mut self, base_damage: i32, source: &str) -> (d: i32)
        requires
            old(self).player.health >= 0,
            old(self).player.armor >= 0,
            old(self).combat_roll_count < u64::MAX,
            old(self).events@.len() <= 5,
            old(self).catalog.spec_class(old(self).class_id) is Some,
        ensures
            d == rolled_damage(old(self).map.seed, old(self).combat_roll_count, base_damage as int, old(self).player.armor as int),
            1 <= d,
            exists|s: int| -2 <= s <= 2 && d == #[trigger] hit_damage(base_damage as int, s, old(self).player.armor as int),
            player_hit(*old(self), *final(self), base_damage as int, source@),
            final(self).events@.len() <= 5,
            old(self).wf() ==> final(self).wf(),
    {
        let armor = self.player.armor;
        let damage = self.roll_damage(base_damage, armor);
        let floor: i32 = if self.godmode { 1 } else { 0 };
        let remaining = self.player.health - damage;
        self.player.health = if remaining > floor { remaining } else { floor };
        let mut message = text(source);
        message.append(" hits you for ");
        push_decimal(&mut message, damage as i64);
        message.append(" damage.");
        proof {
            reveal_strlit(" hits you for ");
            reveal_strlit(" damage.");
        }
        assert(message@ == hits_you_text(source@, damage as int));
        self.push_event(message);
        if self.player.health == 0 {
            self.status = RunStatus::Death;
            let mut fall = text("The ");
            fall.append(self.class_definition().name.as_str());
            fall.append(" falls.");
            proof {
                reveal_strlit("The ");
                reveal_strlit(" falls.");
            }
            assert(fall@ == falls_text(old(self).spec_class_def().name@));
            self.push_event(fall);
        }
        damage
    }

    /// Strike the hostile at `index` with a bump attack; a hostile brought to
    /// zero health is removed.
    pub(crate) fn basic_attack(&mut self, index: usize)
        requires
            index < old(self).hostiles@.len(),
            old(self).hostiles@[index as int].armor >= 0,
            old(self).hostiles@[index as int].health > 0,
            old(self).combat_roll_count < u64::MAX,
            old(self).events@.len() <= 5,
        ensures
            ({
                let a = old(self).hostiles@[index as int];
                let d = rolled_damage(old(self).map.seed, old(self).combat_roll_count, old(self).player.damage as int, a.armor as int);
                let hit = Actor { health: (a.health - d) as i32, ..a };
                &&& final(self).hostiles@ == if a.health - d <= 0 {
                    old(self).hostiles@.remove(index as int)
                } else {
                    old(self).hostiles@.update(index as int, hit)
                }
                &&& final(self).log() == if a.health - d <= 0 {
                    log_push(log_push(old(self).log(), strike_text(kind_name(a.kind), d)), destroyed_text(kind_name(a.kind)))
                } else {
                    log_push(old(self).log(), strike_text(kind_name(a.kind), d))
                }
            }),
            final(self).events@.len() <= 5,
            *final(self) == (ExplorationGame {
                hostiles: final(self).hostiles,
                events: final(self).events,
                combat_roll_count: (old(self).combat_roll_count + 1) as u64,
                ..*old(self)
            }),
    {
        let armor = self.hostiles[index].armor;
        let damage = self.roll_damage(self.player.damage, armor);
        let mut actor = self.hostiles[index];
        actor.health = actor.health - damage;
        self.hostiles.set(index, actor);
        let kind = actor.kind;
        let mut message = text("You strike the ");
        message.append(kind.name());
        message.append(" for ");
        push_decimal(&mut message, damage as i64);
        message.append(" damage.");
        proof {
            reveal_strlit("You strike the ");
            reveal_strlit(" for ");
            reveal_strlit(" damage.");
        }
        assert(message@ == strike_text(kind_name(kind), damage as int));
        self.push_event(message);
        if actor.health <= 0 {
            self.hostiles.remove(index);
            let mut gone = text("The ");
            gone.append(kind.name());
            gone.append(" is destroyed.");
            proof {
                reveal_strlit("The ");
                reveal_strlit(" is destroyed.");
            }
            assert(gone@ == destroyed_text(kind_name(kind)));
            self.push_event(gone);
            assert(self.hostiles@ =~= old(self).hostiles@.remove(index as int));
        }
    }
}

/// What using the ability in `slot` does.
pub open spec fn ability_outcome(pre: ExplorationGame, post: ExplorationGame, slot: AbilitySlot, r: CommandOutcome) -> bool {
    &&& (({
        let st = pre.spec_ability_state(slot);
        match pre.slot_ability(slot) {
            None => r == CommandOutcome::Rejected && post == pre,
            Some(d) => if st.unwrap().cooldown_remaining != 0 {
                r == CommandOutcome::Rejected && post == pre
            } else if pre.player.mana < d.mana_cost {
                &&& r == CommandOutcome::Rejected
                &&& post == (ExplorationGame { events: post.events, ..pre })
                &&& post.log() == log_push(pre.log(), super::targeting::no_mana_text(d.name@))
            } else {
                match d.targeting {
                    super::AbilityTargeting::Immediate => if d.effect is Cleave {
                        &&& r == CommandOutcome::Rejected ==> post == pre
                        &&& r == CommandOutcome::Advanced ==> exists|mid: ExplorationGame|
                            #[trigger] pre.cleave_result(d.name@, mid) && post == (ExplorationGame {
                                player: super::Player { mana: (mid.player.mana - d.mana_cost) as i32, ..mid.player },
                                abilities: post.abilities,
                                ..mid
                            }) && post.abilities@ == pre.abilities@.update(slot.spec_number() - 1,
                                Some(super::AbilityState { cooldown_remaining: d.cooldown_turns, ..st.unwrap() }))
                        &&& (r == CommandOutcome::Advanced <==> exists|j: int| 0 <= j < pre.hostiles@.len()
                            && pre.adjacent(#[trigger] pre.hostiles@[j]))
                    } else {
                        r == CommandOutcome::Rejected && post == pre
                    },
                    super::AbilityTargeting::HostileSingle { .. } => {
                        &&& r == CommandOutcome::Rejected
                        &&& post.same_play(pre)
                        &&& post.inspecting == pre.inspecting
                        &&& post.using_item == pre.using_item
                        &&& pre.targeting_opened(slot, post)
                    },
                    _ => r == CommandOutcome::Rejected && post == pre,
                }
            },
        }
    }))
}

impl ExplorationGame {
    /// A hostile next to the player.
    pub open spec fn adjacent(&self, a: Actor) -> bool {
        cheb(self.player.position, a.position) == 1
    }

    /// `order` lists the ids of the hostiles next to the player, by id.
    pub open spec fn cleave_order(&self, order: Seq<ActorId>) -> bool {
        &&& forall|i: int, k: int| 0 <= i < k < order.len() ==> (#[trigger] order[i]).0 < (#[trigger] order[k]).0
        &&& forall|id: ActorId| order.contains(id) <==> exists|j: int| 0 <= j < self.hostiles@.len()
            && #[trigger] self.hostiles@[j].id == id && self.adjacent(self.hostiles@[j])
    }

    /// The damage Cleave deals to the hostile with id `order[k]`.
    pub open spec fn cleave_damage(&self, order: Seq<ActorId>, k: int) -> int {
        rolled_damage(self.map.seed, (self.combat_roll_count + k) as u64, self.player.damage as int,
            self.spec_hostile(order[k]).unwrap().armor as int)
    }

    /// The hostile `a` after Cleave, when `order` is the strike order.
    pub open spec fn cleaved(&self, order: Seq<ActorId>, a: Actor) -> Actor {
        if order.contains(a.id) {
            Actor { health: (a.health - self.cleave_damage(order, order.index_of(a.id))) as i32, ..a }
        } else {
            a
        }
    }

    /// The hit messages of Cleave, in strike order.
    pub open spec fn cleave_messages(&self, name: Seq<char>, order: Seq<ActorId>) -> Seq<Seq<char>> {
        Seq::new(order.len(), |k: int| cleave_hit_text(name, kind_name(self.spec_hostile(order[k]).unwrap().kind),
            order[k].0, self.cleave_damage(order, k)))
    }

    /// What a cleave that lands leaves behind, with `name` the ability's name.
    pub open spec fn cleave_result(&self, name: Seq<char>, post: ExplorationGame) -> bool {
        exists|order: Seq<ActorId>| #[trigger] self.cleave_order(order) && {
            &&& post.combat_roll_count == self.combat_roll_count + order.len()
            &&& post.hostiles@ == self.hostiles@.map_values(|a: Actor| self.cleaved(order, a))
                .filter(|a: Actor| a.health > 0)
            &&& post.log() == keep_last(log_push(self.log(), unleash_text(name))
                + self.cleave_messages(name, order), 5)
            &&& post.turn == self.turn + 1
            &&& post.player == (super::Player {
                mana: regenerated(self.player.mana as int, self.spec_class_def().mana_regeneration as int,
                    self.player.max_mana as int) as i32,
                ..self.player
            })
            &&& post == (ExplorationGame {
                combat_roll_count: post.combat_roll_count,
                hostiles: post.hostiles,
                events: post.events,
                turn: post.turn,
                player: post.player,
                ..*self
            })
        }
    }

    /// Strike every hostile next to the player, in id order, with a seeded
    /// hit each; the fallen are removed afterwards. With no hostile adjacent
    /// nothing happens. A cleave takes a turn in which cooldowns do not
    /// recover.
    #[verifier::spinoff_prover]
    #[verifier::rlimit(50)]
    pub(crate) fn use_cleave(&mut self, ability_name: &str) -> (r: CommandOutcome)
        requires
            old(self).wf(),
            old(self).turn < u64::MAX,
            old(self).combat_roll_count + old(self).hostiles@.len() <= u64::MAX,
        ensures
            final(self).wf(),
            final(self).combat_roll_count + final(self).hostiles@.len() <= old(self).combat_roll_count + 2 * old(self).hostiles@.len() + 1,
            r == CommandOutcome::Rejected <==> !exists|j: int| 0 <= j < old(self).hostiles@.len()
                && old(self).adjacent(#[trigger] old(self).hostiles@[j]),
            r == CommandOutcome::Rejected ==> *final(self) == *old(self),
            r == CommandOutcome::Advanced ==> old(self).cleave_result(ability_name@, *final(self)),
    {
        let order = self.adjacent_ids();
        if order.len() == 0 {
            proof {
                assert forall|j: int| 0 <= j < old(self).hostiles@.len() implies !old(self).adjacent(#[trigger] old(self).hostiles@[j]) by {
                    if old(self).adjacent(old(self).hostiles@[j]) {
                        assert(order@.contains(old(self).hostiles@[j].id));
                    }
                }
            }
            return CommandOutcome::Rejected;
        }
        proof {
            assert(order@.contains(order@[0]));
        }
        let mut unleash = text("You unleash ");
        unleash.append(ability_name);
        unleash.append(".");
        proof {
            reveal_strlit("You unleash ");
            reveal_strlit(".");
        }
        self.push_event(unleash);
        let ghost start = *self;
        self.cleave_strikes(&order, ability_name, Ghost(*old(self)));
        let ghost struck = *self;
        self.remove_fallen();
        self.trim_events();
        proof {
            lemma_cleave_keeps_wf(*old(self), order@, struck, *self);
            lemma_order_len(*old(self), order@);
        }
        self.advance_turn(false);
        proof {
            assert(old(self).cleave_order(order@));
            assert(self.combat_roll_count == old(self).combat_roll_count + order@.len());
            assert(self.hostiles@ == old(self).hostiles@.map_values(|a: Actor| old(self).cleaved(order@, a)).filter(|a: Actor| a.health > 0));
            assert(self.log() == keep_last(log_push(old(self).log(), unleash_text(ability_name@)) + old(self).cleave_messages(ability_name@, order@), 5));
            assert(self.turn == old(self).turn + 1);
            assert(self.player == (super::Player {
                mana: regenerated(old(self).player.mana as int, old(self).spec_class_def().mana_regeneration as int,
                    old(self).player.max_mana as int) as i32,
                ..old(self).player
            }));
            assert(*self == (ExplorationGame {
                combat_roll_count: self.combat_roll_count,
                hostiles: self.hostiles,
                events: self.events,
                turn: self.turn,
                player: self.player,
                ..*old(self)
            }));
        }
        CommandOutcome::Advanced
    }

    /// Strike the hostiles with the ids in `order`, one seeded roll each,
    /// logging each hit without trimming the log.
    fn cleave_strikes(&mut self, order: &Vec<ActorId>, name: &str, Ghost(pre): Ghost<ExplorationGame>)
        requires
            old(self).wf(),
            pre.cleave_order(order@),
            *old(self) == (ExplorationGame { events: old(self).events, ..pre }),
            old(self).combat_roll_count + old(self).hostiles@.len() <= u64::MAX,
        ensures
            final(self).combat_roll_count == old(self).combat_roll_count + order@.len(),
            final(self).hostiles@ == old(self).hostiles@.map_values(|a: Actor| pre.cleaved(order@, a)),
            final(self).log() == old(self).log() + pre.cleave_messages(name@, order@),
            *final(self) == (ExplorationGame {
                combat_roll_count: final(self).combat_roll_count,
                hostiles: final(self).hostiles,
                events: final(self).events,
                ..*old(self)
            }),
    {
        let ghost start = *self;
        let ghost msgs = pre.cleave_messages(name@, order@);
        proof {
            lemma_order_len(pre, order@);
        }
        let mut k: usize = 0;
        while k < order.len()
            invariant
                *self == (ExplorationGame {
                    combat_roll_count: self.combat_roll_count,
                    hostiles: self.hostiles,
                    events: self.events,
                    ..start
                }),
                start == *old(self),
                start.wf(),
                start == (ExplorationGame { events: start.events, ..pre }),
                pre.cleave_order(order@),
                order@.len() <= start.hostiles@.len(),
                start.combat_roll_count + start.hostiles@.len() <= u64::MAX,
                msgs == pre.cleave_messages(name@, order@),
                k <= order@.len(),
                self.combat_roll_count == start.combat_roll_count + k,
                self.hostiles@.len() == start.hostiles@.len(),
                forall|j: int| 0 <= j < start.hostiles@.len() ==> #[trigger] self.hostiles@[j] == if order@.subrange(0, k as int).contains(start.hostiles@[j].id) {
                    pre.cleaved(order@, start.hostiles@[j])
                } else {
                    start.hostiles@[j]
                },
                self.log() == start.log() + msgs.subrange(0, k as int),
            decreases order@.len() - k,
        {
            let id = order[k];
            proof {
                assert(order@.contains(id));
                let j = choose|j: int| 0 <= j < pre.hostiles@.len() && #[trigger] pre.hostiles@[j].id == id && pre.adjacent(pre.hostiles@[j]);
                lemma_unique_found_at(pre, j);
                assert(self.hostiles@[j].id == id);
            }
            let index = self.hostile_index(id).unwrap();
            proof {
                let j = choose|j: int| 0 <= j < pre.hostiles@.len() && #[trigger] pre.hostiles@[j].id == id && pre.adjacent(pre.hostiles@[j]);
                assert(self.hostiles@[j].id == id);
                assert(index as int == j) by {
                    if (index as int) < j {
                        assert(self.hostiles@[index as int].id == start.hostiles@[index as int].id);
                    } else if (index as int) > j {
                    }
                }
                let s0 = order@.subrange(0, k as int);
                assert(!s0.contains(id)) by {
                    if s0.contains(id) {
                        let m = choose|m: int| 0 <= m < s0.len() && #[trigger] s0[m] == id;
                        assert(order@[m].0 < order@[k as int].0);
                    }
                }
                assert(order@.index_of(id) == k) by {
                    let c = order@.index_of(id);
                    assert(order@.contains(id));
                    if c < k { assert(order@[c].0 < order@[k as int].0); }
                    else if c > k { assert(order@[k as int].0 < order@[c].0); }
                }
                assert(super::actor_ok(&start.map, start.hostiles@[index as int]));
            }
            let armor = self.hostiles[index].armor;
            let damage = self.roll_damage(self.player.damage, armor);
            let mut actor = self.hostiles[index];
            actor.health = actor.health - damage;
            self.hostiles.set(index, actor);
            let mut message = text(name);
            message.append(" hits ");
            message.append(actor.kind.name());
            message.append(" ");
            push_decimal(&mut message, id.0 as i64);
            message.append(" for ");
            push_decimal(&mut message, damage as i64);
            message.append(" damage.");
            proof {
                reveal_strlit(" hits ");
                reveal_strlit(" ");
                reveal_strlit(" for ");
                reveal_strlit(" damage.");
                assert(message@ == msgs[k as int]);
            }
            let ghost before_events = self.log();
            self.events.push(message);
            proof {
                assert(self.log() =~= before_events.push(msgs[k as int]));
                assert(msgs.subrange(0, k as int + 1) =~= msgs.subrange(0, k as int).push(msgs[k as int]));
                assert forall|j: int| 0 <= j < start.hostiles@.len() implies #[trigger] self.hostiles@[j] == if order@.subrange(0, k as int + 1).contains(start.hostiles@[j].id) {
                    pre.cleaved(order@, start.hostiles@[j])
                } else {
                    start.hostiles@[j]
                } by {
                    if j == index {
                        assert(order@.subrange(0, k as int + 1)[k as int] == id);
                    } else {
                        assert(start.hostiles@[j].id != id);
                        let s1 = order@.subrange(0, k as int + 1);
                        let s0 = order@.subrange(0, k as int);
                        if s1.contains(start.hostiles@[j].id) {
                            let m = choose|m: int| 0 <= m < s1.len() && #[trigger] s1[m] == start.hostiles@[j].id;
                            assert(s0[m] == start.hostiles@[j].id);
                        }
                        if s0.contains(start.hostiles@[j].id) {
                            let m = choose|m: int| 0 <= m < s0.len() && #[trigger] s0[m] == start.hostiles@[j].id;
                            assert(s1[m] == start.hostiles@[j].id);
                        }
                    }
                }
            }
            k = k + 1;
        }
        proof {
            assert(order@.subrange(0, order@.len() as int) =~= order@);
            assert(msgs.subrange(0, order@.len() as int) =~= msgs);
            assert(self.hostiles@ =~= start.hostiles@.map_values(|a: Actor| pre.cleaved(order@, a)));
        }
    }

    /// Drop the hostiles whose health is gone, keeping the others in order.
    fn remove_fallen(&mut self)
        ensures
            final(self).hostiles@ == old(self).hostiles@.filter(|a: Actor| a.health > 0),
            final(self).hostiles@.len() <= old(self).hostiles@.len(),
            *final(self) == (ExplorationGame { hostiles: final(self).hostiles, ..*old(self) }),
            forall|i: int| 0 <= i < final(self).hostiles@.len() ==> old(self).hostiles@.contains(#[trigger] final(self).hostiles@[i])
                && final(self).hostiles@[i].health > 0,
            (forall|a: int, b: int| 0 <= a < b < old(self).hostiles@.len() ==> (#[trigger] old(self).hostiles@[a]).id != (#[trigger] old(self).hostiles@[b]).id)
                ==> forall|a: int, b: int| 0 <= a < b < final(self).hostiles@.len()
                    ==> (#[trigger] final(self).hostiles@[a]).id != (#[trigger] final(self).hostiles@[b]).id,
    {
        let mut kept: Vec<Actor> = Vec::new();
        let mut j: usize = 0;
        let ghost unique = forall|a: int, b: int| 0 <= a < b < self.hostiles@.len() ==> (#[trigger] self.hostiles@[a]).id != (#[trigger] self.hostiles@[b]).id;
        while j < self.hostiles.len()
            invariant
                *self == *old(self),
                unique == forall|a: int, b: int| 0 <= a < b < self.hostiles@.len() ==> (#[trigger] self.hostiles@[a]).id != (#[trigger] self.hostiles@[b]).id,
                j <= self.hostiles@.len(),
                kept@.len() <= j,
                kept@ == self.hostiles@.subrange(0, j as int).filter(|a: Actor| a.health > 0),
                forall|i: int| 0 <= i < kept@.len() ==> exists|m: int| 0 <= m < j && self.hostiles@[m] == #[trigger] kept@[i],
                forall|i: int| 0 <= i < kept@.len() ==> (#[trigger] kept@[i]).health > 0,
                unique ==> forall|a: int, b: int| 0 <= a < b < kept@.len() ==> (#[trigger] kept@[a]).id != (#[trigger] kept@[b]).id,
            decreases self.hostiles@.len() - j,
        {
            let a = self.hostiles[j];
            proof {
                let s = self.hostiles@.subrange(0, j as int + 1);
                assert(s.drop_last() =~= self.hostiles@.subrange(0, j as int));
                reveal(Seq::filter);
            }
            if a.health > 0 {
                proof {
                    if unique {
                        assert forall|i: int| 0 <= i < kept@.len() implies (#[trigger] kept@[i]).id != a.id by {
                            let m = choose|m: int| 0 <= m < j && self.hostiles@[m] == kept@[i];
                            assert(self.hostiles@[m].id != self.hostiles@[j as int].id);
                        }
                    }
                }
                kept.push(a);
            }
            j = j + 1;
        }
        proof {
            assert(self.hostiles@.subrange(0, self.hostiles@.len() as int) =~= self.hostiles@);
            assert forall|i: int| 0 <= i < kept@.len() implies old(self).hostiles@.contains(#[trigger] kept@[i]) by {
                let m = choose|m: int| 0 <= m < j && self.hostiles@[m] == kept@[i];
            }
        }
        self.hostiles = kept;
    }

    /// Keep only the five most recent messages.
    fn trim_events(&mut self)
        ensures
            final(self).log() == keep_last(old(self).log(), 5),
            final(self).events@.len() <= 5,
            *final(self) == (ExplorationGame { events: final(self).events, ..*old(self) }),
    {
        let ghost full = old(self).log();
        while self.events.len() > 5
            invariant
                *self == (ExplorationGame { events: self.events, ..*old(self) }),
                full == old(self).log(),
                self.events@.len() <= full.len(),
                self.events@.len() >= 5 || self.events@.len() == full.len(),
                self.log() == full.subrange(full.len() - self.events@.len(), full.len() as int),
            decreases self.events@.len(),
        {
            let ghost before = self.log();
            self.events.remove(0);
            assert(self.log() =~= before.subrange(1, before.len() as int));
            assert(self.log() =~= full.subrange(full.len() - self.events@.len(), full.len() as int));
        }
        assert(full.subrange(full.len() - self.events@.len(), full.len() as int) =~= keep_last(full, 5)) by {
            if full.len() <= 5 {
                assert(full.subrange(0, full.len() as int) =~= full);
            }
        }
    }

    /// The definition bound to `slot`, if the slot holds a known ability.
    pub open spec fn slot_ability(&self, slot: AbilitySlot) -> Option<super::AbilityDefinition> {
        match self.spec_ability_state(slot) {
            Some(st) => self.catalog.spec_ability(st.ability_id),
            None => None,
        }
    }

    /// Use the ability in `slot`. An empty slot, a cooling-down ability or
    /// an unknown one is refused silently; too little mana is refused with a
    /// message. Cleave strikes at once, then pays its mana and starts its
    /// cooldown; a single-target ability opens targeting instead.
    pub(crate) fn use_ability(&mut self, slot: AbilitySlot) -> (r: CommandOutcome)
        requires
            old(self).wf(),
            old(self).turn < u64::MAX,
            old(self).combat_roll_count + old(self).hostiles@.len() <= u64::MAX,
        ensures
            final(self).wf(),
            final(self).combat_roll_count + final(self).hostiles@.len() <= old(self).combat_roll_count + 2 * old(self).hostiles@.len() + 1,
            ability_outcome(*old(self), *final(self), slot, r),
    {
        let state = match self.ability_state(slot) {
            Some(s) => s,
            None => {
                return CommandOutcome::Rejected;
            },
        };
        let definition = match self.ability_definition(state.ability_id) {
            Some(d) => d,
            None => {
                return CommandOutcome::Rejected;
            },
        };
        if state.cooldown_remaining != 0 {
            return CommandOutcome::Rejected;
        }
        if self.player.mana < definition.mana_cost {
            let mut message = text("Not enough mana for ");
            message.append(definition.name.as_str());
            message.append(".");
            proof {
                reveal_strlit("Not enough mana for ");
                reveal_strlit(".");
            }
            self.push_event(message);
            return CommandOutcome::Rejected;
        }
        proof {
            super::classes::lemma_valid_ability(self.catalog, state.ability_id);
        }
        match definition.targeting {
            super::AbilityTargeting::Immediate => {
                match definition.effect {
                    super::AbilityEffect::Cleave => {},
                    _ => {
                        return CommandOutcome::Rejected;
                    },
                }
            },
            super::AbilityTargeting::HostileSingle { .. } => {
                return self.begin_targeting(slot);
            },
            _ => {
                return CommandOutcome::Rejected;
            },
        }
        let cost = definition.mana_cost;
        let cooldown = definition.cooldown_turns;
        let name = definition.name.clone();
        let outcome = self.use_cleave(name.as_str());
        if outcome == CommandOutcome::Advanced {
            let ghost mid = *self;
            let index = slot.index();
            self.player.mana = self.player.mana - cost;
            self.abilities.set(index, Some(super::AbilityState { cooldown_remaining: cooldown, ..state }));
            proof {
                assert(mid.wf());
                super::classes::lemma_valid_class(old(self).catalog, old(self).class_id);
                assert(mid.player.mana >= old(self).player.mana);
                assert(self.abilities@[index as int] is Some);
                assert forall|k: int| 0 <= k < super::ABILITY_SLOT_COUNT && k != index implies #[trigger] self.abilities@[k] == mid.abilities@[k] by {}
            }
        }
        outcome
    }

    /// The ids of the hostiles next to the player, in increasing order.
    fn adjacent_ids(&self) -> (order: Vec<ActorId>)
        requires
            self.wf(),
        ensures
            self.cleave_order(order@),
    {
        let mut entries: Vec<(i32, u32)> = Vec::new();
        let mut j: usize = 0;
        while j < self.hostiles.len()
            invariant
                self.wf(),
                j <= self.hostiles@.len(),
                forall|a: int, b: int| 0 <= a < b < entries@.len() ==> entry_lt(#[trigger] entries@[a], #[trigger] entries@[b]),
                forall|e: (i32, u32)| #[trigger] entries@.contains(e) <==> exists|k: int| 0 <= k < j
                    && self.adjacent(#[trigger] self.hostiles@[k]) && e == (0i32, self.hostiles@[k].id.0),
            decreases self.hostiles@.len() - j,
        {
            let a = self.hostiles[j];
            assert(super::actor_ok(&self.map, a));
            if self.player.position.chebyshev_distance(a.position) == 1 {
                let e = (0i32, a.id.0);
                proof {
                    assert forall|x: (i32, u32)| #[trigger] entries@.contains(x) implies x.1 != e.1 by {
                        let k = choose|k: int| 0 <= k < j && self.adjacent(#[trigger] self.hostiles@[k])
                            && x == (0i32, self.hostiles@[k].id.0);
                        assert(self.hostiles@[k].id != self.hostiles@[j as int].id);
                    }
                }
                insert_sorted(&mut entries, e);
            }
            proof {
                assert forall|x: (i32, u32)| #[trigger] entries@.contains(x) <== exists|k: int| 0 <= k < j + 1
                    && self.adjacent(#[trigger] self.hostiles@[k]) && x == (0i32, self.hostiles@[k].id.0) by {
                    if exists|k: int| 0 <= k < j + 1 && self.adjacent(#[trigger] self.hostiles@[k])
                        && x == (0i32, self.hostiles@[k].id.0) {
                        let k = choose|k: int| 0 <= k < j + 1 && self.adjacent(#[trigger] self.hostiles@[k])
                            && x == (0i32, self.hostiles@[k].id.0);
                        if k < j {
                            assert(exists|k2: int| 0 <= k2 < j && self.adjacent(#[trigger] self.hostiles@[k2])
                                && x == (0i32, self.hostiles@[k2].id.0));
                        }
                    }
                }
            }
            j = j + 1;
        }
        let mut ids: Vec<ActorId> = Vec::new();
        let mut i: usize = 0;
        while i < entries.len()
            invariant
                i <= entries@.len(),
                ids@.len() == i,
                forall|k: int| 0 <= k < i ==> #[trigger] ids@[k] == ActorId(entries@[k].1),
            decreases entries@.len() - i,
        {
            ids.push(ActorId(entries[i].1));
            i = i + 1;
        }
        proof {
            assert forall|a: int, b: int| 0 <= a < b < ids@.len() implies (#[trigger] ids@[a]).0 < (#[trigger] ids@[b]).0 by {
                assert(entry_lt(entries@[a], entries@[b]));
                assert(entries@.contains(entries@[a]));
                assert(entries@.contains(entries@[b]));
            }
            assert forall|id: ActorId| ids@.contains(id) <==> exists|j: int| 0 <= j < self.hostiles@.len()
                && #[trigger] self.hostiles@[j].id == id && self.adjacent(self.hostiles@[j]) by {
                if ids@.contains(id) {
                    let k = choose|k: int| 0 <= k < ids@.len() && ids@[k] == id;
                    assert(entries@.contains(entries@[k]));
                }
                if exists|j: int| 0 <= j < self.hostiles@.len() && #[trigger] self.hostiles@[j].id == id && self.adjacent(self.hostiles@[j]) {
                    let j = choose|j: int| 0 <= j < self.hostiles@.len() && #[trigger] self.hostiles@[j].id == id && self.adjacent(self.hostiles@[j]);
                    let e = (0i32, id.0);
                    assert(entries@.contains(e));
                    let k = choose|k: int| 0 <= k < entries@.len() && entries@[k] == e;
                    assert(ids@[k] == id);
                }
            }
        }
        ids
    }
}

/// After the strikes and the removal of the fallen, the run is sound again.
proof fn lemma_cleave_keeps_wf(pre: ExplorationGame, order: Seq<ActorId>, struck: ExplorationGame, post: ExplorationGame)
    requires
        pre.wf(),
        pre.cleave_order(order),
        struck.hostiles@ == pre.hostiles@.map_values(|a: Actor| pre.cleaved(order, a)),
        post.hostiles@ == struck.hostiles@.filter(|a: Actor| a.health > 0),
        forall|i: int| 0 <= i < post.hostiles@.len() ==> struck.hostiles@.contains(#[trigger] post.hostiles@[i])
            && post.hostiles@[i].health > 0,
        (forall|a: int, b: int| 0 <= a < b < struck.hostiles@.len() ==> (#[trigger] struck.hostiles@[a]).id != (#[trigger] struck.hostiles@[b]).id)
            ==> forall|a: int, b: int| 0 <= a < b < post.hostiles@.len()
                ==> (#[trigger] post.hostiles@[a]).id != (#[trigger] post.hostiles@[b]).id,
        post.events@.len() <= 5,
        post == (ExplorationGame { hostiles: post.hostiles, events: post.events, combat_roll_count: post.combat_roll_count, ..pre }),
    ensures
        post.wf(),
{
    assert forall|a: int, b: int| 0 <= a < b < struck.hostiles@.len() implies (#[trigger] struck.hostiles@[a]).id != (#[trigger] struck.hostiles@[b]).id by {
        assert(pre.hostiles@[a].id != pre.hostiles@[b].id);
    }
    assert forall|i: int| 0 <= i < post.hostiles@.len() implies super::actor_ok(&post.map, #[trigger] post.hostiles@[i])
        && post.hostiles@[i].id.0 < post.next_actor_id by {
        let x = post.hostiles@[i];
        assert(struck.hostiles@.contains(x));
        let m = choose|m: int| 0 <= m < struck.hostiles@.len() && struck.hostiles@[m] == x;
        assert(struck.hostiles@[m] == pre.cleaved(order, pre.hostiles@[m]));
        assert(super::actor_ok(&pre.map, pre.hostiles@[m]));
    }
}

/// The hostile at index `j` is the one its id finds.
pub proof fn lemma_unique_found_at(g: ExplorationGame, j: int)
    requires
        g.hostiles_wf(),
        0 <= j < g.hostiles@.len(),
    ensures
        g.spec_hostile(g.hostiles@[j].id) == Some(g.hostiles@[j]),
{
    super::targeting::lemma_unique_found(&g, j);
}

/// A strike order lists distinct hostiles, so it is no longer than the list.
pub proof fn lemma_order_len(g: ExplorationGame, order: Seq<ActorId>)
    requires
        g.hostiles_wf(),
        g.cleave_order(order),
    ensures
        order.len() <= g.hostiles@.len(),
{
    let idx = Seq::new(order.len(), |k: int| choose|j: int| 0 <= j < g.hostiles@.len()
        && #[trigger] g.hostiles@[j].id == order[k] && g.adjacent(g.hostiles@[j]));
    assert forall|k: int| 0 <= k < order.len() implies 0 <= #[trigger] idx[k] < g.hostiles@.len() && g.hostiles@[idx[k]].id == order[k] by {
        assert(order.contains(order[k]));
    }
    let s = idx.to_set();
    assert forall|a: int, b: int| 0 <= a < b < order.len() implies #[trigger] idx[a] != #[trigger] idx[b] by {
        assert(order[a].0 < order[b].0);
    }
    idx.unique_seq_to_set();
    assert(s.subset_of(Set::new(|j: int| 0 <= j < g.hostiles@.len())));
    vstd::set_lib::lemma_int_range(0, g.hostiles@.len() as int);
    assert(Set::new(|j: int| 0 <= j < g.hostiles@.len()) =~= vstd::set_lib::set_int_range(0, g.hostiles@.len() as int));
    vstd::set_lib::lemma_len_subset(s, vstd::set_lib::set_int_range(0, g.hostiles@.len() as int));
}

/// A Cleave that lands is paid for: the turn's regeneration comes first
/// (kept between zero and the maximum), then the ability's cost is taken,
/// and the slot starts its cooldown.
pub proof fn lemma_landed_cleave_costs_mana(pre: ExplorationGame, post: ExplorationGame, slot: AbilitySlot)
    requires
        pre.wf(),
        1 <= slot.spec_number() <= 10,
        ability_outcome(pre, post, slot, CommandOutcome::Advanced),
    ensures
        pre.slot_ability(slot) is Some,
        ({
            let d = pre.slot_ability(slot).unwrap();
            let v = pre.player.mana + pre.spec_class_def().mana_regeneration;
            let restored = if v < 0 { 0 } else if v > pre.player.max_mana { pre.player.max_mana as int } else { v };
            &&& post.player.mana == restored - d.mana_cost
            &&& post.abilities@[slot.spec_number() - 1] == Some(super::AbilityState {
                cooldown_remaining: d.cooldown_turns,
                ..pre.spec_ability_state(slot).unwrap()
            })
        }),
{
    let d = pre.slot_ability(slot).unwrap();
    super::classes::lemma_valid_ability(pre.catalog, pre.spec_ability_state(slot).unwrap().ability_id);
    let mid = choose|mid: ExplorationGame| #[trigger] pre.cleave_result(d.name@, mid) && post == (ExplorationGame {
        player: super::Player { mana: (mid.player.mana - d.mana_cost) as i32, ..mid.player },
        abilities: post.abilities,
        ..mid
    }) && post.abilities@ == pre.abilities@.update(slot.spec_number() - 1,
        Some(super::AbilityState { cooldown_remaining: d.cooldown_turns, ..pre.spec_ability_state(slot).unwrap() }));
    let order = choose|order: Seq<ActorId>| #[trigger] pre.cleave_order(order) && {
        &&& mid.combat_roll_count == pre.combat_roll_count + order.len()
        &&& mid.player == (super::Player {
            mana: regenerated(pre.player.mana as int, pre.spec_class_def().mana_regeneration as int,
                pre.player.max_mana as int) as i32,
            ..pre.player
        })
    };
    let v = pre.player.mana + pre.spec_class_def().mana_regeneration;
    let restored = if v < 0 { 0 } else if v > pre.player.max_mana { pre.player.max_mana as int } else { v };
    assert(mid.player.mana == restored);
    assert(d.mana_cost >= 0);
}

} // verus!
