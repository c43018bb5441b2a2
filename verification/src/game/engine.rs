//! The command dispatcher: modes, turn accounting and the hostiles' answer.

use super::ai::{ai_frame_many, enemy_round};
use super::combat::ability_outcome;
use super::inventory::{item_use_outcome, pickup_outcome};
use super::movement::{move_outcome, turn_passed};
use super::targeting::{confirm_outcome, cursor_outcome, cycle_outcome};
use super::{
    log_push, step_from, ActorId, Command, CommandOutcome, ExplorationGame, InspectState, RunStatus,
};
use crate::text::text;
use vstd::prelude::*;

verus! {

/// What a command does in targeting mode.
pub open spec fn targeting_step(pre: ExplorationGame, mid: ExplorationGame, command: Command, r: CommandOutcome) -> bool {
    let t = pre.targeting.unwrap();
    match command {
        Command::MoveCursor(d) => cursor_outcome(pre, mid, d, r),
        Command::Move(d) => cursor_outcome(pre, mid, d, r),
        Command::CycleTarget { backwards } => cycle_outcome(pre, mid, backwards, r),
        Command::ConfirmTarget => confirm_outcome(pre, mid, r),
        Command::CancelMode => r == CommandOutcome::Rejected && mid == (ExplorationGame { targeting: None, ..pre }),
        Command::UseAbility(slot) => if slot == t.ability_slot {
            r == CommandOutcome::Rejected && mid == (ExplorationGame { targeting: None, ..pre })
        } else {
            r == CommandOutcome::Rejected && mid == pre
        },
        _ => r == CommandOutcome::Rejected && mid == pre,
    }
}

/// What a command does in inspection mode: the cursor moves within the
/// map or the mode closes; no turn passes.
pub open spec fn inspect_step(pre: ExplorationGame, mid: ExplorationGame, command: Command, r: CommandOutcome) -> bool {
    let s = pre.inspecting.unwrap();
    &&& r == CommandOutcome::Rejected
    &&& match command {
        Command::MoveCursor(d) => mid == (ExplorationGame {
            inspecting: if pre.map.in_bounds(step_from(s.cursor, d)) {
                Some(InspectState { cursor: step_from(s.cursor, d) })
            } else {
                Some(s)
            },
            ..pre
        }),
        Command::Move(d) => mid == (ExplorationGame {
            inspecting: if pre.map.in_bounds(step_from(s.cursor, d)) {
                Some(InspectState { cursor: step_from(s.cursor, d) })
            } else {
                Some(s)
            },
            ..pre
        }),
        Command::ToggleInspect => mid == (ExplorationGame { inspecting: None, ..pre }),
        Command::CancelMode => mid == (ExplorationGame { inspecting: None, ..pre }),
        _ => mid == pre,
    }
}

/// What a command does in item mode.
pub open spec fn item_step(pre: ExplorationGame, mid: ExplorationGame, command: Command, r: CommandOutcome) -> bool {
    match command {
        Command::UseItemSlot(slot) => item_use_outcome(pre, mid, slot, r),
        Command::ToggleItemUse => r == CommandOutcome::Rejected && mid == (ExplorationGame { using_item: false, ..pre }),
        Command::CancelMode => r == CommandOutcome::Rejected && mid == (ExplorationGame { using_item: false, ..pre }),
        _ => r == CommandOutcome::Rejected && mid == pre,
    }
}

/// What a command does when no mode is open.
pub open spec fn free_step(pre: ExplorationGame, mid: ExplorationGame, command: Command, r: CommandOutcome) -> bool {
    match command {
        Command::Move(d) => move_outcome(pre, mid, d, r),
        Command::Wait => {
            &&& r == CommandOutcome::Advanced
            &&& turn_passed(pre, mid, true)
            &&& mid.log() == log_push(pre.log(), "You wait and listen."@)
            &&& mid == (ExplorationGame {
                turn: mid.turn,
                player: super::Player { mana: mid.player.mana, ..pre.player },
                abilities: mid.abilities,
                events: mid.events,
                ..pre
            })
        },
        Command::UseAbility(slot) => ability_outcome(pre, mid, slot, r),
        Command::ToggleInspect => r == CommandOutcome::Rejected
            && mid == (ExplorationGame { inspecting: Some(InspectState { cursor: pre.player.position }), ..pre }),
        Command::PickupItem => pickup_outcome(pre, mid, r),
        Command::ToggleItemUse => r == CommandOutcome::Rejected && mid == (ExplorationGame { using_item: true, ..pre }),
        _ => r == CommandOutcome::Rejected && mid == pre,
    }
}

/// What a command does in the run's current mode, before any enemy turn.
pub open spec fn command_step(pre: ExplorationGame, mid: ExplorationGame, command: Command, r: CommandOutcome) -> bool {
    if pre.targeting is Some {
        targeting_step(pre, mid, command, r)
    } else if pre.inspecting is Some {
        inspect_step(pre, mid, command, r)
    } else if pre.using_item {
        item_step(pre, mid, command, r)
    } else {
        free_step(pre, mid, command, r)
    }
}

/// The headroom the counters need for one command: a turn to count, and
/// a combat roll for every strike the command and the hostiles can make.
pub open spec fn has_headroom(g: ExplorationGame) -> bool {
    &&& g.turn < u64::MAX
    &&& g.combat_roll_count + 2 * g.hostiles@.len() + 1 <= u64::MAX
}

/// What applying `command` does: outside an active run nothing; otherwise
/// the command's own step, and on a taken turn the hostiles' round.
pub open spec fn applied(pre: ExplorationGame, post: ExplorationGame, command: Command, r: CommandOutcome) -> bool {
    &&& (pre.status != RunStatus::Active ==> r == CommandOutcome::Rejected && post == pre)
    &&& (pre.status == RunStatus::Active ==> exists|mid: ExplorationGame| #[trigger] command_step(pre, mid, command, r)
        && mid.wf()
        && if r == CommandOutcome::Advanced && mid.status == RunStatus::Active && pre.enemy_turns_enabled {
            exists|ids: Seq<ActorId>, chain: Seq<ExplorationGame>| #[trigger] enemy_round(mid, post, ids, chain)
        } else {
            post == mid
        })
}

/// In any mode, the same command on the same run has one outcome.
proof fn lemma_step_outcome_determined(pre: ExplorationGame, command: Command, m1: ExplorationGame, r1: CommandOutcome,
    m2: ExplorationGame, r2: CommandOutcome)
    requires
        command_step(pre, m1, command, r1),
        command_step(pre, m2, command, r2),
    ensures
        r1 == r2,
{
}

/// Whether a command takes a turn is decided by the run it is applied to:
/// from one run, the same command is always advanced or always refused.
pub proof fn lemma_outcome_determined(pre: ExplorationGame, command: Command, p1: ExplorationGame, r1: CommandOutcome,
    p2: ExplorationGame, r2: CommandOutcome)
    requires
        applied(pre, p1, command, r1),
        applied(pre, p2, command, r2),
    ensures
        r1 == r2,
{
    if pre.status == RunStatus::Active {
        let m1 = choose|mid: ExplorationGame| #[trigger] command_step(pre, mid, command, r1) && mid.wf()
            && if r1 == CommandOutcome::Advanced && mid.status == RunStatus::Active && pre.enemy_turns_enabled {
                exists|ids: Seq<ActorId>, chain: Seq<ExplorationGame>| #[trigger] enemy_round(mid, p1, ids, chain)
            } else {
                p1 == mid
            };
        let m2 = choose|mid: ExplorationGame| #[trigger] command_step(pre, mid, command, r2) && mid.wf()
            && if r2 == CommandOutcome::Advanced && mid.status == RunStatus::Active && pre.enemy_turns_enabled {
                exists|ids: Seq<ActorId>, chain: Seq<ExplorationGame>| #[trigger] enemy_round(mid, p2, ids, chain)
            } else {
                p2 == mid
            };
        lemma_step_outcome_determined(pre, command, m1, r1, m2, r2);
    }
}

impl ExplorationGame {
    /// Apply one command. Outside an active run every command is refused.
    /// A command that takes a turn is answered by the hostiles (while the
    /// player stands and enemy turns are on). A refused command changes no
    /// play state; explored tiles stay explored, and a run whose visible
    /// tiles are all explored stays so; terrain changes only by closed doors
    /// opening.
    pub fn apply(&mut self, command: Command) -> (r: CommandOutcome)
        requires
            old(self).wf(),
            old(self).status == RunStatus::Active ==> has_headroom(*old(self)),
        ensures
            final(self).wf(),
            applied(*old(self), *final(self), command, r),
            r == CommandOutcome::Rejected ==> final(self).same_play(*old(self)),
            r == CommandOutcome::Advanced ==> final(self).turn == old(self).turn + 1,
            old(self).explored@.subset_of(final(self).explored@),
            old(self).visible@.subset_of(old(self).explored@) ==> final(self).visible@.subset_of(final(self).explored@),
            final(self).map.keeps_terrain_of(&old(self).map),
    {
        if self.status != RunStatus::Active {
            return CommandOutcome::Rejected;
        }
        let outcome = self.command_step_exec(command);
        if outcome == CommandOutcome::Advanced && self.status == RunStatus::Active && self.enemy_turns_enabled {
            let ghost mid = *self;
            self.run_enemy_turns();
            proof {
                assert(ai_frame_many(mid, ExplorationGame { visible: mid.visible, explored: mid.explored, ..*self }));
            }
        }
        outcome
    }

    fn command_step_exec(&mut self, command: Command) -> (r: CommandOutcome)
        requires
            old(self).wf(),
            has_headroom(*old(self)),
            old(self).status == RunStatus::Active,
        ensures
            final(self).wf(),
            r == CommandOutcome::Rejected ==> final(self).same_play(*old(self)),
            r == CommandOutcome::Advanced ==> final(self).turn == old(self).turn + 1,
            final(self).enemy_turns_enabled == old(self).enemy_turns_enabled,
            final(self).combat_roll_count + final(self).hostiles@.len() <= u64::MAX,
            old(self).explored@.subset_of(final(self).explored@),
            old(self).visible@.subset_of(old(self).explored@) ==> final(self).visible@.subset_of(final(self).explored@),
            final(self).map.keeps_terrain_of(&old(self).map),
            command_step(*old(self), *final(self), command, r),
            old(self).using_item && old(self).targeting is None && old(self).inspecting is None
                ==> final(self).status == RunStatus::Active,
    {
        if self.targeting.is_some() {
            return self.targeting_exec(command);
        }
        if self.inspecting.is_some() {
            return self.inspect_exec(command);
        }
        if self.using_item {
            return self.item_exec(command);
        }
        self.free_exec(command)
    }

    fn targeting_exec(&mut self, command: Command) -> (r: CommandOutcome)
        requires
            old(self).wf(),
            has_headroom(*old(self)),
            old(self).status == RunStatus::Active,
            old(self).targeting is Some,
        ensures
            final(self).wf(),
            r == CommandOutcome::Rejected ==> final(self).same_play(*old(self)),
            r == CommandOutcome::Advanced ==> final(self).turn == old(self).turn + 1,
            final(self).enemy_turns_enabled == old(self).enemy_turns_enabled,
            final(self).combat_roll_count + final(self).hostiles@.len() <= u64::MAX,
            old(self).explored@.subset_of(final(self).explored@),
            old(self).visible@.subset_of(old(self).explored@) ==> final(self).visible@.subset_of(final(self).explored@),
            final(self).map.keeps_terrain_of(&old(self).map),
            targeting_step(*old(self), *final(self), command, r),
    {
        let targeting = self.targeting.unwrap();
        match command {
            Command::MoveCursor(d) => self.move_target_cursor(d),
            Command::Move(d) => self.move_target_cursor(d),
            Command::CycleTarget { backwards } => self.cycle_target(backwards),
            Command::ConfirmTarget => self.confirm_target(),
            Command::CancelMode => self.cancel_targeting(),
            Command::UseAbility(slot) => {
                if slot == targeting.ability_slot {
                    self.cancel_targeting()
                } else {
                    CommandOutcome::Rejected
                }
            },
            _ => CommandOutcome::Rejected,
        }
    }

    fn inspect_exec(&mut self, command: Command) -> (r: CommandOutcome)
        requires
            old(self).wf(),
            has_headroom(*old(self)),
            old(self).status == RunStatus::Active,
            old(self).inspecting is Some,
        ensures
            final(self).wf(),
            r == CommandOutcome::Rejected ==> final(self).same_play(*old(self)),
            r == CommandOutcome::Advanced ==> final(self).turn == old(self).turn + 1,
            final(self).enemy_turns_enabled == old(self).enemy_turns_enabled,
            final(self).combat_roll_count + final(self).hostiles@.len() <= u64::MAX,
            old(self).explored@.subset_of(final(self).explored@),
            old(self).visible@.subset_of(old(self).explored@) ==> final(self).visible@.subset_of(final(self).explored@),
            final(self).map.keeps_terrain_of(&old(self).map),
            inspect_step(*old(self), *final(self), command, r),
    {
        let inspecting = self.inspecting.unwrap();
        match command {
            Command::MoveCursor(d) | Command::Move(d) => {
                let (dx, dy) = d.delta();
                let cursor = inspecting.cursor.offset(dx, dy);
                if self.map.contains(cursor) {
                    self.inspecting = Some(InspectState { cursor });
                }
            },
            Command::ToggleInspect | Command::CancelMode => {
                self.inspecting = None;
            },
            _ => {},
        }
        CommandOutcome::Rejected
    }

    fn item_exec(&mut self, command: Command) -> (r: CommandOutcome)
        requires
            old(self).wf(),
            has_headroom(*old(self)),
            old(self).status == RunStatus::Active,
        ensures
            final(self).wf(),
            r == CommandOutcome::Rejected ==> final(self).same_play(*old(self)),
            r == CommandOutcome::Advanced ==> final(self).turn == old(self).turn + 1,
            final(self).enemy_turns_enabled == old(self).enemy_turns_enabled,
            final(self).combat_roll_count + final(self).hostiles@.len() <= u64::MAX,
            old(self).explored@.subset_of(final(self).explored@),
            old(self).visible@.subset_of(old(self).explored@) ==> final(self).visible@.subset_of(final(self).explored@),
            final(self).map.keeps_terrain_of(&old(self).map),
            item_step(*old(self), *final(self), command, r),
            final(self).status == RunStatus::Active,
    {
        match command {
            Command::UseItemSlot(slot) => self.use_item_slot(slot),
            Command::ToggleItemUse | Command::CancelMode => {
                self.using_item = false;
                CommandOutcome::Rejected
            },
            _ => CommandOutcome::Rejected,
        }
    }

    fn free_exec(&mut self, command: Command) -> (r: CommandOutcome)
        requires
            old(self).wf(),
            has_headroom(*old(self)),
            old(self).status == RunStatus::Active,
        ensures
            final(self).wf(),
            r == CommandOutcome::Rejected ==> final(self).same_play(*old(self)),
            r == CommandOutcome::Advanced ==> final(self).turn == old(self).turn + 1,
            final(self).enemy_turns_enabled == old(self).enemy_turns_enabled,
            final(self).combat_roll_count + final(self).hostiles@.len() <= u64::MAX,
            old(self).explored@.subset_of(final(self).explored@),
            old(self).visible@.subset_of(old(self).explored@) ==> final(self).visible@.subset_of(final(self).explored@),
            final(self).map.keeps_terrain_of(&old(self).map),
            free_step(*old(self), *final(self), command, r),
    {
        match command {
            Command::Move(d) => self.move_player(d),
            Command::Wait => {
                self.advance_turn(true);
                self.push_event(text("You wait and listen."));
                CommandOutcome::Advanced
            },
            Command::UseAbility(slot) => self.use_ability(slot),
            Command::ToggleInspect => {
                self.inspecting = Some(InspectState { cursor: self.player.position });
                CommandOutcome::Rejected
            },
            Command::PickupItem => self.pickup_item(),
            Command::ToggleItemUse => {
                self.using_item = true;
                CommandOutcome::Rejected
            },
            _ => CommandOutcome::Rejected,
        }
    }
}

} // verus!
