use std::collections::HashSet;

use terminal_rpg::game::{
    can_step, AbilityAvailability, AbilityBinding, AbilityDefinition, AbilityEffect, AbilityId, AbilitySlot,
    AbilityState, AbilityTargeting, ActorId, ActorKind, ClassDefinition, ClassId, Command, CommandOutcome, Direction,
    ExplorationGame, GameCatalog, GameError, InspectionVisibility, RunStatus, Telegraph, TargetValidity,
    CLEAVE_COOLDOWN_TURNS, PLAYER_ARMOR, PLAYER_DAMAGE, PLAYER_MAX_HEALTH,
};
use terminal_rpg::game::Actor;
use terminal_rpg::world::{DungeonMap, Position, RunSeed, Tile};

fn game(rows: &[&str]) -> ExplorationGame {
    ExplorationGame::from_map(
        DungeonMap::from_test_rows(rows, RunSeed(7)),
        Some(RunSeed(7)),
        RunStatus::Active,
        ClassId::grave_knight(),
        GameCatalog::builtin(),
    )
    .unwrap()
}

fn game_with_ai(rows: &[&str]) -> ExplorationGame {
    let mut game = game(rows);
    game.enemy_turns_enabled = true;
    game
}

fn activate(game: &mut ExplorationGame, id: ActorId) {
    game.hostiles
        .iter_mut()
        .find(|actor| actor.id == id)
        .unwrap()
        .active = true;
}

fn cleave() -> Command {
    Command::UseAbility(AbilitySlot::cleave())
}

fn assert_clean_populated_restart(game: &ExplorationGame, expected_seed: RunSeed) {
    let pristine = ExplorationGame::new(Some(expected_seed)).unwrap();
    assert_eq!(game.seed(), expected_seed);
    assert_eq!(game.status, RunStatus::Active);
    assert_eq!(game.turn, 0);
    assert_eq!(game.player, pristine.player);
    assert_eq!(game.player.health, PLAYER_MAX_HEALTH);
    assert_eq!(game.abilities[0].as_ref().unwrap().cooldown_remaining, 0);
    assert!(!game.help);
    assert_eq!(game.map, pristine.map);
    assert_eq!(game.hostiles, pristine.hostiles);
    assert_eq!(game.visible, pristine.visible);
    assert_eq!(game.explored, pristine.explored);
    assert_eq!(
        game.next_actor_id,
        u32::try_from(game.hostiles.len()).unwrap() + 1
    );
    assert!(game.enemy_turns_enabled);
    assert!(game
        .hostiles
        .iter()
        .all(|actor| !actor.active && actor.telegraph.is_none()));
    assert_eq!(
        game.events,
        [
            "The crypt waits in silence.".to_owned(),
            "The dungeon reforms around you.".to_owned()
        ]
    );
}

#[test]
fn mod_movement_wait_walls_and_turn_rules_are_authoritative() {
    let mut game = game(&["#######", "#@....#", "#....>#", "#######"]);
    assert_eq!(
        game.apply(Command::Move(Direction::North)),
        CommandOutcome::Rejected
    );
    assert_eq!(game.turn, 0);
    assert_eq!(
        game.apply(Command::Move(Direction::East)),
        CommandOutcome::Advanced
    );
    assert_eq!(game.player.position, Position::new(2, 1));
    assert_eq!(game.turn, 1);
    assert_eq!(game.apply(Command::Wait), CommandOutcome::Advanced);
    assert_eq!(game.turn, 2);
    assert_eq!(game.apply(cleave()), CommandOutcome::Rejected);
    assert_eq!(game.turn, 2);
}

#[test]
fn mod_title_and_help_are_free_state_changes() {
    let seed = RunSeed(42);
    let mut game = ExplorationGame::with_effective_seed(Some(seed), seed).unwrap();
    assert_eq!(game.status, RunStatus::Title);
    game.toggle_help();
    assert!(game.help);
    assert_eq!(game.turn, 0);
    game.start();
    assert_eq!(game.status, RunStatus::Active);
    assert_eq!(game.turn, 0);
}

#[test]
fn mod_diagonals_cannot_cut_either_blocked_corner() {
    for rows in [
        ["#####", "#@#.#", "#...#", "#..>#", "#####"],
        ["#####", "#@.>#", "##..#", "#..>#", "#####"],
    ] {
        let mut game = game(&rows);
        assert_eq!(
            game.apply(Command::Move(Direction::SouthEast)),
            CommandOutcome::Rejected
        );
        assert_eq!(game.player.position, Position::new(1, 1));
        assert_eq!(game.turn, 0);
    }

    let mut open = game(&["#####", "#@..#", "#...#", "#..>#", "#####"]);
    assert_eq!(
        open.apply(Command::Move(Direction::SouthEast)),
        CommandOutcome::Advanced
    );
    assert_eq!(open.player.position, Position::new(2, 2));
    assert_eq!(open.turn, 1);
}

#[test]
fn mod_movement_cannot_leave_map_bounds() {
    let mut game = game(&["@..", "..>"]);
    assert_eq!(
        game.apply(Command::Move(Direction::NorthWest)),
        CommandOutcome::Rejected
    );
    assert_eq!(game.player.position, Position::new(0, 0));
    assert_eq!(game.turn, 0);
}

#[test]
fn mod_bumping_a_door_opens_it_for_one_turn_without_moving() {
    let mut game = game(&["######", "#@+>##", "######"]);
    assert_eq!(
        game.apply(Command::Move(Direction::East)),
        CommandOutcome::Advanced
    );
    assert_eq!(game.player.position, Position::new(1, 1));
    assert_eq!(game.map.tile(Position::new(2, 1)), Some(Tile::OpenDoor));
    assert_eq!(game.turn, 1);
    assert_eq!(
        game.apply(Command::Move(Direction::East)),
        CommandOutcome::Advanced
    );
    assert_eq!(game.player.position, Position::new(2, 1));
    assert_eq!(game.turn, 2);
}

#[test]
fn mod_walls_doors_and_corners_occlude_field_of_view() {
    let wall = game(&["########", "#@.#..>#", "########"]);
    assert!(wall.is_visible(Position::new(3, 1)));
    assert!(!wall.is_visible(Position::new(4, 1)));

    let mut door = game(&["########", "#@+...>#", "########"]);
    assert!(door.is_visible(Position::new(2, 1)));
    assert!(!door.is_visible(Position::new(3, 1)));
    door.apply(Command::Move(Direction::East));
    assert!(door.is_visible(Position::new(3, 1)));

    let corner = game(&["#####", "#@#>#", "##..#", "#####"]);
    assert!(!corner.is_visible(Position::new(2, 2)));
}

#[test]
fn mod_explored_memory_survives_after_visibility_moves_away() {
    let mut game = game(&[
        "########################",
        "#@....................>#",
        "########################",
    ]);
    let origin = game.player.position;
    for _ in 0..10 {
        assert_eq!(
            game.apply(Command::Move(Direction::East)),
            CommandOutcome::Advanced
        );
    }
    assert!(!game.is_visible(origin));
    assert!(game.is_explored(origin));
}

#[test]
fn inspection_respects_fog_and_orders_live_facts_stably() {
    let mut game = game(&[
        "########################",
        "#@+...................>#",
        "########################",
    ]);
    let player = game.inspect(game.player.position);
    assert_eq!(player.visibility, InspectionVisibility::Visible);
    assert_eq!(player.entities[0].actor_id, ActorId(0));
    assert!(player.entities[0].description.contains("oath-bound"));

    let occupied = Position::new(2, 1);
    let skeleton = game.spawn_hostile(ActorKind::Skeleton, occupied, 10, 2, 3);
    let ghoul = game.spawn_hostile(ActorKind::Ghoul, occupied, 12, 1, 4);
    game.hostiles[0].telegraph = Some(Telegraph::CultistHex { target: occupied });
    game.hostiles[1].telegraph = Some(Telegraph::GhoulLunge {
        target: Position::new(4, 1),
    });
    let visible = game.inspect(occupied);
    assert_eq!(visible.visibility, InspectionVisibility::Visible);
    assert_eq!(
        visible
            .entities
            .iter()
            .map(|entity| entity.actor_id)
            .collect::<Vec<_>>(),
        [skeleton, ghoul]
    );
    assert_eq!(visible.markers.len(), 3);
    assert!(visible
        .entities
        .iter()
        .all(|entity| !entity.description.is_empty()));

    game.hostiles.push(Actor {
        id: ActorId(99),
        kind: ActorKind::Cultist,
        position: occupied,
        health: 8,
        max_health: 8,
        armor: 0,
        damage: 1,
        active: false,
        telegraph: None,
    });
    assert!(game.inspect(occupied).entities.iter().any(|entity| {
        entity.actor_id == ActorId(99) && entity.description.contains("grave-priest")
    }));

    game.hostiles.clear();
    for _ in 0..11 {
        game.apply(Command::Move(Direction::East));
    }
    let remembered = game.inspect(Position::new(2, 1));
    assert_eq!(remembered.visibility, InspectionVisibility::Remembered);
    assert!(remembered.terrain.is_some());
    assert!(remembered.entities.is_empty() && remembered.markers.is_empty());
    let unknown = game.inspect(Position::new(22, 1));
    assert_eq!(unknown.visibility, InspectionVisibility::Unknown);
    assert!(unknown.terrain.is_none());
    assert!(unknown.entities.is_empty() && unknown.markers.is_empty());
}

#[test]
fn inspect_cursor_is_bounded_modal_and_entirely_turn_free() {
    let mut game = game(&["@+>", "..."]);
    let before = game.clone();
    assert_eq!(game.apply(Command::ToggleInspect), CommandOutcome::Rejected);
    assert_eq!(game.inspecting.unwrap().cursor, Position::new(0, 0));
    game.apply(Command::Move(Direction::NorthWest));
    assert_eq!(game.inspecting.unwrap().cursor, Position::new(0, 0));
    game.apply(Command::MoveCursor(Direction::East));
    assert_eq!(game.inspecting.unwrap().cursor, Position::new(1, 0));
    assert_eq!(game.turn, before.turn);
    assert_eq!(game.player, before.player);
    assert_eq!(game.hostiles, before.hostiles);
    assert_eq!(game.abilities, before.abilities);
    assert_eq!(game.events, before.events);
    assert_eq!(game.combat_roll_count, before.combat_roll_count);
    assert!(game.targeting.is_none());
    game.apply(Command::CancelMode);
    assert!(game.inspecting.is_none());
    game.status = RunStatus::Victory;
    game.apply(Command::ToggleInspect);
    assert!(game.inspecting.is_none());
}

#[test]
fn mod_entering_the_exit_wins_immediately() {
    let mut game = game(&["#####", "#@>##", "#####"]);
    assert_eq!(
        game.apply(Command::Move(Direction::East)),
        CommandOutcome::Advanced
    );
    assert_eq!(game.status, RunStatus::Victory);
    assert_eq!(game.turn, 1);
    assert_eq!(game.apply(Command::Wait), CommandOutcome::Rejected);
    assert_eq!(game.turn, 1);
}

#[test]
fn mod_explicit_restart_repeats_and_unseeded_restart_uses_candidate() {
    let seed_a = RunSeed(0xA11CE);
    let seed_b = RunSeed(0xB0B);
    let mut explicit = ExplorationGame::with_effective_seed(Some(seed_a), seed_a).unwrap();
    let first_map = explicit.map.clone();
    explicit.restart_with_seed(seed_b).unwrap();
    assert_eq!(explicit.seed(), seed_a);
    assert_eq!(explicit.map, first_map);

    let mut fresh = ExplorationGame::with_effective_seed(None, seed_a).unwrap();
    fresh.restart_with_seed(seed_b).unwrap();
    assert_eq!(fresh.seed(), seed_b);
    assert_ne!(fresh.map, first_map);
}

#[test]
fn mod_identical_seed_and_commands_reproduce_complete_exploration_state() {
    let seed = RunSeed(0xD4_4B);
    let mut left = ExplorationGame::with_effective_seed(Some(seed), seed).unwrap();
    let mut right = left.clone();
    left.start();
    right.start();
    let commands = [
        Command::Wait,
        Command::Move(Direction::North),
        Command::Move(Direction::East),
        Command::Move(Direction::SouthEast),
    ];
    for command in commands {
        left.apply(command);
        right.apply(command);
    }
    assert_eq!(left, right);
}

#[test]
fn default_and_explicit_grave_knight_construction_are_identical() {
    let seed = RunSeed(0x0C1A_55E5);
    let default = ExplorationGame::new(Some(seed)).unwrap();
    let explicit = ExplorationGame::new_with_class(Some(seed), ClassId::grave_knight()).unwrap();
    assert_eq!(default, explicit);
    assert_eq!(default.player.max_health, PLAYER_MAX_HEALTH);
    assert_eq!(default.player.armor, PLAYER_ARMOR);
    assert_eq!(default.player.damage, PLAYER_DAMAGE);
    assert_eq!(
        default.ability_state(AbilitySlot::cleave()),
        Some(AbilityState {
            ability_id: AbilityId::cleave(),
            cooldown_remaining: 0
        })
    );
    assert!(matches!(
        ExplorationGame::new_with_class(Some(seed), ClassId(999)),
        Err(GameError::UnknownClass(ClassId(999)))
    ));
}

#[test]
fn alternate_catalog_class_uses_generic_construction_execution_and_restart() {
    let class_id = ClassId(99);
    let ability_id = AbilityId(77);
    let catalog = GameCatalog::new(
        vec![AbilityDefinition {
            id: ability_id,
            name: "Test Sweep".into(),
            description: "Sweep nearby foes.".into(),
            mana_cost: 1,
            cooldown_turns: 2,
            targeting: AbilityTargeting::Immediate,
            effect: AbilityEffect::Cleave,
            availability: AbilityAvailability::Class(class_id),
        }],
        vec![ClassDefinition {
            id: class_id,
            name: "Test Warden".into(),
            description: "A sentinel raised against the dark.".into(),
            max_health: 41,
            max_mana: 10,
            mana_regeneration: 1,
            armor: 3,
            base_damage: 8,
            starting_abilities: vec![AbilityBinding {
                slot: 3,
                ability_id,
            }],
        }],
    )
    .unwrap();
    let seed = RunSeed(0xA17C_1A55);
    let mut game = ExplorationGame::new_with_catalog(Some(seed), class_id, catalog).unwrap();
    game.start();
    assert_eq!(
        game.inspect(game.player.position).entities[0].description,
        "A sentinel raised against the dark."
    );
    assert_eq!(
        (
            game.player.max_health,
            game.player.armor,
            game.player.damage
        ),
        (41, 3, 8)
    );
    assert_eq!(game.class_id, class_id);
    assert_eq!(game.ability_state(AbilitySlot::cleave()), None);
    let slot = AbilitySlot::new(3).unwrap();
    assert_eq!(game.ability_state(slot).unwrap().ability_id, ability_id);

    game.hostiles.clear();
    let adjacent = Direction::all()
        .iter()
        .map(|direction| {
            let (dx, dy) = direction.delta();
            game.player.position.offset(dx, dy)
        })
        .find(|position| game.map.tile(*position).is_some_and(Tile::is_walkable))
        .expect("generated player start has an adjacent walkable tile");
    game.spawn_hostile(ActorKind::Skeleton, adjacent, 30, 0, 1);
    assert_eq!(
        game.apply(Command::UseAbility(slot)),
        CommandOutcome::Advanced
    );
    assert_eq!(game.ability_state(slot).unwrap().cooldown_remaining, 2);
    assert!(game
        .events
        .iter()
        .any(|event| event == "You unleash Test Sweep."));
    assert!(game
        .events
        .iter()
        .any(|event| event.starts_with("Test Sweep hits Skeleton")));
    game.restart_with_seed(RunSeed(1)).unwrap();
    assert_eq!(game.class_id, class_id);
    assert_eq!(
        (
            game.player.max_health,
            game.player.armor,
            game.player.damage
        ),
        (41, 3, 8)
    );
    assert_eq!(game.ability_state(slot).unwrap().cooldown_remaining, 0);
    game.damage_player(999, "the dark");
    assert_eq!(game.events.last().unwrap(), "The Test Warden falls.");
}

#[test]
fn bump_attacks_use_seeded_variable_damage_and_hold_position() {
    let mut game = game(&["######", "#@.>##", "######"]);
    let enemy = game.spawn_hostile(ActorKind::Skeleton, Position::new(2, 1), 10, 2, 4);
    assert_eq!(
        game.apply(Command::Move(Direction::East)),
        CommandOutcome::Advanced
    );
    assert_eq!(game.player.position, Position::new(1, 1));
    assert_eq!(game.turn, 1);
    assert_eq!(
        game.hostiles
            .iter()
            .find(|actor| actor.id == enemy)
            .unwrap()
            .health,
        6
    );
    assert_eq!(
        game.events.last().unwrap(),
        "You strike the Skeleton for 4 damage."
    );
}

#[test]
fn mod_armor_never_reduces_a_successful_hit_below_one_and_defeat_removes_actor() {
    let mut game = game(&["######", "#@.>##", "######"]);
    let enemy = game.spawn_hostile(ActorKind::Skeleton, Position::new(2, 1), 2, 99, 4);
    game.apply(Command::Move(Direction::East));
    assert_eq!(game.hostiles[0].health, 1);
    game.apply(Command::Move(Direction::East));
    assert!(game.hostiles.iter().all(|actor| actor.id != enemy));
    assert_eq!(game.turn, 2);
    assert_eq!(game.events.last().unwrap(), "The Skeleton is destroyed.");
}

#[test]
fn combat_rolls_are_bounded_variable_and_count_only_successful_hits() {
    let mut outcomes = HashSet::new();
    for seed in 0..64 {
        let mut rolled = game(&["#####", "#@.>#", "#####"]);
        rolled.map.seed = RunSeed(seed);
        let damage = rolled.damage_player(3, "test");
        assert!((1..=5).contains(&damage));
        assert_eq!(rolled.combat_roll_count, 1);
        outcomes.insert(damage);
    }
    assert!(outcomes.len() > 1);

    let mut clamped = game(&["#####", "#@.>#", "#####"]);
    assert_eq!(clamped.roll_damage(0, 99), 1);
    assert_eq!(clamped.combat_roll_count, 1);

    let mut rejected = game(&["#####", "#@.>#", "#####"]);
    assert_eq!(rejected.apply(cleave()), CommandOutcome::Rejected);
    assert_eq!(
        rejected.apply(Command::Move(Direction::North)),
        CommandOutcome::Rejected
    );
    assert_eq!(rejected.combat_roll_count, 0);

    let mut extreme = game(&["#####", "#@.>#", "#####"]);
    assert!(extreme.roll_damage(i32::MAX, 0) > 0);
    assert_eq!(extreme.combat_roll_count, 1);
}

#[test]
fn combat_stream_replays_and_restarts_without_changing_world_generation() {
    let seed = RunSeed(0xD4A6_E001);
    let mut left = ExplorationGame::new(Some(seed)).unwrap();
    let mut right = ExplorationGame::new(Some(seed)).unwrap();
    let map_before = left.map.clone();
    let hostiles_before = left.hostiles.clone();

    let left_rolls = (0..12).map(|_| left.roll_damage(6, 2)).collect::<Vec<_>>();
    let right_rolls = (0..12).map(|_| right.roll_damage(6, 2)).collect::<Vec<_>>();
    assert_eq!(left_rolls, right_rolls);
    assert_eq!(left.map, map_before);
    assert_eq!(left.hostiles, hostiles_before);

    left.restart_with_seed(RunSeed(999)).unwrap();
    assert_eq!(left.combat_roll_count, 0);
    assert_eq!(left.roll_damage(6, 2), left_rolls[0]);
}

#[test]
fn mod_cleave_hits_all_adjacent_targets_in_stable_id_order() {
    let mut game = game(&["#######", "#.....#", "#..@..#", "#....>#", "#######"]);
    let seed = (0..100)
        .find(|seed| {
            let mut probe = game.clone();
            probe.map.seed = RunSeed(*seed);
            probe.roll_damage(PLAYER_DAMAGE, 1) != probe.roll_damage(PLAYER_DAMAGE, 1)
        })
        .expect("representative seeds contain unequal consecutive rolls");
    game.map.seed = RunSeed(seed);
    let mut expected = game.clone();
    let first_damage = expected.roll_damage(PLAYER_DAMAGE, 1);
    let second_damage = expected.roll_damage(PLAYER_DAMAGE, 1);
    assert_ne!(first_damage, second_damage);

    let first = game.spawn_hostile(ActorKind::Skeleton, Position::new(2, 1), 20, 1, 3);
    let second = game.spawn_hostile(ActorKind::Ghoul, Position::new(4, 2), 20, 1, 3);
    let distant = game.spawn_hostile(ActorKind::Cultist, Position::new(1, 1), 20, 1, 3);
    game.hostiles.reverse();

    assert_eq!(game.apply(cleave()), CommandOutcome::Advanced);
    assert_eq!(game.turn, 1);
    assert_eq!(
        game.abilities[0].as_ref().unwrap().cooldown_remaining,
        CLEAVE_COOLDOWN_TURNS
    );
    assert_eq!(
        game.hostiles.iter().find(|a| a.id == first).unwrap().health,
        20 - first_damage
    );
    assert_eq!(
        game.hostiles.iter().find(|a| a.id == second).unwrap().health,
        20 - second_damage
    );
    assert_eq!(
        game.hostiles.iter().find(|a| a.id == distant).unwrap().health,
        20
    );
    assert_eq!(game.combat_roll_count, 2);
    assert_eq!(
        game.events[game.events.len() - 2],
        format!("Cleave hits Skeleton 1 for {first_damage} damage.")
    );
    assert_eq!(
        game.events[game.events.len() - 1],
        format!("Cleave hits Ghoul 2 for {second_damage} damage.")
    );
}

#[test]
fn mod_cleave_rejections_are_free_and_four_later_turns_restore_it() {
    let mut game = game(&["######", "#@..>#", "######"]);
    assert_eq!(game.apply(cleave()), CommandOutcome::Rejected);
    assert_eq!(game.turn, 0);
    game.spawn_hostile(ActorKind::Skeleton, Position::new(2, 1), 30, 0, 3);
    assert_eq!(game.apply(cleave()), CommandOutcome::Advanced);
    assert_eq!(game.abilities[0].as_ref().unwrap().cooldown_remaining, 4);
    assert_eq!(game.apply(cleave()), CommandOutcome::Rejected);
    assert_eq!(game.turn, 1);
    for expected in [3, 2, 1, 0] {
        game.apply(Command::Wait);
        assert_eq!(
            game.abilities[0].as_ref().unwrap().cooldown_remaining,
            expected
        );
    }
    assert_eq!(game.turn, 5);
    assert_eq!(game.apply(cleave()), CommandOutcome::Advanced);
}

#[test]
fn grave_bolt_targeting_is_deterministic_free_until_confirmed_and_serializable() {
    let mut game = game(&["##########", "#@......>#", "#........#", "##########"]);
    let farther = game.spawn_hostile(ActorKind::Ghoul, Position::new(5, 1), 20, 0, 1);
    let nearer_high_id = game.spawn_hostile(ActorKind::Cultist, Position::new(3, 2), 20, 0, 1);
    let nearer_low_id = game.spawn_hostile(ActorKind::Skeleton, Position::new(3, 1), 20, 0, 1);
    game.hostiles.reverse();
    let slot = AbilitySlot::new(2).unwrap();

    assert_eq!(
        game.apply(Command::UseAbility(slot)),
        CommandOutcome::Rejected
    );
    assert_eq!(game.turn, 0);
    assert_eq!(game.combat_roll_count, 0);
    assert_eq!(game.targeting.unwrap().selected_actor, Some(nearer_high_id));

    assert_eq!(
        game.apply(Command::CycleTarget { backwards: false }),
        CommandOutcome::Rejected
    );
    assert_eq!(game.targeting.unwrap().selected_actor, Some(nearer_low_id));
    assert_eq!(game.apply(Command::ConfirmTarget), CommandOutcome::Advanced);
    assert!(game.targeting.is_none());
    assert_eq!(game.turn, 1);
    assert_eq!(game.combat_roll_count, 1);
    assert_eq!(game.ability_state(slot).unwrap().cooldown_remaining, 3);
    assert!(game.hostiles.iter().any(|actor| actor.id == farther));
    assert!(game
        .events
        .iter()
        .any(|event| event.starts_with("Grave Bolt strikes Skeleton")));
}

#[test]
fn target_validation_cursor_bounds_cancel_and_invalid_confirm_are_free() {
    let mut game = game(&["##########", "#@.#....>#", "#........#", "##########"]);
    let slot = AbilitySlot::new(2).unwrap();
    let blocked = game.spawn_hostile(ActorKind::Skeleton, Position::new(5, 1), 20, 0, 1);
    let out_of_range = game.spawn_hostile(ActorKind::Ghoul, Position::new(8, 2), 20, 0, 1);
    assert_eq!(
        game.target_validity(slot, Position::new(5, 1)),
        TargetValidity::Blocked
    );
    assert_eq!(
        game.target_validity(slot, Position::new(8, 2)),
        TargetValidity::OutOfRange
    );
    assert_eq!(
        game.apply(Command::UseAbility(slot)),
        CommandOutcome::Rejected
    );
    assert!(game.targeting.is_none());
    assert_eq!(game.combat_roll_count, 0);

    game.hostiles
        .retain(|actor| actor.id != blocked && actor.id != out_of_range);
    game.spawn_hostile(ActorKind::Cultist, Position::new(2, 2), 20, 0, 1);
    game.apply(Command::UseAbility(slot));
    game.targeting.as_mut().unwrap().cursor = Position::new(0, 0);
    game.apply(Command::MoveCursor(Direction::NorthWest));
    assert_eq!(game.targeting.unwrap().cursor, Position::new(0, 0));
    game.targeting.as_mut().unwrap().selected_actor = None;
    assert_eq!(game.apply(Command::ConfirmTarget), CommandOutcome::Rejected);
    assert!(game.targeting.is_some());
    assert_eq!(game.turn, 0);
    assert_eq!(game.combat_roll_count, 0);
    game.apply(Command::UseAbility(slot));
    assert!(game.targeting.is_none());
}

#[test]
fn mod_player_damage_uses_armor_and_death_is_immediate() {
    let mut game = game(&["#####", "#@.>#", "#####"]);
    assert_eq!(game.damage_player(3, "Skeleton"), 1);
    assert_eq!(game.player.health, 31);
    assert_eq!(game.status, RunStatus::Active);
    assert_eq!(game.damage_player(99, "Ghoul"), 97);
    assert_eq!(game.player.health, 0);
    assert_eq!(game.status, RunStatus::Death);
    assert_eq!(game.events.last().unwrap(), "The Grave Knight falls.");
    assert_eq!(game.apply(Command::Wait), CommandOutcome::Rejected);
}

#[test]
fn mod_one_thousand_runs_have_legal_deterministic_enemy_populations() {
    for seed in 0..1_000 {
        let game = ExplorationGame::new(Some(RunSeed(seed))).unwrap();
        assert!((8..=15).contains(&game.hostiles.len()));
        let positions = game
            .hostiles
            .iter()
            .map(|actor| actor.position)
            .collect::<HashSet<_>>();
        assert_eq!(positions.len(), game.hostiles.len());
        assert!(game.hostiles.iter().all(|actor| {
            game.map.tile(actor.position) == Some(Tile::Floor)
                && actor.position != game.player.position
                && actor.position != game.map.exit
        }));
        assert!(game
            .hostiles
            .iter()
            .any(|actor| actor.kind == ActorKind::Skeleton));
        assert!(game
            .hostiles
            .iter()
            .any(|actor| actor.kind == ActorKind::Ghoul));
        assert!(game
            .hostiles
            .iter()
            .any(|actor| actor.kind == ActorKind::Cultist));
        let repeated = ExplorationGame::new(Some(RunSeed(seed))).unwrap();
        assert_eq!(game.hostiles, repeated.hostiles);
    }
}

#[test]
fn mod_detection_uses_independent_los_radius_and_activation_persists() {
    let mut game = game_with_ai(&["##############", "#@..........>#", "##############"]);
    let id = game.spawn_hostile(ActorKind::Skeleton, Position::new(10, 1), 10, 1, 5);
    game.apply(Command::Wait);
    assert!(!game.hostiles[0].active);
    game.player.position = Position::new(2, 1);
    game.apply(Command::Wait);
    assert!(game.hostiles[0].active);
    game.player.position = Position::new(1, 1);
    game.apply(Command::Wait);
    assert!(
        game.hostiles
            .iter()
            .find(|actor| actor.id == id)
            .unwrap()
            .active
    );

    let mut blocked = game_with_ai(&["########", "#@.#..>#", "########"]);
    blocked.spawn_hostile(ActorKind::Skeleton, Position::new(5, 1), 10, 1, 5);
    blocked.apply(Command::Wait);
    assert!(!blocked.hostiles[0].active);
}

#[test]
fn mod_skeletons_pursue_open_doors_and_attack() {
    let mut pursuit = game_with_ai(&["########", "#@....>#", "########"]);
    let id = pursuit.spawn_hostile(ActorKind::Skeleton, Position::new(4, 1), 10, 1, 5);
    activate(&mut pursuit, id);
    pursuit.apply(Command::Wait);
    assert_eq!(pursuit.hostiles[0].position, Position::new(3, 1));
    pursuit.apply(Command::Wait);
    assert_eq!(pursuit.hostiles[0].position, Position::new(2, 1));
    pursuit.apply(Command::Wait);
    assert_eq!(pursuit.player.health, PLAYER_MAX_HEALTH - 3);

    let mut door = game_with_ai(&["########", "#@.+..>#", "########"]);
    let id = door.spawn_hostile(ActorKind::Skeleton, Position::new(4, 1), 10, 1, 5);
    activate(&mut door, id);
    door.apply(Command::Wait);
    assert_eq!(door.map.tile(Position::new(3, 1)), Some(Tile::OpenDoor));
    assert_eq!(door.hostiles[0].position, Position::new(4, 1));
}

#[test]
fn mod_ghoul_lunge_telegraphs_then_hits_or_moves_to_an_evaded_mark() {
    let mut hit = game_with_ai(&["#######", "#@...>#", "#.....#", "#######"]);
    let id = hit.spawn_hostile(ActorKind::Ghoul, Position::new(3, 1), 14, 0, 7);
    activate(&mut hit, id);
    hit.apply(Command::Wait);
    assert_eq!(
        hit.hostiles[0].telegraph,
        Some(Telegraph::GhoulLunge {
            target: Position::new(1, 1)
        })
    );
    hit.apply(Command::Wait);
    assert_eq!(hit.player.health, PLAYER_MAX_HEALTH - 5);
    assert!(hit.hostiles[0].telegraph.is_none());

    let mut evade = game_with_ai(&["#######", "#@...>#", "#.....#", "#######"]);
    let id = evade.spawn_hostile(ActorKind::Ghoul, Position::new(3, 1), 14, 0, 7);
    activate(&mut evade, id);
    evade.apply(Command::Wait);
    evade.apply(Command::Move(Direction::South));
    assert_eq!(evade.player.health, PLAYER_MAX_HEALTH);
    assert_eq!(evade.hostiles[0].position, Position::new(1, 1));
}

#[test]
fn mod_cultist_hex_telegraphs_and_can_be_evaded_while_cultists_keep_distance() {
    let mut hit = game_with_ai(&["#########", "#@.....>#", "#.......#", "#########"]);
    let id = hit.spawn_hostile(ActorKind::Cultist, Position::new(5, 1), 9, 0, 6);
    activate(&mut hit, id);
    hit.apply(Command::Wait);
    assert!(matches!(
        hit.hostiles[0].telegraph,
        Some(Telegraph::CultistHex { .. })
    ));
    hit.apply(Command::Wait);
    assert_eq!(hit.player.health, PLAYER_MAX_HEALTH - 4);

    let mut evade = game_with_ai(&["#########", "#@.....>#", "#.......#", "#########"]);
    let id = evade.spawn_hostile(ActorKind::Cultist, Position::new(5, 1), 9, 0, 6);
    activate(&mut evade, id);
    evade.apply(Command::Wait);
    evade.apply(Command::Move(Direction::South));
    assert_eq!(evade.player.health, PLAYER_MAX_HEALTH);

    let mut retreat = game_with_ai(&["########", "#@....>#", "#......#", "########"]);
    let id = retreat.spawn_hostile(ActorKind::Cultist, Position::new(3, 1), 9, 0, 6);
    activate(&mut retreat, id);
    retreat.apply(Command::Wait);
    assert!(
        retreat.hostiles[0]
            .position
            .chebyshev_distance(retreat.player.position)
            > 2
    );
}

#[test]
fn mod_enemies_act_in_stable_id_order_and_can_kill_the_player() {
    let mut game = game_with_ai(&["#######", "#..@.>#", "#.....#", "#######"]);
    game.player.health = 3;
    let first = game.spawn_hostile(ActorKind::Skeleton, Position::new(2, 1), 10, 1, 3);
    let second = game.spawn_hostile(ActorKind::Ghoul, Position::new(4, 1), 14, 0, 3);
    activate(&mut game, first);
    activate(&mut game, second);
    game.apply(Command::Wait);
    assert_eq!(game.status, RunStatus::Active);
    assert_eq!(game.player.health, 1);
    assert!(game.events[game.events.len() - 2].starts_with("Skeleton 1"));
    assert!(game.events[game.events.len() - 1].starts_with("Ghoul 2"));
    game.apply(Command::Wait);
    assert_eq!(game.status, RunStatus::Death);
}

#[test]
fn mod_exit_victory_precedes_enemy_response_with_living_hostiles() {
    let mut game = game_with_ai(&["######", "#@>..#", "######"]);
    let id = game.spawn_hostile(ActorKind::Skeleton, Position::new(3, 1), 10, 1, 99);
    activate(&mut game, id);
    assert_eq!(
        game.apply(Command::Move(Direction::East)),
        CommandOutcome::Advanced
    );
    assert_eq!(game.status, RunStatus::Victory);
    assert_eq!(game.player.health, PLAYER_MAX_HEALTH);
    assert_eq!(game.hostiles.len(), 1);
}

#[test]
fn mod_populated_victory_and_death_restart_without_state_leakage() {
    let fixed_seed = RunSeed(0xD4_4B);
    let mut game = ExplorationGame::new(Some(fixed_seed)).unwrap();
    game.start();
    game.help = true;
    game.abilities[0].as_mut().unwrap().cooldown_remaining = 3;
    game.hostiles[0].active = true;
    game.hostiles[0].telegraph = Some(Telegraph::CultistHex {
        target: game.player.position,
    });
    game.damage_player(999, "the dark");
    assert_eq!(game.status, RunStatus::Death);
    game.restart_with_seed(RunSeed(1)).unwrap();
    assert_clean_populated_restart(&game, fixed_seed);

    let exit = game.map.exit;
    let (direction, staging) = Direction::all()
        .iter()
        .copied()
        .find_map(|direction| {
            let (dx, dy) = direction.delta();
            let staging = exit.offset(-dx, -dy);
            (can_step(&game.map, staging, exit)
                && !game.hostiles.iter().any(|actor| actor.position == staging))
            .then_some((direction, staging))
        })
        .expect("generated exit has an unoccupied approach");
    game.player.position = staging;
    game.recompute_visibility();
    assert_eq!(
        game.apply(Command::Move(direction)),
        CommandOutcome::Advanced
    );
    assert_eq!(game.status, RunStatus::Victory);
    assert!(!game.hostiles.is_empty());
    game.help = true;
    game.abilities[0].as_mut().unwrap().cooldown_remaining = 2;
    game.hostiles[0].active = true;
    game.hostiles[0].telegraph = Some(Telegraph::GhoulLunge {
        target: game.player.position,
    });
    game.restart_with_seed(RunSeed(2)).unwrap();
    assert_clean_populated_restart(&game, fixed_seed);

    let fresh_a = RunSeed(0xAA);
    let fresh_b = RunSeed(0xBB);
    let mut unseeded = ExplorationGame::with_effective_seed(None, fresh_a).unwrap();
    unseeded.start();
    unseeded.damage_player(999, "the dark");
    unseeded.restart_with_seed(fresh_b).unwrap();
    assert_clean_populated_restart(&unseeded, fresh_b);
}

#[test]
fn mana_costs_regenerate_only_on_advanced_turns_and_restart_full() {
    let mut game = game(&["#####", "#@.>#", "#####"]);
    game.spawn_hostile(ActorKind::Skeleton, Position::new(2, 1), 10, 1, 5);
    assert_eq!((game.player.mana, game.player.max_mana), (10, 10));
    game.player.mana = 5;
    assert_eq!(game.apply(cleave()), CommandOutcome::Advanced);
    assert_eq!(game.player.mana, 3);
    let turn = game.turn;
    assert_eq!(game.apply(cleave()), CommandOutcome::Rejected);
    assert_eq!((game.player.mana, game.turn), (3, turn));
    assert_eq!(game.apply(Command::Wait), CommandOutcome::Advanced);
    assert_eq!(game.player.mana, 4);
    game.player.mana = 0;
    game.abilities[0].as_mut().unwrap().cooldown_remaining = 0;
    assert_eq!(game.apply(cleave()), CommandOutcome::Rejected);
    assert_eq!((game.player.mana, game.turn), (0, turn + 1));

    let seed = game.seed();
    game.restart_with_seed(seed).unwrap();
    assert_eq!(game.player.mana, game.player.max_mana);
}
