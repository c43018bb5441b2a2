use std::collections::HashSet;

use terminal_rpg::game::{
    can_step, AbilitySlot, ActorId, ActorKind, ClassId, Command, CommandOutcome, Direction, ExplorationGame,
    GameCatalog, RunStatus, Telegraph, CLEAVE_COOLDOWN_TURNS, PLAYER_MAX_HEALTH,
};
use terminal_rpg::world::{DungeonMap, Position, RunSeed, Tile};

fn game(rows: &[&str]) -> ExplorationGame {
    ExplorationGame::from_map(
        DungeonMap::from_test_rows(rows, RunSeed(7)),
        Some(RunSeed(7)),
        RunStatus::Active,
        ClassId::grave_knight(),
        GameCatalog::builtin(),
    )
    .unwrap()
}

fn game_with_ai(rows: &[&str]) -> ExplorationGame {
    let mut game = game(rows);
    game.enemy_turns_enabled = true;
    game
}

fn activate(game: &mut ExplorationGame, id: ActorId) {
    game.hostiles
        .iter_mut()
        .find(|actor| actor.id == id)
        .unwrap()
        .active = true;
}

fn cleave() -> Command {
    Command::UseAbility(AbilitySlot::cleave())
}

fn assert_clean_populated_restart(game: &ExplorationGame, expected_seed: RunSeed) {
    let pristine = ExplorationGame::new(Some(expected_seed)).unwrap();
    assert_eq!(game.seed(), expected_seed);
    assert_eq!(game.status, RunStatus::Active);
    assert_eq!(game.turn, 0);
    assert_eq!(game.player, pristine.player);
    assert_eq!(game.player.health, PLAYER_MAX_HEALTH);
    assert_eq!(game.abilities[0].as_ref().unwrap().cooldown_remaining, 0);
    assert!(!game.help);
    assert_eq!(game.map, pristine.map);
    assert_eq!(game.hostiles, pristine.hostiles);
    assert_eq!(game.visible, pristine.visible);
    assert_eq!(game.explored, pristine.explored);
    assert_eq!(
        game.next_actor_id,
        u32::try_from(game.hostiles.len()).unwrap() + 1
    );
    assert!(game.enemy_turns_enabled);
    assert!(game
        .hostiles
        .iter()
        .all(|actor| !actor.active && actor.telegraph.is_none()));
    assert_eq!(
        game.events,
        [
            "The crypt waits in silence.".to_owned(),
            "The dungeon reforms around you.".to_owned()
        ]
    );
}

#[test]
fn game_movement_wait_walls_and_turn_rules_are_authoritative() {
    let mut game = game(&["#######", "#@....#", "#....>#", "#######"]);
    assert_eq!(
        game.apply(Command::Move(Direction::North)),
        CommandOutcome::Rejected
    );
    assert_eq!(game.turn, 0);
    assert_eq!(
        game.apply(Command::Move(Direction::East)),
        CommandOutcome::Advanced
    );
    assert_eq!(game.player.position, Position::new(2, 1));
    assert_eq!(game.turn, 1);
    assert_eq!(game.apply(Command::Wait), CommandOutcome::Advanced);
    assert_eq!(game.turn, 2);
    assert_eq!(game.apply(cleave()), CommandOutcome::Rejected);
    assert_eq!(game.turn, 2);
}

#[test]
fn game_title_and_help_are_free_state_changes() {
    let seed = RunSeed(42);
    let mut game = ExplorationGame::with_effective_seed(Some(seed), seed).unwrap();
    assert_eq!(game.status, RunStatus::Title);
    game.toggle_help();
    assert!(game.help);
    assert_eq!(game.turn, 0);
    game.start();
    assert_eq!(game.status, RunStatus::Active);
    assert_eq!(game.turn, 0);
}

#[test]
fn game_movement_cannot_leave_map_bounds() {
    let mut game = game(&["@..", "..>"]);
    assert_eq!(
        game.apply(Command::Move(Direction::NorthWest)),
        CommandOutcome::Rejected
    );
    assert_eq!(game.player.position, Position::new(0, 0));
    assert_eq!(game.turn, 0);
}

#[test]
fn game_bumping_a_door_opens_it_for_one_turn_without_moving() {
    let mut game = game(&["######", "#@+>##", "######"]);
    assert_eq!(
        game.apply(Command::Move(Direction::East)),
        CommandOutcome::Advanced
    );
    assert_eq!(game.player.position, Position::new(1, 1));
    assert_eq!(game.map.tile(Position::new(2, 1)), Some(Tile::OpenDoor));
    assert_eq!(game.turn, 1);
    assert_eq!(
        game.apply(Command::Move(Direction::East)),
        CommandOutcome::Advanced
    );
    assert_eq!(game.player.position, Position::new(2, 1));
    assert_eq!(game.turn, 2);
}

#[test]
fn game_walls_doors_and_corners_occlude_field_of_view() {
    let wall = game(&["########", "#@.#..>#", "########"]);
    assert!(wall.is_visible(Position::new(3, 1)));
    assert!(!wall.is_visible(Position::new(4, 1)));

    let mut door = game(&["########", "#@+...>#", "########"]);
    assert!(door.is_visible(Position::new(2, 1)));
    assert!(!door.is_visible(Position::new(3, 1)));
    door.apply(Command::Move(Direction::East));
    assert!(door.is_visible(Position::new(3, 1)));

    let corner = game(&["#####", "#@#>#", "##..#", "#####"]);
    assert!(!corner.is_visible(Position::new(2, 2)));
}

#[test]
fn game_explored_memory_survives_after_visibility_moves_away() {
    let mut game = game(&[
        "########################",
        "#@....................>#",
        "########################",
    ]);
    let origin = game.player.position;
    for _ in 0..10 {
        assert_eq!(
            game.apply(Command::Move(Direction::East)),
            CommandOutcome::Advanced
        );
    }
    assert!(!game.is_visible(origin));
    assert!(game.is_explored(origin));
}

#[test]
fn game_entering_the_exit_wins_immediately() {
    let mut game = game(&["#####", "#@>##", "#####"]);
    assert_eq!(
        game.apply(Command::Move(Direction::East)),
        CommandOutcome::Advanced
    );
    assert_eq!(game.status, RunStatus::Victory);
    assert_eq!(game.turn, 1);
    assert_eq!(game.apply(Command::Wait), CommandOutcome::Rejected);
    assert_eq!(game.turn, 1);
}

#[test]
fn game_explicit_restart_repeats_and_unseeded_restart_uses_candidate() {
    let seed_a = RunSeed(0xA11CE);
    let seed_b = RunSeed(0xB0B);
    let mut explicit = ExplorationGame::with_effective_seed(Some(seed_a), seed_a).unwrap();
    let first_map = explicit.map.clone();
    explicit.restart_with_seed(seed_b).unwrap();
    assert_eq!(explicit.seed(), seed_a);
    assert_eq!(explicit.map, first_map);

    let mut fresh = ExplorationGame::with_effective_seed(None, seed_a).unwrap();
    fresh.restart_with_seed(seed_b).unwrap();
    assert_eq!(fresh.seed(), seed_b);
    assert_ne!(fresh.map, first_map);
}

#[test]
fn game_identical_seed_and_commands_reproduce_complete_exploration_state() {
    let seed = RunSeed(0xD4_4B);
    let mut left = ExplorationGame::with_effective_seed(Some(seed), seed).unwrap();
    let mut right = left.clone();
    left.start();
    right.start();
    let commands = [
        Command::Wait,
        Command::Move(Direction::North),
        Command::Move(Direction::East),
        Command::Move(Direction::SouthEast),
    ];
    for command in commands {
        left.apply(command);
        right.apply(command);
    }
    assert_eq!(left, right);
}

#[test]
fn game_armor_never_reduces_a_successful_hit_below_one_and_defeat_removes_actor() {
    let mut game = game(&["######", "#@.>##", "######"]);
    let enemy = game.spawn_hostile(ActorKind::Skeleton, Position::new(2, 1), 2, 99, 4);
    game.apply(Command::Move(Direction::East));
    assert_eq!(game.hostiles[0].health, 1);
    game.apply(Command::Move(Direction::East));
    assert!(game.hostiles.iter().all(|actor| actor.id != enemy));
    assert_eq!(game.turn, 2);
    assert_eq!(game.events.last().unwrap(), "The Skeleton is destroyed.");
}

#[test]
fn game_cleave_rejections_are_free_and_four_later_turns_restore_it() {
    let mut game = game(&["######", "#@..>#", "######"]);
    assert_eq!(game.apply(cleave()), CommandOutcome::Rejected);
    assert_eq!(game.turn, 0);
    game.spawn_hostile(ActorKind::Skeleton, Position::new(2, 1), 30, 0, 3);
    assert_eq!(game.apply(cleave()), CommandOutcome::Advanced);
    assert_eq!(game.abilities[0].as_ref().unwrap().cooldown_remaining, 4);
    assert_eq!(game.apply(cleave()), CommandOutcome::Rejected);
    assert_eq!(game.turn, 1);
    for expected in [3, 2, 1, 0] {
        game.apply(Command::Wait);
        assert_eq!(
            game.abilities[0].as_ref().unwrap().cooldown_remaining,
            expected
        );
    }
    assert_eq!(game.turn, 5);
    assert_eq!(game.apply(cleave()), CommandOutcome::Advanced);
}

#[test]
fn game_player_damage_uses_armor_and_death_is_immediate() {
    let mut game = game(&["#####", "#@.>#", "#####"]);
    assert_eq!(game.damage_player(3, "Skeleton"), 1);
    assert_eq!(game.player.health, 31);
    assert_eq!(game.status, RunStatus::Active);
    assert_eq!(game.damage_player(99, "Ghoul"), 97);
    assert_eq!(game.player.health, 0);
    assert_eq!(game.status, RunStatus::Death);
    assert_eq!(game.events.last().unwrap(), "The Grave Knight falls.");
    assert_eq!(game.apply(Command::Wait), CommandOutcome::Rejected);
}

#[test]
fn game_detection_uses_independent_los_radius_and_activation_persists() {
    let mut game = game_with_ai(&["##############", "#@..........>#", "##############"]);
    let id = game.spawn_hostile(ActorKind::Skeleton, Position::new(10, 1), 10, 1, 5);
    game.apply(Command::Wait);
    assert!(!game.hostiles[0].active);
    game.player.position = Position::new(2, 1);
    game.apply(Command::Wait);
    assert!(game.hostiles[0].active);
    game.player.position = Position::new(1, 1);
    game.apply(Command::Wait);
    assert!(
        game.hostiles
            .iter()
            .find(|actor| actor.id == id)
            .unwrap()
            .active
    );

    let mut blocked = game_with_ai(&["########", "#@.#..>#", "########"]);
    blocked.spawn_hostile(ActorKind::Skeleton, Position::new(5, 1), 10, 1, 5);
    blocked.apply(Command::Wait);
    assert!(!blocked.hostiles[0].active);
}

#[test]
fn game_skeletons_pursue_open_doors_and_attack() {
    let mut pursuit = game_with_ai(&["########", "#@....>#", "########"]);
    let id = pursuit.spawn_hostile(ActorKind::Skeleton, Position::new(4, 1), 10, 1, 5);
    activate(&mut pursuit, id);
    pursuit.apply(Command::Wait);
    assert_eq!(pursuit.hostiles[0].position, Position::new(3, 1));
    pursuit.apply(Command::Wait);
    assert_eq!(pursuit.hostiles[0].position, Position::new(2, 1));
    pursuit.apply(Command::Wait);
    assert_eq!(pursuit.player.health, PLAYER_MAX_HEALTH - 3);

    let mut door = game_with_ai(&["########", "#@.+..>#", "########"]);
    let id = door.spawn_hostile(ActorKind::Skeleton, Position::new(4, 1), 10, 1, 5);
    activate(&mut door, id);
    door.apply(Command::Wait);
    assert_eq!(door.map.tile(Position::new(3, 1)), Some(Tile::OpenDoor));
    assert_eq!(door.hostiles[0].position, Position::new(4, 1));
}

#[test]
fn game_ghoul_lunge_telegraphs_then_hits_or_moves_to_an_evaded_mark() {
    let mut hit = game_with_ai(&["#######", "#@...>#", "#.....#", "#######"]);
    let id = hit.spawn_hostile(ActorKind::Ghoul, Position::new(3, 1), 14, 0, 7);
    activate(&mut hit, id);
    hit.apply(Command::Wait);
    assert_eq!(
        hit.hostiles[0].telegraph,
        Some(Telegraph::GhoulLunge {
            target: Position::new(1, 1)
        })
    );
    hit.apply(Command::Wait);
    assert_eq!(hit.player.health, PLAYER_MAX_HEALTH - 5);
    assert!(hit.hostiles[0].telegraph.is_none());

    let mut evade = game_with_ai(&["#######", "#@...>#", "#.....#", "#######"]);
    let id = evade.spawn_hostile(ActorKind::Ghoul, Position::new(3, 1), 14, 0, 7);
    activate(&mut evade, id);
    evade.apply(Command::Wait);
    evade.apply(Command::Move(Direction::South));
    assert_eq!(evade.player.health, PLAYER_MAX_HEALTH);
    assert_eq!(evade.hostiles[0].position, Position::new(1, 1));
}

#[test]
fn game_cultist_hex_telegraphs_and_can_be_evaded_while_cultists_keep_distance() {
    let mut hit = game_with_ai(&["#########", "#@.....>#", "#.......#", "#########"]);
    let id = hit.spawn_hostile(ActorKind::Cultist, Position::new(5, 1), 9, 0, 6);
    activate(&mut hit, id);
    hit.apply(Command::Wait);
    assert!(matches!(
        hit.hostiles[0].telegraph,
        Some(Telegraph::CultistHex { .. })
    ));
    hit.apply(Command::Wait);
    assert_eq!(hit.player.health, PLAYER_MAX_HEALTH - 4);

    let mut evade = game_with_ai(&["#########", "#@.....>#", "#.......#", "#########"]);
    let id = evade.spawn_hostile(ActorKind::Cultist, Position::new(5, 1), 9, 0, 6);
    activate(&mut evade, id);
    evade.apply(Command::Wait);
    evade.apply(Command::Move(Direction::South));
    assert_eq!(evade.player.health, PLAYER_MAX_HEALTH);

    let mut retreat = game_with_ai(&["########", "#@....>#", "#......#", "########"]);
    let id = retreat.spawn_hostile(ActorKind::Cultist, Position::new(3, 1), 9, 0, 6);
    activate(&mut retreat, id);
    retreat.apply(Command::Wait);
    assert!(
        retreat.hostiles[0]
            .position
            .chebyshev_distance(retreat.player.position)
            > 2
    );
}

#[test]
fn game_enemies_act_in_stable_id_order_and_can_kill_the_player() {
    let mut game = game_with_ai(&["#######", "#..@.>#", "#.....#", "#######"]);
    game.player.health = 3;
    let first = game.spawn_hostile(ActorKind::Skeleton, Position::new(2, 1), 10, 1, 3);
    let second = game.spawn_hostile(ActorKind::Ghoul, Position::new(4, 1), 14, 0, 3);
    activate(&mut game, first);
    activate(&mut game, second);
    game.apply(Command::Wait);
    assert_eq!(game.status, RunStatus::Active);
    assert_eq!(game.player.health, 1);
    assert!(game.events[game.events.len() - 2].starts_with("Skeleton 1"));
    assert!(game.events[game.events.len() - 1].starts_with("Ghoul 2"));
    game.apply(Command::Wait);
    assert_eq!(game.status, RunStatus::Death);
}

#[test]
fn game_exit_victory_precedes_enemy_response_with_living_hostiles() {
    let mut game = game_with_ai(&["######", "#@>..#", "######"]);
    let id = game.spawn_hostile(ActorKind::Skeleton, Position::new(3, 1), 10, 1, 99);
    activate(&mut game, id);
    assert_eq!(
        game.apply(Command::Move(Direction::East)),
        CommandOutcome::Advanced
    );
    assert_eq!(game.status, RunStatus::Victory);
    assert_eq!(game.player.health, PLAYER_MAX_HEALTH);
    assert_eq!(game.hostiles.len(), 1);
}

#[test]
fn game_populated_victory_and_death_restart_without_state_leakage() {
    let fixed_seed = RunSeed(0xD4_4B);
    let mut game = ExplorationGame::new(Some(fixed_seed)).unwrap();
    game.start();
    game.help = true;
    game.abilities[0].as_mut().unwrap().cooldown_remaining = 3;
    game.hostiles[0].active = true;
    game.hostiles[0].telegraph = Some(Telegraph::CultistHex {
        target: game.player.position,
    });
    game.damage_player(999, "the dark");
    assert_eq!(game.status, RunStatus::Death);
    game.restart_with_seed(RunSeed(1)).unwrap();
    assert_clean_populated_restart(&game, fixed_seed);

    let exit = game.map.exit;
    let (direction, staging) = Direction::all()
        .iter()
        .copied()
        .find_map(|direction| {
            let (dx, dy) = direction.delta();
            let staging = exit.offset(-dx, -dy);
            (can_step(&game.map, staging, exit)
                && !game.hostiles.iter().any(|actor| actor.position == staging))
            .then_some((direction, staging))
        })
        .expect("generated exit has an unoccupied approach");
    game.player.position = staging;
    game.recompute_visibility();
    assert_eq!(
        game.apply(Command::Move(direction)),
        CommandOutcome::Advanced
    );
    assert_eq!(game.status, RunStatus::Victory);
    assert!(!game.hostiles.is_empty());
    game.help = true;
    game.abilities[0].as_mut().unwrap().cooldown_remaining = 2;
    game.hostiles[0].active = true;
    game.hostiles[0].telegraph = Some(Telegraph::GhoulLunge {
        target: game.player.position,
    });
    game.restart_with_seed(RunSeed(2)).unwrap();
    assert_clean_populated_restart(&game, fixed_seed);

    let fresh_a = RunSeed(0xAA);
    let fresh_b = RunSeed(0xBB);
    let mut unseeded = ExplorationGame::with_effective_seed(None, fresh_a).unwrap();
    unseeded.start();
    unseeded.damage_player(999, "the dark");
    unseeded.restart_with_seed(fresh_b).unwrap();
    assert_clean_populated_restart(&unseeded, fresh_b);
}

#[test]
fn game_one_thousand_runs_have_legal_deterministic_enemy_populations() {
    for seed in 0..1_000 {
        let game = ExplorationGame::new(Some(RunSeed(seed))).unwrap();
        assert!((8..=15).contains(&game.hostiles.len()));
        let positions = game
            .hostiles
            .iter()
            .map(|actor| actor.position)
            .collect::<HashSet<_>>();
        assert_eq!(positions.len(), game.hostiles.len());
        assert!(game.hostiles.iter().all(|actor| {
            game.map.tile(actor.position) == Some(Tile::Floor)
                && actor.position != game.player.position
                && actor.position != game.map.exit
        }));
        assert!(game
            .hostiles
            .iter()
            .any(|actor| actor.kind == ActorKind::Skeleton));
        assert!(game
            .hostiles
            .iter()
            .any(|actor| actor.kind == ActorKind::Ghoul));
        assert!(game
            .hostiles
            .iter()
            .any(|actor| actor.kind == ActorKind::Cultist));
        let repeated = ExplorationGame::new(Some(RunSeed(seed))).unwrap();
        assert_eq!(game.hostiles, repeated.hostiles);
    }
}

#[test]
fn game_diagonals_cannot_cut_either_blocked_corner() {
    for rows in [
        ["#####", "#@#.#", "#...#", "#..>#", "#####"],
        ["#####", "#@..#", "##..#", "#..>#", "#####"],
    ] {
        let mut game = game(&rows);
        assert_eq!(
            game.apply(Command::Move(Direction::SouthEast)),
            CommandOutcome::Rejected
        );
        assert_eq!(game.player.position, Position::new(1, 1));
        assert_eq!(game.turn, 0);
    }

    let mut open = game(&["#####", "#@..#", "#...#", "#..>#", "#####"]);
    assert_eq!(
        open.apply(Command::Move(Direction::SouthEast)),
        CommandOutcome::Advanced
    );
    assert_eq!(open.player.position, Position::new(2, 2));
    assert_eq!(open.turn, 1);
}

#[test]
fn bump_attacks_use_fixed_damage_and_hold_position() {
    let mut game = game(&["######", "#@.>##", "######"]);
    let enemy = game.spawn_hostile(ActorKind::Skeleton, Position::new(2, 1), 10, 2, 4);
    assert_eq!(
        game.apply(Command::Move(Direction::East)),
        CommandOutcome::Advanced
    );
    assert_eq!(game.player.position, Position::new(1, 1));
    assert_eq!(game.turn, 1);
    assert_eq!(
        game.hostiles
            .iter()
            .find(|actor| actor.id == enemy)
            .unwrap()
            .health,
        6
    );
    assert_eq!(
        game.events.last().unwrap(),
        "You strike the Skeleton for 4 damage."
    );
}

#[test]
fn game_cleave_hits_all_adjacent_targets_in_stable_id_order() {
    let mut game = game(&["#######", "#.....#", "#..@..#", "#....>#", "#######"]);
    let first = game.spawn_hostile(ActorKind::Skeleton, Position::new(2, 1), 9, 1, 3);
    let second = game.spawn_hostile(ActorKind::Ghoul, Position::new(4, 2), 9, 1, 3);
    let distant = game.spawn_hostile(ActorKind::Cultist, Position::new(1, 1), 9, 1, 3);

    assert_eq!(game.apply(cleave()), CommandOutcome::Advanced);
    assert_eq!(game.turn, 1);
    assert_eq!(
        game.abilities[0].as_ref().unwrap().cooldown_remaining,
        CLEAVE_COOLDOWN_TURNS
    );
    assert_eq!(game.hostiles.iter().find(|a| a.id == first).unwrap().health, 4);
    assert_eq!(game.hostiles.iter().find(|a| a.id == second).unwrap().health, 4);
    assert_eq!(game.hostiles.iter().find(|a| a.id == distant).unwrap().health, 9);
    assert_eq!(
        game.events[game.events.len() - 2],
        "Cleave hits Skeleton 1 for 5 damage."
    );
    assert_eq!(
        game.events[game.events.len() - 1],
        "Cleave hits Ghoul 2 for 5 damage."
    );
}

