use terminal_rpg::game::{
    can_step, AbilitySlot, mitigated_damage, spread_damage, ActorKind, ClassId, Command, CommandOutcome, Direction,
    ExplorationGame, GameCatalog, ItemCatalog, ItemCatalogError, ItemDefinition, ItemEffect, ItemId, ItemInstance,
    ItemInstanceId, RunStatus, Telegraph, POTION_HEAL,
};
use terminal_rpg::protocol::{check_client_command, check_client_message, ClientCommand, MAX_CLIENT_MESSAGE_BYTES, MAX_INPUT_BYTES};
use terminal_rpg::server::{host_key_verdict, validate_host_key_path, ServerConfigError};
use terminal_rpg::session::{apply_game_intent, intent_from_byte, InputDecoder, Intent};
use terminal_rpg::ui::{slot_status_text, 
    capped_area, centered_popup_area, exploration_glyph, foes_tone, health_tone, item_effect_label, resource_bar_text,
    slot_readiness, threat_summary, viewport_origin, DisplayProfile, SemanticTone, SlotReadiness,
};
use terminal_rpg::world::{DungeonGenerator, DungeonMap, GeneratorConfig, Position, RunSeed, Tile};

fn game(rows: &[&str]) -> ExplorationGame {
    ExplorationGame::from_map(
        DungeonMap::from_test_rows(rows, RunSeed(7)),
        Some(RunSeed(7)),
        RunStatus::Active,
        ClassId::grave_knight(),
        GameCatalog::builtin(),
    )
    .unwrap()
}

#[test]
fn explored_tiles_stay_explored_through_every_command() {
    let mut game = game(&["##########", "#@.+....>#", "#........#", "##########"]);
    game.enemy_turns_enabled = true;
    game.spawn_hostile(ActorKind::Skeleton, Position::new(6, 2), 10, 0, 1);
    let commands = [
        Command::Move(Direction::East),
        Command::Move(Direction::East),
        Command::Move(Direction::East),
        Command::Wait,
        Command::ToggleInspect,
        Command::MoveCursor(Direction::West),
        Command::CancelMode,
        Command::Move(Direction::SouthEast),
        Command::Move(Direction::West),
    ];
    for command in commands {
        let before = game.explored.clone();
        game.apply(command);
        for position in game.map.positions() {
            if before.contains(&position) {
                assert!(game.is_explored(position));
            }
        }
    }
}

#[test]
fn commands_outside_an_active_run_change_nothing() {
    let mut title = ExplorationGame::new(Some(RunSeed(3))).unwrap();
    let before = title.clone();
    assert_eq!(title.apply(Command::Wait), CommandOutcome::Rejected);
    assert_eq!(title.apply(Command::Move(Direction::East)), CommandOutcome::Rejected);
    assert_eq!(title, before);
}

#[test]
fn a_stale_escape_generation_never_settles_a_later_escape() {
    let mut decoder = InputDecoder::default();
    assert!(decoder.feed(b"\x1b").is_empty());
    let first = decoder.pending_escape_generation().unwrap();
    assert!(decoder.feed(b"h\x1b\x1b").is_empty());
    let later = decoder.pending_escape_generation().unwrap();
    assert_ne!(first, later);
    assert_eq!(later, first + 2);
    assert_eq!(decoder.flush_pending_escape_generation(first), None);
    assert!(decoder.has_pending_escape());
    assert_eq!(decoder.flush_pending_escape(), Some(Intent::CancelMode));
    assert!(!decoder.has_pending_escape());
}

#[test]
fn damage_formulas_have_exact_values() {
    assert_eq!(mitigated_damage(6, 2), 4);
    assert_eq!(mitigated_damage(3, 99), 1);
    assert_eq!(mitigated_damage(-5, 0), 1);
    assert_eq!(spread_damage(6, 1, 2), 5);
    assert_eq!(spread_damage(6, -1, 2), 3);
    assert_eq!(spread_damage(0, -1, 0), 1);
    assert_eq!(spread_damage(i32::MAX, 1, 0), i32::MAX);
}

#[test]
fn threat_summary_counts_lunges_and_hexes() {
    let mut game = game(&["#######", "#@...>#", "#.....#", "#######"]);
    assert_eq!(threat_summary(&game), "Threat  None");
    game.spawn_hostile(ActorKind::Ghoul, Position::new(3, 1), 10, 0, 1);
    game.spawn_hostile(ActorKind::Cultist, Position::new(4, 2), 10, 0, 1);
    game.spawn_hostile(ActorKind::Cultist, Position::new(3, 2), 10, 0, 1);
    game.hostiles[0].telegraph = Some(Telegraph::GhoulLunge { target: game.player.position });
    game.hostiles[1].telegraph = Some(Telegraph::CultistHex { target: game.player.position });
    game.hostiles[2].telegraph = Some(Telegraph::CultistHex { target: game.player.position });
    assert_eq!(threat_summary(&game), "Threat  !1 *2 on @");
}

#[test]
fn capped_area_clamps_each_side_independently() {
    assert_eq!(capped_area(80, 24), (80, 24));
    assert_eq!(capped_area(500, 5), (300, 5));
    assert_eq!(capped_area(0, 1000), (1, 120));
}

#[test]
fn client_messages_and_inputs_are_size_checked() {
    assert_eq!(check_client_message("{}"), Ok(()));
    let oversized = "x".repeat(MAX_CLIENT_MESSAGE_BYTES + 1);
    assert_eq!(check_client_message(&oversized), Err("message is too large"));
    let input = ClientCommand::Input { v: 1, data: "s".repeat(MAX_INPUT_BYTES) };
    assert_eq!(check_client_command(input.clone()), Ok(input));
    let too_long = ClientCommand::Input { v: 1, data: "s".repeat(MAX_INPUT_BYTES + 1) };
    assert_eq!(check_client_command(too_long), Err("input is too large"));
    let hello = ClientCommand::Hello { v: 2, cols: 80, rows: 24 };
    assert_eq!(hello.version(), 2);
    assert_eq!(check_client_command(hello.clone()), Ok(hello));
}

#[test]
fn host_key_paths_must_name_a_file() {
    assert_eq!(validate_host_key_path("keys/host_ed25519"), Ok(()));
    assert_eq!(validate_host_key_path("host_ed25519"), Ok(()));
    assert_eq!(
        validate_host_key_path("keys/.."),
        Err(ServerConfigError::MissingHostKeyName)
    );
    assert_eq!(validate_host_key_path(".."), Err(ServerConfigError::MissingHostKeyName));
    assert_eq!(host_key_verdict(false), Err(ServerConfigError::MissingHostKeyName));
    assert_eq!(host_key_verdict(true), Ok(()));
}

#[test]
fn unseeded_runs_draw_a_seed_and_reach_the_title() {
    let game = ExplorationGame::new(None).unwrap();
    assert_eq!(game.status, RunStatus::Title);
    assert_eq!(game.seed(), game.map.seed);
    assert_eq!(game.fixed_seed, None);
    let seeds = (0..4)
        .map(|_| ExplorationGame::new(None).unwrap().seed())
        .collect::<std::collections::HashSet<_>>();
    assert!(seeds.len() > 1);
}

#[test]
fn item_catalog_validates_ids_effects_and_serializes() {
    let catalog = ItemCatalog::builtin();
    assert_eq!(catalog.item(ItemId::torch()).unwrap().name, "Grave Torch");
    assert_eq!(
        catalog.item(ItemId::health_potion()).unwrap().effect,
        ItemEffect::Heal { amount: 12 }
    );
    let duplicate = catalog.item(ItemId::torch()).unwrap().clone();
    assert_eq!(
        ItemCatalog::new(vec![duplicate.clone(), duplicate]),
        Err(ItemCatalogError::DuplicateId(ItemId::torch()))
    );
    assert!(matches!(
        ItemCatalog::new(vec![ItemDefinition {
            id: ItemId(9),
            name: "Broken".into(),
            description: "Bad".into(),
            glyph_ascii: '?',
            glyph_unicode: '?',
            effect: ItemEffect::Unsupported(1),
        }]),
        Err(ItemCatalogError::UnsupportedDefinition(ItemId(9)))
    ));
}

#[test]
fn serialized_item_references_are_explicitly_validated() {
    let mut game = ExplorationGame::new(Some(RunSeed(5))).unwrap();
    assert_eq!(game.validate_item_references(), Ok(()));
    game.inventory[0] = Some(ItemInstance {
        instance_id: ItemInstanceId(77),
        item_id: ItemId(999),
    });
    assert_eq!(
        game.validate_item_references(),
        Err(ItemCatalogError::UnknownItem {
            instance_id: ItemInstanceId(77),
            item_id: ItemId(999),
        })
    );
}

#[test]
fn generated_maps_honour_the_configuration() {
    let generator = DungeonGenerator::new(GeneratorConfig::default()).unwrap();
    let map = generator.generate(RunSeed(12345)).unwrap();
    assert_eq!((map.width, map.height), (60, 28));
    assert_eq!(map.seed, RunSeed(12345));
    assert_eq!(map.tile(map.player_start), Some(Tile::Floor));
    assert_eq!(map.tile(map.exit), Some(Tile::Exit));
    assert!(map.traversable_positions().contains(&map.exit));
    assert_eq!(map.validate(), Ok(()));
}

#[test]
fn diagonal_steps_need_both_corners_open() {
    let open = DungeonMap::from_test_rows(&["#####", "#@..#", "#...#", "#..>#", "#####"], RunSeed(1));
    assert!(can_step(&open, Position::new(1, 1), Position::new(2, 2)));
    let blocked = DungeonMap::from_test_rows(&["#####", "#@#.#", "#...#", "#..>#", "#####"], RunSeed(1));
    assert!(!can_step(&blocked, Position::new(1, 1), Position::new(2, 2)));
    assert!(!can_step(&blocked, Position::new(1, 1), Position::new(1, 0)));
}

#[test]
fn key_bytes_decode_to_intents() {
    assert_eq!(intent_from_byte(b'\r'), Some(Intent::Confirm));
    assert_eq!(intent_from_byte(b'?'), Some(Intent::ToggleHelp));
    assert_eq!(intent_from_byte(b'r'), Some(Intent::Restart));
    assert_eq!(intent_from_byte(b'h'), None);
}

#[test]
fn potion_heal_is_capped_at_the_missing_health() {
    let mut game = game(&["#####", "#@.>#", "#####"]);
    game.inventory[0] = Some(ItemInstance {
        instance_id: ItemInstanceId(1),
        item_id: ItemId::health_potion(),
    });
    game.player.health -= POTION_HEAL + 3;
    assert!(apply_game_intent(&mut game, Intent::ToggleItemUse).unwrap());
    assert_eq!(game.apply(Command::UseItemSlot(1)), CommandOutcome::Advanced);
    assert_eq!(game.player.health, game.player.max_health - 3);
}

#[test]
fn exit_glyph_is_drawn_when_in_view() {
    let game = game(&["#####", "#@>##", "#####"]);
    assert_eq!(exploration_glyph(&game, Position::new(2, 1), DisplayProfile { ascii: true, no_color: true }), '>');
}

#[test]
fn resource_bars_clamp_and_support_ascii_and_unicode() {
    assert_eq!(resource_bar_text("HP", 5, 10, false), "HP █████░░░░░ 5/10");
    assert_eq!(resource_bar_text("MP", -3, 0, true), "MP [----------] 0/0");
    assert_eq!(resource_bar_text("HP", 99, 10, true), "HP [##########] 10/10");
}

#[test]
fn viewports_center_the_focus_within_the_map() {
    assert_eq!(viewport_origin(30, 60, 20), 20);
    assert_eq!(viewport_origin(3, 60, 20), 0);
    assert_eq!(viewport_origin(58, 60, 20), 40);
    assert_eq!(viewport_origin(10, 12, 30), 0);
}

#[test]
fn popups_fit_their_content_and_stay_centered() {
    assert_eq!(centered_popup_area(0, 0, 80, 24, 20, 5), (29, 8, 22, 7));
    assert_eq!(centered_popup_area(0, 0, 40, 12, 100, 30), (0, 0, 39, 11));
    assert_eq!(centered_popup_area(10, 2, 40, 12, 0, 0), (29, 7, 2, 2));
}

#[test]
fn terrain_only_changes_by_doors_opening() {
    let mut game = game(&["########", "#@+..+>#", "########"]);
    let initial = game.map.clone();
    for _ in 0..7 {
        assert_eq!(game.apply(Command::Move(Direction::East)), CommandOutcome::Advanced);
        for position in game.map.positions() {
            let now = game.map.tile(position);
            let then = initial.tile(position);
            assert!(now == then || (then == Some(Tile::ClosedDoor) && now == Some(Tile::OpenDoor)));
        }
    }
    assert_eq!(game.map.tile(Position::new(2, 1)), Some(Tile::OpenDoor));
    assert_eq!(game.map.tile(Position::new(5, 1)), Some(Tile::OpenDoor));
    assert_eq!(game.status, RunStatus::Victory);
}

#[test]
fn status_panel_rules_pick_tones_and_labels() {
    assert_eq!(health_tone(10, 32), SemanticTone::Danger);
    assert_eq!(health_tone(11, 32), SemanticTone::Health);
    assert_eq!(item_effect_label(ItemEffect::TorchVision { radius: 12 }), "Passive");
    assert_eq!(item_effect_label(ItemEffect::Heal { amount: 12 }), "Usable");
    assert_eq!(item_effect_label(ItemEffect::Unsupported(3)), "Unavailable");

    let mut game = game(&["#####", "#@.>#", "#####"]);
    assert_eq!(slot_readiness(&game, AbilitySlot::cleave()), Some(SlotReadiness::Ready));
    assert_eq!(slot_readiness(&game, AbilitySlot::new(3).unwrap()), None);
    game.player.mana = 1;
    assert_eq!(slot_readiness(&game, AbilitySlot::cleave()), Some(SlotReadiness::Unaffordable));
    game.abilities[0].as_mut().unwrap().cooldown_remaining = 2;
    assert_eq!(slot_readiness(&game, AbilitySlot::cleave()), Some(SlotReadiness::Cooling(2)));

    assert_eq!(foes_tone(&game), SemanticTone::Muted);
    game.spawn_hostile(ActorKind::Ghoul, Position::new(2, 1), 10, 0, 1);
    assert_eq!(foes_tone(&game), SemanticTone::Muted);
    game.hostiles[0].telegraph = Some(Telegraph::GhoulLunge { target: game.player.position });
    assert_eq!(foes_tone(&game), SemanticTone::Danger);
}

#[test]
fn ascii_profile_cells_are_ascii_everywhere() {
    let profile = DisplayProfile { ascii: true, no_color: true };
    let mut game = ExplorationGame::new(Some(RunSeed(0xD4_4B))).unwrap();
    game.start();
    for position in game.map.positions() {
        game.explored.insert(position);
    }
    if let Some(actor) = game.hostiles.first_mut() {
        actor.telegraph = Some(Telegraph::CultistHex { target: game.player.position });
    }
    for position in game.map.positions() {
        assert!(exploration_glyph(&game, position, profile).is_ascii());
    }
    assert!(resource_bar_text("HP", 7, 32, true).is_ascii());
}

#[test]
fn slot_status_labels_follow_readiness() {
    assert_eq!(slot_status_text(SlotReadiness::Cooling(3)), "C3");
    assert_eq!(slot_status_text(SlotReadiness::Cooling(12)), "C12");
    assert_eq!(slot_status_text(SlotReadiness::Ready), "Ready");
    assert_eq!(slot_status_text(SlotReadiness::Unaffordable), "Low");
}
