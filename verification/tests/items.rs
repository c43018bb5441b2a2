use terminal_rpg::game::{
    ClassId, Command, CommandOutcome, ExplorationGame, GameCatalog, ItemId, ItemInstance, ItemInstanceId, RunStatus,
    AbilitySlot, FIELD_OF_VIEW_RADIUS, INVENTORY_SLOT_COUNT,
};
use terminal_rpg::world::{DungeonMap, Position, RunSeed, Tile};

fn game(rows: &[&str]) -> ExplorationGame {
    ExplorationGame::from_map(
        DungeonMap::from_test_rows(rows, RunSeed(7)),
        Some(RunSeed(7)),
        RunStatus::Active,
        ClassId::grave_knight(),
        GameCatalog::builtin(),
    )
    .unwrap()
}

#[test]
fn generated_items_are_deterministic_distinct_and_legal() {
    for seed in 0..100 {
        let left = ExplorationGame::new(Some(RunSeed(seed))).unwrap();
        let right = ExplorationGame::new(Some(RunSeed(seed))).unwrap();
        assert_eq!(left.ground_items, right.ground_items);
        assert_eq!(left.ground_items.len(), 2);
        assert_ne!(left.ground_items[0].position, left.ground_items[1].position);
        assert_eq!(left.ground_items[0].item.item_id, ItemId::torch());
        assert_eq!(left.ground_items[1].item.item_id, ItemId::health_potion());
        for ground in &left.ground_items {
            assert_eq!(left.map.tile(ground.position), Some(Tile::Floor));
            assert_ne!(ground.position, left.player.position);
            assert_ne!(ground.position, left.map.exit);
            assert!(!left
                .hostiles
                .iter()
                .any(|actor| actor.position == ground.position));
        }
    }
}

#[test]
fn pickup_uses_lowest_slot_costs_one_turn_and_rejects_failures() {
    let mut game = game(&["#####", "#@.>#", "#####"]);
    game.spawn_ground_item(ItemId::torch(), game.player.position);
    assert_eq!(game.apply(Command::PickupItem), CommandOutcome::Advanced);
    assert_eq!(game.turn, 1);
    assert_eq!(game.inventory[0].unwrap().item_id, ItemId::torch());
    assert!(game.ground_items.is_empty());
    let turn = game.turn;
    assert_eq!(game.apply(Command::PickupItem), CommandOutcome::Rejected);
    assert_eq!(game.turn, turn);

    for slot in &mut game.inventory {
        *slot = Some(ItemInstance {
            instance_id: ItemInstanceId(99),
            item_id: ItemId::torch(),
        });
    }
    game.spawn_ground_item(ItemId::health_potion(), game.player.position);
    assert_eq!(game.apply(Command::PickupItem), CommandOutcome::Rejected);
    assert_eq!(game.turn, turn);
    assert_eq!(game.ground_items.len(), 1);
}

#[test]
fn torch_extends_occluded_visibility_without_stacking() {
    let mut game = game(&[
        "##################",
        "#@..............>#",
        "##################",
    ]);
    assert_eq!(game.effective_visibility_radius(), 8);
    assert!(!game.is_visible(Position::new(10, 1)));
    let torch = ItemInstance {
        instance_id: ItemInstanceId(1),
        item_id: ItemId::torch(),
    };
    game.inventory[0] = Some(torch);
    game.inventory[1] = Some(ItemInstance {
        instance_id: ItemInstanceId(2),
        item_id: ItemId::torch(),
    });
    game.recompute_visibility();
    assert_eq!(game.effective_visibility_radius(), 12);
    assert!(game.is_visible(Position::new(12, 1)));
    assert!(!game.is_visible(Position::new(14, 1)));
}

#[test]
fn potion_heals_caps_consumes_and_only_success_advances() {
    let mut game = game(&["#####", "#@.>#", "#####"]);
    let potion = ItemInstance {
        instance_id: ItemInstanceId(1),
        item_id: ItemId::health_potion(),
    };
    game.inventory[1] = Some(potion);
    game.using_item = true;
    let before = game.clone();
    assert_eq!(
        game.apply(Command::UseItemSlot(2)),
        CommandOutcome::Rejected
    );
    assert_eq!(game, before);
    game.player.health -= 5;
    assert_eq!(
        game.apply(Command::UseItemSlot(2)),
        CommandOutcome::Advanced
    );
    assert_eq!(game.player.health, game.player.max_health);
    assert_eq!(game.turn, 1);
    assert!(game.inventory[1].is_none());
    assert!(!game.using_item);
    assert!(game.events.last().unwrap().contains("restore 5 health"));
}

#[test]
fn item_mode_is_exclusive_and_seeded_restart_restores_placement() {
    let seed = RunSeed(81);
    let mut game = ExplorationGame::new(Some(seed)).unwrap();
    game.start();
    let initial_ground = game.ground_items.clone();
    game.apply(Command::ToggleItemUse);
    assert!(game.using_item);
    game.apply(Command::ToggleInspect);
    game.apply(Command::UseAbility(AbilitySlot::cleave()));
    assert!(game.using_item && game.inspecting.is_none() && game.targeting.is_none());
    game.apply(Command::CancelMode);
    game.inventory[0] = Some(ItemInstance {
        instance_id: ItemInstanceId(88),
        item_id: ItemId::torch(),
    });
    game.restart_with_seed(RunSeed(999)).unwrap();
    assert_eq!(game.ground_items, initial_ground);
    assert_eq!(game.inventory, [None; INVENTORY_SLOT_COUNT]);
    assert!(!game.using_item);
    assert_eq!(game.effective_visibility_radius(), FIELD_OF_VIEW_RADIUS);
}

#[test]
fn player_inspection_includes_carried_definitions_but_other_tiles_do_not() {
    let mut game = game(&["#####", "#@.>#", "#####"]);
    game.inventory[0] = Some(ItemInstance {
        instance_id: ItemInstanceId(42),
        item_id: ItemId::torch(),
    });
    let player = game.inspect(game.player.position);
    assert_eq!(player.carried_items.len(), 1);
    assert_eq!(player.carried_items[0].name, "Carried: Grave Torch");
    assert!(game.inspect(Position::new(2, 1)).carried_items.is_empty());
}
