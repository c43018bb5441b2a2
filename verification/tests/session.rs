use terminal_rpg::game::{
    ActorKind, Direction, ExplorationGame, ItemId, ItemInstance, ItemInstanceId, CLEAVE_COOLDOWN_TURNS,
};
use terminal_rpg::session::{
    apply_game_intent, InputDecoder, Intent, SkillSlot, MAX_INPUT_BYTES_PER_FEED, MAX_INTENTS_PER_FEED,
};
use terminal_rpg::ui::{capped_area, exploration_glyph, intent_allowed_at_size, DisplayProfile, MAX_HEIGHT, MAX_WIDTH};
use terminal_rpg::world::{RunSeed, Tile};

fn assert_spatial_movement_arrows_and_skills(decoder: &mut InputDecoder) {
    assert_eq!(
        decoder.feed(b"qwea"),
        [
            Intent::Move(Direction::NorthWest),
            Intent::Move(Direction::North),
            Intent::Move(Direction::NorthEast),
            Intent::Move(Direction::West),
        ]
    );
    assert_eq!(
        decoder.feed(b"sdzx"),
        [
            Intent::Wait,
            Intent::Move(Direction::East),
            Intent::Move(Direction::SouthWest),
            Intent::Move(Direction::South),
        ]
    );
    assert_eq!(decoder.feed(b"c"), [Intent::Move(Direction::SouthEast)]);

    assert!(decoder.feed(b"\x1b[").is_empty());
    assert_eq!(decoder.feed(b"A"), vec![Intent::Move(Direction::North)]);
    for (suffix, direction) in [
        (b'B', Direction::South),
        (b'C', Direction::East),
        (b'D', Direction::West),
    ] {
        assert!(decoder.feed(b"\x1b[").is_empty());
        assert_eq!(decoder.feed(&[suffix]), [Intent::Move(direction)]);
    }

    assert_eq!(
        decoder.feed(b"1234"),
        [
            Intent::UseSkill(SkillSlot::new(1).unwrap()),
            Intent::UseSkill(SkillSlot::new(2).unwrap()),
            Intent::UseSkill(SkillSlot::new(3).unwrap()),
            Intent::UseSkill(SkillSlot::new(4).unwrap()),
        ]
    );
    assert_eq!(
        decoder.feed(b"5678"),
        [
            Intent::UseSkill(SkillSlot::new(5).unwrap()),
            Intent::UseSkill(SkillSlot::new(6).unwrap()),
            Intent::UseSkill(SkillSlot::new(7).unwrap()),
            Intent::UseSkill(SkillSlot::new(8).unwrap()),
        ]
    );
    assert_eq!(
        decoder.feed(b"90"),
        [
            Intent::UseSkill(SkillSlot::new(9).unwrap()),
            Intent::UseSkill(SkillSlot::new(10).unwrap()),
        ]
    );
    assert_eq!(decoder.feed(b"Q"), [Intent::Quit]);
}

fn assert_spam_is_bounded_and_recovers() {
    let mut decoder = InputDecoder::default();
    let spam = vec![b's'; MAX_INPUT_BYTES_PER_FEED * 8];
    let intents = decoder.feed(&spam);
    assert_eq!(intents.len(), MAX_INTENTS_PER_FEED);
    assert!(intents.iter().all(|intent| *intent == Intent::Wait));
    assert_eq!(decoder.feed(b"Q"), [Intent::Quit]);

    let unknown = vec![b'h'; MAX_INPUT_BYTES_PER_FEED * 8];
    assert!(decoder.feed(&unknown).is_empty());
    assert!(decoder.feed(b"\x1b[").is_empty());
    assert_eq!(decoder.feed(b"A"), [Intent::Move(Direction::North)]);
}

fn assert_shared_intents_stay_in_their_session() {
    let mut waiting = ExplorationGame::new(Some(RunSeed(11))).unwrap();
    let mut helping = ExplorationGame::new(Some(RunSeed(22))).unwrap();
    waiting.start();
    helping.start();

    assert!(apply_game_intent(&mut waiting, Intent::Wait).unwrap());
    assert!(apply_game_intent(&mut helping, Intent::ToggleHelp).unwrap());

    assert_eq!(waiting.turn, 1);
    assert!(!waiting.help);
    assert_eq!(helping.turn, 0);
    assert!(helping.help);
    assert_ne!(waiting.seed(), helping.seed());
}

fn assert_exit_glyph_follows_memory(with_item: bool) {
    let mut game = ExplorationGame::new(Some(RunSeed(9))).unwrap();
    let exit = game.map.exit;
    game.visible.remove(&exit);
    game.explored.remove(&exit);
    if with_item {
        game.spawn_ground_item(ItemId::health_potion(), exit);
    }
    assert_eq!(exploration_glyph(&game, exit, DisplayProfile::default()), ' ');
    game.explored.insert(exit);
    assert_eq!(exploration_glyph(&game, exit, DisplayProfile::default()), ',');
    if with_item {
        game.visible.insert(exit);
        assert_eq!(exploration_glyph(&game, exit, DisplayProfile::default()), '¡');
    }
}

fn assert_skill_slots_dispatch(first_empty: u8) {
    let mut empty_slots = ExplorationGame::new(Some(RunSeed(33))).unwrap();
    empty_slots.start();
    let unchanged = empty_slots.clone();
    for number in first_empty..=10 {
        assert!(apply_game_intent(
            &mut empty_slots,
            Intent::UseSkill(SkillSlot::new(number).unwrap()),
        )
        .unwrap());
    }
    assert_eq!(empty_slots, unchanged);

    let mut cleave = ExplorationGame::new(Some(RunSeed(44))).unwrap();
    cleave.start();
    let adjacent = [
        Direction::North,
        Direction::East,
        Direction::South,
        Direction::West,
    ]
    .into_iter()
    .map(|direction| {
        let (dx, dy) = direction.delta();
        cleave.player.position.offset(dx, dy)
    })
    .find(|position| cleave.map.tile(*position).is_some_and(Tile::is_walkable))
    .expect("the generated start has an adjacent floor");
    cleave.hostiles.clear();
    cleave.spawn_hostile(ActorKind::Skeleton, adjacent, 20, 1, 1);

    assert!(apply_game_intent(&mut cleave, Intent::UseSkill(SkillSlot::cleave())).unwrap());
    assert_eq!(cleave.turn, 1);
    assert_eq!(
        cleave.abilities[0].as_ref().unwrap().cooldown_remaining,
        CLEAVE_COOLDOWN_TURNS
    );
    assert!(cleave
        .events
        .iter()
        .any(|event| event == "You unleash Cleave."));
    let on_cooldown = cleave.clone();
    assert!(apply_game_intent(&mut cleave, Intent::UseSkill(SkillSlot::cleave())).unwrap());
    assert_eq!(cleave, on_cooldown);
}

#[test]
fn decoder_maps_spatial_keys_arrows_and_skill_slots() {
    let mut decoder = InputDecoder::default();
    assert_eq!(
        decoder.feed(b"qwea"),
        [
            Intent::Move(Direction::NorthWest),
            Intent::Move(Direction::North),
            Intent::Move(Direction::NorthEast),
            Intent::Move(Direction::West),
        ]
    );
    assert_eq!(
        decoder.feed(b"sdzx"),
        [
            Intent::Wait,
            Intent::Move(Direction::East),
            Intent::Move(Direction::SouthWest),
            Intent::Move(Direction::South),
        ]
    );
    assert_eq!(decoder.feed(b"c"), [Intent::Move(Direction::SouthEast)]);
    assert!(decoder.feed(b"\x1b[").is_empty());
    assert_eq!(decoder.feed(b"A"), [Intent::Move(Direction::North)]);
    assert_eq!(
        decoder.feed(b"\t\x1b[Z"),
        [
            Intent::CycleTarget { backwards: false },
            Intent::CycleTarget { backwards: true }
        ]
    );
    assert!(decoder.feed(b"\x1b").is_empty());
    assert_eq!(decoder.flush_pending_escape(), Some(Intent::CancelMode));
    assert!(decoder.feed(b"\x1b").is_empty());
    let old_generation = decoder.pending_escape_generation().unwrap();
    assert_eq!(decoder.feed(b"[A"), [Intent::Move(Direction::North)]);
    assert!(decoder.feed(b"\x1b").is_empty());
    assert_eq!(
        decoder.flush_pending_escape_generation(old_generation),
        None,
        "an old transport timer must not flush a newer escape"
    );
    let current_generation = decoder.pending_escape_generation().unwrap();
    assert_eq!(
        decoder.flush_pending_escape_generation(current_generation),
        Some(Intent::CancelMode)
    );
    assert_eq!(
        decoder.feed(b"10"),
        [
            Intent::UseSkill(SkillSlot::cleave()),
            Intent::UseSkill(SkillSlot::new(10).unwrap()),
        ]
    );
    assert_eq!(decoder.feed(b"i"), [Intent::ToggleInspect]);
}

#[test]
fn dispatch_keeps_sessions_independent_and_empty_skills_free() {
    let mut waiting = ExplorationGame::new(Some(RunSeed(11))).unwrap();
    let mut helping = ExplorationGame::new(Some(RunSeed(22))).unwrap();
    waiting.start();
    helping.start();

    apply_game_intent(&mut waiting, Intent::Wait).unwrap();
    apply_game_intent(&mut helping, Intent::ToggleHelp).unwrap();
    let before_empty_skill = helping.clone();
    apply_game_intent(&mut helping, Intent::UseSkill(SkillSlot::new(2).unwrap())).unwrap();

    assert_eq!(waiting.turn, 1);
    assert!(!waiting.help);
    assert_eq!(helping, before_empty_skill);
    assert_ne!(waiting.seed(), helping.seed());
}

#[test]
fn inspect_dispatch_preserves_cursor_across_help_and_is_session_local() {
    let mut inspecting = ExplorationGame::new(Some(RunSeed(31))).unwrap();
    let mut ordinary = ExplorationGame::new(Some(RunSeed(32))).unwrap();
    inspecting.start();
    ordinary.start();
    apply_game_intent(&mut inspecting, Intent::ToggleInspect).unwrap();
    let initial = inspecting.inspecting.unwrap().cursor;
    apply_game_intent(&mut inspecting, Intent::Move(Direction::East)).unwrap();
    let moved = inspecting.inspecting.unwrap().cursor;
    assert_eq!(moved, initial.offset(1, 0));
    apply_game_intent(&mut inspecting, Intent::ToggleHelp).unwrap();
    apply_game_intent(&mut inspecting, Intent::Move(Direction::South)).unwrap();
    assert_eq!(inspecting.inspecting.unwrap().cursor, moved);
    apply_game_intent(&mut inspecting, Intent::ToggleHelp).unwrap();
    apply_game_intent(&mut inspecting, Intent::CancelMode).unwrap();
    assert!(inspecting.inspecting.is_none());
    assert!(ordinary.inspecting.is_none());
    assert_eq!(inspecting.turn, 0);
}

#[test]
fn item_intents_are_modal_turn_free_until_a_valid_slot_is_used() {
    let mut game = ExplorationGame::new(Some(RunSeed(44))).unwrap();
    game.start();
    game.inventory[0] = Some(ItemInstance {
        instance_id: ItemInstanceId(90),
        item_id: ItemId::health_potion(),
    });
    game.player.health -= 12;
    apply_game_intent(&mut game, Intent::ToggleItemUse).unwrap();
    assert!(game.using_item);
    assert_eq!(game.turn, 0);
    apply_game_intent(&mut game, Intent::ToggleHelp).unwrap();
    assert!(!game.help, "help cannot coexist with item-use mode");
    apply_game_intent(&mut game, Intent::UseSkill(SkillSlot::new(1).unwrap())).unwrap();
    assert!(game.inventory[0].is_none());
    assert_eq!(game.turn, 1);
    assert!(!game.using_item);
}

#[test]
fn ssh_escape_timer_generation_cannot_flush_a_later_sequence() {
    let mut decoder = InputDecoder::default();
    assert!(decoder.feed(b"\x1b").is_empty());
    let stale = decoder.pending_escape_generation().unwrap();
    assert_eq!(decoder.feed(b"[A"), [Intent::Move(Direction::North)]);
    assert!(decoder.feed(b"\x1b").is_empty());
    let current = decoder.pending_escape_generation().unwrap();
    assert_ne!(stale, current);
    assert_eq!(decoder.flush_pending_escape_generation(stale), None);
    assert_eq!(
        decoder.flush_pending_escape_generation(current),
        Some(Intent::CancelMode)
    );
}

#[test]
fn mod_decoder_maps_spatial_movement_arrows_skills_and_quit() {
    let mut decoder = InputDecoder::default();
    assert_spatial_movement_arrows_and_skills(&mut decoder);
    assert!(decoder.feed(b"hjkl ybn.").is_empty());
    assert_eq!(
        decoder.feed(b"gu"),
        [Intent::PickupItem, Intent::ToggleItemUse]
    );
    assert_eq!(SkillSlot::new(0), None);
    assert_eq!(SkillSlot::new(11), None);
}

#[test]
fn ui_decoder_bounds_spam_linearly_and_recovers_for_later_input() {
    assert_spam_is_bounded_and_recovers();
}

#[test]
fn mod_decoder_bounds_spam_linearly_and_recovers_for_later_input() {
    assert_spam_is_bounded_and_recovers();
}

#[test]
fn ui_unseen_features_are_hidden_and_explored_terrain_uses_memory_glyphs() {
    assert_exit_glyph_follows_memory(false);
}

#[test]
fn mod_unseen_features_are_hidden_and_explored_terrain_uses_memory_glyphs() {
    assert_exit_glyph_follows_memory(true);
}

#[test]
fn ui_shared_game_intents_keep_sessions_independent() {
    assert_shared_intents_stay_in_their_session();
}

#[test]
fn mod_shared_game_intents_keep_sessions_independent() {
    assert_shared_intents_stay_in_their_session();
}

#[test]
fn mod_skill_slots_dispatch_cleave_and_empty_slots_are_free() {
    assert_skill_slots_dispatch(3);
}

#[test]
fn ui_dimensions_are_capped() {
    assert_eq!(capped_area(u32::MAX, u32::MAX), (MAX_WIDTH, MAX_HEIGHT));
    assert_eq!(capped_area(0, 0), (1, 1));
}

#[test]
fn mod_dimensions_are_capped() {
    assert_eq!(capped_area(u32::MAX, u32::MAX), (MAX_WIDTH, MAX_HEIGHT));
    assert_eq!(capped_area(0, 0), (1, 1));
}

#[test]
fn mod_gameplay_intents_are_ignored_below_minimum_size() {
    assert!(intent_allowed_at_size(Intent::Wait, 60, 20));
    assert!(intent_allowed_at_size(Intent::Quit, 60, 20));
}

#[test]
fn a_read_yields_at_most_four_intents_and_drops_the_rest() {
    let mut decoder = InputDecoder::default();
    let intents = decoder.feed(&[b's'; 40]);
    assert_eq!(intents.len(), 4);
    assert!(!decoder.has_pending_escape());
    let mut partial = InputDecoder::default();
    let none = partial.feed(&[0x1b]);
    assert!(none.is_empty());
    assert!(partial.has_pending_escape());
}
