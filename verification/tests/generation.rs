use std::collections::HashSet;
use terminal_rpg::game::{ClassId, ExplorationGame, RunSeed};
use terminal_rpg::world::{DungeonGenerator, Tile, GENERATOR_VERSION};

#[test]
fn one_thousand_seeded_dungeons_satisfy_invariants() {
    let generator = DungeonGenerator::default();
    for seed in 0..1_000 {
        let map = generator.generate(RunSeed(seed)).unwrap();
        map.validate().unwrap();
        assert_eq!(map.generator_version, GENERATOR_VERSION);
        assert!(map.spawn_candidates.len() >= 15);
        assert_eq!(
            map.spawn_candidates.iter().collect::<HashSet<_>>().len(),
            map.spawn_candidates.len()
        );
    }
}

#[test]
fn same_seed_produces_identical_map() {
    let generator = DungeonGenerator::default();
    assert_eq!(
        generator.generate(RunSeed(0xD4_4B)).unwrap(),
        generator.generate(RunSeed(0xD4_4B)).unwrap()
    );
}

#[test]
fn representative_floor_is_reviewable() {
    let map = DungeonGenerator::default().generate(RunSeed(0xD4_4B)).unwrap();
    let dump = map.to_ascii();
    let rows: Vec<&str> = dump.lines().collect();
    assert_eq!(rows.len(), 28);
    assert!(rows.iter().all(|row| row.chars().count() == 60));
    assert_eq!(dump.matches('@').count(), 1);
    assert_eq!(dump, DungeonGenerator::default().generate(RunSeed(0xD4_4B)).unwrap().to_ascii());
}

#[test]
fn seeded_generation_keeps_bounds_and_connectivity() {
    for seed in [0u64, 1, 7, 0xD4_4B, 0xFFFF_FFFF_FFFF_FFFF, 0x8000_0000_0000_0000] {
        let map = DungeonGenerator::default().generate(RunSeed(seed)).unwrap();
        assert!(map.contains(map.player_start));
        assert!(map.contains(map.exit));
        assert_eq!(map.tile(map.exit), Some(Tile::Exit));
        assert!(map.traversable_positions().contains(&map.exit));
        assert!(map.spawn_candidates.iter().all(|p| map.contains(*p)));
    }
}

#[test]
fn seeded_runs_are_reproducible_in_full() {
    let seed = RunSeed(0x5EED_0001);
    let a = ExplorationGame::new(Some(seed)).unwrap();
    let b = ExplorationGame::new(Some(seed)).unwrap();
    assert_eq!(a, b);
    let c = ExplorationGame::new_with_class(Some(seed), ClassId::grave_knight()).unwrap();
    assert_eq!(a, c);
    let other = ExplorationGame::new(Some(RunSeed(0x5EED_0002))).unwrap();
    assert_ne!(a.map, other.map);
}

#[test]
fn restarting_an_explicit_seed_regenerates_the_same_run() {
    let seed = RunSeed(0xA11CE);
    let fresh = ExplorationGame::new(Some(seed)).unwrap();
    let mut run = ExplorationGame::new(Some(seed)).unwrap();
    run.restart_with_seed(RunSeed(0xB0B)).unwrap();
    assert_eq!(run.map, fresh.map);
    assert_eq!(run.hostiles, fresh.hostiles);
    assert_eq!(run.ground_items, fresh.ground_items);
    assert_eq!(run.player, fresh.player);
}

#[test]
fn traversal_from_an_off_map_start_holds_the_start() {
    let mut map = DungeonGenerator::default().generate(RunSeed(0xD4_4B)).unwrap();
    let on_map_start = map.player_start;
    let outside = terminal_rpg::world::Position::new(-5, -5);
    map.player_start = outside;
    let reached = map.traversable_positions();
    assert!(reached.contains(&outside));
    assert!(!reached.contains(&on_map_start));
}
