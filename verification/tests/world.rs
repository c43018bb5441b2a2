use terminal_rpg::world::{DungeonGenerator, GenerationError, GeneratorConfig, Tile};

fn assert_closed_door_semantics() {
    assert!(!Tile::ClosedDoor.is_walkable());
    assert!(Tile::ClosedDoor.is_traversable());
    assert!(Tile::ClosedDoor.is_opaque());
    assert!(Tile::OpenDoor.is_walkable());
    assert!(!Tile::OpenDoor.is_opaque());
}

fn assert_narrow_config_rejected() {
    assert_eq!(
        DungeonGenerator::new(GeneratorConfig {
            width: 10,
            ..GeneratorConfig::default()
        })
        .unwrap_err(),
        GenerationError::InvalidConfig
    );
}

fn assert_extreme_configs_rejected() {
    for config in [
        GeneratorConfig {
            max_rooms: usize::MAX,
            ..GeneratorConfig::default()
        },
        GeneratorConfig {
            width: u16::MAX,
            ..GeneratorConfig::default()
        },
        GeneratorConfig {
            height: u16::MAX,
            ..GeneratorConfig::default()
        },
    ] {
        assert_eq!(
            DungeonGenerator::new(config).unwrap_err(),
            GenerationError::InvalidConfig
        );
    }
}

#[test]
fn world_tile_semantics_distinguish_closed_doors() {
    assert_closed_door_semantics();
}

#[test]
fn mod_tile_semantics_distinguish_closed_doors() {
    assert_closed_door_semantics();
}

#[test]
fn world_invalid_configs_are_rejected() {
    assert_narrow_config_rejected();
}

#[test]
fn mod_invalid_configs_are_rejected() {
    assert_narrow_config_rejected();
}

#[test]
fn world_extreme_configs_are_rejected_before_allocation() {
    assert_extreme_configs_rejected();
}

#[test]
fn mod_extreme_configs_are_rejected_before_allocation() {
    assert_extreme_configs_rejected();
}
