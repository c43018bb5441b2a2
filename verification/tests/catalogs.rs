use terminal_rpg::game::{
    telegraph_detail, telegraph_target_detail, tile_detail, AbilityAvailability, AbilityBinding, AbilityDefinition,
    AbilityEffect, AbilityId, AbilityTargeting, ActorKind, CatalogError, ClassDefinition, ClassId, GameCatalog,
    Telegraph,
};
use terminal_rpg::world::{Position, Tile};

fn ability(id: u16, class_id: ClassId) -> AbilityDefinition {
    AbilityDefinition {
        id: AbilityId(id),
        name: format!("Ability {id}"),
        description: format!("Test ability {id}"),
        mana_cost: 1,
        cooldown_turns: 2,
        targeting: AbilityTargeting::Immediate,
        effect: AbilityEffect::Cleave,
        availability: AbilityAvailability::Class(class_id),
    }
}

fn class(id: u16, bindings: &[(u8, u16)]) -> ClassDefinition {
    ClassDefinition {
        id: ClassId(id),
        name: format!("Class {id}"),
        description: format!("Description for class {id}"),
        max_health: 20,
        max_mana: 10,
        mana_regeneration: 1,
        armor: 1,
        base_damage: 4,
        starting_abilities: bindings
            .iter()
            .map(|(slot, ability)| AbilityBinding {
                slot: *slot,
                ability_id: AbilityId(*ability),
            })
            .collect(),
    }
}

#[test]
fn catalogs_validate_multiple_classes_loadouts_and_serialization() {
    let catalog = GameCatalog::new(
        vec![ability(1, ClassId(1)), ability(2, ClassId(2))],
        vec![class(1, &[(1, 1)]), class(2, &[(10, 2)])],
    )
    .unwrap();
    assert_eq!(
        catalog.class(ClassId(1)).unwrap().loadout()[0],
        Some(AbilityId(1))
    );
    assert_eq!(
        catalog.class(ClassId(2)).unwrap().loadout()[9],
        Some(AbilityId(2))
    );
    assert_eq!(catalog.class(ClassId(2)).unwrap().loadout()[0], None);
}

#[test]
fn catalogs_reject_duplicate_invalid_and_unsupported_definitions() {
    assert_eq!(
        GameCatalog::new(
            vec![ability(1, ClassId(1)), ability(1, ClassId(1))],
            vec![class(1, &[(1, 1)])]
        ),
        Err(CatalogError::DuplicateAbility(AbilityId(1)))
    );
    assert_eq!(
        GameCatalog::new(
            vec![ability(1, ClassId(1))],
            vec![class(1, &[]), class(1, &[])]
        ),
        Err(CatalogError::DuplicateClass(ClassId(1)))
    );
    let mut invalid_stats = class(1, &[(1, 1)]);
    invalid_stats.max_health = 0;
    assert_eq!(
        GameCatalog::new(vec![ability(1, ClassId(1))], vec![invalid_stats]),
        Err(CatalogError::InvalidClassStats {
            class_id: ClassId(1),
            max_health: 0,
            max_mana: 10,
            mana_regeneration: 1,
            armor: 1,
            base_damage: 4
        })
    );
    let mut extreme_stats = class(1, &[(1, 1)]);
    extreme_stats.max_health = i32::MAX;
    extreme_stats.armor = i32::MAX;
    extreme_stats.base_damage = i32::MAX;
    assert!(GameCatalog::new(vec![ability(1, ClassId(1))], vec![extreme_stats]).is_ok());
    assert_eq!(
        GameCatalog::new(vec![ability(1, ClassId(1))], vec![class(1, &[(0, 1)])]),
        Err(CatalogError::InvalidSlot {
            class_id: ClassId(1),
            slot: 0
        })
    );
    assert_eq!(
        GameCatalog::new(
            vec![ability(1, ClassId(1))],
            vec![class(1, &[(1, 1), (1, 1)])]
        ),
        Err(CatalogError::DuplicateSlot {
            class_id: ClassId(1),
            slot: 1
        })
    );
    assert_eq!(
        GameCatalog::new(vec![ability(1, ClassId(1))], vec![class(1, &[(1, 9)])]),
        Err(CatalogError::UnknownAbility {
            class_id: ClassId(1),
            ability_id: AbilityId(9)
        })
    );
    assert_eq!(
        GameCatalog::new(
            vec![ability(1, ClassId(2))],
            vec![class(1, &[(1, 1)]), class(2, &[])]
        ),
        Err(CatalogError::UnavailableAbility {
            class_id: ClassId(1),
            ability_id: AbilityId(1)
        })
    );
    let mut unsupported = ability(1, ClassId(1));
    unsupported.effect = AbilityEffect::Unsupported(7);
    assert_eq!(
        GameCatalog::new(vec![unsupported], vec![class(1, &[(1, 1)])]),
        Err(CatalogError::UnsupportedAbility(AbilityId(1)))
    );
    assert_eq!(
        GameCatalog::new(vec![ability(1, ClassId(9))], vec![class(1, &[])]),
        Err(CatalogError::UnknownAvailabilityClass {
            ability_id: AbilityId(1),
            class_id: ClassId(9)
        })
    );
}

#[test]
fn mana_metadata_is_validated() {
    let mut negative_cost = ability(1, ClassId(1));
    negative_cost.mana_cost = -1;
    assert_eq!(
        GameCatalog::new(vec![negative_cost], vec![class(1, &[(1, 1)])]),
        Err(CatalogError::UnsupportedAbility(AbilityId(1)))
    );

    let mut negative_max = class(1, &[(1, 1)]);
    negative_max.max_mana = -1;
    assert!(matches!(
        GameCatalog::new(vec![ability(1, ClassId(1))], vec![negative_max]),
        Err(CatalogError::InvalidClassStats { .. })
    ));

    let mut negative_regeneration = class(1, &[(1, 1)]);
    negative_regeneration.mana_regeneration = -1;
    assert!(matches!(
        GameCatalog::new(vec![ability(1, ClassId(1))], vec![negative_regeneration]),
        Err(CatalogError::InvalidClassStats { .. })
    ));

    let mut expensive = ability(1, ClassId(1));
    expensive.mana_cost = 11;
    assert!(matches!(
        GameCatalog::new(vec![expensive], vec![class(1, &[(1, 1)])]),
        Err(CatalogError::AbilityCostExceedsClassMana { .. })
    ));
}

#[test]
fn every_typed_inspectable_variant_has_specific_metadata() {
    for tile in [
        Tile::Wall,
        Tile::Floor,
        Tile::ClosedDoor,
        Tile::OpenDoor,
        Tile::Exit,
    ] {
        let detail = tile_detail(tile);
        assert!(!detail.name.is_empty() && !detail.description.is_empty());
    }
    for kind in [ActorKind::Skeleton, ActorKind::Ghoul, ActorKind::Cultist] {
        assert!(!kind.name().is_empty() && !kind.description().is_empty());
    }
    for telegraph in [
        Telegraph::GhoulLunge {
            target: Position::new(1, 1),
        },
        Telegraph::CultistHex {
            target: Position::new(1, 1),
        },
    ] {
        let origin = telegraph_detail(telegraph);
        let target = telegraph_target_detail(telegraph);
        assert!(!origin.name.is_empty() && !origin.description.is_empty());
        assert!(!target.name.is_empty() && !target.description.is_empty());
        assert_ne!(origin.name, target.name);
    }
    assert_ne!(
        telegraph_target_detail(Telegraph::GhoulLunge {
            target: Position::new(0, 0),
        })
        .name,
        telegraph_target_detail(Telegraph::CultistHex {
            target: Position::new(0, 0),
        })
        .name
    );
}
