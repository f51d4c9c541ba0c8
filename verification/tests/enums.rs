use stellar_guesser::camera::CameraChangesState;
use stellar_guesser::enums::{LightPollution, ScreenWidth, StorageKeys};
use stellar_guesser::objects::{DeepskyType, ObjectType, StarType};
use stellar_guesser::filter::Catalogue;

#[test]
fn light_pollution_texts() {
    assert_eq!(LightPollution::PragueDark.label(), "Prague (dark place)");
    assert_eq!(LightPollution::AverageVillage.label(), "Village");
    assert_eq!(LightPollution::NoSpecific.explanation(), "No specific settings, set by the user");
    assert_eq!(
        LightPollution::variants(),
        [
            LightPollution::NoSpecific,
            LightPollution::Default,
            LightPollution::Prague,
            LightPollution::PragueDark,
            LightPollution::AverageVillage
        ]
    );
}

#[test]
fn storage_keys() {
    assert_eq!(StorageKeys::TimeSpent.as_ref(), "time_spent");
    assert_eq!(StorageKeys::GameGroupActiveConstellellations.as_ref(), "game_group_active_constellations");
    assert_eq!(StorageKeys::GameInactiveConstellationGroups.as_ref(), "game_inactive_constellations_groups");
    assert_eq!(StorageKeys::InputSettings.as_ref(), "input_settings");
}

#[test]
fn screen_widths() {
    assert!(!ScreenWidth::Normal.narrow());
    assert!(ScreenWidth::Narrow.narrow());
    assert!(ScreenWidth::VeryNarrow.narrow());
    assert!(!ScreenWidth::Narrow.very_narrow());
    assert!(ScreenWidth::VeryNarrow.very_narrow());
}

#[test]
fn object_types_from_names() {
    assert_eq!(ObjectType::from_string("star(double)"), Ok(ObjectType::Star(StarType::Double)));
    assert_eq!(ObjectType::from_string("Deepsky(Open_Cluster)"), Ok(ObjectType::Deepsky(DeepskyType::OpenCluster)));
    assert!(ObjectType::from_string("STAR(TRIPLE)").unwrap_err().starts_with("Unknown object type 'STAR(TRIPLE)'."));
    assert_eq!(DeepskyType::PlanetaryNebula.to_option_string(), Some("Planetary nebula".to_string()));
    assert_eq!(DeepskyType::Any.to_option_string(), None);
    assert_eq!(DeepskyType::Unknown.to_option_string(), None);
}

#[test]
fn catalogues_from_names() {
    assert!(matches!(Catalogue::from_string("proper_name"), Ok(Catalogue::ProperName)));
    assert!(matches!(Catalogue::from_string("Hd"), Ok(Catalogue::Hd)));
    assert!(matches!(Catalogue::from_string("ic"), Ok(Catalogue::Ic)));
    assert!(Catalogue::from_string("UGC").is_err());
}

#[test]
fn camera_starts_unchanged() {
    let c = CameraChangesState::default();
    assert!(!c.changed && !c.changed_fov && !c.changed_rotation && !c.changed_projection && !c.changed_viewport_rect);
}
