use stellar_guesser::renderers::{RendererGroups, RendererState, SkyRenderers};

fn state(object_id: u64, disabled: bool) -> RendererState {
    RendererState { object_id, disabled }
}

#[test]
fn groups_are_built_shown() {
    let mut groups = RendererGroups::new();
    assert!(groups.renderers_of("bright").is_none());
    groups.reinit_group("bright", &[1, 2, 3]);
    assert_eq!(groups.renderers_of("bright").unwrap(), &[state(1, false), state(2, false), state(3, false)]);
}

#[test]
fn hiding_and_showing_single_objects() {
    let mut sky = SkyRenderers { stars: RendererGroups::new(), deepskies: RendererGroups::new() };
    sky.stars.reinit_group("bright", &[1, 2, 3]);
    sky.stars.reinit_group("faint", &[2, 4]);
    sky.deepskies.reinit_group("messier", &[2, 31]);
    sky.disable_single_renderer(2);
    assert_eq!(sky.stars.renderers_of("bright").unwrap(), &[state(1, false), state(2, true), state(3, false)]);
    assert_eq!(sky.stars.renderers_of("faint").unwrap(), &[state(2, true), state(4, false)]);
    assert_eq!(sky.deepskies.renderers_of("messier").unwrap(), &[state(2, true), state(31, false)]);
    sky.enable_single_renderer(2);
    assert_eq!(sky.stars.renderers_of("bright").unwrap(), &[state(1, false), state(2, false), state(3, false)]);
    assert_eq!(sky.deepskies.renderers_of("messier").unwrap(), &[state(2, false), state(31, false)]);
}

#[test]
fn rebuilding_keeps_hidden_objects_hidden() {
    let mut sky = SkyRenderers { stars: RendererGroups::new(), deepskies: RendererGroups::new() };
    sky.stars.reinit_group("bright", &[1, 2, 3]);
    sky.stars.reinit_group("faint", &[3]);
    sky.disable_single_renderer(3);
    sky.stars.reinit_group("bright", &[3, 5, 1]);
    assert_eq!(sky.stars.renderers_of("bright").unwrap(), &[state(3, true), state(5, false), state(1, false)]);
    assert_eq!(sky.stars.renderers_of("faint").unwrap(), &[state(3, true)]);
    sky.stars.deinit_group("faint");
    assert_eq!(sky.stars.renderers_of("faint").unwrap(), &[]);
    // once emptied, the group forgets what was hidden
    sky.stars.reinit_group("faint", &[3]);
    assert_eq!(sky.stars.renderers_of("faint").unwrap(), &[state(3, false)]);
    sky.stars.deinit_group("new");
    assert_eq!(sky.stars.renderers_of("new").unwrap(), &[]);
}

#[test]
fn whole_category_is_drawn_anew() {
    let mut stars = RendererGroups::new();
    stars.reinit_group("bright", &[1, 2, 3]);
    stars.reinit_group("old", &[9]);
    let mut sky = SkyRenderers { stars, deepskies: RendererGroups::new() };
    sky.disable_single_renderer(2);
    let files = vec![
        ("bright".to_string(), vec![3u64, 2, 1]),
        ("faint".to_string(), vec![7u64]),
        ("hidden".to_string(), vec![8u64]),
    ];
    let mut active = vec![("hidden".to_string(), false)];
    sky.stars.reinit_category(&files, &mut active);
    assert_eq!(sky.stars.renderers_of("bright").unwrap(), &[state(3, false), state(2, true), state(1, false)]);
    assert_eq!(sky.stars.renderers_of("faint").unwrap(), &[state(7, false)]);
    // a switched-off group gets no renderers, and a group without a file is gone
    assert!(sky.stars.renderers_of("hidden").is_none());
    assert!(sky.stars.renderers_of("old").is_none());
    // groups missing from the switches are added switched on
    assert_eq!(
        active,
        vec![("hidden".to_string(), false), ("bright".to_string(), true), ("faint".to_string(), true)]
    );
}
