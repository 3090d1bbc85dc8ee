use tetrino::settings::{
    handle_settings_key, key_display_name, resolution_after_ratio_change, key_to_string, resolution_label, resolutions_for_ratio,
    Key, KeyBindings, NamedKey, SettingsUiState,
};

#[test]
fn resolutions_by_ratio() {
    assert_eq!(
        resolutions_for_ratio("16:9"),
        vec![(1280, 720), (1920, 1080), (2560, 1440), (3840, 2160)]
    );
    assert_eq!(
        resolutions_for_ratio("16:10"),
        vec![(1280, 800), (1920, 1200), (2560, 1600), (3840, 2400)]
    );
    assert_eq!(
        resolutions_for_ratio("4:3"),
        vec![(1024, 768), (1280, 960), (1600, 1200), (2048, 1536)]
    );
    assert_eq!(resolutions_for_ratio("21:9"), vec![(2560, 1080), (3440, 1440), (5120, 2160)]);
    assert_eq!(resolutions_for_ratio("5:4"), vec![(1280, 720)]);
}

#[test]
fn resolution_labels() {
    assert_eq!(resolution_label((1920, 1080)), "1920×1080");
    assert_eq!(resolution_label((0, 7)), "0×7");
}

#[test]
fn key_display_names() {
    assert_eq!(key_display_name(" "), "Space");
    assert_eq!(key_display_name("a"), "A");
    assert_eq!(key_display_name("Z"), "Z");
    assert_eq!(key_display_name("1"), "1");
    assert_eq!(key_display_name("ArrowLeft"), "ArrowLeft");
    assert_eq!(key_display_name("é"), "é");
}

#[test]
fn key_names() {
    assert_eq!(key_to_string(&Key::Named(NamedKey::Space)), " ");
    assert_eq!(key_to_string(&Key::Named(NamedKey::F12)), "F12");
    assert_eq!(key_to_string(&Key::Character("q".to_string())), "q");
    assert_eq!(key_to_string(&Key::Other), "Unknown");
}

#[test]
fn key_matching() {
    let b = KeyBindings::default();
    assert!(b.key_matches(&Key::Character("a".to_string()), "move_left"));
    assert!(b.key_matches(&Key::Character("A".to_string()), "move_left"));
    assert!(!b.key_matches(&Key::Character("a".to_string()), "move_right"));
    assert!(b.key_matches(&Key::Named(NamedKey::Space), "hard_drop"));
    assert!(!b.key_matches(&Key::Named(NamedKey::Space), "hold"));
    assert!(!b.key_matches(&Key::Character("a".to_string()), "jump"));
    assert!(!b.key_matches(&Key::Other, "move_left"));
}

#[test]
fn rebinding_a_key() {
    let mut ui = SettingsUiState::default();
    let mut b = KeyBindings::default();
    assert!(!handle_settings_key(&Key::Named(NamedKey::ArrowLeft), &mut ui, &mut b));
    assert_eq!(b.key_move_left, "a");
    ui.listening_for = Some("move_left".to_string());
    assert!(handle_settings_key(&Key::Named(NamedKey::ArrowLeft), &mut ui, &mut b));
    assert_eq!(b.key_move_left, "ArrowLeft");
    assert!(ui.listening_for.is_none());
    assert!(b.key_matches(&Key::Named(NamedKey::ArrowLeft), "move_left"));
    ui.listening_for = Some("nothing".to_string());
    assert!(handle_settings_key(&Key::Named(NamedKey::F2), &mut ui, &mut b));
    assert_eq!(b.key_hold, "f");
}

#[test]
fn resolution_kept_or_reset_on_ratio_change() {
    assert_eq!(resolution_after_ratio_change("16:9", (1920, 1080)), (1920, 1080));
    assert_eq!(resolution_after_ratio_change("4:3", (1920, 1080)), (1024, 768));
    assert_eq!(resolution_after_ratio_change("21:9", (3440, 1440)), (3440, 1440));
    assert_eq!(resolution_after_ratio_change("5:4", (1920, 1080)), (1280, 720));
}
