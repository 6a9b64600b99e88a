use cosmic_toys::paths::{
    autostart_dir, config_home, entry_path, history_path, join, legacy_autostart_entry,
    legacy_settings_dir, settings_dir, shortcuts_path, socket_path,
};

#[test]
fn config_home_prefers_xdg() {
    assert_eq!(config_home(Some("/x"), Some("/home/u")), "/x");
    assert_eq!(config_home(None, Some("/home/u")), "/home/u/.config");
    assert_eq!(config_home(None, Some("/home/u/")), "/home/u/.config");
    assert_eq!(config_home(None, None), ".config");
}

#[test]
fn join_follows_path_rules() {
    assert_eq!(join(&"/a".to_string(), "b"), "/a/b");
    assert_eq!(join(&"/a/".to_string(), "b"), "/a/b");
    assert_eq!(join(&"".to_string(), "b"), "b");
    assert_eq!(join(&"/a".to_string(), "/abs"), "/abs");
}

#[test]
fn tool_box_paths() {
    let x = Some("/cfg");
    assert_eq!(settings_dir(x, None), "/cfg/cosmic/com.pyxyll.CosmicToys/v1");
    assert_eq!(history_path(x, None), "/cfg/cosmic/com.pyxyll.CosmicToys/v1/history");
    assert_eq!(legacy_settings_dir(x, None), "/cfg/cosmic/com.pyxyll.CosmicColorPicker/v1");
    assert_eq!(legacy_autostart_entry(x, None), "/cfg/autostart/com.pyxyll.CosmicColorPicker.desktop");
    assert_eq!(autostart_dir(x, None), "/cfg/autostart");
    assert_eq!(entry_path(x, None), "/cfg/autostart/com.pyxyll.CosmicToys.desktop");
    assert_eq!(
        shortcuts_path(None, Some("/home/u")),
        "/home/u/.config/cosmic/com.system76.CosmicSettings.Shortcuts/v1/custom"
    );
}

#[test]
fn socket_lives_in_runtime_dir() {
    assert_eq!(socket_path(Some("/run/user/1000")), "/run/user/1000/cosmic-toysd.sock");
    assert_eq!(socket_path(None), "/tmp/cosmic-toysd.sock");
}
