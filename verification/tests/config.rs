use epochoxide::config::{expand, home_directory, known_home, Config, FileIndex, PartialConfig, Surroundings};
use epochoxide::keyed::TextMap;

fn surroundings() -> Surroundings {
    Surroundings {
        home: Some("/home/me".to_string()),
        tilde: Some("/home/me".to_string()),
        cache_dir: Some("/home/me/.cache".to_string()),
        temp_dir: "/tmp".to_string(),
        config_dir: Some("/home/me/.config".to_string()),
        editor: None,
        runtime_dir: Some("/run/user/1000".to_string()),
    }
}

fn nothing() -> PartialConfig {
    PartialConfig {
        socket: None,
        file_roots: None,
        ignored_dirs: None,
        menus_dir: None,
        launch_prefix: None,
        terminal_cmd: None,
        clipboard_max_items: None,
        clipboard_image_dir: None,
        clipboard_text_editor: None,
        clipboard_image_editor: None,
        clipboard_ocr: None,
        localsend_receive: None,
        localsend_download_dir: None,
        localsend_alias: None,
        screenshot_dir: None,
        screenshot_filename: None,
        screenshot_copy: None,
        screenshot_save: None,
        screenshot_notify: None,
        ocr_language: None,
        recording_dir: None,
        recording_filename: None,
        recording_notify: None,
        recording_framerate: None,
        nix_flake: None,
        nix_check_interval_minutes: None,
        nix_update_command: None,
        nix_rebuild_command: None,
        nix_hosts: None,
        night_light_temperature: None,
        nix_notify: None,
        clipboard_capture_interval_ms: None,
        runner_scan_path: None,
        runner_commands: None,
        provider_enabled: None,
        provider_weights: None,
        query_prefixes: None,
        icon_theme: None,
        icon_cache_dir: None,
        thumbnail_cache_enabled: None,
        persistent_index: None,
        file_index: None,
    }
}

#[test]
fn defaults_depend_on_the_surroundings() {
    let config = Config::load(&surroundings(), None);
    assert_eq!(config.socket, "/run/user/1000/epochoxide.sock");
    assert_eq!(config.file_roots, vec!["/home/me"]);
    assert_eq!(config.menus_dir, "/home/me/.config/epochoxide/menus");
    assert_eq!(config.clipboard_text_editor, "xdg-open");
    assert_eq!(config.icon_cache_dir, "/home/me/.cache/epochoxide/icons");
    assert_eq!(config.ignored_dirs[0], "/home/me/.cache");
    assert_eq!(config.provider_weights.get("apps"), Some(&20_000));
    assert_eq!(config.query_prefixes.get(">").map(String::as_str), Some("runner"));
    assert_eq!(config.file_index, FileIndex::Auto);
    let bare = Config::defaults(&Surroundings {
        home: None,
        tilde: None,
        cache_dir: None,
        temp_dir: "/tmp".to_string(),
        config_dir: None,
        editor: Some("vi".to_string()),
        runtime_dir: None,
    });
    assert_eq!(bare.socket, "/tmp/epochoxide.sock");
    assert_eq!(bare.file_roots, vec!["/"]);
    assert_eq!(bare.screenshot_dir, "/Pictures/Screenshots");
    assert_eq!(bare.clipboard_image_dir, "/tmp/epochoxide/clipboard/images");
    assert_eq!(bare.clipboard_text_editor, "vi");
}

#[test]
fn a_file_overrides_what_it_holds_and_extends_the_maps() {
    let mut partial = nothing();
    partial.clipboard_max_items = Some(7);
    partial.nix_flake = Some("/etc/nixos".to_string());
    partial.file_index = Some(FileIndex::Never);
    let mut enabled = TextMap::new();
    enabled.insert("calc".to_string(), false);
    enabled.insert("keybinds".to_string(), true);
    partial.provider_enabled = Some(enabled);
    let config = Config::load(&surroundings(), Some(partial));
    assert_eq!(config.clipboard_max_items, 7);
    assert_eq!(config.nix_flake, "/etc/nixos");
    assert_eq!(config.file_index, FileIndex::Never);
    assert_eq!(config.provider_enabled.get("calc"), Some(&false));
    assert_eq!(config.provider_enabled.get("keybinds"), Some(&true));
    assert_eq!(config.provider_enabled.get("apps"), Some(&true));
    assert_eq!(config.screenshot_filename, "screenshot-%Y%m%d-%H%M%S.png");
}

#[test]
fn an_empty_file_changes_nothing() {
    let plain = Config::defaults(&surroundings());
    let merged = Config::defaults(&surroundings()).merged(nothing());
    assert_eq!(plain.socket, merged.socket);
    assert_eq!(plain.recording_framerate, merged.recording_framerate);
    assert_eq!(merged.provider_enabled.entries.len(), 7);
}

#[test]
fn a_tilde_is_expanded_only_at_the_start() {
    assert_eq!(expand("/a/~/b"), "/a/~/b");
    assert_eq!(expand("~someone/b"), "~someone/b");
    let home = dirs::home_dir().map(|p| p.display().to_string());
    if let Some(home) = home {
        assert_eq!(expand("~/b"), format!("{home}/b"));
        assert_eq!(expand("~"), home);
        assert_eq!(home_directory(), Some(home));
    }
    assert_eq!(known_home("/home/me".to_string()).as_deref(), Some("/home/me"));
    assert_eq!(known_home("~".to_string()), None);
    let mut partial = nothing();
    partial.menus_dir = Some("~/menus".to_string());
    let config = Config::load(&surroundings(), Some(partial));
    assert_eq!(config.menus_dir, "/home/me/menus");
}

#[test]
fn every_path_is_expanded_in_the_home_directory() {
    let tilde = || {
        let mut config = Config::defaults(&surroundings());
        config.file_roots = vec!["~".into(), "~/docs".into(), "/srv/~".into()];
        config.ignored_dirs = vec!["~/x".into(), "target".into()];
        config.menus_dir = "~/menus".into();
        config.clipboard_image_dir = "~/clips".into();
        config.screenshot_dir = "~/shots".into();
        config.recording_dir = "~/videos".into();
        config.nix_flake = "~other/flake".into();
        config.icon_cache_dir = "~/icons".into();
        config.terminal_cmd = "~/term".into();
        config
    };
    let config = tilde().expand_paths(Some("/h"));
    assert_eq!(config.file_roots, vec!["/h", "/h/docs", "/srv/~"]);
    assert_eq!(config.ignored_dirs, vec!["/h/x", "target"]);
    assert_eq!(config.menus_dir, "/h/menus");
    assert_eq!(config.clipboard_image_dir, "/h/clips");
    assert_eq!(config.screenshot_dir, "/h/shots");
    assert_eq!(config.recording_dir, "/h/videos");
    assert_eq!(config.nix_flake, "~other/flake");
    assert_eq!(config.icon_cache_dir, "/h/icons");
    assert_eq!(config.terminal_cmd, "~/term");
    let unknown = tilde().expand_paths(None);
    assert_eq!(unknown.file_roots, vec!["~", "~/docs", "/srv/~"]);
    assert_eq!(unknown.menus_dir, "~/menus");
}

#[test]
fn the_file_is_the_given_one_or_in_the_directory_for_settings() {
    assert_eq!(Config::resolved_path(Some("/x"), Some("/c")).as_deref(), Some("/x"));
    assert_eq!(
        Config::resolved_path(None, Some("/c")).as_deref(),
        Some("/c/epochoxide/config.toml")
    );
    assert!(Config::resolved_path(None, None).is_none());
}
