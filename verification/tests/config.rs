//! Settings and places.

use niri_clip::config::{join, Config, ConfigFile, Dirs};
use niri_clip::store::should_ignore;

fn dirs() -> Dirs {
    Dirs {
        xdg_state_home: None,
        home: Some("/home/u".into()),
        config: Some("/home/u/.config".into()),
        cache: Some("/home/u/.cache".into()),
        temp: "/tmp".into(),
    }
}

#[test]
fn default_config_compiles_ignore_regex() {
    let cfg = Config::default();
    assert_eq!(cfg.max_items, 750);
    assert_eq!(cfg.max_clip_bytes, 1_048_576);
    assert_eq!(cfg.max_image_bytes, 10_485_760);
    assert!(!cfg.enable_image_preview);
    assert!(!cfg.capture_primary);
    assert_eq!(cfg.tui_backend, "auto");
    assert!(cfg.ignore_re.is_some());
    assert!(cfg.ignore_re.as_ref().unwrap().is_match("my PASSWORD"));
    assert!(!cfg.ignore_re.as_ref().unwrap().is_match("hello world"));
}

#[test]
fn load_parses_toml_and_compiles_custom_regex() {
    let file = ConfigFile {
        max_items: Some(42),
        ignore_regex: Some("topsecret".into()),
        ..ConfigFile::empty()
    };
    let cfg = Config::load(Some(file));
    assert_eq!(cfg.max_items, 42);
    assert_eq!(cfg.preview_width, 100);
    assert!(cfg.ignore_re.is_some());
    assert!(cfg.ignore_re.as_ref().unwrap().is_match("topsecret-data"));
    assert!(!cfg.ignore_re.as_ref().unwrap().is_match("password"));
}

#[test]
fn load_invalid_toml_falls_back_to_default() {
    assert_eq!(Config::load(None).max_items, 750);
}

#[test]
fn load_invalid_regex_means_no_filter() {
    let file = ConfigFile { ignore_regex: Some("([unclosed".into()), ..ConfigFile::empty() };
    let cfg = Config::load(Some(file));
    assert!(cfg.ignore_re.is_none());
    assert!(!should_ignore("password", &cfg));
}

#[test]
fn state_dir_respects_xdg_env() {
    let mut d = dirs();
    d.xdg_state_home = Some("/tmp/nc-ut-state".into());
    assert_eq!(Config::state_dir(&d), "/tmp/nc-ut-state/niri-clip");
    assert_eq!(Config::db_path(&d), "/tmp/nc-ut-state/niri-clip/db.sqlite");
    d.xdg_state_home = Some("relative/path".into());
    assert!(!Config::state_dir(&d).starts_with("relative"));
    assert_eq!(Config::state_dir(&d), "/home/u/.local/state/niri-clip");
}

#[test]
fn serde_defaults_match_default_impl() {
    let c = Config::load(Some(ConfigFile::empty()));
    let d = Config::default();
    assert_eq!(c.max_items, d.max_items);
    assert_eq!(c.preview_width, d.preview_width);
    assert_eq!(c.min_store_length, d.min_store_length);
    assert_eq!(c.enable_image_preview, d.enable_image_preview);
    assert_eq!(c.ignore_regex, d.ignore_regex);
    assert_eq!(c.pinned_on_top, d.pinned_on_top);
    assert_eq!(c.tui_backend, d.tui_backend);
    assert_eq!(c.enable_preview, d.enable_preview);
    assert_eq!(c.capture_timeout_secs, d.capture_timeout_secs);
    assert_eq!(c.max_clip_bytes, d.max_clip_bytes);
    assert_eq!(c.max_image_bytes, d.max_image_bytes);
    assert_eq!(c.max_image_total_bytes, d.max_image_total_bytes);
    assert_eq!(c.capture_primary, d.capture_primary);
    assert_eq!(c.notify_enabled, d.notify_enabled);
    assert!(d.ignore_re.is_some());
}

#[test]
fn every_setting_of_the_file_counts() {
    let file = ConfigFile {
        max_items: Some(1),
        preview_width: Some(2),
        min_store_length: Some(3),
        enable_image_preview: Some(true),
        ignore_regex: Some("x".into()),
        pinned_on_top: Some(false),
        tui_backend: Some("fzf".into()),
        enable_preview: Some(false),
        capture_timeout_secs: Some(4),
        max_clip_bytes: Some(5),
        max_image_bytes: Some(6),
        notify_enabled: Some(false),
        max_image_total_bytes: Some(7),
        capture_primary: Some(true),
    };
    let c = Config::load(Some(file));
    assert_eq!((c.max_items, c.preview_width, c.min_store_length), (1, 2, 3));
    assert_eq!((c.max_clip_bytes, c.max_image_bytes, c.max_image_total_bytes), (5, 6, 7));
    assert_eq!(c.capture_timeout_secs, 4);
    assert_eq!(c.tui_backend, "fzf");
    assert!(c.enable_image_preview && c.capture_primary);
    assert!(!c.pinned_on_top && !c.enable_preview && !c.notify_enabled);
}

#[test]
fn places_follow_the_directories() {
    let mut d = dirs();
    assert_eq!(Config::path(&d), "/home/u/.config/niri-clip/config.toml");
    assert_eq!(Config::images_dir(&d), "/home/u/.local/state/niri-clip/images");
    assert_eq!(Config::legacy_db_path(&d), "/home/u/.cache/niri-clip/db.sqlite");
    assert_eq!(
        Config::ensure_dirs(&d),
        vec!["/home/u/.config/niri-clip", "/home/u/.local/state/niri-clip"]
    );
    d.cache = None;
    assert_eq!(Config::legacy_db_path(&d), "/tmp/niri-clip/db.sqlite");
    assert_eq!(join("/a/", "b"), "/a/b");
    assert_eq!(join("/a", "b"), "/a/b");
    assert_eq!(join("", "b"), "b");
}

#[test]
fn the_default_filter_knows_password_managers() {
    let cfg = Config::default();
    for t in [
        "op://vault/item/field",
        "see OP://vault/item",
        "bitwarden://item",
        "otpauth://totp/x?secret=y",
        "otpauth-migration://offline?data=z",
        "{REF:P@I:46C9B1FF}",
        "{TOTP}",
        "{TIMEOTP}",
        "mytokens",
        "oauth",
    ] {
        assert!(should_ignore(t, &cfg), "{t}");
    }
    for t in [
        "shop://x",
        "https://op.example/vault",
        "https://bitwarden.com/help",
        "xbitwarden://item",
        "REF: 12",
        "op:/vault",
    ] {
        assert!(!should_ignore(t, &cfg), "{t}");
    }
}
