use nuko::candidate_window::Theme;
use nuko::config::{join_path, CandidatePosition, Config, InputMode, Theme as ConfigTheme, DEFAULT_TRANSPARENCY_BITS};
use nuko::settings::{SettingsApp, SettingsTab};

const DATA_DIR: &str = "/Users/nuko/Library/Application Support/nuko-ime";

#[test]
fn test_settings_app() {
    let mut app = SettingsApp::with_default_config(DATA_DIR);
    assert!(!app.is_dirty());

    app.toggle_prediction();
    assert!(app.is_dirty());
    assert!(!app.config().general.enable_prediction);

    app.clear_dirty();
    assert!(!app.is_dirty());
}

#[test]
fn test_tabs() {
    let mut app = SettingsApp::with_default_config(DATA_DIR);
    assert_eq!(app.current_tab(), SettingsTab::General);

    app.set_tab(SettingsTab::Dictionary);
    assert_eq!(app.current_tab(), SettingsTab::Dictionary);
}

#[test]
fn default_config_values() {
    let c = Config::default_in(DATA_DIR);
    assert!(c.general.enable_prediction);
    assert_eq!(c.general.candidate_count, 9);
    assert!(c.general.learning_enabled);
    assert_eq!(c.general.input_mode, InputMode::Romaji);
    assert_eq!(c.dictionary.system_dict, "ipadic");
    assert_eq!(c.dictionary.user_dict_path, format!("{DATA_DIR}/user.dict"));
    assert_eq!(c.dictionary.learning_data_path, format!("{DATA_DIR}/learning.json"));
    assert_eq!(c.ui.theme, ConfigTheme::System);
    assert_eq!(c.ui.font_size, 14);
    assert_eq!(c.ui.transparency_bits, DEFAULT_TRANSPARENCY_BITS);
    assert_eq!(f32::from_bits(c.ui.transparency_bits), 0.95f32);
    assert_eq!(c.ui.candidate_position, CandidatePosition::Cursor);
    assert!(!c.privacy.send_statistics);
}

#[test]
fn join_adds_one_separator() {
    assert_eq!(join_path("/a/b", "c.toml"), "/a/b/c.toml");
    assert_eq!(join_path("/a/b/", "c.toml"), "/a/b/c.toml");
    assert_eq!(join_path("", "c.toml"), "c.toml");
}

#[test]
fn counts_and_sizes_are_clamped() {
    let mut app = SettingsApp::with_default_config(DATA_DIR);
    app.set_candidate_count(0);
    assert_eq!(app.config().general.candidate_count, 1);
    app.set_candidate_count(50);
    assert_eq!(app.config().general.candidate_count, 20);
    app.set_candidate_count(7);
    assert_eq!(app.config().general.candidate_count, 7);
    app.set_font_size(2);
    assert_eq!(app.config().ui.font_size, 8);
    app.set_font_size(100);
    assert_eq!(app.config().ui.font_size, 32);
    app.set_font_size(18);
    assert_eq!(app.config().ui.font_size, 18);
    assert!(app.is_dirty());
}

#[test]
fn toggles_flip_one_setting_each() {
    let mut app = SettingsApp::new(Config::default_in(""));
    assert_eq!(app.theme(), Theme::Light);
    app.toggle_learning();
    assert!(!app.config().general.learning_enabled);
    assert!(app.config().general.enable_prediction);
    app.toggle_statistics();
    assert!(app.config().privacy.send_statistics);
    app.toggle_statistics();
    assert!(!app.config().privacy.send_statistics);
    app.set_theme(Theme::Dark);
    assert_eq!(app.theme(), Theme::Dark);
    app.clear_dirty();
    let mut other = Config::default_in("");
    other.general.candidate_count = 5;
    app.set_config(other);
    assert!(app.is_dirty());
    assert_eq!(app.config().general.candidate_count, 5);
    assert_eq!(app.config().dictionary.user_dict_path, "user.dict");
}
