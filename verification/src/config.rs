//! Settings of the input method. Where the data directory is, and reading
//! and writing the settings file, are the platform's part.

use vstd::prelude::*;
use crate::text::append_str;

verus! {

/// How kana are typed.
#[derive(Debug, Clone, Copy, PartialEq, Eq, Structural)]
pub enum InputMode {
    /// Romaji input.
    Romaji,
    /// Kana input.
    Kana,
}

/// General settings.
#[derive(Debug, Clone, Copy, PartialEq, Eq, Structural)]
pub struct GeneralConfig {
    /// Whether prediction is on.
    pub enable_prediction: bool,
    /// Number of candidates shown.
    pub candidate_count: usize,
    /// Whether learning is on.
    pub learning_enabled: bool,
    /// Input mode.
    pub input_mode: InputMode,
}

impl Default for GeneralConfig {
    fn default() -> (r: Self)
        ensures
            r == (GeneralConfig { enable_prediction: true, candidate_count: 9, learning_enabled: true, input_mode: InputMode::Romaji }),
    {
        GeneralConfig { enable_prediction: true, candidate_count: 9, learning_enabled: true, input_mode: InputMode::Romaji }
    }
}

/// Dictionary settings.
#[derive(Debug, Clone)]
pub struct DictionaryConfig {
    /// Kind of system dictionary.
    pub system_dict: String,
    /// Path of the user dictionary.
    pub user_dict_path: String,
    /// Path of the learned data.
    pub learning_data_path: String,
}

/// `dir` joined with the relative file name `name`: a `/` between them
/// unless `dir` is empty or already ends with one.
pub open spec fn spec_join(dir: Seq<char>, name: Seq<char>) -> Seq<char> {
    if dir.len() == 0 || dir.last() == '/' {
        dir + name
    } else {
        dir + seq!['/'] + name
    }
}

/// Joins a directory and a relative file name (see [`spec_join`]).
pub fn join_path(dir: &str, name: &str) -> (r: String)
    ensures
        r@ == spec_join(dir@, name@),
{
    let mut r = String::new();
    append_str(&mut r, dir);
    let n = dir.unicode_len();
    if n > 0 && dir.get_char(n - 1) != '/' {
        r.push('/');
    }
    append_str(&mut r, name);
    r
}

impl DictionaryConfig {
    /// The default dictionary settings for the data directory `data_dir`:
    /// the `ipadic` system dictionary, `user.dict` and `learning.json` in it.
    pub fn default_in(data_dir: &str) -> (r: Self)
        ensures
            r.system_dict@ == "ipadic"@,
            r.user_dict_path@ == spec_join(data_dir@, "user.dict"@),
            r.learning_data_path@ == spec_join(data_dir@, "learning.json"@),
    {
        DictionaryConfig {
            system_dict: "ipadic".to_string(),
            user_dict_path: join_path(data_dir, "user.dict"),
            learning_data_path: join_path(data_dir, "learning.json"),
        }
    }
}

/// The theme setting.
#[derive(Debug, Clone, Copy, PartialEq, Eq, Structural)]
pub enum Theme {
    /// Follow the system.
    System,
    /// Light.
    Light,
    /// Dark.
    Dark,
}

/// Where the candidate window is placed.
#[derive(Debug, Clone, Copy, PartialEq, Eq, Structural)]
pub enum CandidatePosition {
    /// At the cursor.
    Cursor,
    /// At the bottom of the screen.
    Bottom,
    /// At a given position.
    Custom {
        /// Horizontal position.
        x: i32,
        /// Vertical position.
        y: i32,
    },
}

/// The bits of the `f32` 0.95, the default opacity.
pub const DEFAULT_TRANSPARENCY_BITS: u32 = 0x3F73_3333;

/// Appearance settings.
#[derive(Debug, Clone, Copy, PartialEq, Eq, Structural)]
pub struct UiConfig {
    /// Theme.
    pub theme: Theme,
    /// Font size.
    pub font_size: u32,
    /// Opacity of the candidate window, 0.0 to 1.0, kept as the bits of an
    /// `f32` (the settings only carry it; drawing reads it).
    pub transparency_bits: u32,
    /// Where the candidate window is placed.
    pub candidate_position: CandidatePosition,
}

impl Default for UiConfig {
    fn default() -> (r: Self)
        ensures
            r == (UiConfig {
                theme: Theme::System,
                font_size: 14,
                transparency_bits: DEFAULT_TRANSPARENCY_BITS,
                candidate_position: CandidatePosition::Cursor,
            }),
    {
        UiConfig {
            theme: Theme::System,
            font_size: 14,
            transparency_bits: DEFAULT_TRANSPARENCY_BITS,
            candidate_position: CandidatePosition::Cursor,
        }
    }
}

/// Privacy settings.
#[derive(Debug, Clone, Copy, PartialEq, Eq, Structural)]
pub struct PrivacyConfig {
    /// Whether anonymous statistics are sent.
    pub send_statistics: bool,
}

impl Default for PrivacyConfig {
    fn default() -> (r: Self)
        ensures
            r == (PrivacyConfig { send_statistics: false }),
    {
        PrivacyConfig { send_statistics: false }
    }
}

/// All settings.
#[derive(Debug, Clone)]
pub struct Config {
    /// General settings.
    pub general: GeneralConfig,
    /// Dictionary settings.
    pub dictionary: DictionaryConfig,
    /// Appearance settings.
    pub ui: UiConfig,
    /// Privacy settings.
    pub privacy: PrivacyConfig,
}

impl Config {
    /// The default settings, with the dictionary files in `data_dir`.
    pub fn default_in(data_dir: &str) -> (r: Self)
        ensures
            r.general == (GeneralConfig { enable_prediction: true, candidate_count: 9, learning_enabled: true, input_mode: InputMode::Romaji }),
            r.dictionary.system_dict@ == "ipadic"@,
            r.dictionary.user_dict_path@ == spec_join(data_dir@, "user.dict"@),
            r.dictionary.learning_data_path@ == spec_join(data_dir@, "learning.json"@),
            r.ui == (UiConfig {
                theme: Theme::System,
                font_size: 14,
                transparency_bits: DEFAULT_TRANSPARENCY_BITS,
                candidate_position: CandidatePosition::Cursor,
            }),
            r.privacy == (PrivacyConfig { send_statistics: false }),
    {
        Config {
            general: GeneralConfig::default(),
            dictionary: DictionaryConfig::default_in(data_dir),
            ui: UiConfig::default(),
            privacy: PrivacyConfig::default(),
        }
    }
}

} // verus!
