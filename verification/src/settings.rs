//! The state of the settings screen: the settings being edited, whether
//! they changed since they were last saved, the open tab and the theme.

use vstd::prelude::*;
use crate::candidate_window::Theme;
use crate::config::{
    spec_join, CandidatePosition, Config, GeneralConfig, InputMode, PrivacyConfig, Theme as ConfigTheme, UiConfig,
    DEFAULT_TRANSPARENCY_BITS,
};

verus! {

/// A tab of the settings screen.
#[derive(Debug, Clone, Copy, PartialEq, Eq, Structural)]
pub enum SettingsTab {
    /// General settings.
    General,
    /// Dictionary settings.
    Dictionary,
    /// Appearance.
    Appearance,
    /// Privacy.
    Privacy,
    /// About.
    About,
}

/// `v` clamped to `lo..=hi`.
pub open spec fn spec_clamp(v: int, lo: int, hi: int) -> int {
    if v < lo {
        lo
    } else if v > hi {
        hi
    } else {
        v
    }
}

/// The settings screen.
#[derive(Debug, Clone)]
pub struct SettingsApp {
    config: Config,
    dirty: bool,
    current_tab: SettingsTab,
    theme: Theme,
}

impl SettingsApp {
    /// The settings being edited.
    pub closed spec fn settings(&self) -> Config {
        self.config
    }

    /// Whether the settings changed since they were last saved.
    pub closed spec fn changed(&self) -> bool {
        self.dirty
    }

    /// The open tab.
    pub closed spec fn tab(&self) -> SettingsTab {
        self.current_tab
    }

    /// The theme of the screen.
    pub closed spec fn screen_theme(&self) -> Theme {
        self.theme
    }

    /// A settings screen for `config`: unchanged, on the general tab, light.
    pub fn new(config: Config) -> (r: Self)
        ensures
            r.settings() == config,
            !r.changed(),
            r.tab() == SettingsTab::General,
            r.screen_theme() == Theme::Light,
    {
        SettingsApp { config, dirty: false, current_tab: SettingsTab::General, theme: Theme::Light }
    }

    /// A settings screen for the default settings, with the dictionary files
    /// in `data_dir`.
    pub fn with_default_config(data_dir: &str) -> (r: Self)
        ensures
            r.settings().general == (GeneralConfig {
                enable_prediction: true,
                candidate_count: 9,
                learning_enabled: true,
                input_mode: InputMode::Romaji,
            }),
            r.settings().ui == (UiConfig {
                theme: ConfigTheme::System,
                font_size: 14,
                transparency_bits: DEFAULT_TRANSPARENCY_BITS,
                candidate_position: CandidatePosition::Cursor,
            }),
            r.settings().privacy == (PrivacyConfig { send_statistics: false }),
            r.settings().dictionary.user_dict_path@ == spec_join(data_dir@, "user.dict"@),
            r.settings().dictionary.learning_data_path@ == spec_join(data_dir@, "learning.json"@),
            r.settings().dictionary.system_dict@ == "ipadic"@,
            !r.changed(),
            r.tab() == SettingsTab::General,
            r.screen_theme() == Theme::Light,
    {
        SettingsApp::new(Config::default_in(data_dir))
    }

    /// The settings being edited.
    pub fn config(&self) -> (r: &Config)
        ensures
            *r == self.settings(),
    {
        &self.config
    }

    /// Replaces the settings; they now differ from the saved ones.
    pub fn set_config(&mut self, config: Config)
        ensures
            final(self).settings() == config,
            final(self).changed(),
            final(self).tab() == old(self).tab(),
            final(self).screen_theme() == old(self).screen_theme(),
    {
        self.config = config;
        self.dirty = true;
    }

    /// Whether the settings changed since they were last saved.
    pub fn is_dirty(&self) -> (r: bool)
        ensures
            r == self.changed(),
    {
        self.dirty
    }

    /// Marks the settings as saved.
    pub fn clear_dirty(&mut self)
        ensures
            final(self).settings() == old(self).settings(),
            !final(self).changed(),
            final(self).tab() == old(self).tab(),
            final(self).screen_theme() == old(self).screen_theme(),
    {
        self.dirty = false;
    }

    /// The open tab.
    pub fn current_tab(&self) -> (r: SettingsTab)
        ensures
            r == self.tab(),
    {
        self.current_tab
    }

    /// Opens a tab.
    pub fn set_tab(&mut self, tab: SettingsTab)
        ensures
            final(self).tab() == tab,
            final(self).settings() == old(self).settings(),
            final(self).changed() == old(self).changed(),
            final(self).screen_theme() == old(self).screen_theme(),
    {
        self.current_tab = tab;
    }

    /// Sets the theme of the screen.
    pub fn set_theme(&mut self, theme: Theme)
        ensures
            final(self).screen_theme() == theme,
            final(self).settings() == old(self).settings(),
            final(self).changed() == old(self).changed(),
            final(self).tab() == old(self).tab(),
    {
        self.theme = theme;
    }

    /// The theme of the screen.
    pub fn theme(&self) -> (r: Theme)
        ensures
            r == self.screen_theme(),
    {
        self.theme
    }

    /// Turns prediction on or off.
    pub fn toggle_prediction(&mut self)
        ensures
            final(self).settings() == (Config {
                general: GeneralConfig { enable_prediction: !old(self).settings().general.enable_prediction, ..old(self).settings().general },
                ..old(self).settings()
            }),
            final(self).changed(),
            final(self).tab() == old(self).tab(),
            final(self).screen_theme() == old(self).screen_theme(),
    {
        self.config.general.enable_prediction = !self.config.general.enable_prediction;
        self.dirty = true;
    }

    /// Turns learning on or off.
    pub fn toggle_learning(&mut self)
        ensures
            final(self).settings() == (Config {
                general: GeneralConfig { learning_enabled: !old(self).settings().general.learning_enabled, ..old(self).settings().general },
                ..old(self).settings()
            }),
            final(self).changed(),
            final(self).tab() == old(self).tab(),
            final(self).screen_theme() == old(self).screen_theme(),
    {
        self.config.general.learning_enabled = !self.config.general.learning_enabled;
        self.dirty = true;
    }

    /// Sets the number of candidates, clamped to 1 to 20.
    pub fn set_candidate_count(&mut self, count: usize)
        ensures
            final(self).settings() == (Config {
                general: GeneralConfig { candidate_count: spec_clamp(count as int, 1, 20) as usize, ..old(self).settings().general },
                ..old(self).settings()
            }),
            final(self).changed(),
            final(self).tab() == old(self).tab(),
            final(self).screen_theme() == old(self).screen_theme(),
    {
        let c: usize = if count < 1 {
            1
        } else if count > 20 {
            20
        } else {
            count
        };
        self.config.general.candidate_count = c;
        self.dirty = true;
    }

    /// Sets the font size, clamped to 8 to 32.
    pub fn set_font_size(&mut self, size: u32)
        ensures
            final(self).settings() == (Config {
                ui: UiConfig { font_size: spec_clamp(size as int, 8, 32) as u32, ..old(self).settings().ui },
                ..old(self).settings()
            }),
            final(self).changed(),
            final(self).tab() == old(self).tab(),
            final(self).screen_theme() == old(self).screen_theme(),
    {
        let s: u32 = if size < 8 {
            8
        } else if size > 32 {
            32
        } else {
            size
        };
        self.config.ui.font_size = s;
        self.dirty = true;
    }

    /// Turns sending anonymous statistics on or off.
    pub fn toggle_statistics(&mut self)
        ensures
            final(self).settings() == (Config {
                privacy: PrivacyConfig { send_statistics: !old(self).settings().privacy.send_statistics },
                ..old(self).settings()
            }),
            final(self).changed(),
            final(self).tab() == old(self).tab(),
            final(self).screen_theme() == old(self).screen_theme(),
    {
        self.config.privacy.send_statistics = !self.config.privacy.send_statistics;
        self.dirty = true;
    }
}

} // verus!
