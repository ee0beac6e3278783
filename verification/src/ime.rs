//! The input method as the platform registers it with the system: the
//! conversion engine, the settings, and whether it is registered. Talking to
//! the system's input method framework is the platform's part.

use vstd::prelude::*;
use crate::config::Config;
use crate::engine::ConversionEngine;
use crate::error::PlatformError;
use crate::frequency::FrequencyView;
use crate::user_dict::UserEntryView;

verus! {

/// The input method.
pub struct NukoIME {
    engine: ConversionEngine,
    config: Config,
    registered: bool,
}

impl NukoIME {
    /// The settings.
    pub closed spec fn settings(&self) -> Config {
        self.config
    }

    /// The conversion engine.
    pub closed spec fn conversion_engine(&self) -> ConversionEngine {
        self.engine
    }

    /// Whether the input method is registered with the system.
    pub closed spec fn is_registered(&self) -> bool {
        self.registered
    }

    /// An input method with a fresh engine and `config` (the platform reads
    /// it from the settings file, or takes the defaults); not registered.
    /// Never fails.
    pub fn new(config: Config) -> (r: Result<Self, PlatformError>)
        ensures
            match r {
                Ok(ime) => {
                    &&& ime.settings() == config
                    &&& !ime.is_registered()
                    &&& ime.conversion_engine().learned() == Seq::<FrequencyView>::empty()
                    &&& ime.conversion_engine().user_entries() == Seq::<UserEntryView>::empty()
                },
                Err(_) => false,
            },
    {
        let engine = match ConversionEngine::new() {
            Ok(e) => e,
            Err(e) => return Err(PlatformError::Core(e)),
        };
        Ok(NukoIME { engine, config, registered: false })
    }

    /// Registers the input method (nothing to do when it already is).
    pub fn register(&mut self) -> (r: Result<(), PlatformError>)
        ensures
            r is Ok,
            final(self).is_registered(),
            final(self).settings() == old(self).settings(),
            final(self).conversion_engine() == old(self).conversion_engine(),
    {
        if self.registered {
            return Ok(());
        }
        self.registered = true;
        Ok(())
    }

    /// Unregisters the input method (nothing to do when it is not
    /// registered).
    pub fn unregister(&mut self) -> (r: Result<(), PlatformError>)
        ensures
            r is Ok,
            !final(self).is_registered(),
            final(self).settings() == old(self).settings(),
            final(self).conversion_engine() == old(self).conversion_engine(),
    {
        if !self.registered {
            return Ok(());
        }
        self.registered = false;
        Ok(())
    }

    /// The settings.
    pub fn config(&self) -> (r: &Config)
        ensures
            *r == self.settings(),
    {
        &self.config
    }

    /// Replaces the settings.
    pub fn set_config(&mut self, config: Config)
        ensures
            final(self).settings() == config,
            final(self).conversion_engine() == old(self).conversion_engine(),
            final(self).is_registered() == old(self).is_registered(),
    {
        self.config = config;
    }

    /// The conversion engine.
    pub fn engine(&self) -> (r: &ConversionEngine)
        ensures
            *r == self.conversion_engine(),
    {
        &self.engine
    }

    /// The conversion engine, for changes.
    pub fn engine_mut(&mut self) -> (r: &mut ConversionEngine)
        ensures
            *r == old(self).conversion_engine(),
            final(self).conversion_engine() == *final(r),
            final(self).settings() == old(self).settings(),
            final(self).is_registered() == old(self).is_registered(),
    {
        &mut self.engine
    }
}

} // verus!
