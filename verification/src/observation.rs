//! Observation events: what the user committed or corrected, the only input
//! of correction learning. The log is opt-in: a disabled log records nothing.
//!
//! Writing and reading the log file is left to the caller, which asks
//! [`ObservationLog::record_target`] whether and where to write.

use vstd::prelude::*;
use crate::candidate::opt_str_view;
use crate::clock::current_timestamp;

verus! {

/// An observed event.
#[derive(Debug, Clone)]
pub enum ObservationEvent {
    /// A conversion was committed.
    Commit {
        /// Seconds since the Unix epoch.
        ts: u64,
        /// Reading (kana).
        reading: String,
        /// Committed surface.
        surface: String,
        /// Candidates that were shown (may be empty).
        candidates: Vec<String>,
        /// Index of the committed candidate.
        picked: Option<usize>,
    },
    /// A committed text was corrected right after.
    Correction {
        /// Seconds since the Unix epoch.
        ts: u64,
        /// Reading (kana).
        reading: String,
        /// Surface that was first committed.
        emitted: String,
        /// Surface after the correction.
        corrected: String,
    },
}

impl ObservationEvent {
    /// A commit event at time `ts`, without candidates.
    pub fn commit_at(reading: &str, surface: &str, ts: u64) -> (r: Self)
        ensures
            r matches ObservationEvent::Commit { ts: t, reading: rd, surface: sf, candidates: cs, picked: p }
                && t == ts && rd@ == reading@ && sf@ == surface@ && cs@.len() == 0 && p is None,
    {
        ObservationEvent::Commit {
            ts,
            reading: reading.to_string(),
            surface: surface.to_string(),
            candidates: Vec::new(),
            picked: None,
        }
    }

    /// A commit event now, without candidates.
    pub fn commit(reading: &str, surface: &str) -> (r: Self)
        ensures
            r matches ObservationEvent::Commit { reading: rd, surface: sf, candidates: cs, picked: p, .. }
                && rd@ == reading@ && sf@ == surface@ && cs@.len() == 0 && p is None,
    {
        Self::commit_at(reading, surface, current_timestamp())
    }

    /// A commit event now, with the candidates that were shown.
    pub fn commit_with_candidates(reading: &str, surface: &str, candidates: Vec<String>, picked: Option<usize>) -> (r: Self)
        ensures
            r matches ObservationEvent::Commit { reading: rd, surface: sf, candidates: cs, picked: p, .. }
                && rd@ == reading@ && sf@ == surface@ && cs@ == candidates@ && p == picked,
    {
        ObservationEvent::Commit {
            ts: current_timestamp(),
            reading: reading.to_string(),
            surface: surface.to_string(),
            candidates,
            picked,
        }
    }

    /// A correction event at time `ts`.
    pub fn correction_at(reading: &str, emitted: &str, corrected: &str, ts: u64) -> (r: Self)
        ensures
            r matches ObservationEvent::Correction { ts: t, reading: rd, emitted: em, corrected: co }
                && t == ts && rd@ == reading@ && em@ == emitted@ && co@ == corrected@,
    {
        ObservationEvent::Correction {
            ts,
            reading: reading.to_string(),
            emitted: emitted.to_string(),
            corrected: corrected.to_string(),
        }
    }

    /// A correction event now.
    pub fn correction(reading: &str, emitted: &str, corrected: &str) -> (r: Self)
        ensures
            r matches ObservationEvent::Correction { reading: rd, emitted: em, corrected: co, .. }
                && rd@ == reading@ && em@ == emitted@ && co@ == corrected@,
    {
        Self::correction_at(reading, emitted, corrected, current_timestamp())
    }
}

/// The observation log: whether it records, and where.
#[derive(Debug)]
pub struct ObservationLog {
    enabled: bool,
    path: Option<String>,
}

impl ObservationLog {
    /// Whether the user opted in.
    pub closed spec fn enabled(&self) -> bool {
        self.enabled
    }

    /// The log file.
    pub closed spec fn path(&self) -> Option<Seq<char>> {
        opt_str_view(self.path)
    }

    /// A log writing to `path` when `enabled`.
    pub fn new(enabled: bool, path: &str) -> (r: Self)
        ensures
            r.enabled() == enabled,
            r.path() == Some(path@),
    {
        ObservationLog { enabled, path: Some(path.to_string()) }
    }

    /// A log that never records and has no file.
    pub fn disabled() -> (r: Self)
        ensures
            !r.enabled(),
            r.path() is None,
    {
        ObservationLog { enabled: false, path: None }
    }

    /// Whether events are recorded: opted in and a file is set.
    pub fn is_enabled(&self) -> (r: bool)
        ensures
            r == (self.enabled() && self.path() is Some),
    {
        self.enabled && self.path.is_some()
    }

    /// Where to append an event: the file when the log records, and nothing
    /// (so that not a byte is written) otherwise.
    pub fn record_target(&self) -> (r: Option<String>)
        ensures
            match r {
                Some(p) => self.enabled() && self.path() == Some(p@),
                None => !self.enabled() || self.path() is None,
            },
    {
        if !self.enabled {
            return None;
        }
        match &self.path {
            Some(p) => Some(p.clone()),
            None => None,
        }
    }

    /// The file to read or clear, whether or not the log records.
    pub fn file(&self) -> (r: Option<String>)
        ensures
            opt_str_view(r) == self.path(),
    {
        match &self.path {
            Some(p) => Some(p.clone()),
            None => None,
        }
    }
}

} // verus!
