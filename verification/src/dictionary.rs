//! The dictionary manager: the system dictionary and the user dictionary
//! looked up together, user words first.

use vstd::prelude::*;
use crate::candidate::{cands_view, append_unique, append_with_source, spec_add_unique, spec_with_source, Candidate, CandidateSource, CandidateView};
use crate::error::NukoError;
use crate::system_dict::{spec_dict_lookup, system_spec_dict, SystemDictionary};
use crate::user_dict::{spec_user_lookup, UserDictionary, UserEntryView};

verus! {

/// What a lookup gives: every user candidate (source `User`), then each
/// system candidate (source `System`) whose surface is not there yet.
pub open spec fn spec_manager_lookup(user: Seq<UserEntryView>, reading: Seq<char>) -> Seq<CandidateView> {
    spec_add_unique(
        spec_with_source(spec_user_lookup(user, reading), CandidateSource::User),
        spec_with_source(spec_dict_lookup(system_spec_dict(), reading), CandidateSource::System),
    )
}

/// The system and user dictionaries together.
#[derive(Debug)]
pub struct DictionaryManager {
    system: SystemDictionary,
    user: UserDictionary,
}

impl DictionaryManager {
    /// The user entries.
    pub closed spec fn user_entries(&self) -> Seq<UserEntryView> {
        self.user.entries()
    }

    /// A manager with the system dictionary and an empty user dictionary.
    /// Never fails.
    pub fn new() -> (r: Result<Self, NukoError>)
        ensures
            match r {
                Ok(m) => m.user_entries() == Seq::<UserEntryView>::empty() && m.user_dictionary_path() is None,
                Err(_) => false,
            },
    {
        let system = SystemDictionary::new();
        match system {
            Ok(system) => Ok(DictionaryManager { system, user: UserDictionary::new() }),
            Err(e) => Err(e),
        }
    }

    /// The path of the user dictionary.
    pub closed spec fn user_dictionary_path(&self) -> Option<Seq<char>> {
        self.user.path()
    }

    /// Replaces the user dictionary (with one read from its file).
    pub fn set_user_dictionary(&mut self, user: UserDictionary)
        ensures
            final(self).user_entries() == user.entries(),
            final(self).user_dictionary_path() == user.path(),
    {
        self.user = user;
    }

    /// The candidates for a reading: user words first, then system words with
    /// a new surface. Never fails.
    pub fn lookup(&self, reading: &str) -> (r: Result<Vec<Candidate>, NukoError>)
        ensures
            match r {
                Ok(v) => cands_view(v@) == spec_manager_lookup(self.user_entries(), reading@),
                Err(_) => false,
            },
    {
        let mut out: Vec<Candidate> = Vec::new();
        let user = self.user.lookup(reading);
        append_with_source(&mut out, user, CandidateSource::User);
        proof {
            assert(cands_view(out@) =~= spec_with_source(spec_user_lookup(self.user_entries(), reading@), CandidateSource::User));
        }
        match self.system.lookup(reading) {
            Ok(system) => {
                append_unique(&mut out, system, CandidateSource::System);
                Ok(out)
            },
            Err(e) => Err(e),
        }
    }

    /// The user dictionary.
    pub fn user_dictionary(&self) -> (r: &UserDictionary)
        ensures
            r.entries() == self.user_entries(),
            r.path() == self.user_dictionary_path(),
    {
        &self.user
    }

    /// The user dictionary, for changes.
    pub fn user_dictionary_mut(&mut self) -> (r: &mut UserDictionary)
        ensures
            r.entries() == old(self).user_entries(),
            r.path() == old(self).user_dictionary_path(),
            final(self).user_entries() == final(r).entries(),
            final(self).user_dictionary_path() == final(r).path(),
    {
        &mut self.user
    }

    /// The system dictionary that the manager holds.
    pub closed spec fn system(&self) -> SystemDictionary {
        self.system
    }

    /// The system dictionary (every system dictionary holds the words of
    /// [`system_spec_dict`]).
    pub fn system_dictionary(&self) -> (r: &SystemDictionary)
        ensures
            *r == self.system(),
    {
        &self.system
    }
}

} // verus!
