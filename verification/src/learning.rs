//! Learning from what the user converts: each committed (surface, reading)
//! pair is counted, and learned words are offered as candidates scored by
//! their use.
//!
//! Reading and writing the learning file is left to the caller:
//! [`LearningManager::from_entries`] builds the manager from entries that were
//! read, [`LearningManager::save_target`] says where to write them, and
//! [`LearningManager::mark_clean`] records that they were written.

use vstd::prelude::*;
use crate::candidate::{cands_view, Candidate, CandidateSource, CandidateView};
use crate::clock::current_timestamp;
use crate::context::ConversionContext;
use crate::error::NukoError;
use crate::frequency::{spec_score, FrequencyEntry, FrequencyView};
use crate::candidate::opt_str_view;
use crate::text::str_eq;

verus! {

/// The views of entries.
pub open spec fn freq_view(v: Seq<FrequencyEntry>) -> Seq<FrequencyView> {
    v.map_values(|e: FrequencyEntry| e@)
}

/// Index of the first entry at or after `i` for this surface and reading (or -1).
pub open spec fn spec_find_use_from(es: Seq<FrequencyView>, surface: Seq<char>, reading: Seq<char>, i: int) -> int
    decreases es.len() - i,
{
    if i < 0 || i >= es.len() {
        -1
    } else if es[i].reading == reading && es[i].surface == surface {
        i
    } else {
        spec_find_use_from(es, surface, reading, i + 1)
    }
}

/// Recording a use at time `now`: the entry of the pair counts one more use
/// (saturating) and is marked used now; a new pair gets an entry with one use.
pub open spec fn spec_record(es: Seq<FrequencyView>, surface: Seq<char>, reading: Seq<char>, now: u64) -> Seq<FrequencyView> {
    let i = spec_find_use_from(es, surface, reading, 0);
    if i < 0 {
        es.push(FrequencyView { surface, reading, count: 1, last_used: now, context_hash: None })
    } else {
        es.update(i, FrequencyView {
            count: if es[i].count == u32::MAX { u32::MAX } else { (es[i].count + 1) as u32 },
            last_used: now,
            ..es[i]
        })
    }
}

/// The candidates of the learned words of a reading at time `now`, in order:
/// score from use, no part of speech, source `System`.
pub open spec fn spec_learned(es: Seq<FrequencyView>, reading: Seq<char>, now: u64) -> Seq<CandidateView>
    decreases es.len(),
{
    if es.len() == 0 {
        Seq::empty()
    } else {
        let r = spec_learned(es.drop_last(), reading, now);
        let e = es.last();
        if e.reading == reading {
            r.push(CandidateView {
                surface: e.surface,
                reading: e.reading,
                pos: None,
                score: spec_score(e.count, e.last_used, now),
                source: CandidateSource::System,
            })
        } else {
            r
        }
    }
}

proof fn lemma_find_use_from(es: Seq<FrequencyView>, surface: Seq<char>, reading: Seq<char>, i: int)
    requires
        0 <= i,
    ensures
        spec_find_use_from(es, surface, reading, i) == -1 || (i <= spec_find_use_from(es, surface, reading, i) < es.len()
            && es[spec_find_use_from(es, surface, reading, i)].reading == reading
            && es[spec_find_use_from(es, surface, reading, i)].surface == surface),
        spec_find_use_from(es, surface, reading, i) == -1 ==> forall|j: int|
            i <= j < es.len() ==> !(es[j].reading == reading && es[j].surface == surface),
        forall|j: int| i <= j < spec_find_use_from(es, surface, reading, i) ==> !(es[j].reading == reading && es[j].surface == surface),
    decreases es.len() - i,
{
    if i < es.len() && !(es[i].reading == reading && es[i].surface == surface) {
        lemma_find_use_from(es, surface, reading, i + 1);
    }
}

/// Law: after a use is recorded, the pair has exactly one entry more use than
/// before (one use when it was new), last used at that time.
pub proof fn lemma_record_counts(es: Seq<FrequencyView>, surface: Seq<char>, reading: Seq<char>, now: u64)
    ensures
        ({
            let r = spec_record(es, surface, reading, now);
            let i = spec_find_use_from(r, surface, reading, 0);
            let j = spec_find_use_from(es, surface, reading, 0);
            &&& 0 <= i < r.len()
            &&& r[i].last_used == now
            &&& r[i].count == (if j < 0 { 1 } else if es[j].count == u32::MAX { u32::MAX } else { (es[j].count + 1) as u32 })
        }),
{
    let r = spec_record(es, surface, reading, now);
    let j = spec_find_use_from(es, surface, reading, 0);
    lemma_find_use_from(es, surface, reading, 0);
    lemma_find_use_from(r, surface, reading, 0);
    if j < 0 {
        assert(r[es.len() as int].reading == reading && r[es.len() as int].surface == surface);
        let i = spec_find_use_from(r, surface, reading, 0);
        if 0 <= i < es.len() {
            assert(es[i] == r[i]);
        }
    } else {
        assert(r[j].reading == reading && r[j].surface == surface);
        let i = spec_find_use_from(r, surface, reading, 0);
        if 0 <= i < j {
            assert(es[i] == r[i]);
        }
        if i == -1 {
            assert(!(r[j].reading == reading && r[j].surface == surface));
        }
    }
}

/// The learning data.
#[derive(Debug)]
pub struct LearningManager {
    entries: Vec<FrequencyEntry>,
    path: Option<String>,
    dirty: bool,
}

impl LearningManager {
    /// The entries, in the order their pairs were first used.
    pub closed spec fn entries(&self) -> Seq<FrequencyView> {
        freq_view(self.entries@)
    }

    /// Where the data is saved.
    pub closed spec fn path(&self) -> Option<Seq<char>> {
        opt_str_view(self.path)
    }

    /// Whether there are unsaved changes.
    pub closed spec fn dirty(&self) -> bool {
        self.dirty
    }

    /// Empty learning data without a file. Never fails.
    pub fn new() -> (r: Result<Self, NukoError>)
        ensures
            match r {
                Ok(m) => m.entries() == Seq::<FrequencyView>::empty() && m.path() is None && !m.dirty(),
                Err(_) => false,
            },
    {
        let m = LearningManager { entries: Vec::new(), path: None, dirty: false };
        proof {
            assert(m.entries() =~= Seq::<FrequencyView>::empty());
        }
        Ok(m)
    }

    /// Learning data holding entries read from the file at `path`.
    pub fn from_entries(entries: Vec<FrequencyEntry>, path: &str) -> (r: Self)
        ensures
            r.entries() == freq_view(entries@),
            r.path() == Some(path@),
            !r.dirty(),
    {
        LearningManager { entries, path: Some(path.to_string()), dirty: false }
    }

    /// Sets the file the data is saved to.
    pub fn set_path(&mut self, path: &str)
        ensures
            final(self).entries() == old(self).entries(),
            final(self).path() == Some(path@),
            final(self).dirty() == old(self).dirty(),
    {
        self.path = Some(path.to_string());
    }

    /// Whether a file to save to is set.
    pub fn has_path(&self) -> (r: bool)
        ensures
            r == (self.path() is Some),
    {
        self.path.is_some()
    }

    /// Records that `candidate` was committed, at time `now`. Never fails.
    pub fn record_at(&mut self, candidate: &Candidate, context: &ConversionContext, now: u64) -> (r: Result<(), NukoError>)
        ensures
            r is Ok,
            final(self).entries() == spec_record(old(self).entries(), candidate.surface@, candidate.reading@, now),
            final(self).path() == old(self).path(),
            final(self).dirty(),
    {
        let ghost es = self.entries();
        let mut i: usize = 0;
        while i < self.entries.len()
            invariant
                i <= self.entries.len(),
                es == freq_view(self.entries@),
                es == old(self).entries(),
                self.path == old(self).path,
                spec_find_use_from(es, candidate.surface@, candidate.reading@, 0)
                    == spec_find_use_from(es, candidate.surface@, candidate.reading@, i as int),
            decreases self.entries.len() - i,
        {
            proof {
                assert(es[i as int] == self.entries@[i as int]@);
            }
            if str_eq(self.entries[i].reading.as_str(), candidate.reading.as_str())
                && str_eq(self.entries[i].surface.as_str(), candidate.surface.as_str()) {
                let mut e = FrequencyEntry {
                    surface: self.entries[i].surface.clone(),
                    reading: self.entries[i].reading.clone(),
                    count: self.entries[i].count,
                    last_used: self.entries[i].last_used,
                    context_hash: self.entries[i].context_hash,
                };
                e.increment_at(now);
                self.entries.set(i, e);
                self.dirty = true;
                proof {
                    assert(self.entries() =~= spec_record(es, candidate.surface@, candidate.reading@, now));
                }
                return Ok(());
            }
            i = i + 1;
        }
        let e = FrequencyEntry::new_at(candidate.surface.as_str(), candidate.reading.as_str(), now);
        self.entries.push(e);
        self.dirty = true;
        proof {
            assert(self.entries() =~= spec_record(es, candidate.surface@, candidate.reading@, now));
        }
        Ok(())
    }

    /// Records that `candidate` was committed, now. Never fails.
    pub fn record(&mut self, candidate: &Candidate, context: &ConversionContext) -> (r: Result<(), NukoError>)
        ensures
            r is Ok,
            exists|now: u64| final(self).entries() == spec_record(old(self).entries(), candidate.surface@, candidate.reading@, now),
            final(self).path() == old(self).path(),
            final(self).dirty(),
    {
        let now = current_timestamp();
        self.record_at(candidate, context, now)
    }

    /// The learned candidates of a reading, scored at time `now`. Never fails.
    pub fn get_candidates_at(&self, reading: &str, context: &ConversionContext, now: u64) -> (r: Result<Vec<Candidate>, NukoError>)
        ensures
            match r {
                Ok(v) => cands_view(v@) == spec_learned(self.entries(), reading@, now),
                Err(_) => false,
            },
    {
        let ghost es = self.entries();
        let mut out: Vec<Candidate> = Vec::new();
        let mut i: usize = 0;
        while i < self.entries.len()
            invariant
                i <= self.entries.len(),
                es == freq_view(self.entries@),
                cands_view(out@) == spec_learned(es.take(i as int), reading@, now),
            decreases self.entries.len() - i,
        {
            proof {
                assert(es.take(i as int + 1).drop_last() =~= es.take(i as int));
                assert(es.take(i as int + 1).last() == self.entries@[i as int]@);
            }
            let e = &self.entries[i];
            if str_eq(e.reading.as_str(), reading) {
                let c = Candidate::new(e.surface.as_str(), e.reading.as_str()).with_score(e.score_at(now));
                let ghost before = out@;
                let ghost cv = c@;
                out.push(c);
                proof {
                    assert(cands_view(out@) =~= cands_view(before).push(cv));
                }
            }
            i = i + 1;
        }
        proof {
            assert(es.take(i as int) =~= es);
        }
        Ok(out)
    }

    /// The learned candidates of a reading, scored now. Never fails.
    pub fn get_candidates(&self, reading: &str, context: &ConversionContext) -> (r: Result<Vec<Candidate>, NukoError>)
        ensures
            match r {
                Ok(v) => exists|now: u64| cands_view(v@) == spec_learned(self.entries(), reading@, now),
                Err(_) => false,
            },
    {
        let now = current_timestamp();
        self.get_candidates_at(reading, context, now)
    }

    /// Forgets all learned data. Never fails.
    pub fn clear(&mut self) -> (r: Result<(), NukoError>)
        ensures
            r is Ok,
            final(self).entries() == Seq::<FrequencyView>::empty(),
            final(self).path() == old(self).path(),
            final(self).dirty(),
    {
        self.entries = Vec::new();
        self.dirty = true;
        proof {
            assert(self.entries() =~= Seq::<FrequencyView>::empty());
        }
        Ok(())
    }

    /// Whether there are unsaved changes.
    pub fn is_dirty(&self) -> (r: bool)
        ensures
            r == self.dirty(),
    {
        self.dirty
    }

    /// Number of entries.
    pub fn entry_count(&self) -> (r: usize)
        ensures
            r == self.entries().len(),
    {
        self.entries.len()
    }

    /// A copy of all entries.
    pub fn all_entries(&self) -> (r: Vec<FrequencyEntry>)
        ensures
            freq_view(r@) == self.entries(),
    {
        let mut out: Vec<FrequencyEntry> = Vec::new();
        let mut i: usize = 0;
        while i < self.entries.len()
            invariant
                i <= self.entries.len(),
                freq_view(out@) == freq_view(self.entries@).take(i as int),
            decreases self.entries.len() - i,
        {
            let e = &self.entries[i];
            let c = FrequencyEntry {
                surface: e.surface.clone(),
                reading: e.reading.clone(),
                count: e.count,
                last_used: e.last_used,
                context_hash: e.context_hash,
            };
            let ghost before = out@;
            proof {
                assert(c@ == freq_view(self.entries@)[i as int]);
            }
            out.push(c);
            proof {
                assert(freq_view(out@) =~= freq_view(before).push(c@));
            }
            i = i + 1;
            proof {
                assert(freq_view(out@) =~= freq_view(self.entries@).take(i as int));
            }
        }
        proof {
            assert(freq_view(self.entries@).take(i as int) =~= freq_view(self.entries@));
        }
        out
    }

    /// Where to save the data: its path, or the learning error saying that
    /// none is set.
    pub fn save_target(&self) -> (r: Result<String, NukoError>)
        ensures
            match r {
                Ok(p) => self.path() == Some(p@),
                Err(NukoError::Learning(m)) => self.path() is None && m@ == "保存先が設定されていません"@,
                Err(_) => false,
            },
    {
        match &self.path {
            Some(p) => Ok(p.clone()),
            None => Err(NukoError::Learning("保存先が設定されていません".to_string())),
        }
    }

    /// Records that the data was saved.
    pub fn mark_clean(&mut self)
        ensures
            final(self).entries() == old(self).entries(),
            final(self).path() == old(self).path(),
            !final(self).dirty(),
    {
        self.dirty = false;
    }
}

impl Default for LearningManager {
    fn default() -> (r: Self)
        ensures
            r.entries() == Seq::<FrequencyView>::empty(),
            r.path() is None,
            !r.dirty(),
    {
        let m = LearningManager { entries: Vec::new(), path: None, dirty: false };
        proof {
            assert(m.entries() =~= Seq::<FrequencyView>::empty());
        }
        m
    }
}

} // verus!
