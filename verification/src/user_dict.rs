//! The user dictionary: words the user added, looked up by reading.
//!
//! Entries are kept in the order they were added; entries of one reading keep
//! their relative order. Reading and writing the dictionary file is left to the
//! caller: [`UserDictionary::from_entries`] builds a dictionary from entries that
//! were read, [`UserDictionary::save_target`] says where to write them, and
//! [`UserDictionary::mark_clean`] records that they were written.

use vstd::prelude::*;
use crate::candidate::{cands_view, clone_opt_string, opt_str_view, Candidate, CandidateSource, CandidateView};
use crate::error::NukoError;
use crate::text::str_eq;

verus! {

/// A user dictionary entry.
#[derive(Debug)]
pub struct UserEntry {
    /// Surface form.
    pub surface: String,
    /// Reading.
    pub reading: String,
    /// Part of speech.
    pub pos: Option<String>,
    /// A comment.
    pub comment: Option<String>,
}

/// The view of an entry.
pub struct UserEntryView {
    /// Surface form.
    pub surface: Seq<char>,
    /// Reading.
    pub reading: Seq<char>,
    /// Part of speech.
    pub pos: Option<Seq<char>>,
    /// A comment.
    pub comment: Option<Seq<char>>,
}

impl View for UserEntry {
    type V = UserEntryView;

    open spec fn view(&self) -> UserEntryView {
        UserEntryView {
            surface: self.surface@,
            reading: self.reading@,
            pos: opt_str_view(self.pos),
            comment: opt_str_view(self.comment),
        }
    }
}

/// The views of entries.
pub open spec fn entries_view(v: Seq<UserEntry>) -> Seq<UserEntryView> {
    v.map_values(|e: UserEntry| e@)
}

impl Clone for UserEntry {
    fn clone(&self) -> (r: Self)
        ensures
            r == *self,
    {
        UserEntry {
            surface: self.surface.clone(),
            reading: self.reading.clone(),
            pos: clone_opt_string(&self.pos),
            comment: clone_opt_string(&self.comment),
        }
    }
}

impl UserEntry {
    /// An entry without part of speech or comment.
    pub fn new(surface: &str, reading: &str) -> (r: Self)
        ensures
            r@ == (UserEntryView { surface: surface@, reading: reading@, pos: None, comment: None }),
    {
        UserEntry { surface: surface.to_string(), reading: reading.to_string(), pos: None, comment: None }
    }

    /// The same entry with a part of speech.
    pub fn with_pos(self, pos: &str) -> (r: Self)
        ensures
            r@ == (UserEntryView { pos: Some(pos@), ..self@ }),
    {
        let mut e = self;
        e.pos = Some(pos.to_string());
        e
    }

    /// The same entry with a comment.
    pub fn with_comment(self, comment: &str) -> (r: Self)
        ensures
            r@ == (UserEntryView { comment: Some(comment@), ..self@ }),
    {
        let mut e = self;
        e.comment = Some(comment.to_string());
        e
    }
}

/// The candidate an entry gives: score 200, the entry's part of speech.
pub open spec fn spec_user_candidate(e: UserEntryView) -> CandidateView {
    CandidateView { surface: e.surface, reading: e.reading, pos: e.pos, score: 200, source: CandidateSource::System }
}

/// The candidates of the entries with reading `reading`, in order.
pub open spec fn spec_user_lookup(es: Seq<UserEntryView>, reading: Seq<char>) -> Seq<CandidateView>
    decreases es.len(),
{
    if es.len() == 0 {
        Seq::empty()
    } else {
        let r = spec_user_lookup(es.drop_last(), reading);
        if es.last().reading == reading {
            r.push(spec_user_candidate(es.last()))
        } else {
            r
        }
    }
}

/// The entries other than those with this reading and surface, in order.
pub open spec fn spec_user_remove(es: Seq<UserEntryView>, reading: Seq<char>, surface: Seq<char>) -> Seq<UserEntryView>
    decreases es.len(),
{
    if es.len() == 0 {
        Seq::empty()
    } else {
        let r = spec_user_remove(es.drop_last(), reading, surface);
        if es.last().reading == reading && es.last().surface == surface {
            r
        } else {
            r.push(es.last())
        }
    }
}

/// Whether some entry has this reading and surface.
pub open spec fn spec_user_has(es: Seq<UserEntryView>, reading: Seq<char>, surface: Seq<char>) -> bool {
    exists|i: int| 0 <= i < es.len() && #[trigger] es[i].reading == reading && es[i].surface == surface
}

/// Law: removing drops exactly the matching entries: the length falls by the
/// number removed, which is positive exactly when a matching entry existed.
pub proof fn lemma_remove_shrinks(es: Seq<UserEntryView>, reading: Seq<char>, surface: Seq<char>)
    ensures
        spec_user_remove(es, reading, surface).len() <= es.len(),
        spec_user_remove(es, reading, surface).len() < es.len() <==> spec_user_has(es, reading, surface),
        !spec_user_has(es, reading, surface) ==> spec_user_remove(es, reading, surface) == es,
    decreases es.len(),
{
    if es.len() > 0 {
        let d = es.drop_last();
        lemma_remove_shrinks(d, reading, surface);
        if spec_user_has(d, reading, surface) {
            let i = choose|i: int| 0 <= i < d.len() && #[trigger] d[i].reading == reading && d[i].surface == surface;
            assert(es[i].reading == reading);
        }
        if spec_user_has(es, reading, surface) && !(es.last().reading == reading && es.last().surface == surface) {
            let i = choose|i: int| 0 <= i < es.len() && #[trigger] es[i].reading == reading && es[i].surface == surface;
            assert(d[i].reading == reading);
        }
        if !spec_user_has(es, reading, surface) {
            assert(es =~= d.push(es.last()));
            if spec_user_has(d, reading, surface) {
                let i = choose|i: int| 0 <= i < d.len() && #[trigger] d[i].reading == reading && d[i].surface == surface;
                assert(es[i].reading == reading);
            }
        }
    }
}

/// Law: after a removal no entry with that reading and surface is left.
pub proof fn lemma_remove_leaves_none(es: Seq<UserEntryView>, reading: Seq<char>, surface: Seq<char>)
    ensures
        !spec_user_has(spec_user_remove(es, reading, surface), reading, surface),
    decreases es.len(),
{
    if es.len() > 0 {
        lemma_remove_leaves_none(es.drop_last(), reading, surface);
        let r = spec_user_remove(es.drop_last(), reading, surface);
        if !(es.last().reading == reading && es.last().surface == surface) {
            let r2 = r.push(es.last());
            if spec_user_has(r2, reading, surface) {
                let i = choose|i: int| 0 <= i < r2.len() && #[trigger] r2[i].reading == reading && r2[i].surface == surface;
                assert(r[i].reading == reading);
            }
        }
    }
}

/// Law: a lookup after adding an entry gives the earlier candidates of that
/// reading followed by the new entry's candidate; other readings are unchanged.
pub proof fn lemma_lookup_after_add(es: Seq<UserEntryView>, e: UserEntryView, reading: Seq<char>)
    ensures
        spec_user_lookup(es.push(e), reading) == (if e.reading == reading {
            spec_user_lookup(es, reading).push(spec_user_candidate(e))
        } else {
            spec_user_lookup(es, reading)
        }),
{
    assert(es.push(e).drop_last() =~= es);
}

/// The user dictionary.
#[derive(Debug)]
pub struct UserDictionary {
    entries: Vec<UserEntry>,
    path: Option<String>,
    dirty: bool,
}

impl UserDictionary {
    /// The entries, in the order they were added.
    pub closed spec fn entries(&self) -> Seq<UserEntryView> {
        entries_view(self.entries@)
    }

    /// Where the dictionary is saved.
    pub closed spec fn path(&self) -> Option<Seq<char>> {
        opt_str_view(self.path)
    }

    /// Whether there are unsaved changes.
    pub closed spec fn dirty(&self) -> bool {
        self.dirty
    }

    /// An empty dictionary without a file.
    pub fn new() -> (r: Self)
        ensures
            r.entries() == Seq::<UserEntryView>::empty(),
            r.path() is None,
            !r.dirty(),
    {
        let r = UserDictionary { entries: Vec::new(), path: None, dirty: false };
        proof {
            assert(r.entries() =~= Seq::<UserEntryView>::empty());
        }
        r
    }

    /// A dictionary holding entries read from the file at `path`.
    pub fn from_entries(entries: Vec<UserEntry>, path: &str) -> (r: Self)
        ensures
            r.entries() == entries_view(entries@),
            r.path() == Some(path@),
            !r.dirty(),
    {
        UserDictionary { entries, path: Some(path.to_string()), dirty: false }
    }

    /// Sets the file the dictionary is saved to.
    pub fn set_path(&mut self, path: &str)
        ensures
            final(self).entries() == old(self).entries(),
            final(self).path() == Some(path@),
            final(self).dirty() == old(self).dirty(),
    {
        self.path = Some(path.to_string());
    }

    /// Adds an entry. Never fails.
    pub fn add(&mut self, entry: UserEntry) -> (r: Result<(), NukoError>)
        ensures
            r is Ok,
            final(self).entries() == old(self).entries().push(entry@),
            final(self).path() == old(self).path(),
            final(self).dirty(),
    {
        let ghost e = entry@;
        self.entries.push(entry);
        self.dirty = true;
        proof {
            assert(self.entries() =~= old(self).entries().push(e));
        }
        Ok(())
    }

    /// Removes the entries with this reading and surface; `Ok(true)` when
    /// there was one. Never fails.
    pub fn remove(&mut self, reading: &str, surface: &str) -> (r: Result<bool, NukoError>)
        ensures
            r == Ok::<bool, NukoError>(spec_user_has(old(self).entries(), reading@, surface@)),
            final(self).entries() == spec_user_remove(old(self).entries(), reading@, surface@),
            final(self).path() == old(self).path(),
            final(self).dirty() == (old(self).dirty() || spec_user_has(old(self).entries(), reading@, surface@)),
    {
        let ghost es = self.entries();
        let mut kept: Vec<UserEntry> = Vec::new();
        let mut removed = false;
        let mut i: usize = 0;
        while i < self.entries.len()
            invariant
                i <= self.entries.len(),
                es == entries_view(self.entries@),
                entries_view(kept@) == spec_user_remove(es.take(i as int), reading@, surface@),
                removed == spec_user_has(es.take(i as int), reading@, surface@),
            decreases self.entries.len() - i,
        {
            proof {
                assert(es.take(i as int + 1).drop_last() =~= es.take(i as int));
                assert(es.take(i as int + 1).last() == self.entries@[i as int]@);
            }
            let e = &self.entries[i];
            let hit = str_eq(e.reading.as_str(), reading) && str_eq(e.surface.as_str(), surface);
            if hit {
                removed = true;
                proof {
                    assert(es.take(i as int + 1)[i as int].reading == reading@);
                }
            } else {
                let ghost before = kept@;
                kept.push(e.clone());
                proof {
                    assert(entries_view(kept@) =~= entries_view(before).push(es[i as int]));
                    if spec_user_has(es.take(i as int + 1), reading@, surface@) {
                        let j = choose|j: int| 0 <= j < i + 1 && #[trigger] es.take(i as int + 1)[j].reading == reading@ && es.take(i as int + 1)[j].surface == surface@;
                        assert(es.take(i as int)[j].reading == reading@);
                    }
                }
            }
            proof {
                if spec_user_has(es.take(i as int), reading@, surface@) {
                    let j = choose|j: int| 0 <= j < i && #[trigger] es.take(i as int)[j].reading == reading@ && es.take(i as int)[j].surface == surface@;
                    assert(es.take(i as int + 1)[j].reading == reading@);
                }
            }
            i = i + 1;
        }
        proof {
            assert(es.take(i as int) =~= es);
        }
        self.entries = kept;
        if removed {
            self.dirty = true;
        }
        Ok(removed)
    }

    /// The candidates of the entries with this reading, in the order they were
    /// added: score 200, the entry's part of speech, source `System`.
    pub fn lookup(&self, reading: &str) -> (r: Vec<Candidate>)
        ensures
            cands_view(r@) == spec_user_lookup(self.entries(), reading@),
    {
        let ghost es = self.entries();
        let mut out: Vec<Candidate> = Vec::new();
        let mut i: usize = 0;
        while i < self.entries.len()
            invariant
                i <= self.entries.len(),
                es == entries_view(self.entries@),
                cands_view(out@) == spec_user_lookup(es.take(i as int), reading@),
            decreases self.entries.len() - i,
        {
            proof {
                assert(es.take(i as int + 1).drop_last() =~= es.take(i as int));
                assert(es.take(i as int + 1).last() == self.entries@[i as int]@);
            }
            let e = &self.entries[i];
            if str_eq(e.reading.as_str(), reading) {
                let c = Candidate {
                    surface: e.surface.clone(),
                    reading: e.reading.clone(),
                    pos: clone_opt_string(&e.pos),
                    score: 200,
                    source: CandidateSource::System,
                };
                let ghost before = out@;
                let ghost cv = c@;
                out.push(c);
                proof {
                    assert(cands_view(out@) =~= cands_view(before).push(cv));
                }
            }
            i = i + 1;
        }
        proof {
            assert(es.take(i as int) =~= es);
        }
        out
    }

    /// Whether there are unsaved changes.
    pub fn is_dirty(&self) -> (r: bool)
        ensures
            r == self.dirty(),
    {
        self.dirty
    }

    /// Number of entries.
    pub fn len(&self) -> (r: usize)
        ensures
            r == self.entries().len(),
    {
        self.entries.len()
    }

    /// Whether there is no entry.
    pub fn is_empty(&self) -> (r: bool)
        ensures
            r == (self.entries().len() == 0),
    {
        self.entries.len() == 0
    }

    /// A copy of all entries.
    pub fn all_entries(&self) -> (r: Vec<UserEntry>)
        ensures
            entries_view(r@) == self.entries(),
    {
        let mut out: Vec<UserEntry> = Vec::new();
        let mut i: usize = 0;
        while i < self.entries.len()
            invariant
                i <= self.entries.len(),
                out@ == self.entries@.take(i as int),
            decreases self.entries.len() - i,
        {
            out.push(self.entries[i].clone());
            i = i + 1;
            proof {
                assert(out@ =~= self.entries@.take(i as int));
            }
        }
        proof {
            assert(self.entries@.take(i as int) =~= self.entries@);
        }
        out
    }

    /// Where to save the dictionary: its path, or the dictionary error saying
    /// that none is set.
    pub fn save_target(&self) -> (r: Result<String, NukoError>)
        ensures
            match r {
                Ok(p) => self.path() == Some(p@),
                Err(NukoError::Dictionary(m)) => self.path() is None && m@ == "保存先が設定されていません"@,
                Err(_) => false,
            },
    {
        match &self.path {
            Some(p) => Ok(p.clone()),
            None => Err(NukoError::Dictionary("保存先が設定されていません".to_string())),
        }
    }

    /// Records that the dictionary was saved.
    pub fn mark_clean(&mut self)
        ensures
            final(self).entries() == old(self).entries(),
            final(self).path() == old(self).path(),
            !final(self).dirty(),
    {
        self.dirty = false;
    }
}

impl Default for UserDictionary {
    fn default() -> (r: Self)
        ensures
            r.entries() == Seq::<UserEntryView>::empty(),
            r.path() is None,
            !r.dirty(),
    {
        UserDictionary::new()
    }
}

} // verus!
