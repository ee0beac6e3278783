//! The conversion engine: from a reading to a scored list of candidates, from
//! learned words, the dictionaries and the kana forms of the reading.

use vstd::prelude::*;
use crate::candidate::{
    append_unique, append_unique_as_is, cands_view, lemma_add_unique, lemma_sort_keeps_surfaces,
    push_unique, spec_add_one, spec_add_unique, spec_has_surface, spec_sort_by_score,
    spec_surfaces_distinct, spec_with_source, Candidate, CandidateList, CandidateSource, CandidateView,
};
use crate::clock::current_timestamp;
use crate::context::ConversionContext;
use crate::dictionary::{spec_manager_lookup, DictionaryManager};
use crate::error::NukoError;
use crate::kana::{spec_katakana_of, spec_narrow_of, to_halfwidth_katakana, to_katakana};
use crate::learning::{spec_learned, LearningManager};
use crate::system_dict::{spec_prefix_result, system_spec_dict};
use crate::user_dict::UserEntryView;
use crate::frequency::FrequencyView;

verus! {

/// The katakana form of a reading.
pub open spec fn spec_katakana(s: Seq<char>) -> Seq<char> {
    s.map_values(|c: char| spec_katakana_of(c))
}

/// The narrow katakana form of a reading.
pub open spec fn spec_halfwidth(s: Seq<char>) -> Seq<char> {
    s.map_values(|c: char| spec_narrow_of(spec_katakana_of(c)))
}

/// A candidate of a kana form of the reading.
pub open spec fn spec_kana_candidate(surface: Seq<char>, reading: Seq<char>, score: i32) -> CandidateView {
    CandidateView { surface, reading, pos: None, score, source: CandidateSource::System }
}

/// The candidates of a conversion before sorting: learned words (source
/// `Learned`), then dictionary words, then the reading itself (score -100),
/// its katakana (-90) and its narrow katakana (-95), each only when no earlier
/// candidate has its surface.
pub open spec fn spec_gathered(reading: Seq<char>, learned: Seq<CandidateView>, dict: Seq<CandidateView>) -> Seq<CandidateView> {
    let a = spec_add_unique(Seq::empty(), spec_with_source(learned, CandidateSource::Learned));
    let b = spec_add_unique(a, dict);
    let c = spec_add_one(b, spec_kana_candidate(reading, reading, -100i32));
    let d = spec_add_one(c, spec_kana_candidate(spec_katakana(reading), reading, -90i32));
    spec_add_one(d, spec_kana_candidate(spec_halfwidth(reading), reading, -95i32))
}

/// The candidates of a conversion at time `now`: gathered, then sorted by
/// descending score, equal scores in gathering order.
pub open spec fn spec_convert(
    learning: Seq<FrequencyView>,
    user: Seq<UserEntryView>,
    reading: Seq<char>,
    now: u64,
) -> Seq<CandidateView> {
    spec_sort_by_score(spec_gathered(reading, spec_learned(learning, reading, now), spec_manager_lookup(user, reading)))
}

/// Predictions: `(reading, candidate)` pairs of the prefix search, in order.
pub open spec fn spec_flatten(r: Seq<(Seq<char>, Seq<CandidateView>)>) -> Seq<(Seq<char>, CandidateView)>
    decreases r.len(),
{
    if r.len() == 0 {
        Seq::empty()
    } else {
        spec_flatten(r.drop_last()) + r.last().1.map_values(|c: CandidateView| (r.last().0, c))
    }
}

/// How many predictions are returned out of `n`: all of them up to
/// `max_results`, and at least one when there is one.
pub open spec fn spec_prediction_count(n: nat, max_results: nat) -> nat {
    let cap = if max_results == 0 { 1 } else { max_results };
    if n < cap { n } else { cap }
}

/// The views of predictions.
pub open spec fn predictions_view(v: Seq<(String, Candidate)>) -> Seq<(Seq<char>, CandidateView)> {
    v.map_values(|p: (String, Candidate)| (p.0@, p.1@))
}

/// The conversion engine.
#[derive(Debug)]
pub struct ConversionEngine {
    dictionary: DictionaryManager,
    learning: LearningManager,
}

impl ConversionEngine {
    /// The learned data.
    pub closed spec fn learned(&self) -> Seq<FrequencyView> {
        self.learning.entries()
    }

    /// The user dictionary entries.
    pub closed spec fn user_entries(&self) -> Seq<UserEntryView> {
        self.dictionary.user_entries()
    }

    /// An engine with the system dictionary, no user words and no learned
    /// data. Never fails.
    pub fn new() -> (r: Result<Self, NukoError>)
        ensures
            match r {
                Ok(e) => e.learned() == Seq::<FrequencyView>::empty() && e.user_entries() == Seq::<UserEntryView>::empty(),
                Err(_) => false,
            },
    {
        let dictionary = match DictionaryManager::new() {
            Ok(d) => d,
            Err(e) => return Err(e),
        };
        let learning = match LearningManager::new() {
            Ok(l) => l,
            Err(e) => return Err(e),
        };
        Ok(ConversionEngine { dictionary, learning })
    }

    /// Converts a reading, learned words scored at time `now`. An empty
    /// reading is an invalid-input error.
    pub fn convert_at(&self, reading: &str, context: &ConversionContext, now: u64) -> (r: Result<CandidateList, NukoError>)
        ensures
            reading@.len() == 0 <==> r is Err,
            match r {
                Ok(list) => list.items() == spec_convert(self.learned(), self.user_entries(), reading@, now)
                    && list.cursor() == 0,
                Err(NukoError::InvalidInput(m)) => m@ == "空の入力です"@,
                Err(_) => false,
            },
    {
        if reading.is_empty() {
            return Err(NukoError::InvalidInput("空の入力です".to_string()));
        }
        let mut v: Vec<Candidate> = Vec::new();
        proof {
            assert(cands_view(v@) =~= Seq::<CandidateView>::empty());
        }
        let learned = match self.learning.get_candidates_at(reading, context, now) {
            Ok(l) => l,
            Err(e) => return Err(e),
        };
        append_unique(&mut v, learned, CandidateSource::Learned);
        let dict = match self.dictionary.lookup(reading) {
            Ok(d) => d,
            Err(e) => return Err(e),
        };
        append_unique_as_is(&mut v, dict);
        push_unique(&mut v, Candidate::new(reading, reading).with_score(-100).with_source(CandidateSource::System));
        let katakana = to_katakana(reading);
        push_unique(&mut v, Candidate::new(katakana.as_str(), reading).with_score(-90).with_source(CandidateSource::System));
        let half = to_halfwidth_katakana(reading);
        push_unique(&mut v, Candidate::new(half.as_str(), reading).with_score(-95).with_source(CandidateSource::System));
        let mut list = CandidateList::from_candidates(v);
        list.sort_by_score();
        Ok(list)
    }

    /// Converts a reading, learned words scored now. An empty reading is an
    /// invalid-input error.
    pub fn convert(&self, reading: &str, context: &ConversionContext) -> (r: Result<CandidateList, NukoError>)
        ensures
            reading@.len() == 0 <==> r is Err,
            match r {
                Ok(list) => list.cursor() == 0
                    && exists|now: u64| list.items() == spec_convert(self.learned(), self.user_entries(), reading@, now),
                Err(NukoError::InvalidInput(m)) => m@ == "空の入力です"@,
                Err(_) => false,
            },
    {
        let now = current_timestamp();
        self.convert_at(reading, context, now)
    }

    /// Predictions for a reading being typed: `(reading, candidate)` pairs of
    /// the system dictionary words whose reading starts with `prefix`, by
    /// reading, at most `max_results` of them (at least one when there is
    /// one); none for an empty prefix. Never fails.
    pub fn predict(&self, prefix: &str, max_results: usize) -> (r: Result<Vec<(String, Candidate)>, NukoError>)
        ensures
            match r {
                Ok(v) => if prefix@.len() == 0 {
                    v@.len() == 0
                } else {
                    exists|res: Seq<(Seq<char>, Seq<CandidateView>)>| spec_prefix_result(system_spec_dict(), prefix@, res)
                        && predictions_view(v@) == spec_flatten(res).take(
                            spec_prediction_count(spec_flatten(res).len(), max_results as nat) as int)
                },
                Err(_) => false,
            },
    {
        if prefix.is_empty() {
            return Ok(Vec::new());
        }
        let results = match self.dictionary.system_dictionary().prefix_search(prefix) {
            Ok(r) => r,
            Err(e) => return Err(e),
        };
        let ghost res = crate::system_dict::prefix_view(results@);
        let ghost flat = spec_flatten(res);
        let ghost n = spec_prediction_count(flat.len(), max_results as nat);
        let ghost cap: nat = if max_results == 0 { 1 } else { max_results as nat };
        let mut out: Vec<(String, Candidate)> = Vec::new();
        let mut a: usize = 0;
        while a < results.len()
            invariant
                a <= results.len(),
                res == crate::system_dict::prefix_view(results@),
                flat == spec_flatten(res),
                n == spec_prediction_count(flat.len(), max_results as nat),
                predictions_view(out@) == spec_flatten(res.take(a as int)),
                cap == (if max_results == 0 { 1 } else { max_results as nat }),
                out@.len() < cap,
                spec_prefix_result(system_spec_dict(), prefix@, res),
                prefix@.len() > 0,
            decreases results.len() - a,
        {
            proof {
                lemma_flatten_prefix(res, a as int + 1);
                assert(res.take(a as int + 1).drop_last() =~= res.take(a as int));
            }
            let mut b: usize = 0;
            let ghost base = spec_flatten(res.take(a as int));
            let ghost item = res[a as int];
            while b < results[a].1.len()
                invariant
                    a < results.len(),
                    b <= results@[a as int].1@.len(),
                    res == crate::system_dict::prefix_view(results@),
                    item == res[a as int],
                    flat == spec_flatten(res),
                    n == spec_prediction_count(flat.len(), max_results as nat),
                    base == spec_flatten(res.take(a as int)),
                    spec_flatten(res.take(a as int + 1)) == base + item.1.map_values(|c: CandidateView| (item.0, c)),
                    spec_flatten(res.take(a as int + 1)).len() <= flat.len(),
                    predictions_view(out@) == base + item.1.map_values(|c: CandidateView| (item.0, c)).take(b as int),
                    cap == (if max_results == 0 { 1 } else { max_results as nat }),
                    out@.len() < cap,
                    spec_prefix_result(system_spec_dict(), prefix@, res),
                    prefix@.len() > 0,
                decreases results@[a as int].1@.len() - b,
            {
                let rd = results[a].0.clone();
                let c = results[a].1[b].clone();
                let ghost before = out@;
                out.push((rd, c));
                proof {
                    assert(item.1[b as int] == results@[a as int].1@[b as int]@);
                    assert(predictions_view(out@) =~= predictions_view(before).push((item.0, item.1[b as int])));
                    assert(item.1.map_values(|c: CandidateView| (item.0, c)).take(b as int + 1)
                        =~= item.1.map_values(|c: CandidateView| (item.0, c)).take(b as int).push((item.0, item.1[b as int])));
                }
                b = b + 1;
                if out.len() >= max_results {
                    proof {
                        assert(predictions_view(out@).len() == out@.len());
                        lemma_flatten_prefix(res, a as int + 1);
                        assert(flat.take(out@.len() as int) =~= predictions_view(out@)) by {
                            assert(spec_flatten(res.take(a as int + 1)).take(out@.len() as int) =~= predictions_view(out@));
                        }
                        assert(predictions_view(out@) == flat.take(n as int));
                    }
                    return Ok(out);
                }
            }
            proof {
                assert(item.1.map_values(|c: CandidateView| (item.0, c)).take(b as int) =~= item.1.map_values(|c: CandidateView| (item.0, c)));
            }
            a = a + 1;
        }
        proof {
            assert(res.take(a as int) =~= res);
            assert(flat.take(flat.len() as int) =~= flat);
            assert(predictions_view(out@) == flat.take(n as int));
        }
        Ok(out)
    }

    /// Records that `candidate` was committed, now. Never fails. (Saving the
    /// learned data, when it has a file, is the caller's part.)
    pub fn commit(&mut self, candidate: &Candidate, context: &ConversionContext) -> (r: Result<(), NukoError>)
        ensures
            r is Ok,
            exists|now: u64| final(self).learned() == crate::learning::spec_record(old(self).learned(), candidate.surface@, candidate.reading@, now),
            final(self).user_entries() == old(self).user_entries(),
    {
        let r = self.learning.record(candidate, context);
        proof {
            let w = choose|now: u64| self.learning.entries() == crate::learning::spec_record(old(self).learned(), candidate.surface@, candidate.reading@, now);
            assert(self.learned() == crate::learning::spec_record(old(self).learned(), candidate.surface@, candidate.reading@, w));
        }
        r
    }

    /// Forgets all learned data. Never fails.
    pub fn clear_learning_data(&mut self) -> (r: Result<(), NukoError>)
        ensures
            r is Ok,
            final(self).learned() == Seq::<FrequencyView>::empty(),
            final(self).user_entries() == old(self).user_entries(),
    {
        self.learning.clear()
    }

    /// Replaces the learned data (with data read from its file).
    pub fn set_learning(&mut self, learning: LearningManager)
        ensures
            final(self).learned() == learning.entries(),
            final(self).user_entries() == old(self).user_entries(),
    {
        self.learning = learning;
    }

    /// The learned data.
    pub fn learning(&self) -> (r: &LearningManager)
        ensures
            r.entries() == self.learned(),
    {
        &self.learning
    }

    /// The learned data, for changes.
    pub fn learning_mut(&mut self) -> (r: &mut LearningManager)
        ensures
            r.entries() == old(self).learned(),
            final(self).learned() == final(r).entries(),
            final(self).user_entries() == old(self).user_entries(),
    {
        &mut self.learning
    }

    /// The dictionaries.
    pub fn dictionary(&self) -> (r: &DictionaryManager)
        ensures
            r.user_entries() == self.user_entries(),
    {
        &self.dictionary
    }

    /// The dictionaries, for changes.
    pub fn dictionary_mut(&mut self) -> (r: &mut DictionaryManager)
        ensures
            r.user_entries() == old(self).user_entries(),
            final(self).user_entries() == final(r).user_entries(),
            final(self).learned() == old(self).learned(),
    {
        &mut self.dictionary
    }
}

/// Law: a conversion offers the reading itself, its katakana and its narrow
/// katakana, and no surface twice.
pub proof fn lemma_convert_offers_kana(learning: Seq<FrequencyView>, user: Seq<UserEntryView>, reading: Seq<char>, now: u64)
    ensures
        spec_has_surface(spec_convert(learning, user, reading, now), reading),
        spec_has_surface(spec_convert(learning, user, reading, now), spec_katakana(reading)),
        spec_has_surface(spec_convert(learning, user, reading, now), spec_halfwidth(reading)),
        spec_surfaces_distinct(spec_convert(learning, user, reading, now)),
{
    let learned = spec_learned(learning, reading, now);
    let dict = spec_manager_lookup(user, reading);
    let a = spec_add_unique(Seq::empty(), spec_with_source(learned, CandidateSource::Learned));
    let b = spec_add_unique(a, dict);
    let k1 = spec_kana_candidate(reading, reading, -100i32);
    let k2 = spec_kana_candidate(spec_katakana(reading), reading, -90i32);
    let k3 = spec_kana_candidate(spec_halfwidth(reading), reading, -95i32);
    let c = spec_add_one(b, k1);
    let d = spec_add_one(c, k2);
    let e = spec_add_one(d, k3);
    lemma_add_unique(Seq::empty(), spec_with_source(learned, CandidateSource::Learned));
    lemma_add_unique(a, dict);
    lemma_add_one(b, k1);
    lemma_add_one(c, k2);
    lemma_add_one(d, k3);
    assert(e == spec_gathered(reading, learned, dict));
    lemma_sort_keeps_surfaces(e);
}

/// Adding one candidate keeps distinct surfaces distinct and every surface
/// present, and makes its own surface present.
proof fn lemma_add_one(acc: Seq<CandidateView>, c: CandidateView)
    ensures
        spec_surfaces_distinct(acc) ==> spec_surfaces_distinct(spec_add_one(acc, c)),
        spec_has_surface(spec_add_one(acc, c), c.surface),
        forall|x: Seq<char>| spec_has_surface(acc, x) ==> spec_has_surface(spec_add_one(acc, c), x),
{
    let r = spec_add_one(acc, c);
    if !spec_has_surface(acc, c.surface) {
        assert(r[acc.len() as int].surface == c.surface);
        assert forall|x: Seq<char>| spec_has_surface(acc, x) implies spec_has_surface(r, x) by {
            let k = choose|k: int| 0 <= k < acc.len() && #[trigger] acc[k].surface == x;
            assert(r[k] == acc[k]);
        }
    }
}

/// Flattening a prefix of the results gives a prefix of the flattening.
proof fn lemma_flatten_prefix(r: Seq<(Seq<char>, Seq<CandidateView>)>, k: int)
    requires
        0 <= k <= r.len(),
    ensures
        spec_flatten(r.take(k)).len() <= spec_flatten(r).len(),
        spec_flatten(r.take(k)) == spec_flatten(r).take(spec_flatten(r.take(k)).len() as int),
    decreases r.len() - k,
{
    if k < r.len() {
        lemma_flatten_prefix(r, k + 1);
        assert(r.take(k + 1).drop_last() =~= r.take(k));
        let f1 = spec_flatten(r.take(k + 1));
        let f0 = spec_flatten(r.take(k));
        assert(f0 =~= f1.take(f0.len() as int));
        assert(spec_flatten(r).take(f0.len() as int) =~= spec_flatten(r).take(f1.len() as int).take(f0.len() as int));
    } else {
        assert(r.take(k) =~= r);
        assert(spec_flatten(r).take(spec_flatten(r).len() as int) =~= spec_flatten(r));
    }
}

} // verus!
