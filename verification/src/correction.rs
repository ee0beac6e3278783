//! Correction learning: personal conversion preferences extracted from the
//! observation log, deterministically. For each reading, the surface committed
//! most often (ties to the smallest surface) becomes the preferred one, once
//! it was committed at least a given number of times. A preference adds a bias
//! to its candidate when converting.

use vstd::prelude::*;
use crate::frequency::clamp_i32;
use crate::observation::ObservationEvent;
use crate::text::{
    chars_eq, chars_lt, chars_of, lemma_seq_lt_irreflexive, lemma_seq_lt_total,
    lemma_seq_lt_transitive, seq_lt, str_eq, string_of,
};

verus! {

/// The bias base of a matching preference: above learned words, so that a
/// confirmed personal preference comes first.
pub const CORRECTION_BOOST: i32 = 300_000;

/// One personal conversion preference.
#[derive(Debug, Clone, PartialEq, Eq)]
pub struct Preference {
    /// Reading (kana).
    pub reading: String,
    /// Preferred surface.
    pub prefer: String,
    /// Weight (from the number of observations; a tie-break in the bias).
    pub weight: u32,
    /// Number of observations it was learned from.
    pub seen: u32,
}

/// The view of a preference.
pub struct PrefView {
    /// Reading.
    pub reading: Seq<char>,
    /// Preferred surface.
    pub prefer: Seq<char>,
    /// Weight.
    pub weight: u32,
    /// Number of observations.
    pub seen: u32,
}

impl View for Preference {
    type V = PrefView;

    open spec fn view(&self) -> PrefView {
        PrefView { reading: self.reading@, prefer: self.prefer@, weight: self.weight, seen: self.seen }
    }
}

/// The views of preferences.
pub open spec fn prefs_view(v: Seq<Preference>) -> Seq<PrefView> {
    v.map_values(|p: Preference| p@)
}

/// All preferences (the content of the corrections file).
#[derive(Debug, Clone, PartialEq, Eq, Default)]
pub struct CorrectionStore {
    /// The preferences.
    pub preferences: Vec<Preference>,
}

/// The bias of a matching preference of weight `weight`: the boost plus ten
/// per unit of weight (the weight taken as an `i32`, the product saturating),
/// that part at most 50000.
pub open spec fn spec_pref_bias(weight: u32) -> i32 {
    let part = clamp_i32((weight as i32) * 10);
    (CORRECTION_BOOST + if part < 50000 { part as int } else { 50000 }) as i32
}

/// The bias for a reading and surface: that of the first matching preference,
/// 0 when none matches.
pub open spec fn spec_bias(ps: Seq<PrefView>, reading: Seq<char>, surface: Seq<char>) -> i32
    decreases ps.len(),
{
    if ps.len() == 0 {
        0
    } else if ps[0].reading == reading && ps[0].prefer == surface {
        spec_pref_bias(ps[0].weight)
    } else {
        spec_bias(ps.drop_first(), reading, surface)
    }
}

/// Law: a bias is 0 exactly when no preference matches the reading and surface,
/// and then lies between the boost and the boost plus 50000 for weights that fit
/// an `i32`.
pub proof fn lemma_bias_zero_iff_no_match(ps: Seq<PrefView>, reading: Seq<char>, surface: Seq<char>)
    requires
        forall|i: int| 0 <= i < ps.len() ==> #[trigger] ps[i].weight <= i32::MAX,
    ensures
        (spec_bias(ps, reading, surface) == 0) <==> !(exists|i: int| 0 <= i < ps.len() && #[trigger] ps[i].reading == reading && ps[i].prefer == surface),
        spec_bias(ps, reading, surface) != 0 ==> CORRECTION_BOOST <= spec_bias(ps, reading, surface) <= CORRECTION_BOOST + 50000,
    decreases ps.len(),
{
    if ps.len() > 0 {
        let w = ps[0].weight;
        assert(w as i32 == w);
        if !(ps[0].reading == reading && ps[0].prefer == surface) {
            assert forall|i: int| 0 <= i < ps.drop_first().len() implies #[trigger] ps.drop_first()[i].weight <= i32::MAX by {
                assert(ps.drop_first()[i] == ps[i + 1]);
            }
            lemma_bias_zero_iff_no_match(ps.drop_first(), reading, surface);
            if exists|i: int| 0 <= i < ps.len() && #[trigger] ps[i].reading == reading && ps[i].prefer == surface {
                let i = choose|i: int| 0 <= i < ps.len() && #[trigger] ps[i].reading == reading && ps[i].prefer == surface;
                assert(ps.drop_first()[i - 1] == ps[i]);
            }
            if exists|i: int| 0 <= i < ps.drop_first().len() && #[trigger] ps.drop_first()[i].reading == reading && ps.drop_first()[i].prefer == surface {
                let i = choose|i: int| 0 <= i < ps.drop_first().len() && #[trigger] ps.drop_first()[i].reading == reading && ps.drop_first()[i].prefer == surface;
                assert(ps[i + 1] == ps.drop_first()[i]);
            }
        }
    }
}

impl CorrectionStore {
    /// The bias to add to the candidate `surface` of `reading`: that of the
    /// first matching preference, 0 when none matches.
    pub fn bias(&self, reading: &str, surface: &str) -> (r: i32)
        ensures
            r == spec_bias(prefs_view(self.preferences@), reading@, surface@),
    {
        let ghost ps = prefs_view(self.preferences@);
        proof {
            assert(ps.skip(0) =~= ps);
        }
        let mut i: usize = 0;
        while i < self.preferences.len()
            invariant
                i <= self.preferences.len(),
                ps == prefs_view(self.preferences@),
                spec_bias(ps, reading@, surface@) == spec_bias(ps.skip(i as int), reading@, surface@),
            decreases self.preferences.len() - i,
        {
            let p = &self.preferences[i];
            proof {
                assert(ps.skip(i as int)[0] == p@);
                assert(ps.skip(i as int).drop_first() =~= ps.skip(i as int + 1));
            }
            if str_eq(p.reading.as_str(), reading) && str_eq(p.prefer.as_str(), surface) {
                let w = p.weight as i32;
                let prod: i64 = (w as i64) * 10;
                let part: i32 = if prod > 2147483647 {
                    i32::MAX
                } else if prod < -2147483648 {
                    i32::MIN
                } else {
                    prod as i32
                };
                let capped: i32 = if part < 50000 { part } else { 50000 };
                return CORRECTION_BOOST + capped;
            }
            i = i + 1;
        }
        proof {
            assert(ps.skip(i as int).len() == 0);
        }
        0
    }

    /// Whether there is no preference.
    pub fn is_empty(&self) -> (r: bool)
        ensures
            r == (self.preferences@.len() == 0),
    {
        self.preferences.len() == 0
    }

    /// Number of preferences.
    pub fn len(&self) -> (r: usize)
        ensures
            r == self.preferences@.len(),
    {
        self.preferences.len()
    }
}

// ------------------------------------------------------------ counting

/// Whether an event is a commit of `surface` for `reading`, both non-empty.
pub open spec fn spec_is_commit_of(e: ObservationEvent, reading: Seq<char>, surface: Seq<char>) -> bool {
    match e {
        ObservationEvent::Commit { reading: r, surface: s, .. } =>
            r@.len() > 0 && s@.len() > 0 && r@ == reading && s@ == surface,
        _ => false,
    }
}

/// How many events commit `surface` for `reading`.
pub open spec fn spec_commit_count(evs: Seq<ObservationEvent>, reading: Seq<char>, surface: Seq<char>) -> nat
    decreases evs.len(),
{
    if evs.len() == 0 {
        0
    } else {
        spec_commit_count(evs.drop_last(), reading, surface) + if spec_is_commit_of(evs.last(), reading, surface) {
            1nat
        } else {
            0nat
        }
    }
}

/// `surface` is the preferred surface of `reading`: committed, and every other
/// surface was committed fewer times, or as often and sorts after it.
pub open spec fn spec_best(evs: Seq<ObservationEvent>, reading: Seq<char>, surface: Seq<char>) -> bool {
    &&& spec_commit_count(evs, reading, surface) > 0
    &&& forall|t: Seq<char>|
        #[trigger] spec_commit_count(evs, reading, t) < spec_commit_count(evs, reading, surface)
            || (spec_commit_count(evs, reading, t) == spec_commit_count(evs, reading, surface) && (t == surface
            || seq_lt(surface, t)))
}

/// What extraction returns: one preference per reading whose preferred
/// surface was committed at least `min_seen` times, in ascending order of
/// reading, each with that surface and its count as weight and as `seen`.
pub open spec fn spec_extracted(evs: Seq<ObservationEvent>, min_seen: u32, ps: Seq<PrefView>) -> bool {
    &&& forall|i: int, j: int| 0 <= i < j < ps.len() ==> seq_lt(#[trigger] ps[i].reading, #[trigger] ps[j].reading)
    &&& forall|i: int| 0 <= i < ps.len() ==> {
        &&& spec_best(evs, #[trigger] ps[i].reading, ps[i].prefer)
        &&& ps[i].seen == spec_commit_count(evs, ps[i].reading, ps[i].prefer)
        &&& ps[i].weight == ps[i].seen
        &&& ps[i].seen >= min_seen
    }
    &&& forall|r: Seq<char>, s: Seq<char>|
        #[trigger] spec_commit_count(evs, r, s) > 0 && spec_commit_count(evs, r, s) >= min_seen ==>
        spec_has_reading(ps, r)
}

proof fn lemma_count_le_len(evs: Seq<ObservationEvent>, reading: Seq<char>, surface: Seq<char>)
    ensures
        spec_commit_count(evs, reading, surface) <= evs.len(),
    decreases evs.len(),
{
    if evs.len() > 0 {
        lemma_count_le_len(evs.drop_last(), reading, surface);
    }
}

/// Law: the preferred surface of a reading is unique.
pub proof fn lemma_best_unique(evs: Seq<ObservationEvent>, reading: Seq<char>, s1: Seq<char>, s2: Seq<char>)
    requires
        spec_best(evs, reading, s1),
        spec_best(evs, reading, s2),
    ensures
        s1 == s2,
{
    let c1 = spec_commit_count(evs, reading, s1);
    let c2 = spec_commit_count(evs, reading, s2);
    assert(c2 < c1 || (c2 == c1 && (s2 == s1 || seq_lt(s1, s2))));
    assert(c1 < c2 || (c1 == c2 && (s1 == s2 || seq_lt(s2, s1))));
    if s1 != s2 {
        lemma_seq_lt_transitive(s1, s2, s1);
        lemma_seq_lt_irreflexive(s1);
    }
}

/// Law: two results of extraction from the same events and threshold are
/// equal: extraction is deterministic.
pub proof fn lemma_extracted_unique(evs: Seq<ObservationEvent>, min_seen: u32, a: Seq<PrefView>, b: Seq<PrefView>)
    requires
        spec_extracted(evs, min_seen, a),
        spec_extracted(evs, min_seen, b),
    ensures
        a == b,
    decreases a.len() + b.len(),
{
    // every reading of one is a reading of the other
    assert forall|i: int| 0 <= i < a.len() implies spec_has_reading(b, #[trigger] a[i].reading) by {
        assert(spec_commit_count(evs, a[i].reading, a[i].prefer) > 0);
    }
    assert forall|j: int| 0 <= j < b.len() implies spec_has_reading(a, #[trigger] b[j].reading) by {
        assert(spec_commit_count(evs, b[j].reading, b[j].prefer) > 0);
    }
    lemma_sorted_same_keys(a, b);
    assert forall|i: int| 0 <= i < a.len() implies a[i] == b[i] by {
        lemma_best_unique(evs, a[i].reading, a[i].prefer, b[i].prefer);
    }
    assert(a =~= b);
}

/// Readings strictly ascending.
pub open spec fn spec_readings_sorted(a: Seq<PrefView>) -> bool {
    forall|i: int, j: int| 0 <= i < j < a.len() ==> seq_lt(#[trigger] a[i].reading, #[trigger] a[j].reading)
}

/// Some element of `b` has the reading `r`.
pub open spec fn spec_has_reading(b: Seq<PrefView>, r: Seq<char>) -> bool {
    exists|j: int| 0 <= j < b.len() && #[trigger] b[j].reading == r
}

/// Every reading of `a` is a reading of `b`.
pub open spec fn spec_readings_within(a: Seq<PrefView>, b: Seq<PrefView>) -> bool {
    forall|i: int| 0 <= i < a.len() ==> spec_has_reading(b, #[trigger] a[i].reading)
}

proof fn lemma_first_equal(a: Seq<PrefView>, b: Seq<PrefView>)
    requires
        a.len() > 0,
        b.len() > 0,
        spec_readings_sorted(a),
        spec_readings_sorted(b),
        spec_readings_within(a, b),
        spec_readings_within(b, a),
    ensures
        a[0].reading == b[0].reading,
{
    assert(spec_has_reading(b, a[0].reading));
    assert(spec_has_reading(a, b[0].reading));
    let ja = choose|j: int| 0 <= j < b.len() && #[trigger] b[j].reading == a[0].reading;
    let ib = choose|i: int| 0 <= i < a.len() && #[trigger] a[i].reading == b[0].reading;
    if ja > 0 {
        assert(seq_lt(b[0].reading, b[ja].reading));
        if ib > 0 {
            assert(seq_lt(a[0].reading, a[ib].reading));
            lemma_seq_lt_transitive(a[0].reading, b[0].reading, a[0].reading);
        }
        lemma_seq_lt_irreflexive(a[0].reading);
    }
}

proof fn lemma_tail_within(a: Seq<PrefView>, b: Seq<PrefView>)
    requires
        a.len() > 0,
        b.len() > 0,
        spec_readings_sorted(a),
        spec_readings_sorted(b),
        spec_readings_within(a, b),
        a[0].reading == b[0].reading,
    ensures
        spec_readings_within(a.drop_first(), b.drop_first()),
{
    let a2 = a.drop_first();
    let b2 = b.drop_first();
    assert forall|i: int| 0 <= i < a2.len() implies spec_has_reading(b2, #[trigger] a2[i].reading) by {
        assert(a2[i] == a[i + 1]);
        assert(spec_has_reading(b, a[i + 1].reading));
        let j = choose|j: int| 0 <= j < b.len() && #[trigger] b[j].reading == a[i + 1].reading;
        assert(seq_lt(a[0].reading, a[i + 1].reading));
        if j == 0 {
            lemma_seq_lt_irreflexive(a[0].reading);
        }
        assert(b2[j - 1] == b[j]);
        assert(b2[j - 1].reading == a2[i].reading);
    }
}

proof fn lemma_drop_first_sorted(a: Seq<PrefView>)
    requires
        a.len() > 0,
        spec_readings_sorted(a),
    ensures
        spec_readings_sorted(a.drop_first()),
{
    let a2 = a.drop_first();
    assert forall|i: int, j: int| 0 <= i < j < a2.len() implies seq_lt(#[trigger] a2[i].reading, #[trigger] a2[j].reading) by {
        assert(a2[i] == a[i + 1] && a2[j] == a[j + 1]);
    }
}

/// Two strictly sorted sequences with the same readings have equal readings
/// position by position.
proof fn lemma_sorted_same_keys(a: Seq<PrefView>, b: Seq<PrefView>)
    requires
        spec_readings_sorted(a),
        spec_readings_sorted(b),
        spec_readings_within(a, b),
        spec_readings_within(b, a),
    ensures
        a.len() == b.len(),
        forall|i: int| 0 <= i < a.len() ==> #[trigger] a[i].reading == b[i].reading,
    decreases a.len() + b.len(),
{
    if a.len() > 0 && b.len() > 0 {
        lemma_first_equal(a, b);
        lemma_tail_within(a, b);
        lemma_tail_within(b, a);
        lemma_drop_first_sorted(a);
        lemma_drop_first_sorted(b);
        let a2 = a.drop_first();
        let b2 = b.drop_first();
        lemma_sorted_same_keys(a2, b2);
        assert forall|i: int| 0 <= i < a.len() implies #[trigger] a[i].reading == b[i].reading by {
            if i > 0 {
                assert(a2[i - 1] == a[i]);
                assert(b2[i - 1] == b[i]);
            }
        }
    } else if a.len() > 0 {
        assert(spec_has_reading(b, a[0].reading));
    } else if b.len() > 0 {
        assert(spec_has_reading(a, b[0].reading));
    }
}

// ------------------------------------------------------------ extraction

/// Counted (reading, surface, count) triples.
pub type TallyView = Seq<(Seq<char>, Seq<char>, u32)>;

spec fn tally_view(v: Seq<(Vec<char>, Vec<char>, u32)>) -> TallyView {
    v.map_values(|x: (Vec<char>, Vec<char>, u32)| (x.0@, x.1@, x.2))
}

spec fn tally_has(t: TallyView, r: Seq<char>, s: Seq<char>) -> bool {
    exists|a: int| #![trigger t[a]] 0 <= a < t.len() && t[a].0 == r && t[a].1 == s
}

spec fn tally_has_reading(t: TallyView, r: Seq<char>) -> bool {
    exists|a: int| #![trigger t[a]] 0 <= a < t.len() && t[a].0 == r
}

/// The tally counts exactly the commits of `evs`: one triple per committed
/// pair, with its count.
spec fn tally_ok(t: TallyView, evs: Seq<ObservationEvent>) -> bool {
    &&& forall|a: int, b: int| 0 <= a < b < t.len() ==> !(#[trigger] t[a].0 == #[trigger] t[b].0 && t[a].1 == t[b].1)
    &&& forall|a: int| 0 <= a < t.len() ==> (#[trigger] t[a]).2 == spec_commit_count(evs, t[a].0, t[a].1) && t[a].2 > 0
    &&& forall|r: Seq<char>, s: Seq<char>| #[trigger] spec_commit_count(evs, r, s) > 0 ==> tally_has(t, r, s)
}

spec fn readings_has(rs: Seq<Seq<char>>, r: Seq<char>) -> bool {
    exists|a: int| 0 <= a < rs.len() && #[trigger] rs[a] == r
}

spec fn vecs_view(v: Seq<Vec<char>>) -> Seq<Seq<char>> {
    v.map_values(|x: Vec<char>| x@)
}

proof fn lemma_count_step(evs: Seq<ObservationEvent>, i: int)
    requires
        0 <= i < evs.len(),
    ensures
        forall|r: Seq<char>, s: Seq<char>| #[trigger] spec_commit_count(evs.take(i + 1), r, s)
            == spec_commit_count(evs.take(i), r, s) + if spec_is_commit_of(evs[i], r, s) { 1nat } else { 0nat },
{
    assert(evs.take(i + 1).drop_last() =~= evs.take(i));
    assert(evs.take(i + 1).last() == evs[i]);
}

/// Counts the commits of each (reading, surface) pair.
fn tally_commits(events: &[ObservationEvent]) -> (t: Vec<(Vec<char>, Vec<char>, u32)>)
    requires
        events@.len() <= u32::MAX,
    ensures
        tally_ok(tally_view(t@), events@),
{
    let ghost evs = events@;
    let mut t: Vec<(Vec<char>, Vec<char>, u32)> = Vec::new();
    let mut i: usize = 0;
    proof {
        assert(tally_view(t@) =~= TallyView::empty());
        assert forall|r: Seq<char>, s: Seq<char>| #[trigger] spec_commit_count(evs.take(0), r, s) > 0 implies tally_has(tally_view(t@), r, s) by {
            assert(evs.take(0).len() == 0);
        }
    }
    while i < events.len()
        invariant
            i <= events.len(),
            evs == events@,
            evs.len() <= u32::MAX,
            tally_ok(tally_view(t@), evs.take(i as int)),
        decreases events.len() - i,
    {
        proof {
            lemma_count_step(evs, i as int);
        }
        let ghost tv = tally_view(t@);
        let ghost e = evs[i as int];
        match &events[i] {
            ObservationEvent::Commit { reading, surface, .. } => {
                let rv = chars_of(reading.as_str());
                let sv = chars_of(surface.as_str());
                if rv.len() > 0 && sv.len() > 0 {
                    let mut a: usize = 0;
                    let mut found: Option<usize> = None;
                    while a < t.len()
                        invariant_except_break
                            found is None,
                        invariant
                            a <= t.len(),
                            tv == tally_view(t@),
                            forall|x: int| 0 <= x < a ==> !(#[trigger] tv[x].0 == rv@ && tv[x].1 == sv@),
                        ensures
                            match found {
                                Some(x) => x < t.len() && tv[x as int].0 == rv@ && tv[x as int].1 == sv@,
                                None => forall|x: int| 0 <= x < t.len() ==> !(#[trigger] tv[x].0 == rv@ && tv[x].1 == sv@),
                            },
                        decreases t.len() - a,
                    {
                        proof {
                            assert(tv[a as int] == (t@[a as int].0@, t@[a as int].1@, t@[a as int].2));
                        }
                        if chars_eq(&t[a].0, &rv) && chars_eq(&t[a].1, &sv) {
                            found = Some(a);
                            break;
                        }
                        a = a + 1;
                    }
                    proof {
                        assert(spec_is_commit_of(e, rv@, sv@));
                        assert forall|r: Seq<char>, s: Seq<char>| spec_is_commit_of(e, r, s) implies r == rv@ && s == sv@ by {}
                    }
                    match found {
                        Some(x) => {
                            let c0 = t[x].2;
                            proof {
                                assert(tv[x as int] == (t@[x as int].0@, t@[x as int].1@, t@[x as int].2));
                                lemma_count_le_len(evs.take(i as int), rv@, sv@);
                            }
                            t.set(x, (rv, sv, c0 + 1));
                            proof {
                                let nt = tally_view(t@);
                                assert(nt =~= tv.update(x as int, (tv[x as int].0, tv[x as int].1, (c0 + 1) as u32)));
                                assert forall|r: Seq<char>, s: Seq<char>| #[trigger] spec_commit_count(evs.take(i as int + 1), r, s) > 0 implies tally_has(nt, r, s) by {
                                    if spec_commit_count(evs.take(i as int), r, s) > 0 {
                                        assert(tally_has(tv, r, s));
                                        let b = choose|b: int| #![trigger tv[b]] 0 <= b < tv.len() && tv[b].0 == r && tv[b].1 == s;
                                        assert(nt[b].0 == r && nt[b].1 == s);
                                    } else {
                                        assert(nt[x as int].0 == r && nt[x as int].1 == s);
                                    }
                                }
                                assert forall|b: int| 0 <= b < nt.len() implies (#[trigger] nt[b]).2 == spec_commit_count(evs.take(i as int + 1), nt[b].0, nt[b].1) && nt[b].2 > 0 by {
                                    assert(tv[b].2 == spec_commit_count(evs.take(i as int), tv[b].0, tv[b].1));
                                }
                            }
                        },
                        None => {
                            let ghost rs = rv@;
                            let ghost ss = sv@;
                            t.push((rv, sv, 1));
                            proof {
                                let nt = tally_view(t@);
                                assert(nt =~= tv.push((rs, ss, 1u32)));
                                assert(!tally_has(tv, rs, ss));
                                assert(spec_commit_count(evs.take(i as int), rs, ss) == 0);
                                assert forall|r: Seq<char>, s: Seq<char>| #[trigger] spec_commit_count(evs.take(i as int + 1), r, s) > 0 implies tally_has(nt, r, s) by {
                                    if spec_commit_count(evs.take(i as int), r, s) > 0 {
                                        assert(tally_has(tv, r, s));
                                        let b = choose|b: int| #![trigger tv[b]] 0 <= b < tv.len() && tv[b].0 == r && tv[b].1 == s;
                                        assert(nt[b].0 == r && nt[b].1 == s);
                                    } else {
                                        assert(nt[tv.len() as int].0 == r && nt[tv.len() as int].1 == s);
                                    }
                                }
                                assert forall|b: int| 0 <= b < nt.len() implies (#[trigger] nt[b]).2 == spec_commit_count(evs.take(i as int + 1), nt[b].0, nt[b].1) && nt[b].2 > 0 by {
                                    if b < tv.len() {
                                        assert(tv[b].2 == spec_commit_count(evs.take(i as int), tv[b].0, tv[b].1));
                                    }
                                }
                            }
                        },
                    }
                } else {
                    proof {
                        assert forall|r: Seq<char>, s: Seq<char>| !spec_is_commit_of(e, r, s) by {}
                        assert forall|b: int| 0 <= b < tv.len() implies (#[trigger] tv[b]).2 == spec_commit_count(evs.take(i as int + 1), tv[b].0, tv[b].1) && tv[b].2 > 0 by {
                        }
                    }
                }
            },
            _ => {
                proof {
                    assert forall|r: Seq<char>, s: Seq<char>| !spec_is_commit_of(e, r, s) by {}
                    assert forall|b: int| 0 <= b < tv.len() implies (#[trigger] tv[b]).2 == spec_commit_count(evs.take(i as int + 1), tv[b].0, tv[b].1) && tv[b].2 > 0 by {
                    }
                }
            },
        }
        i = i + 1;
    }
    proof {
        assert(evs.take(i as int) =~= evs);
    }
    t
}

/// The distinct readings of a tally, in ascending order.
fn sorted_readings(t: &Vec<(Vec<char>, Vec<char>, u32)>) -> (rs: Vec<Vec<char>>)
    ensures
        forall|a: int, b: int| 0 <= a < b < rs@.len() ==> seq_lt(#[trigger] rs@[a]@, #[trigger] rs@[b]@),
        forall|a: int| 0 <= a < rs@.len() ==> tally_has_reading(tally_view(t@), #[trigger] rs@[a]@),
        forall|x: int| 0 <= x < t@.len() ==> readings_has(vecs_view(rs@), #[trigger] tally_view(t@)[x].0),
{
    let ghost tv = tally_view(t@);
    let mut rs: Vec<Vec<char>> = Vec::new();
    let mut x: usize = 0;
    while x < t.len()
        invariant
            x <= t.len(),
            tv == tally_view(t@),
            forall|a: int, b: int| 0 <= a < b < rs@.len() ==> seq_lt(#[trigger] rs@[a]@, #[trigger] rs@[b]@),
            forall|a: int| 0 <= a < rs@.len() ==> tally_has_reading(tv, #[trigger] rs@[a]@),
            forall|y: int| 0 <= y < x ==> readings_has(vecs_view(rs@), #[trigger] tv[y].0),
        decreases t.len() - x,
    {
        let key = &t[x].0;
        proof {
            assert(tv[x as int] == (t@[x as int].0@, t@[x as int].1@, t@[x as int].2));
        }
        let mut pos: usize = 0;
        while pos < rs.len() && chars_lt(&rs[pos], key)
            invariant
                pos <= rs.len(),
                forall|a: int| 0 <= a < pos ==> seq_lt(#[trigger] rs@[a]@, key@),
            decreases rs.len() - pos,
        {
            pos = pos + 1;
        }
        let present = pos < rs.len() && chars_eq(&rs[pos], key);
        if !present {
            proof {
                if pos < rs.len() {
                    lemma_seq_lt_total(rs@[pos as int]@, key@);
                    assert forall|a: int| pos < a < rs@.len() implies seq_lt(key@, #[trigger] rs@[a]@) by {
                        lemma_seq_lt_transitive(key@, rs@[pos as int]@, rs@[a]@);
                    }
                }
            }
            let ghost before = rs@;
            let k = key.clone();
            rs.insert(pos, k);
            proof {
                assert forall|a: int, b: int| 0 <= a < b < rs@.len() implies seq_lt(#[trigger] rs@[a]@, #[trigger] rs@[b]@) by {
                    if b < pos {
                        assert(rs@[a] == before[a] && rs@[b] == before[b]);
                    } else if b == pos {
                        assert(rs@[a] == before[a]);
                    } else if a < pos {
                        assert(rs@[a] == before[a] && rs@[b] == before[b - 1]);
                        lemma_seq_lt_transitive(before[a]@, key@, before[b - 1]@);
                    } else if a == pos {
                        assert(rs@[b] == before[b - 1]);
                    } else {
                        assert(rs@[a] == before[a - 1] && rs@[b] == before[b - 1]);
                    }
                }
                assert forall|a: int| 0 <= a < rs@.len() implies tally_has_reading(tv, #[trigger] rs@[a]@) by {
                    if a < pos {
                        assert(rs@[a] == before[a]);
                    } else if a > pos {
                        assert(rs@[a] == before[a - 1]);
                    } else {
                        assert(tv[x as int].0 == key@);
                    }
                }
                assert forall|y: int| 0 <= y < x + 1 implies readings_has(vecs_view(rs@), #[trigger] tv[y].0) by {
                    if y == x {
                        assert(vecs_view(rs@)[pos as int] == key@);
                    } else {
                        let a0 = choose|a: int| 0 <= a < vecs_view(before).len() && #[trigger] vecs_view(before)[a] == tv[y].0;
                        if a0 < pos {
                            assert(vecs_view(rs@)[a0] == tv[y].0);
                        } else {
                            assert(vecs_view(rs@)[a0 + 1] == tv[y].0);
                        }
                    }
                }
            }
        } else {
            proof {
                assert(vecs_view(rs@)[pos as int] == key@);
            }
        }
        x = x + 1;
    }
    rs
}

/// The preferred surface of a reading in a tally and its count: the highest
/// count, ties to the smallest surface.
fn best_for(t: &Vec<(Vec<char>, Vec<char>, u32)>, rd: &Vec<char>) -> (r: (Vec<char>, u32))
    requires
        tally_has_reading(tally_view(t@), rd@),
    ensures
        exists|y: int| #![trigger tally_view(t@)[y]] 0 <= y < t@.len() && tally_view(t@)[y].0 == rd@
            && tally_view(t@)[y].1 == r.0@ && tally_view(t@)[y].2 == r.1,
        forall|x: int| 0 <= x < t@.len() && (#[trigger] tally_view(t@)[x]).0 == rd@ ==>
            tally_view(t@)[x].2 < r.1 || (tally_view(t@)[x].2 == r.1 && (tally_view(t@)[x].1 == r.0@ || seq_lt(r.0@, tally_view(t@)[x].1))),
{
    let ghost tv = tally_view(t@);
    let mut best: Vec<char> = Vec::new();
    let mut count: u32 = 0;
    let mut found = false;
    let mut x: usize = 0;
    while x < t.len()
        invariant
            x <= t.len(),
            tv == tally_view(t@),
            found ==> exists|y: int| #![trigger tv[y]] 0 <= y < x && tv[y].0 == rd@ && tv[y].1 == best@ && tv[y].2 == count,
            !found ==> forall|y: int| 0 <= y < x ==> (#[trigger] tv[y]).0 != rd@,
            forall|y: int| 0 <= y < x && (#[trigger] tv[y]).0 == rd@ ==>
                tv[y].2 < count || (tv[y].2 == count && (tv[y].1 == best@ || seq_lt(best@, tv[y].1))),
        decreases t.len() - x,
    {
        proof {
            assert(tv[x as int] == (t@[x as int].0@, t@[x as int].1@, t@[x as int].2));
        }
        if chars_eq(&t[x].0, rd) {
            let c = t[x].2;
            if !found || c > count || (c == count && chars_lt(&t[x].1, &best)) {
                proof {
                    let s = t@[x as int].1@;
                    assert forall|y: int| 0 <= y < x && (#[trigger] tv[y]).0 == rd@ implies
                        tv[y].2 < c || (tv[y].2 == c && (tv[y].1 == s || seq_lt(s, tv[y].1))) by {
                        if found && c == count && tv[y].2 == count {
                            if tv[y].1 != best@ {
                                lemma_seq_lt_transitive(s, best@, tv[y].1);
                            }
                        }
                    }
                }
                best = t[x].1.clone();
                count = c;
                found = true;
            } else {
                proof {
                    let s = t@[x as int].1@;
                    if c == count {
                        lemma_seq_lt_total(s, best@);
                    }
                }
            }
        }
        x = x + 1;
    }
    proof {
        let y0 = choose|y: int| #![trigger tv[y]] 0 <= y < tv.len() && tv[y].0 == rd@;
        assert(found);
    }
    (best, count)
}

/// Extracts personal preferences from observed events: for each reading, the
/// surface committed most often (ties to the smallest surface), when it was
/// committed at least `min_seen` times, in ascending order of reading.
/// Only commits with a non-empty reading and surface count.
pub fn extract_corrections(events: &[ObservationEvent], min_seen: u32) -> (r: CorrectionStore)
    requires
        events@.len() <= u32::MAX,
    ensures
        spec_extracted(events@, min_seen, prefs_view(r.preferences@)),
{
    let ghost evs = events@;
    let t = tally_commits(events);
    let ghost tv = tally_view(t@);
    let rs = sorted_readings(&t);
    let ghost rsv = vecs_view(rs@);
    let mut out: Vec<Preference> = Vec::new();
    let mut k: usize = 0;
    while k < rs.len()
        invariant
            k <= rs.len(),
            tv == tally_view(t@),
            rsv == vecs_view(rs@),
            tally_ok(tv, evs),
            forall|a: int, b: int| 0 <= a < b < rs@.len() ==> seq_lt(#[trigger] rs@[a]@, #[trigger] rs@[b]@),
            forall|a: int| 0 <= a < rs@.len() ==> tally_has_reading(tv, #[trigger] rs@[a]@),
            forall|x: int| 0 <= x < tv.len() ==> readings_has(rsv, #[trigger] tv[x].0),
            forall|i: int, j: int| 0 <= i < j < out@.len() ==> seq_lt(#[trigger] out@[i]@.reading, #[trigger] out@[j]@.reading),
            forall|i: int| 0 <= i < out@.len() ==> {
                &&& spec_best(evs, #[trigger] out@[i]@.reading, out@[i]@.prefer)
                &&& out@[i]@.seen == spec_commit_count(evs, out@[i]@.reading, out@[i]@.prefer)
                &&& out@[i]@.weight == out@[i]@.seen
                &&& out@[i]@.seen >= min_seen
            },
            forall|i: int| 0 <= i < out@.len() ==> readings_has(rsv.take(k as int), #[trigger] out@[i]@.reading),
            forall|r: Seq<char>, s: Seq<char>|
                #[trigger] spec_commit_count(evs, r, s) > 0 && spec_commit_count(evs, r, s) >= min_seen
                    && readings_has(rsv.take(k as int), r) ==> spec_has_reading(prefs_view(out@), r),
        decreases rs.len() - k,
    {
        let rd = &rs[k];
        let (best, count) = best_for(&t, rd);
        proof {
            // the preferred surface of the reading, over all surfaces
            let y = choose|y: int| #![trigger tv[y]] 0 <= y < tv.len() && tv[y].0 == rd@ && tv[y].1 == best@ && tv[y].2 == count;
            assert(tv[y].2 == spec_commit_count(evs, tv[y].0, tv[y].1) && tv[y].2 > 0);
            assert forall|u: Seq<char>| #[trigger] spec_commit_count(evs, rd@, u) < spec_commit_count(evs, rd@, best@)
                || (spec_commit_count(evs, rd@, u) == spec_commit_count(evs, rd@, best@) && (u == best@ || seq_lt(best@, u))) by {
                if spec_commit_count(evs, rd@, u) > 0 {
                    assert(tally_has(tv, rd@, u));
                    let z = choose|z: int| #![trigger tv[z]] 0 <= z < tv.len() && tv[z].0 == rd@ && tv[z].1 == u;
                    assert(tv[z].2 == spec_commit_count(evs, tv[z].0, tv[z].1));
                }
            }
            assert(spec_best(evs, rd@, best@));
        }
        let ghost before = out@;
        if count >= min_seen {
            let p = Preference { reading: string_of(rd), prefer: string_of(&best), weight: count, seen: count };
            out.push(p);
            proof {
                assert(out@[before.len() as int]@.reading == rsv[k as int]);
                assert forall|i: int| 0 <= i < before.len() implies seq_lt(#[trigger] out@[i]@.reading, rsv[k as int]) by {
                    assert(out@[i] == before[i]);
                    assert(readings_has(rsv.take(k as int), before[i]@.reading));
                    let a = choose|a: int| 0 <= a < rsv.take(k as int).len() && #[trigger] rsv.take(k as int)[a] == before[i]@.reading;
                    assert(rs@[a]@ == rsv[a]);
                    assert(seq_lt(rs@[a]@, rs@[k as int]@));
                }
            }
        }
        proof {
            let ok = out@;
            assert(rsv.take(k as int + 1) =~= rsv.take(k as int).push(rsv[k as int]));
            assert forall|i: int, j: int| 0 <= i < j < ok.len() implies seq_lt(#[trigger] ok[i]@.reading, #[trigger] ok[j]@.reading) by {
                if j >= before.len() {
                    assert(ok[j]@.reading == rsv[k as int]);
                } else {
                    assert(ok[i] == before[i] && ok[j] == before[j]);
                }
            }
            assert forall|i: int| 0 <= i < ok.len() implies readings_has(rsv.take(k as int + 1), #[trigger] ok[i]@.reading) by {
                if i < before.len() {
                    assert(ok[i] == before[i]);
                    let a = choose|a: int| 0 <= a < rsv.take(k as int).len() && #[trigger] rsv.take(k as int)[a] == before[i]@.reading;
                    assert(rsv.take(k as int + 1)[a] == rsv.take(k as int)[a]);
                } else {
                    assert(rsv.take(k as int + 1)[k as int] == rsv[k as int]);
                }
            }
            assert forall|i: int| 0 <= i < ok.len() implies {
                &&& spec_best(evs, #[trigger] ok[i]@.reading, ok[i]@.prefer)
                &&& ok[i]@.seen == spec_commit_count(evs, ok[i]@.reading, ok[i]@.prefer)
                &&& ok[i]@.weight == ok[i]@.seen
                &&& ok[i]@.seen >= min_seen
            } by {
                if i < before.len() {
                    assert(ok[i] == before[i]);
                }
            }
            assert forall|r: Seq<char>, s: Seq<char>|
                #[trigger] spec_commit_count(evs, r, s) > 0 && spec_commit_count(evs, r, s) >= min_seen
                    && readings_has(rsv.take(k as int + 1), r) implies spec_has_reading(prefs_view(ok), r) by {
                let a = choose|a: int| 0 <= a < rsv.take(k as int + 1).len() && #[trigger] rsv.take(k as int + 1)[a] == r;
                if a < k {
                    assert(rsv.take(k as int)[a] == r);
                    assert(spec_has_reading(prefs_view(before), r));
                    let j = choose|j: int| 0 <= j < prefs_view(before).len() && #[trigger] prefs_view(before)[j].reading == r;
                    assert(prefs_view(ok)[j] == prefs_view(before)[j]);
                } else {
                    assert(r == rd@);
                    assert(spec_commit_count(evs, rd@, s) <= spec_commit_count(evs, rd@, best@));
                    assert(prefs_view(ok)[before.len() as int].reading == r);
                }
            }
        }
        k = k + 1;
    }
    proof {
        assert(rsv.take(k as int) =~= rsv);
        let ps = prefs_view(out@);
        assert forall|i: int, j: int| 0 <= i < j < ps.len() implies seq_lt(#[trigger] ps[i].reading, #[trigger] ps[j].reading) by {
            assert(ps[i] == out@[i]@ && ps[j] == out@[j]@);
        }
        assert forall|i: int| 0 <= i < ps.len() implies {
            &&& spec_best(evs, #[trigger] ps[i].reading, ps[i].prefer)
            &&& ps[i].seen == spec_commit_count(evs, ps[i].reading, ps[i].prefer)
            &&& ps[i].weight == ps[i].seen
            &&& ps[i].seen >= min_seen
        } by {
            assert(ps[i] == out@[i]@);
        }
        assert forall|r: Seq<char>, s: Seq<char>|
            #[trigger] spec_commit_count(evs, r, s) > 0 && spec_commit_count(evs, r, s) >= min_seen implies spec_has_reading(ps, r) by {
            assert(tally_has(tv, r, s));
            let x = choose|x: int| #![trigger tv[x]] 0 <= x < tv.len() && tv[x].0 == r && tv[x].1 == s;
            assert(readings_has(rsv, tv[x].0));
        }
    }
    CorrectionStore { preferences: out }
}

} // verus!
