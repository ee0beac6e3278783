//! Conversion candidates and candidate lists.

use vstd::prelude::*;

verus! {

/// Where a candidate comes from.
#[derive(Debug, Clone, Copy, PartialEq, Eq, Structural)]
pub enum CandidateSource {
    /// The system dictionary.
    System,
    /// The user dictionary.
    User,
    /// Learning data.
    Learned,
}

/// A conversion candidate.
#[derive(Debug, PartialEq, Eq)]
pub struct Candidate {
    /// The surface form (the converted text).
    pub surface: String,
    /// The reading.
    pub reading: String,
    /// Part of speech.
    pub pos: Option<String>,
    /// Score; higher comes first.
    pub score: i32,
    /// Where the candidate comes from.
    pub source: CandidateSource,
}

/// The characters of an optional string.
pub open spec fn opt_str_view(o: Option<String>) -> Option<Seq<char>> {
    match o {
        Some(s) => Some(s@),
        None => None,
    }
}

/// The view of a candidate: its strings as character sequences.
pub struct CandidateView {
    /// The surface form.
    pub surface: Seq<char>,
    /// The reading.
    pub reading: Seq<char>,
    /// Part of speech.
    pub pos: Option<Seq<char>>,
    /// Score.
    pub score: i32,
    /// Source.
    pub source: CandidateSource,
}

impl View for Candidate {
    type V = CandidateView;

    open spec fn view(&self) -> CandidateView {
        CandidateView {
            surface: self.surface@,
            reading: self.reading@,
            pos: opt_str_view(self.pos),
            score: self.score,
            source: self.source,
        }
    }
}

/// The views of candidates.
pub open spec fn cands_view(v: Seq<Candidate>) -> Seq<CandidateView> {
    v.map_values(|c: Candidate| c@)
}

/// A copy of an optional string.
pub fn clone_opt_string(o: &Option<String>) -> (r: Option<String>)
    ensures
        r == *o,
{
    match o {
        Some(s) => Some(s.clone()),
        None => None,
    }
}

impl Clone for Candidate {
    fn clone(&self) -> (r: Self)
        ensures
            r == *self,
    {
        Candidate {
            surface: self.surface.clone(),
            reading: self.reading.clone(),
            pos: clone_opt_string(&self.pos),
            score: self.score,
            source: self.source,
        }
    }
}

impl Candidate {
    /// A candidate with score 0, no part of speech, from the system dictionary.
    pub fn new(surface: &str, reading: &str) -> (r: Self)
        ensures
            r.surface@ == surface@,
            r.reading@ == reading@,
            r.pos is None,
            r.score == 0,
            r.source == CandidateSource::System,
    {
        Candidate {
            surface: surface.to_owned(),
            reading: reading.to_owned(),
            pos: None,
            score: 0,
            source: CandidateSource::System,
        }
    }

    /// The same candidate with another score.
    pub fn with_score(self, score: i32) -> (r: Self)
        ensures
            r == (Candidate { score, ..self }),
    {
        let mut c = self;
        c.score = score;
        c
    }

    /// The same candidate with a part of speech.
    pub fn with_pos(self, pos: &str) -> (r: Self)
        ensures
            r.surface == self.surface,
            r.reading == self.reading,
            r.score == self.score,
            r.source == self.source,
            r.pos is Some && r.pos.unwrap()@ == pos@,
    {
        let mut c = self;
        c.pos = Some(pos.to_owned());
        c
    }

    /// The same candidate from another source.
    pub fn with_source(self, source: CandidateSource) -> (r: Self)
        ensures
            r == (Candidate { source, ..self }),
    {
        let mut c = self;
        c.source = source;
        c
    }
}

// ------------------------------------------------------------- sorting

/// Index of the first element at or after `i` whose score is below `score`
/// (the length when there is none).
pub open spec fn spec_first_below(s: Seq<CandidateView>, score: i32, i: int) -> int
    decreases s.len() - i,
{
    if i < 0 || i >= s.len() {
        s.len() as int
    } else if s[i].score < score {
        i
    } else {
        spec_first_below(s, score, i + 1)
    }
}

/// Inserts `c` after every element whose score is at least its own.
pub open spec fn spec_insert_by_score(s: Seq<CandidateView>, c: CandidateView) -> Seq<CandidateView> {
    s.insert(spec_first_below(s, c.score, 0), c)
}

/// Stable sort by descending score: each element, taken in order, is inserted
/// after the elements already placed whose score is at least its own, so
/// elements of equal score keep their order.
pub open spec fn spec_sort_by_score(s: Seq<CandidateView>) -> Seq<CandidateView>
    decreases s.len(),
{
    if s.len() == 0 {
        s
    } else {
        spec_insert_by_score(spec_sort_by_score(s.drop_last()), s.last())
    }
}

/// Scores do not increase along the sequence.
pub open spec fn spec_sorted_by_score(s: Seq<CandidateView>) -> bool {
    forall|i: int, j: int| 0 <= i < j < s.len() ==> s[i].score >= s[j].score
}

proof fn lemma_first_below(s: Seq<CandidateView>, score: i32, i: int)
    requires
        0 <= i <= s.len(),
    ensures
        i <= spec_first_below(s, score, i) <= s.len(),
        forall|j: int| i <= j < spec_first_below(s, score, i) ==> s[j].score >= score,
        spec_first_below(s, score, i) < s.len() ==> s[spec_first_below(s, score, i)].score < score,
    decreases s.len() - i,
{
    if i < s.len() && s[i].score >= score {
        lemma_first_below(s, score, i + 1);
    }
}

/// Law: the stable sort yields scores in non-increasing order and keeps every element.
pub proof fn lemma_sort_by_score(s: Seq<CandidateView>)
    ensures
        spec_sorted_by_score(spec_sort_by_score(s)),
        spec_sort_by_score(s).to_multiset() == s.to_multiset(),
        spec_sort_by_score(s).len() == s.len(),
    decreases s.len(),
{
    if s.len() > 0 {
        let t = spec_sort_by_score(s.drop_last());
        lemma_sort_by_score(s.drop_last());
        let c = s.last();
        let p = spec_first_below(t, c.score, 0);
        lemma_first_below(t, c.score, 0);
        let r = t.insert(p, c);
        assert forall|i: int, j: int| 0 <= i < j < r.len() implies r[i].score >= r[j].score by {
            if j < p {
            } else if j == p {
                assert(r[i] == t[i]);
            } else if i < p {
                assert(r[j] == t[j - 1]);
                assert(r[i] == t[i]);
                if p < t.len() {
                    assert(t[p].score < c.score);
                }
                assert(t[i].score >= t[j - 1].score);
            } else if i == p {
                assert(r[j] == t[j - 1]);
                if p < t.len() {
                    assert(t[p].score < c.score);
                    assert(t[p].score >= t[j - 1].score || p == j - 1);
                }
            } else {
                assert(r[j] == t[j - 1]);
                assert(r[i] == t[i - 1]);
            }
        }
        broadcast use vstd::seq_lib::group_seq_properties;
        assert(r.to_multiset() =~= t.to_multiset().insert(c)) by {
            vstd::seq_lib::lemma_multiset_commutative(t.take(p), seq![c] + t.skip(p));
            vstd::seq_lib::lemma_multiset_commutative(seq![c], t.skip(p));
            vstd::seq_lib::lemma_multiset_commutative(t.take(p), t.skip(p));
            assert(r =~= t.take(p) + (seq![c] + t.skip(p)));
            assert(t =~= t.take(p) + t.skip(p));
        }
        assert(s =~= s.drop_last().push(c));
    }
}

// ------------------------------------------------------------- merging

/// Whether some candidate has the surface `surface`.
pub open spec fn spec_has_surface(s: Seq<CandidateView>, surface: Seq<char>) -> bool {
    exists|i: int| 0 <= i < s.len() && #[trigger] s[i].surface == surface
}

/// Appends `c` unless a candidate with its surface is already there.
pub open spec fn spec_add_one(acc: Seq<CandidateView>, c: CandidateView) -> Seq<CandidateView> {
    if spec_has_surface(acc, c.surface) {
        acc
    } else {
        acc.push(c)
    }
}

/// Appends the candidates of `cs` in order, each unless its surface is
/// already there.
pub open spec fn spec_add_unique(acc: Seq<CandidateView>, cs: Seq<CandidateView>) -> Seq<CandidateView>
    decreases cs.len(),
{
    if cs.len() == 0 {
        acc
    } else {
        spec_add_one(spec_add_unique(acc, cs.drop_last()), cs.last())
    }
}

/// The candidates with their source replaced.
pub open spec fn spec_with_source(cs: Seq<CandidateView>, source: CandidateSource) -> Seq<CandidateView> {
    cs.map_values(|c: CandidateView| CandidateView { source, ..c })
}

/// No two candidates have the same surface.
pub open spec fn spec_surfaces_distinct(s: Seq<CandidateView>) -> bool {
    forall|i: int, j: int| 0 <= i < j < s.len() ==> s[i].surface != s[j].surface
}

/// Law: merging keeps surfaces distinct, keeps what was there in front, and
/// leaves every merged surface present.
pub proof fn lemma_add_unique(acc: Seq<CandidateView>, cs: Seq<CandidateView>)
    ensures
        spec_surfaces_distinct(acc) ==> spec_surfaces_distinct(spec_add_unique(acc, cs)),
        spec_add_unique(acc, cs).len() >= acc.len(),
        spec_add_unique(acc, cs).take(acc.len() as int) == acc,
        forall|i: int| 0 <= i < cs.len() ==> spec_has_surface(spec_add_unique(acc, cs), #[trigger] cs[i].surface),
        forall|i: int| 0 <= i < acc.len() ==> spec_has_surface(spec_add_unique(acc, cs), #[trigger] acc[i].surface),
    decreases cs.len(),
{
    if cs.len() > 0 {
        lemma_add_unique(acc, cs.drop_last());
        let r = spec_add_unique(acc, cs.drop_last());
        let c = cs.last();
        let r2 = spec_add_one(r, c);
        if !spec_has_surface(r, c.surface) {
            assert(r2.take(acc.len() as int) =~= r.take(acc.len() as int));
            assert(r2[r.len() as int].surface == c.surface);
        } else {
            let k = choose|k: int| 0 <= k < r.len() && #[trigger] r[k].surface == c.surface;
            assert(r2[k].surface == c.surface);
        }
        assert forall|i: int| 0 <= i < cs.len() implies spec_has_surface(r2, #[trigger] cs[i].surface) by {
            if i < cs.len() - 1 {
                assert(cs.drop_last()[i] == cs[i]);
                let k = choose|k: int| 0 <= k < r.len() && #[trigger] r[k].surface == cs[i].surface;
                assert(r2[k] == r[k]);
            }
        }
        assert forall|i: int| 0 <= i < acc.len() implies spec_has_surface(r2, #[trigger] acc[i].surface) by {
            let k = choose|k: int| 0 <= k < r.len() && #[trigger] r[k].surface == acc[i].surface;
            assert(r2[k] == r[k]);
        }
    }
}

/// Whether a candidate in `v` has the surface `surface`.
pub fn surface_in(v: &Vec<Candidate>, surface: &str) -> (r: bool)
    ensures
        r == spec_has_surface(cands_view(v@), surface@),
{
    let mut i: usize = 0;
    while i < v.len()
        invariant
            i <= v.len(),
            forall|j: int| 0 <= j < i ==> v@[j].surface@ != surface@,
        decreases v.len() - i,
    {
        if crate::text::str_eq(v[i].surface.as_str(), surface) {
            assert(cands_view(v@)[i as int].surface == surface@);
            return true;
        }
        i = i + 1;
    }
    proof {
        assert forall|j: int| 0 <= j < cands_view(v@).len() implies #[trigger] cands_view(v@)[j].surface != surface@ by {
            assert(cands_view(v@)[j] == v@[j]@);
        }
    }
    false
}

/// Appends `c` unless a candidate with its surface is already in `v`.
pub fn push_unique(v: &mut Vec<Candidate>, c: Candidate)
    ensures
        cands_view(final(v)@) == spec_add_one(cands_view(old(v)@), c@),
{
    if !surface_in(v, c.surface.as_str()) {
        let ghost before = v@;
        let ghost cv = c@;
        v.push(c);
        proof {
            assert(cands_view(v@) =~= cands_view(before).push(cv));
        }
    }
}

/// Appends the candidates of `cs`, all of them, with source `source`.
pub fn append_with_source(v: &mut Vec<Candidate>, cs: Vec<Candidate>, source: CandidateSource)
    ensures
        cands_view(final(v)@) == cands_view(old(v)@) + spec_with_source(cands_view(cs@), source),
{
    let ghost start = cands_view(v@);
    let ghost all = spec_with_source(cands_view(cs@), source);
    let mut i: usize = 0;
    while i < cs.len()
        invariant
            i <= cs.len(),
            all == spec_with_source(cands_view(cs@), source),
            cands_view(v@) == start + all.take(i as int),
        decreases cs.len() - i,
    {
        let c = cs[i].clone().with_source(source);
        let ghost before = v@;
        proof {
            assert(c@ == all[i as int]);
        }
        let ghost cv = c@;
        v.push(c);
        proof {
            assert(cands_view(v@) =~= cands_view(before).push(cv));
            assert(all.take(i as int + 1) =~= all.take(i as int).push(cv));
        }
        i = i + 1;
        proof {
            assert(cands_view(v@) =~= start + all.take(i as int));
        }
    }
    proof {
        assert(all.take(i as int) =~= all);
    }
}

/// Appends the candidates of `cs` as they are, each unless its surface is
/// already in `v`.
pub fn append_unique_as_is(v: &mut Vec<Candidate>, cs: Vec<Candidate>)
    ensures
        cands_view(final(v)@) == spec_add_unique(cands_view(old(v)@), cands_view(cs@)),
{
    let ghost start = cands_view(v@);
    let ghost all = cands_view(cs@);
    let mut i: usize = 0;
    while i < cs.len()
        invariant
            i <= cs.len(),
            all == cands_view(cs@),
            cands_view(v@) == spec_add_unique(start, all.take(i as int)),
        decreases cs.len() - i,
    {
        proof {
            assert(all.take(i as int + 1).drop_last() =~= all.take(i as int));
            assert(all.take(i as int + 1).last() == all[i as int]);
        }
        let c = cs[i].clone();
        push_unique(v, c);
        i = i + 1;
    }
    proof {
        assert(all.take(i as int) =~= all);
    }
}

/// Appends the candidates of `cs` with source `source`, each unless its
/// surface is already in `v`.
pub fn append_unique(v: &mut Vec<Candidate>, cs: Vec<Candidate>, source: CandidateSource)
    ensures
        cands_view(final(v)@) == spec_add_unique(cands_view(old(v)@), spec_with_source(cands_view(cs@), source)),
{
    let ghost start = cands_view(v@);
    let ghost all = spec_with_source(cands_view(cs@), source);
    let mut i: usize = 0;
    while i < cs.len()
        invariant
            i <= cs.len(),
            all == spec_with_source(cands_view(cs@), source),
            cands_view(v@) == spec_add_unique(start, all.take(i as int)),
        decreases cs.len() - i,
    {
        proof {
            assert(all.take(i as int + 1).drop_last() =~= all.take(i as int));
        }
        let c = cs[i].clone().with_source(source);
        proof {
            assert(c@ == all[i as int]);
            assert(all.take(i as int + 1).last() == all[i as int]);
        }
        push_unique(v, c);
        i = i + 1;
    }
    proof {
        assert(all.take(i as int) =~= all);
    }
}

/// Law: sorting by score keeps the surfaces that are offered, and keeps them
/// distinct when they were.
pub proof fn lemma_sort_keeps_surfaces(s: Seq<CandidateView>)
    ensures
        forall|x: Seq<char>| spec_has_surface(spec_sort_by_score(s), x) <==> spec_has_surface(s, x),
        spec_surfaces_distinct(s) ==> spec_surfaces_distinct(spec_sort_by_score(s)),
{
    broadcast use vstd::seq_lib::group_seq_properties;
    broadcast use vstd::multiset::group_multiset_axioms;
    let t = spec_sort_by_score(s);
    lemma_sort_by_score(s);
    assert forall|x: Seq<char>| spec_has_surface(t, x) <==> spec_has_surface(s, x) by {
        if spec_has_surface(t, x) {
            let j = choose|j: int| 0 <= j < t.len() && #[trigger] t[j].surface == x;
            assert(t.contains(t[j]));
            assert(t.to_multiset().count(t[j]) > 0);
            assert(s.contains(t[j]));
            let k = choose|k: int| 0 <= k < s.len() && s[k] == t[j];
            assert(s[k].surface == x);
        }
        if spec_has_surface(s, x) {
            let j = choose|j: int| 0 <= j < s.len() && #[trigger] s[j].surface == x;
            assert(s.contains(s[j]));
            assert(s.to_multiset().count(s[j]) > 0);
            assert(t.contains(s[j]));
            let k = choose|k: int| 0 <= k < t.len() && t[k] == s[j];
            assert(t[k].surface == x);
        }
    }
    if spec_surfaces_distinct(s) {
        assert(s.no_duplicates()) by {
            assert forall|i: int, j: int| 0 <= i < s.len() && 0 <= j < s.len() && i != j implies s[i] != s[j] by {
                if i < j {
                    assert(s[i].surface != s[j].surface);
                } else {
                    assert(s[j].surface != s[i].surface);
                }
            }
        }
        s.lemma_multiset_has_no_duplicates();
        t.lemma_multiset_has_no_duplicates_conv();
        assert forall|i: int, j: int| 0 <= i < j < t.len() implies t[i].surface != t[j].surface by {
            if t[i].surface == t[j].surface {
                assert(t[i] != t[j]);
                assert(t.contains(t[i]) && t.contains(t[j]));
                assert(t.to_multiset().count(t[i]) > 0 && t.to_multiset().count(t[j]) > 0);
                assert(s.contains(t[i]) && s.contains(t[j]));
                let p = choose|p: int| 0 <= p < s.len() && s[p] == t[i];
                let q = choose|q: int| 0 <= q < s.len() && s[q] == t[j];
                if p < q {
                    assert(s[p].surface != s[q].surface);
                } else {
                    assert(s[q].surface != s[p].surface);
                }
            }
        }
    }
}

// ------------------------------------------------------------- lists

/// A list of conversion candidates with a selection cursor.
#[derive(Debug)]
pub struct CandidateList {
    candidates: Vec<Candidate>,
    selected: usize,
}

impl CandidateList {
    #[verifier::type_invariant]
    spec fn inv(self) -> bool {
        self.selected == 0 || self.selected < self.candidates.len()
    }

    /// The candidates, in order.
    pub closed spec fn items(&self) -> Seq<CandidateView> {
        cands_view(self.candidates@)
    }

    /// The selection cursor.
    pub closed spec fn cursor(&self) -> nat {
        self.selected as nat
    }

    /// An empty list.
    pub fn new() -> (r: Self)
        ensures
            r.items() == Seq::<CandidateView>::empty(),
            r.cursor() == 0,
    {
        let r = CandidateList { candidates: Vec::new(), selected: 0 };
        proof {
            assert(r.items() =~= Seq::<CandidateView>::empty());
        }
        r
    }

    /// A list of these candidates, the first selected.
    pub fn from_candidates(candidates: Vec<Candidate>) -> (r: Self)
        ensures
            r.items() == cands_view(candidates@),
            r.cursor() == 0,
    {
        CandidateList { candidates, selected: 0 }
    }

    /// Appends a candidate.
    pub fn push(&mut self, candidate: Candidate)
        ensures
            final(self).items() == old(self).items().push(candidate@),
            final(self).cursor() == old(self).cursor(),
    {
        proof {
            use_type_invariant(&*self);
        }
        let sel = self.selected;
        self.selected = 0;
        let mut v: Vec<Candidate> = Vec::new();
        core::mem::swap(&mut v, &mut self.candidates);
        let ghost before = v@;
        v.push(candidate);
        proof {
            assert(cands_view(v@) =~= cands_view(before).push(candidate@));
        }
        self.candidates = v;
        self.selected = sel;
    }

    /// Sorts the candidates by descending score, keeping the order of equal
    /// scores (the cursor is not moved).
    pub fn sort_by_score(&mut self)
        ensures
            final(self).items() == spec_sort_by_score(old(self).items()),
            final(self).cursor() == old(self).cursor(),
    {
        proof {
            use_type_invariant(&*self);
        }
        let sel = self.selected;
        self.selected = 0;
        let mut old_items: Vec<Candidate> = Vec::new();
        core::mem::swap(&mut old_items, &mut self.candidates);
        let mut sorted: Vec<Candidate> = Vec::new();
        let mut i: usize = 0;
        while i < old_items.len()
            invariant
                i <= old_items.len(),
                cands_view(old_items@) == old(self).items(),
                cands_view(sorted@) == spec_sort_by_score(cands_view(old_items@).take(i as int)),
            decreases old_items.len() - i,
        {
            let ghost vs = cands_view(old_items@);
            proof {
                assert(vs.take(i as int + 1).drop_last() =~= vs.take(i as int));
                assert(vs.take(i as int + 1).last() == old_items@[i as int]@);
            }
            let c = old_items[i].clone();
            let mut p: usize = 0;
            while p < sorted.len() && sorted[p].score >= c.score
                invariant
                    p <= sorted.len(),
                    spec_first_below(cands_view(sorted@), c.score, 0) == spec_first_below(cands_view(sorted@), c.score, p as int),
                decreases sorted.len() - p,
            {
                p = p + 1;
            }
            let ghost before = sorted@;
            sorted.insert(p, c);
            proof {
                assert(cands_view(sorted@) =~= cands_view(before).insert(p as int, c@));
            }
            i = i + 1;
        }
        proof {
            assert(cands_view(old_items@).take(old_items@.len() as int) =~= cands_view(old_items@));
            lemma_sort_by_score(cands_view(old_items@));
            assert(sorted@.len() == cands_view(sorted@).len());
        }
        self.candidates = sorted;
        self.selected = sel;
    }

    /// Number of candidates.
    pub fn len(&self) -> (r: usize)
        ensures
            r == self.items().len(),
    {
        self.candidates.len()
    }

    /// Whether there is no candidate.
    pub fn is_empty(&self) -> (r: bool)
        ensures
            r == (self.items().len() == 0),
    {
        self.candidates.len() == 0
    }

    /// The selected candidate (none for an empty list).
    pub fn selected(&self) -> (r: Option<&Candidate>)
        ensures
            match r {
                Some(c) => self.cursor() < self.items().len() && c@ == self.items()[self.cursor() as int],
                None => self.cursor() >= self.items().len(),
            },
    {
        if self.selected < self.candidates.len() {
            Some(&self.candidates[self.selected])
        } else {
            None
        }
    }

    /// The index of the selected candidate.
    pub fn selected_index(&self) -> (r: usize)
        ensures
            r == self.cursor(),
            r == 0 || r < self.items().len(),
    {
        proof {
            use_type_invariant(self);
        }
        self.selected
    }

    /// Selects the next candidate, wrapping from the last to the first.
    pub fn select_next(&mut self)
        ensures
            final(self).items() == old(self).items(),
            old(self).items().len() == 0 ==> final(self).cursor() == old(self).cursor(),
            old(self).items().len() > 0 ==> final(self).cursor() == (old(self).cursor() + 1) % old(self).items().len(),
    {
        proof {
            use_type_invariant(&*self);
        }
        if self.candidates.len() != 0 {
            self.selected = (self.selected + 1) % self.candidates.len();
        }
    }

    /// Selects the previous candidate, wrapping from the first to the last.
    pub fn select_prev(&mut self)
        ensures
            final(self).items() == old(self).items(),
            old(self).items().len() == 0 ==> final(self).cursor() == old(self).cursor(),
            old(self).items().len() > 0 ==> final(self).cursor() == (if old(self).cursor() == 0 {
                old(self).items().len() - 1
            } else {
                old(self).cursor() - 1
            }),
    {
        proof {
            use_type_invariant(&*self);
        }
        if self.candidates.len() != 0 {
            self.selected = if self.selected == 0 {
                self.candidates.len() - 1
            } else {
                self.selected - 1
            };
        }
    }

    /// Selects the candidate at `index`; an index out of range is ignored.
    pub fn select(&mut self, index: usize)
        ensures
            final(self).items() == old(self).items(),
            final(self).cursor() == (if index < old(self).items().len() {
                index as nat
            } else {
                old(self).cursor()
            }),
    {
        proof {
            use_type_invariant(&*self);
        }
        if index < self.candidates.len() {
            self.selected = index;
        }
    }

    /// All candidates.
    pub fn all(&self) -> (r: &[Candidate])
        ensures
            cands_view(r@) == self.items(),
    {
        self.candidates.as_slice()
    }

    /// The candidate at `index`, if there is one.
    pub fn get(&self, index: usize) -> (r: Option<&Candidate>)
        ensures
            match r {
                Some(c) => index < self.items().len() && c@ == self.items()[index as int],
                None => index >= self.items().len(),
            },
    {
        if index < self.candidates.len() {
            Some(&self.candidates[index])
        } else {
            None
        }
    }

    /// An iterator over the candidates.
    pub fn iter(&self) -> (r: std::slice::Iter<'_, Candidate>)
        ensures
            cands_view(vstd::std_specs::slice::into_iter_elts(r)) == self.items(),
    {
        proof {
            broadcast use vstd::std_specs::slice::axiom_spec_slice_iter;
        }
        let r = self.candidates.as_slice().iter();
        proof {
            assert(vstd::std_specs::slice::into_iter_elts(r) =~= self.candidates@);
        }
        r
    }

    /// Whether some candidate has the surface `surface`.
    pub fn contains_surface(&self, surface: &str) -> (r: bool)
        ensures
            r == exists|i: int| 0 <= i < self.items().len() && #[trigger] self.items()[i].surface == surface@,
    {
        let mut i: usize = 0;
        while i < self.candidates.len()
            invariant
                i <= self.candidates.len(),
                forall|j: int| 0 <= j < i ==> self.candidates@[j].surface@ != surface@,
                self.items() == cands_view(self.candidates@),
            decreases self.candidates.len() - i,
        {
            if crate::text::str_eq(self.candidates[i].surface.as_str(), surface) {
                assert(self.items()[i as int].surface == surface@);
                return true;
            }
            i = i + 1;
        }
        proof {
            assert forall|j: int| 0 <= j < self.items().len() implies #[trigger] self.items()[j].surface != surface@ by {
                assert(self.items()[j] == self.candidates@[j]@);
            }
        }
        false
    }

    /// The candidates, consuming the list.
    pub fn into_vec(self) -> (r: Vec<Candidate>)
        ensures
            cands_view(r@) == self.items(),
    {
        self.candidates
    }
}

impl Default for CandidateList {
    fn default() -> (r: Self)
        ensures
            r.items() == Seq::<CandidateView>::empty(),
            r.cursor() == 0,
    {
        CandidateList::new()
    }
}

impl Clone for CandidateList {
    fn clone(&self) -> (r: Self)
        ensures
            r.items() == self.items(),
            r.cursor() == self.cursor(),
    {
        proof {
            use_type_invariant(self);
        }
        let mut v: Vec<Candidate> = Vec::new();
        let mut i: usize = 0;
        while i < self.candidates.len()
            invariant
                i <= self.candidates.len(),
                v@ == self.candidates@.take(i as int),
            decreases self.candidates.len() - i,
        {
            v.push(self.candidates[i].clone());
            i = i + 1;
            proof {
                assert(v@ =~= self.candidates@.take(i as int));
            }
        }
        proof {
            assert(self.candidates@.take(self.candidates@.len() as int) =~= self.candidates@);
        }
        CandidateList { candidates: v, selected: self.selected }
    }
}

/// Law: selecting the next candidate and then the previous one returns to the
/// same candidate (for a cursor inside a non-empty list).
pub proof fn lemma_next_then_prev(len: nat, cursor: nat)
    requires
        cursor < len,
    ensures
        ({
            let n = (cursor + 1) % len;
            (if n == 0 { (len - 1) as nat } else { (n - 1) as nat }) == cursor
        }),
{
    if cursor + 1 < len {
        assert((cursor + 1) % len == cursor + 1) by (nonlinear_arith)
            requires cursor + 1 < len;
    } else {
        assert((cursor + 1) % len == 0) by (nonlinear_arith)
            requires cursor + 1 == len;
    }
}

} // verus!
