//! Segmented conversion results: a conversion split into segments (文節), each
//! with its own candidates and selection, and a focus on one segment.

use vstd::prelude::*;
use crate::candidate::{cands_view, Candidate, CandidateView};
use crate::text::{lemma_utf16_add, push_all, spec_utf16_len, utf16_count};

verus! {

/// The view of a segment: `(reading, candidates, selected index)`.
pub type SegView = (Seq<char>, Seq<CandidateView>, usize);

/// The selected candidate of a segment, if its index is inside the list.
pub open spec fn spec_seg_current(v: SegView) -> Option<CandidateView> {
    if v.2 < v.1.len() {
        Some(v.1[v.2 as int])
    } else {
        None
    }
}

/// The surface of the selected candidate (empty when there is none).
pub open spec fn spec_seg_surface(v: SegView) -> Seq<char> {
    match spec_seg_current(v) {
        Some(c) => c.surface,
        None => Seq::empty(),
    }
}

/// The selected surfaces of all segments, concatenated left to right.
pub open spec fn spec_concat_surfaces(s: Seq<SegView>) -> Seq<char>
    decreases s.len(),
{
    if s.len() == 0 {
        Seq::empty()
    } else {
        spec_concat_surfaces(s.drop_last()) + spec_seg_surface(s.last())
    }
}

/// The readings of all segments, concatenated left to right.
pub open spec fn spec_concat_readings(s: Seq<SegView>) -> Seq<char>
    decreases s.len(),
{
    if s.len() == 0 {
        Seq::empty()
    } else {
        spec_concat_readings(s.drop_last()) + s.last().0
    }
}

/// The selected candidate of each segment that has one, left to right.
pub open spec fn spec_selected_candidates(s: Seq<SegView>) -> Seq<CandidateView>
    decreases s.len(),
{
    if s.len() == 0 {
        Seq::empty()
    } else {
        let rest = spec_selected_candidates(s.drop_last());
        match spec_seg_current(s.last()) {
            Some(c) => rest.push(c),
            None => rest,
        }
    }
}

/// The cursor after moving forward with wrap-around in a list of `len` items.
pub open spec fn spec_wrap_next(cur: nat, len: nat) -> nat {
    if len == 0 {
        cur
    } else {
        (cur + 1) % len
    }
}

/// The cursor after moving backward with wrap-around in a list of `len` items.
pub open spec fn spec_wrap_prev(cur: nat, len: nat) -> nat {
    if len == 0 {
        cur
    } else if cur == 0 {
        (len - 1) as nat
    } else {
        (cur - 1) as nat
    }
}

/// One segment of a segmented conversion.
#[derive(Debug)]
pub struct Segment {
    /// The reading of the segment (hiragana).
    pub reading: String,
    /// Its candidates, best first.
    pub candidates: Vec<Candidate>,
    /// The index of the selected candidate.
    pub selected: usize,
}

impl View for Segment {
    type V = SegView;

    open spec fn view(&self) -> SegView {
        (self.reading@, cands_view(self.candidates@), self.selected)
    }
}

/// Copies of the candidates of a vector.
pub fn clone_candidates(v: &Vec<Candidate>) -> (r: Vec<Candidate>)
    ensures
        r@ == v@,
{
    let mut out: Vec<Candidate> = Vec::new();
    let mut i: usize = 0;
    while i < v.len()
        invariant
            i <= v.len(),
            out@ == v@.take(i as int),
        decreases v.len() - i,
    {
        out.push(v[i].clone());
        i = i + 1;
        proof {
            assert(out@ =~= v@.take(i as int));
        }
    }
    proof {
        assert(v@.take(v@.len() as int) =~= v@);
    }
    out
}

impl Clone for Segment {
    fn clone(&self) -> (r: Self)
        ensures
            r@ == self@,
    {
        let r = Segment { reading: self.reading.clone(), candidates: clone_candidates(&self.candidates), selected: self.selected };
        proof {
            assert(r@.1 =~= self@.1);
        }
        r
    }
}

impl Segment {
    /// A segment with the first candidate selected.
    pub fn new(reading: &str, candidates: Vec<Candidate>) -> (r: Self)
        ensures
            r@ == (reading@, cands_view(candidates@), 0usize),
    {
        Segment { reading: reading.to_owned(), candidates, selected: 0 }
    }

    /// Number of candidates.
    pub fn len(&self) -> (r: usize)
        ensures
            r == self.candidates@.len(),
    {
        self.candidates.len()
    }

    /// Whether there is no candidate.
    pub fn is_empty(&self) -> (r: bool)
        ensures
            r == (self.candidates@.len() == 0),
    {
        self.candidates.len() == 0
    }

    /// The selected candidate.
    pub fn current(&self) -> (r: Option<&Candidate>)
        ensures
            match r {
                Some(c) => spec_seg_current(self@) == Some(c@),
                None => spec_seg_current(self@) is None,
            },
    {
        if self.selected < self.candidates.len() {
            proof {
                assert(self@.1[self.selected as int] == self.candidates@[self.selected as int]@);
            }
            Some(&self.candidates[self.selected])
        } else {
            None
        }
    }

    /// The surface of the selected candidate.
    pub fn surface(&self) -> (r: Option<&str>)
        ensures
            match r {
                Some(s) => spec_seg_current(self@) is Some && s@ == spec_seg_surface(self@),
                None => spec_seg_current(self@) is None,
            },
    {
        match self.current() {
            Some(c) => Some(c.surface.as_str()),
            None => None,
        }
    }

    /// Selects the candidate at `index`; an index out of range is ignored.
    pub fn select(&mut self, index: usize)
        ensures
            final(self)@ == (old(self)@.0, old(self)@.1, if index < old(self)@.1.len() { index } else { old(self)@.2 }),
    {
        if index < self.candidates.len() {
            self.selected = index;
        }
    }

    /// Selects the next candidate, wrapping to the first.
    pub fn select_next(&mut self)
        requires
            old(self).candidates@.len() > 0 ==> old(self).selected < usize::MAX,
        ensures
            final(self).reading == old(self).reading,
            final(self).candidates == old(self).candidates,
            final(self).selected as nat == spec_wrap_next(old(self).selected as nat, old(self).candidates@.len()),
    {
        if self.candidates.len() != 0 {
            self.selected = (self.selected + 1) % self.candidates.len();
        }
    }

    /// Selects the previous candidate, wrapping to the last.
    pub fn select_prev(&mut self)
        ensures
            final(self).reading == old(self).reading,
            final(self).candidates == old(self).candidates,
            final(self).selected as nat == spec_wrap_prev(old(self).selected as nat, old(self).candidates@.len()),
    {
        if self.candidates.len() != 0 {
            self.selected = if self.selected == 0 {
                self.candidates.len() - 1
            } else {
                self.selected - 1
            };
        }
    }
}

/// A conversion split into segments, with a focus on one of them.
#[derive(Debug)]
pub struct SegmentedConversion {
    /// The segments, left to right.
    pub segments: Vec<Segment>,
    /// The index of the focused segment.
    pub focused: usize,
}

impl View for SegmentedConversion {
    type V = (Seq<SegView>, usize);

    open spec fn view(&self) -> (Seq<SegView>, usize) {
        (self.segments@.map_values(|s: Segment| s@), self.focused)
    }
}

impl Clone for SegmentedConversion {
    fn clone(&self) -> (r: Self)
        ensures
            r@ == self@,
    {
        let mut segs: Vec<Segment> = Vec::new();
        let mut i: usize = 0;
        while i < self.segments.len()
            invariant
                i <= self.segments.len(),
                segs@.len() == i,
                forall|j: int| 0 <= j < i ==> #[trigger] segs@[j]@ == self.segments@[j]@,
            decreases self.segments.len() - i,
        {
            segs.push(self.segments[i].clone());
            i = i + 1;
        }
        let r = SegmentedConversion { segments: segs, focused: self.focused };
        proof {
            assert(r@.0 =~= self@.0);
        }
        r
    }
}

impl Default for SegmentedConversion {
    fn default() -> (r: Self)
        ensures
            r@.0.len() == 0,
            r@.1 == 0,
    {
        SegmentedConversion::new(Vec::new())
    }
}

impl SegmentedConversion {
    /// A segmented conversion focused on the first segment.
    pub fn new(segments: Vec<Segment>) -> (r: Self)
        ensures
            r.segments@ == segments@,
            r.focused == 0,
            r@ == (segments@.map_values(|s: Segment| s@), 0usize),
    {
        SegmentedConversion { segments, focused: 0 }
    }

    /// Number of segments.
    pub fn len(&self) -> (r: usize)
        ensures
            r == self@.0.len(),
    {
        self.segments.len()
    }

    /// Whether there is no segment.
    pub fn is_empty(&self) -> (r: bool)
        ensures
            r == (self@.0.len() == 0),
    {
        self.segments.len() == 0
    }

    /// The selected surfaces of all segments, concatenated: the whole sentence
    /// as it is currently converted.
    pub fn current_surface(&self) -> (r: String)
        ensures
            r@ == spec_concat_surfaces(self@.0),
    {
        let mut out = String::new();
        let mut i: usize = 0;
        while i < self.segments.len()
            invariant
                i <= self.segments.len(),
                out@ == spec_concat_surfaces(self@.0.take(i as int)),
            decreases self.segments.len() - i,
        {
            proof {
                assert(self@.0.take(i as int + 1).drop_last() =~= self@.0.take(i as int));
                assert(self@.0.take(i as int + 1).last() == self.segments@[i as int]@);
            }
            let seg = &self.segments[i];
            if seg.selected < seg.candidates.len() {
                proof {
                    assert(seg@.1[seg.selected as int] == seg.candidates@[seg.selected as int]@);
                }
                push_all(&mut out, &seg.candidates[seg.selected].surface);
            } else {
                proof {
                    assert(out@ + Seq::<char>::empty() =~= out@);
                }
            }
            i = i + 1;
        }
        proof {
            assert(self@.0.take(self@.0.len() as int) =~= self@.0);
        }
        out
    }

    /// The readings of all segments, concatenated.
    pub fn reading(&self) -> (r: String)
        ensures
            r@ == spec_concat_readings(self@.0),
    {
        let mut out = String::new();
        let mut i: usize = 0;
        while i < self.segments.len()
            invariant
                i <= self.segments.len(),
                out@ == spec_concat_readings(self@.0.take(i as int)),
            decreases self.segments.len() - i,
        {
            proof {
                assert(self@.0.take(i as int + 1).drop_last() =~= self@.0.take(i as int));
                assert(self@.0.take(i as int + 1).last() == self.segments@[i as int]@);
            }
            push_all(&mut out, &self.segments[i].reading);
            i = i + 1;
        }
        proof {
            assert(self@.0.take(self@.0.len() as int) =~= self@.0);
        }
        out
    }

    /// The selected candidate of every segment that has one, left to right.
    pub fn selected_candidates(&self) -> (r: Vec<Candidate>)
        ensures
            cands_view(r@) == spec_selected_candidates(self@.0),
    {
        let mut out: Vec<Candidate> = Vec::new();
        let mut i: usize = 0;
        while i < self.segments.len()
            invariant
                i <= self.segments.len(),
                cands_view(out@) == spec_selected_candidates(self@.0.take(i as int)),
            decreases self.segments.len() - i,
        {
            proof {
                assert(self@.0.take(i as int + 1).drop_last() =~= self@.0.take(i as int));
                assert(self@.0.take(i as int + 1).last() == self.segments@[i as int]@);
            }
            let seg = &self.segments[i];
            let ghost before = out@;
            if seg.selected < seg.candidates.len() {
                out.push(seg.candidates[seg.selected].clone());
                proof {
                    assert(cands_view(out@) =~= cands_view(before).push(seg.candidates@[seg.selected as int]@));
                }
            }
            i = i + 1;
        }
        proof {
            assert(self@.0.take(self@.0.len() as int) =~= self@.0);
        }
        out
    }

    /// The focused segment.
    pub fn focused_segment(&self) -> (r: Option<&Segment>)
        ensures
            match r {
                Some(s) => self.focused < self.segments@.len() && *s == self.segments@[self.focused as int],
                None => self.focused >= self.segments@.len(),
            },
    {
        if self.focused < self.segments.len() {
            Some(&self.segments[self.focused])
        } else {
            None
        }
    }

    /// The focused segment, for changing it in place.
    pub fn focused_segment_mut(&mut self) -> (r: Option<&mut Segment>)
        ensures
            match r {
                Some(s) => {
                    &&& old(self).focused < old(self).segments@.len()
                    &&& *s == old(self).segments@[old(self).focused as int]
                    &&& final(self).segments@ == old(self).segments@.update(old(self).focused as int, *final(s))
                    &&& final(self).focused == old(self).focused
                },
                None => {
                    &&& old(self).focused >= old(self).segments@.len()
                    &&& *final(self) == *old(self)
                },
            },
    {
        if self.focused < self.segments.len() {
            let f = self.focused;
            Some(&mut self.segments[f])
        } else {
            None
        }
    }

    /// The UTF-16 range `(start, length)` of the focused segment's surface in
    /// the whole sentence ([`Self::current_surface`]): it starts after the
    /// surfaces of the segments before it; at the end, with length 0, when
    /// the focus is past the last segment.
    pub fn focused_surface_range_utf16(&self) -> (r: (usize, usize))
        requires
            spec_utf16_len(spec_concat_surfaces(self@.0)) <= usize::MAX,
        ensures
            self.focused < self@.0.len() ==> r.0 == spec_utf16_len(spec_concat_surfaces(self@.0.take(self.focused as int)))
                && r.1 == spec_utf16_len(spec_seg_surface(self@.0[self.focused as int])),
            self.focused >= self@.0.len() ==> r.0 == spec_utf16_len(spec_concat_surfaces(self@.0)) && r.1 == 0,
    {
        let ghost segs = self@.0;
        let n = if self.focused < self.segments.len() {
            self.focused
        } else {
            self.segments.len()
        };
        let mut start: usize = 0;
        let mut i: usize = 0;
        while i < n
            invariant
                i <= n <= self.segments.len(),
                segs == self@.0,
                spec_utf16_len(spec_concat_surfaces(segs)) <= usize::MAX,
                start == spec_utf16_len(spec_concat_surfaces(segs.take(i as int))),
            decreases n - i,
        {
            proof {
                assert(segs.take(i as int + 1).drop_last() =~= segs.take(i as int));
                assert(segs.take(i as int + 1).last() == self.segments@[i as int]@);
                lemma_prefix_utf16(segs, i as int + 1);
                lemma_utf16_add(spec_concat_surfaces(segs.take(i as int)), spec_seg_surface(segs[i as int]));
            }
            let w = segment_surface_utf16(&self.segments[i]);
            start = start + w;
            i = i + 1;
        }
        if self.focused < self.segments.len() {
            proof {
                assert(segs.take(n as int + 1).drop_last() =~= segs.take(n as int));
                assert(segs.take(n as int + 1).last() == self.segments@[n as int]@);
                lemma_prefix_utf16(segs, n as int + 1);
                lemma_utf16_add(spec_concat_surfaces(segs.take(n as int)), spec_seg_surface(segs[n as int]));
            }
            let len = segment_surface_utf16(&self.segments[self.focused]);
            (start, len)
        } else {
            proof {
                assert(segs.take(n as int) =~= segs);
            }
            (start, 0)
        }
    }

    /// Moves the focus to segment `index`; an index out of range is ignored.
    pub fn focus(&mut self, index: usize)
        ensures
            final(self).segments == old(self).segments,
            final(self).focused == (if index < old(self).segments@.len() { index } else { old(self).focused }),
    {
        if index < self.segments.len() {
            self.focused = index;
        }
    }

    /// Moves the focus to the next segment, wrapping to the first.
    pub fn focus_next(&mut self)
        requires
            old(self).segments@.len() > 0 ==> old(self).focused < usize::MAX,
        ensures
            final(self).segments == old(self).segments,
            final(self).focused as nat == spec_wrap_next(old(self).focused as nat, old(self).segments@.len()),
    {
        if self.segments.len() != 0 {
            self.focused = (self.focused + 1) % self.segments.len();
        }
    }

    /// Moves the focus to the previous segment, wrapping to the last.
    pub fn focus_prev(&mut self)
        ensures
            final(self).segments == old(self).segments,
            final(self).focused as nat == spec_wrap_prev(old(self).focused as nat, old(self).segments@.len()),
    {
        if self.segments.len() != 0 {
            self.focused = if self.focused == 0 {
                self.segments.len() - 1
            } else {
                self.focused - 1
            };
        }
    }
}

/// UTF-16 length of a segment's selected surface.
fn segment_surface_utf16(seg: &Segment) -> (r: usize)
    requires
        spec_utf16_len(spec_seg_surface(seg@)) <= usize::MAX,
    ensures
        r == spec_utf16_len(spec_seg_surface(seg@)),
{
    if seg.selected < seg.candidates.len() {
        proof {
            assert(seg@.1[seg.selected as int] == seg.candidates@[seg.selected as int]@);
        }
        utf16_count(seg.candidates[seg.selected].surface.as_str())
    } else {
        proof {
            assert(spec_utf16_len(Seq::<char>::empty()) == 0);
        }
        0
    }
}

/// The surfaces of the first `k` segments are no longer (in UTF-16) than the
/// whole sentence.
proof fn lemma_prefix_utf16(s: Seq<SegView>, k: int)
    requires
        0 <= k <= s.len(),
    ensures
        spec_utf16_len(spec_concat_surfaces(s.take(k))) <= spec_utf16_len(spec_concat_surfaces(s)),
{
    assert(s.take(k) + s.skip(k) =~= s);
    lemma_concat_surfaces_append(s.take(k), s.skip(k));
    lemma_utf16_add(spec_concat_surfaces(s.take(k)), spec_concat_surfaces(s.skip(k)));
}

/// The concatenation of surfaces distributes over concatenation of segments.
pub proof fn lemma_concat_surfaces_append(a: Seq<SegView>, b: Seq<SegView>)
    ensures
        spec_concat_surfaces(a + b) == spec_concat_surfaces(a) + spec_concat_surfaces(b),
    decreases b.len(),
{
    if b.len() == 0 {
        assert(a + b =~= a);
        assert(spec_concat_surfaces(a) + Seq::<char>::empty() =~= spec_concat_surfaces(a));
    } else {
        assert((a + b).drop_last() =~= a + b.drop_last());
        lemma_concat_surfaces_append(a, b.drop_last());
        assert(spec_concat_surfaces(a) + spec_concat_surfaces(b.drop_last()) + spec_seg_surface(b.last())
            =~= spec_concat_surfaces(a) + (spec_concat_surfaces(b.drop_last()) + spec_seg_surface(b.last())));
    }
}

/// Law: changing one segment changes only its own part of the converted
/// sentence; the surfaces of every other segment stay in place.
pub proof fn lemma_update_keeps_other_segments(s: Seq<SegView>, i: int, v: SegView)
    requires
        0 <= i < s.len(),
    ensures
        spec_concat_surfaces(s.update(i, v))
            == spec_concat_surfaces(s.take(i)) + spec_seg_surface(v) + spec_concat_surfaces(s.skip(i + 1)),
        spec_concat_surfaces(s)
            == spec_concat_surfaces(s.take(i)) + spec_seg_surface(s[i]) + spec_concat_surfaces(s.skip(i + 1)),
{
    let u = s.update(i, v);
    assert(u =~= s.take(i).push(v) + s.skip(i + 1));
    assert(s =~= s.take(i).push(s[i]) + s.skip(i + 1));
    lemma_concat_surfaces_append(s.take(i).push(v), s.skip(i + 1));
    lemma_concat_surfaces_append(s.take(i).push(s[i]), s.skip(i + 1));
    assert(s.take(i).push(v).drop_last() =~= s.take(i));
    assert(s.take(i).push(s[i]).drop_last() =~= s.take(i));
}

/// Law: moving forward then backward (with wrap-around) returns to the same
/// index, for an index inside a non-empty list.
pub proof fn lemma_wrap_next_then_prev(cur: nat, len: nat)
    requires
        cur < len,
    ensures
        spec_wrap_prev(spec_wrap_next(cur, len), len) == cur,
        spec_wrap_next(spec_wrap_prev(cur, len), len) == cur,
{
    if cur + 1 < len {
        assert((cur + 1) % len == cur + 1) by (nonlinear_arith)
            requires cur + 1 < len;
    } else {
        assert((cur + 1) % len == 0) by (nonlinear_arith)
            requires cur + 1 == len;
    }
    if cur == 0 {
        assert(((len - 1) as nat + 1) % len == 0) by (nonlinear_arith)
            requires len > 0;
    } else {
        assert(((cur - 1) as nat + 1) % len == cur) by (nonlinear_arith)
            requires 0 < cur < len;
    }
}

/// Law: moving forward `len` times visits every index once and comes back.
pub proof fn lemma_wrap_next_cycle(cur: nat, len: nat, k: nat)
    requires
        cur < len,
        k <= len,
    ensures
        spec_wrap_iter(cur, len, k) == (cur + k) % len,
    decreases k,
{
    if k > 0 {
        lemma_wrap_next_cycle(cur, len, (k - 1) as nat);
        let p = spec_wrap_iter(cur, len, (k - 1) as nat);
        let c = cur as int + k as int - 1;
        vstd::arithmetic::div_mod::lemma_add_mod_noop_right(1, c, len as int);
        assert(p == c % (len as int));
        assert((p + 1) % len == (1 + c % (len as int)) % (len as int));
    } else {
        vstd::arithmetic::div_mod::lemma_small_mod(cur, len);
    }
}

/// `k` forward moves.
pub open spec fn spec_wrap_iter(cur: nat, len: nat, k: nat) -> nat
    decreases k,
{
    if k == 0 {
        cur
    } else {
        spec_wrap_next(spec_wrap_iter(cur, len, (k - 1) as nat), len)
    }
}

} // verus!
