//! The state of a candidate window: candidates shown by pages of nine, a
//! selection, a visibility flag and a theme.

use vstd::prelude::*;
use crate::candidate::{cands_view, Candidate, CandidateView};

verus! {

/// Candidates per page.
pub const PAGE_SIZE: usize = 9;

/// A window theme.
#[derive(Debug, Clone, Copy, PartialEq, Eq, Structural)]
pub enum Theme {
    /// Light.
    Light,
    /// Dark.
    Dark,
}

impl Default for Theme {
    fn default() -> (r: Self)
        ensures
            r == Theme::Light,
    {
        Theme::Light
    }
}

/// Number of pages of nine for `len` candidates.
pub open spec fn spec_total_pages(len: nat) -> nat {
    if len == 0 {
        0
    } else {
        ((len + 8) / 9) as nat
    }
}

/// What always holds of a window with `len` candidates: without candidates
/// the selection and the page are 0; with some, the selection is one of them
/// and the page shown starts before the end (so it holds 1 to 9 of them).
pub open spec fn spec_window_ok(len: nat, cursor: nat, page: nat) -> bool {
    if len == 0 {
        cursor == 0 && page == 0
    } else {
        cursor < len && page * 9 < len
    }
}

/// The state of a candidate window.
#[derive(Debug)]
pub struct CandidateWindow {
    candidates: Vec<Candidate>,
    selected: usize,
    visible: bool,
    theme: Theme,
    current_page: usize,
}

impl CandidateWindow {
    #[verifier::type_invariant]
    spec fn inv(self) -> bool {
        if self.candidates@.len() == 0 {
            self.selected == 0 && self.current_page == 0
        } else {
            &&& self.selected < self.candidates@.len()
            &&& self.current_page < spec_total_pages(self.candidates@.len() as nat)
        }
    }

    /// The candidates.
    pub closed spec fn items(&self) -> Seq<CandidateView> {
        cands_view(self.candidates@)
    }

    /// The selected index.
    pub closed spec fn cursor(&self) -> nat {
        self.selected as nat
    }

    /// The page shown.
    pub closed spec fn page(&self) -> nat {
        self.current_page as nat
    }

    /// Whether the window is shown.
    pub closed spec fn shown(&self) -> bool {
        self.visible
    }

    /// The theme.
    pub closed spec fn theme_view(&self) -> Theme {
        self.theme
    }

    /// A hidden, empty window with the light theme.
    pub fn new() -> (r: Self)
        ensures
            r.items() == Seq::<CandidateView>::empty(),
            r.cursor() == 0,
            r.page() == 0,
            !r.shown(),
            r.theme_view() == Theme::Light,
    {
        let r = CandidateWindow { candidates: Vec::new(), selected: 0, visible: false, theme: Theme::Light, current_page: 0 };
        proof {
            assert(r.items() =~= Seq::<CandidateView>::empty());
        }
        r
    }

    /// Shows these candidates from the first one; the window is shown when
    /// there is at least one.
    pub fn set_candidates(&mut self, candidates: Vec<Candidate>)
        ensures
            final(self).items() == cands_view(candidates@),
            final(self).cursor() == 0,
            final(self).page() == 0,
            final(self).shown() == (candidates@.len() > 0),
            final(self).theme_view() == old(self).theme_view(),
    {
        let visible = candidates.len() > 0;
        *self = CandidateWindow { candidates, selected: 0, visible, theme: self.theme, current_page: 0 };
    }

    /// Removes the candidates and hides the window.
    pub fn clear(&mut self)
        ensures
            final(self).items() == Seq::<CandidateView>::empty(),
            final(self).cursor() == 0,
            final(self).page() == 0,
            !final(self).shown(),
            final(self).theme_view() == old(self).theme_view(),
    {
        *self = CandidateWindow { candidates: Vec::new(), selected: 0, visible: false, theme: self.theme, current_page: 0 };
        proof {
            assert(self.items() =~= Seq::<CandidateView>::empty());
        }
    }

    /// Selects the next candidate, wrapping to the first; the page follows.
    pub fn select_next(&mut self)
        ensures
            final(self).items() == old(self).items(),
            old(self).items().len() == 0 ==> final(self).cursor() == old(self).cursor() && final(self).page() == old(self).page(),
            old(self).items().len() > 0 ==> final(self).cursor() == (old(self).cursor() + 1) % old(self).items().len()
                && final(self).page() == final(self).cursor() / 9,
            final(self).shown() == old(self).shown(),
            final(self).theme_view() == old(self).theme_view(),
    {
        proof {
            use_type_invariant(&*self);
        }
        if self.candidates.len() > 0 {
            let s = (self.selected + 1) % self.candidates.len();
            self.set_selection(s);
        }
    }

    /// Selects the previous candidate, wrapping to the last; the page follows.
    pub fn select_prev(&mut self)
        ensures
            final(self).items() == old(self).items(),
            old(self).items().len() == 0 ==> final(self).cursor() == old(self).cursor() && final(self).page() == old(self).page(),
            old(self).items().len() > 0 ==> final(self).cursor() == (if old(self).cursor() == 0 {
                (old(self).items().len() - 1) as nat
            } else {
                (old(self).cursor() - 1) as nat
            }) && final(self).page() == final(self).cursor() / 9,
            final(self).shown() == old(self).shown(),
            final(self).theme_view() == old(self).theme_view(),
    {
        proof {
            use_type_invariant(&*self);
        }
        if self.candidates.len() > 0 {
            let s = if self.selected == 0 { self.candidates.len() - 1 } else { self.selected - 1 };
            self.set_selection(s);
        }
    }

    fn set_selection(&mut self, s: usize)
        requires
            s < old(self).candidates@.len(),
        ensures
            final(self).candidates == old(self).candidates,
            final(self).selected == s,
            final(self).current_page == s / 9,
            final(self).visible == old(self).visible,
            final(self).theme == old(self).theme,
    {
        proof {
            use_type_invariant(&*self);
            let len = self.candidates@.len() as nat;
            assert(s / 9 < spec_total_pages(len)) by (nonlinear_arith)
                requires s < len, len > 0, spec_total_pages(len) == (len + 8) / 9;
        }
        self.selected = s;
        self.current_page = s / PAGE_SIZE;
    }

    /// Selects the `number`-th candidate (1 to 9) of the page shown; a number
    /// without a candidate is ignored.
    pub fn select_by_number(&mut self, number: usize)
        ensures
            final(self).items() == old(self).items(),
            final(self).page() == old(self).page(),
            final(self).cursor() == (if 1 <= number <= 9 && old(self).page() * 9 + number - 1 < old(self).items().len() {
                (old(self).page() * 9 + number - 1) as nat
            } else {
                old(self).cursor()
            }),
            final(self).shown() == old(self).shown(),
            final(self).theme_view() == old(self).theme_view(),
    {
        proof {
            use_type_invariant(&*self);
        }
        if number >= 1 && number <= PAGE_SIZE && self.candidates.len() > 0 {
            proof {
                let len = self.candidates@.len() as nat;
                let cp = self.current_page as nat;
                assert(cp * 9 < len) by (nonlinear_arith)
                    requires cp < (len + 8) / 9, len > 0;
            }
            let start = self.current_page * PAGE_SIZE;
            if number - 1 < self.candidates.len() - start {
                let index = start + (number - 1);
                self.selected = index;
            }
        }
    }

    /// Shows the next page, wrapping to the first, and selects its first
    /// candidate.
    pub fn next_page(&mut self)
        ensures
            final(self).items() == old(self).items(),
            spec_total_pages(old(self).items().len()) == 0 ==> final(self).cursor() == old(self).cursor() && final(self).page() == old(self).page(),
            spec_total_pages(old(self).items().len()) > 0 ==> final(self).page() == (old(self).page() + 1) % spec_total_pages(old(self).items().len())
                && final(self).cursor() == final(self).page() * 9,
            final(self).shown() == old(self).shown(),
            final(self).theme_view() == old(self).theme_view(),
    {
        proof {
            use_type_invariant(&*self);
        }
        let total = self.total_pages();
        if total > 0 {
            let p = (self.current_page + 1) % total;
            self.set_page(p, total);
        }
    }

    /// Shows the previous page, wrapping to the last, and selects its first
    /// candidate.
    pub fn prev_page(&mut self)
        ensures
            final(self).items() == old(self).items(),
            spec_total_pages(old(self).items().len()) == 0 ==> final(self).cursor() == old(self).cursor() && final(self).page() == old(self).page(),
            spec_total_pages(old(self).items().len()) > 0 ==> final(self).page() == (if old(self).page() == 0 {
                (spec_total_pages(old(self).items().len()) - 1) as nat
            } else {
                (old(self).page() - 1) as nat
            }) && final(self).cursor() == final(self).page() * 9,
            final(self).shown() == old(self).shown(),
            final(self).theme_view() == old(self).theme_view(),
    {
        proof {
            use_type_invariant(&*self);
        }
        let total = self.total_pages();
        if total > 0 {
            let p = if self.current_page == 0 { total - 1 } else { self.current_page - 1 };
            self.set_page(p, total);
        }
    }

    fn set_page(&mut self, p: usize, total: usize)
        requires
            total == spec_total_pages(old(self).candidates@.len() as nat),
            p < total,
        ensures
            final(self).candidates == old(self).candidates,
            final(self).current_page == p,
            final(self).selected == p * 9,
            final(self).visible == old(self).visible,
            final(self).theme == old(self).theme,
    {
        let l = self.candidates.len();
        proof {
            use_type_invariant(&*self);
            let len = self.candidates@.len() as nat;
            assert(l == len);
            assert(len > 0);
            assert(p * 9 < len) by (nonlinear_arith)
                requires p < total, total == (len + 8) / 9, len > 0;
            assert(PAGE_SIZE == 9);
        }
        self.selected = p * PAGE_SIZE;
        self.current_page = p;
    }

    /// Number of pages of nine.
    pub fn total_pages(&self) -> (r: usize)
        ensures
            r == spec_total_pages(self.items().len()),
    {
        let len = self.candidates.len();
        if len == 0 {
            0
        } else {
            let r = len / PAGE_SIZE + if len % PAGE_SIZE != 0 { 1 } else { 0 };
            proof {
                assert(r == (len + 8) / 9) by (nonlinear_arith)
                    requires r == len / 9 + (if len % 9 != 0 { 1int } else { 0int }), len > 0;
            }
            r
        }
    }

    /// The candidates of the page shown.
    pub fn current_page_candidates(&self) -> (r: &[Candidate])
        ensures
            spec_window_ok(self.items().len(), self.cursor(), self.page()),
            r@.len() <= 9,
            self.items().len() > 0 ==> r@.len() > 0,
            cands_view(r@) == self.items().subrange(
                (self.page() * 9) as int,
                if self.page() * 9 + 9 < self.items().len() { (self.page() * 9 + 9) as int } else { self.items().len() as int },
            ),
    {
        proof {
            use_type_invariant(self);
        }
        proof {
            self.lemma_ok();
        }
        let len = self.candidates.len();
        if len == 0 {
            let r = vstd::slice::slice_subrange(self.candidates.as_slice(), 0, 0);
            proof {
                assert(cands_view(r@) =~= self.items().subrange(0, 0));
            }
            return r;
        }
        proof {
            let l = len as nat;
            let cp = self.current_page as nat;
            assert(cp * 9 < l) by (nonlinear_arith)
                requires cp < (l + 8) / 9, l > 0;
        }
        let start = self.current_page * PAGE_SIZE;
        let end = if len - start <= PAGE_SIZE { len } else { start + PAGE_SIZE };
        let r = vstd::slice::slice_subrange(self.candidates.as_slice(), start, end);
        proof {
            assert(cands_view(r@) =~= self.items().subrange(start as int, end as int));
        }
        r
    }

    /// The selected candidate.
    pub fn selected_candidate(&self) -> (r: Option<&Candidate>)
        ensures
            match r {
                Some(c) => self.cursor() < self.items().len() && c@ == self.items()[self.cursor() as int],
                None => self.cursor() >= self.items().len(),
            },
    {
        if self.selected < self.candidates.len() {
            Some(&self.candidates[self.selected])
        } else {
            None
        }
    }

    /// The selected index.
    pub fn selected_index(&self) -> (r: usize)
        ensures
            r == self.cursor(),
            spec_window_ok(self.items().len(), self.cursor(), self.page()),
    {
        proof {
            use_type_invariant(self);
            self.lemma_ok();
        }
        self.selected
    }

    proof fn lemma_ok(&self)
        requires
            self.inv(),
        ensures
            spec_window_ok(self.items().len(), self.cursor(), self.page()),
    {
        let l = self.candidates@.len() as nat;
        let cp = self.current_page as nat;
        if l > 0 {
            assert(cp * 9 < l) by (nonlinear_arith)
                requires cp < (l + 8) / 9, l > 0;
        }
    }

    /// The selected index within the page.
    pub fn selected_index_in_page(&self) -> (r: usize)
        ensures
            r == self.cursor() % 9,
    {
        self.selected % PAGE_SIZE
    }

    /// The page shown.
    pub fn current_page(&self) -> (r: usize)
        ensures
            r == self.page(),
            spec_window_ok(self.items().len(), self.cursor(), self.page()),
    {
        proof {
            use_type_invariant(self);
            self.lemma_ok();
        }
        self.current_page
    }

    /// Whether the window is shown.
    pub fn is_visible(&self) -> (r: bool)
        ensures
            r == self.shown(),
    {
        self.visible
    }

    /// Shows or hides the window.
    pub fn set_visible(&mut self, visible: bool)
        ensures
            final(self).items() == old(self).items(),
            final(self).cursor() == old(self).cursor(),
            final(self).page() == old(self).page(),
            final(self).shown() == visible,
            final(self).theme_view() == old(self).theme_view(),
    {
        proof {
            use_type_invariant(&*self);
        }
        self.visible = visible;
    }

    /// Sets the theme.
    pub fn set_theme(&mut self, theme: Theme)
        ensures
            final(self).items() == old(self).items(),
            final(self).cursor() == old(self).cursor(),
            final(self).page() == old(self).page(),
            final(self).shown() == old(self).shown(),
            final(self).theme_view() == theme,
    {
        proof {
            use_type_invariant(&*self);
        }
        self.theme = theme;
    }

    /// The theme.
    pub fn theme(&self) -> (r: Theme)
        ensures
            r == self.theme_view(),
    {
        self.theme
    }

    /// Number of candidates.
    pub fn len(&self) -> (r: usize)
        ensures
            r == self.items().len(),
    {
        self.candidates.len()
    }

    /// Whether there is no candidate.
    pub fn is_empty(&self) -> (r: bool)
        ensures
            r == (self.items().len() == 0),
    {
        self.candidates.len() == 0
    }
}

impl Clone for CandidateWindow {
    fn clone(&self) -> (r: Self)
        ensures
            r.items() == self.items(),
            r.cursor() == self.cursor(),
            r.page() == self.page(),
            r.shown() == self.shown(),
            r.theme_view() == self.theme_view(),
    {
        proof {
            use_type_invariant(self);
        }
        CandidateWindow {
            candidates: crate::segment::clone_candidates(&self.candidates),
            selected: self.selected,
            visible: self.visible,
            theme: self.theme,
            current_page: self.current_page,
        }
    }
}

impl Default for CandidateWindow {
    fn default() -> (r: Self)
        ensures
            r.items() == Seq::<CandidateView>::empty(),
            r.cursor() == 0,
            r.page() == 0,
            !r.shown(),
            r.theme_view() == Theme::Light,
    {
        CandidateWindow::new()
    }
}

/// Law: whatever the selection, it lies on the page shown after moving to the
/// next or previous candidate: the page is the selection divided by nine, and
/// it is a page that exists.
pub proof fn lemma_selection_page_exists(len: nat, s: nat)
    requires
        s < len,
    ensures
        s / 9 < spec_total_pages(len),
{
    assert(s / 9 < (len + 8) / 9) by (nonlinear_arith)
        requires s < len;
}

} // verus!
