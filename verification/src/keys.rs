//! What typed text and committing do to an input session: the state changes
//! and the effects that the platform layer performs (record learned words,
//! insert text into the client, show the composition, hide the panel).

use vstd::prelude::*;
use crate::candidate::CandidateView;
use crate::context::{spec_push_prev_word, strings_view};
use crate::mozc_table::mozc_spec_table;
use crate::romaji::{spec_flush, spec_input, RomajiState};
use crate::segment::SegView;
use crate::session::{
    ascii_to_fullwidth_punctuation, decide_commit, decide_digit_select_and_commit, list_opt_view,
    seg_opt_view, spec_decide_commit, spec_decide_digit, spec_display_text, spec_fullwidth_punctuation,
    spec_select_focused, CommitDecision, InputState,
};
use crate::text::{append_str, chars_of, push_all, spec_utf16_len, string_of_range};
use crate::candidate::{opt_str_view, CandidateList};
use crate::error::NukoError;
use crate::engine::{lemma_convert_offers_kana, spec_convert, ConversionEngine};
use crate::segment::{clone_candidates, spec_concat_surfaces, spec_wrap_next, spec_wrap_prev, SegmentedConversion};
use crate::session::{decide_command, CommandAction};

verus! {

/// What the logic reads of a session.
#[verifier::ext_equal]
pub struct SessionView {
    /// Romaji converter state.
    pub romaji: RomajiState,
    /// Composed kana.
    pub composition: Seq<char>,
    /// Flat candidates and cursor.
    pub list: Option<(Seq<CandidateView>, nat)>,
    /// Segmented conversion and focus.
    pub seg: Option<(Seq<SegView>, usize)>,
    /// Previous words of the context.
    pub prev_words: Seq<Seq<char>>,
    /// Whether uncommitted text is shown.
    pub is_composing: bool,
    /// Japanese input mode.
    pub japanese_mode: bool,
}

/// The view of a session.
pub open spec fn session_view(s: &InputState) -> SessionView {
    SessionView {
        romaji: s.romaji.state(),
        composition: s.composition@,
        list: list_opt_view(s.candidates),
        seg: seg_opt_view(s.segmented),
        prev_words: strings_view(s.context.prev_words@),
        is_composing: s.is_composing,
        japanese_mode: s.japanese_mode,
    }
}

/// The parts of a session the logic never changes.
pub open spec fn same_settings(a: &InputState, b: &InputState) -> bool {
    &&& a.context.mode == b.context.mode
    &&& a.context.max_candidates == b.context.max_candidates
    &&& a.activated_at == b.activated_at
    &&& a.kana_pressed_at == b.kana_pressed_at
}

/// The session after a reset.
pub open spec fn spec_reset(v: SessionView) -> SessionView {
    SessionView {
        romaji: (Seq::empty(), false),
        composition: Seq::empty(),
        list: None,
        seg: None,
        is_composing: false,
        ..v
    }
}

/// The previous words after committing `text` (an empty text is not recorded).
pub open spec fn spec_remember(words: Seq<Seq<char>>, text: Seq<char>) -> Seq<Seq<char>> {
    if text.len() > 0 {
        spec_push_prev_word(words, text)
    } else {
        words
    }
}

/// Committing what is shown: the focused segment takes the flat selection;
/// without a conversion the pending romaji is flushed into the composition;
/// then the commit of [`spec_decide_commit`] is remembered and the session reset.
pub open spec fn spec_commit_all(v: SessionView) -> (SessionView, (Seq<char>, Seq<CandidateView>)) {
    let seg = match (v.seg, v.list) {
        (Some(s), Some(l)) => Some((spec_select_focused(s.0, s.1, l.1), s.1)),
        _ => v.seg,
    };
    let composition = if v.seg is None && v.list is None {
        v.composition + spec_flush(mozc_spec_table(), v.romaji).1
    } else {
        v.composition
    };
    let d = spec_decide_commit(seg, v.list, composition);
    (spec_reset(SessionView { prev_words: spec_remember(v.prev_words, d.0), ..v }), d)
}

/// Committing candidate line `digit` (see [`spec_decide_digit`]); nothing
/// changes when there is no such line.
pub open spec fn spec_commit_digit(v: SessionView, digit: char) -> Option<(SessionView, (Seq<char>, Seq<CandidateView>))> {
    match spec_decide_digit(v.seg, v.list, digit) {
        Some(d) => Some((spec_reset(SessionView { prev_words: spec_push_prev_word(v.prev_words, d.0), ..v }), d)),
        None => None,
    }
}

/// Committing pending kana before text is inserted directly: when composing
/// or with pending romaji, the flushed composition is committed (remembered
/// when not empty) and the session reset; otherwise nothing is committed.
pub open spec fn spec_commit_pending(v: SessionView) -> (SessionView, Seq<char>) {
    if v.is_composing || v.romaji.0.len() > 0 {
        let c = v.composition + spec_flush(mozc_spec_table(), v.romaji).1;
        (spec_reset(SessionView { prev_words: spec_remember(v.prev_words, c), ..v }), c)
    } else {
        (v, Seq::empty())
    }
}

/// Whether a character is printable ASCII.
pub open spec fn spec_ascii_graphic(c: char) -> bool {
    '!' <= c && c <= '~'
}

/// Typing `text`: each printable ASCII character goes through the romaji
/// converter and its kana are composed; the others are ignored. Also says
/// whether any character was taken.
pub open spec fn spec_type(r: RomajiState, comp: Seq<char>, text: Seq<char>) -> (RomajiState, Seq<char>, bool)
    decreases text.len(),
{
    if text.len() == 0 {
        (r, comp, false)
    } else {
        let a = spec_type(r, comp, text.drop_last());
        let c = text.last();
        if spec_ascii_graphic(c) {
            let b = spec_input(mozc_spec_table(), a.0, c);
            (b.0, a.1 + b.1, true)
        } else {
            a
        }
    }
}

/// Typing text of which no character is taken changes nothing.
pub proof fn lemma_type_nothing(r: RomajiState, comp: Seq<char>, text: Seq<char>)
    ensures
        !spec_type(r, comp, text).2 ==> spec_type(r, comp, text).0 == r && spec_type(r, comp, text).1 == comp,
    decreases text.len(),
{
    if text.len() > 0 {
        lemma_type_nothing(r, comp, text.drop_last());
    }
}

/// What the platform layer does after typed text.
#[derive(Debug)]
pub enum TextAction {
    /// Leave the text to the client.
    PassThrough,
    /// The space key: the platform layer picks a [`SpaceAction`] and calls
    /// [`apply_space`].
    Space,
    /// A candidate line was chosen: record the learned words, hide the panel,
    /// insert the text.
    CommitCandidate(CommitDecision),
    /// Insert `commit` (when not empty), then `text`, directly.
    InsertDirect {
        /// Pending kana committed first.
        commit: String,
        /// The text to insert.
        text: String,
    },
    /// Commit the conversion (record, hide the panel, insert), then show
    /// `marked` as the new composition.
    CommitAndCompose {
        /// The commit.
        decision: CommitDecision,
        /// The new composition to show.
        marked: String,
    },
    /// Show `marked` as the composition.
    Compose {
        /// The composition to show.
        marked: String,
    },
}

/// Whether a character is an ASCII digit.
pub open spec fn spec_ascii_digit(c: char) -> bool {
    '0' <= c && c <= '9'
}

/// The session after typing `text` while converting: the conversion is
/// committed as [`spec_decide_commit`] says (remembered when not empty), the
/// session reset, and `text` typed into the fresh composition.
pub open spec fn spec_commit_then_type(v: SessionView, text: Seq<char>) -> (SessionView, (Seq<char>, Seq<CandidateView>)) {
    let d = spec_decide_commit(v.seg, v.list, v.composition);
    let w = spec_reset(SessionView { prev_words: spec_remember(v.prev_words, d.0), ..v });
    let t = spec_type(w.romaji, w.composition, text);
    (SessionView { romaji: t.0, composition: t.1, is_composing: true, ..w }, d)
}

/// Commits what is shown (Enter, deactivation): see [`spec_commit_all`].
pub fn commit_composition(state: &mut InputState) -> (r: CommitDecision)
    ensures
        (session_view(final(state)), r@) == spec_commit_all(session_view(old(state))),
        same_settings(final(state), old(state)),
{
    let ghost v = session_view(state);
    let sel = match &state.candidates {
        Some(c) => Some(c.selected_index()),
        None => None,
    };
    let has_list = state.candidates.is_some();
    let has_seg = state.segmented.is_some();
    match &mut state.segmented {
        Some(segmented) => {
            match sel {
                Some(idx) => {
                    let ghost s0 = segmented@;
                    match segmented.focused_segment_mut() {
                        Some(seg) => {
                            seg.select(idx);
                        },
                        None => {},
                    }
                    proof {
                        assert(segmented@.0 =~= spec_select_focused(s0.0, s0.1, idx as nat));
                    }
                },
                None => {},
            }
        },
        None => {},
    }
    if !has_seg && !has_list {
        let remaining = state.romaji.flush();
        push_all(&mut state.composition, &remaining);
    }
    let decision = decide_commit(state);
    if !decision.commit_text.as_str().is_empty() {
        state.context.push_prev_word(decision.commit_text.as_str());
    }
    state.reset();
    decision
}

/// Commits candidate line `digit` while candidates are shown (see
/// [`spec_commit_digit`]); `None` and no change otherwise.
pub fn commit_digit(state: &mut InputState, digit: char) -> (r: Option<CommitDecision>)
    ensures
        match r {
            Some(d) => spec_commit_digit(session_view(old(state)), digit) == Some((session_view(final(state)), d@)),
            None => spec_commit_digit(session_view(old(state)), digit) is None && *final(state) == *old(state),
        },
        same_settings(final(state), old(state)),
{
    match decide_digit_select_and_commit(state, digit) {
        Some(decision) => {
            state.context.push_prev_word(decision.commit_text.as_str());
            state.reset();
            Some(decision)
        },
        None => None,
    }
}

/// Commits pending kana before text is inserted directly (see
/// [`spec_commit_pending`]).
pub fn commit_pending(state: &mut InputState) -> (r: String)
    ensures
        (session_view(final(state)), r@) == spec_commit_pending(session_view(old(state))),
        same_settings(final(state), old(state)),
{
    let pending = !state.romaji.buffer().is_empty();
    if state.is_composing || pending {
        let remaining = state.romaji.flush();
        push_all(&mut state.composition, &remaining);
        let commit_text = state.composition.clone();
        if !commit_text.as_str().is_empty() {
            state.context.push_prev_word(commit_text.as_str());
        }
        state.reset();
        commit_text
    } else {
        String::new()
    }
}

/// Types `text` into the composition (see [`spec_type`]); says whether any
/// character was taken.
fn type_text(state: &mut InputState, text: &str) -> (r: bool)
    ensures
        (final(state).romaji.state(), final(state).composition@, r) == spec_type(old(state).romaji.state(), old(state).composition@, text@),
        final(state).candidates == old(state).candidates,
        final(state).segmented == old(state).segmented,
        final(state).context == old(state).context,
        final(state).is_composing == old(state).is_composing,
        final(state).japanese_mode == old(state).japanese_mode,
        final(state).activated_at == old(state).activated_at,
        final(state).kana_pressed_at == old(state).kana_pressed_at,
{
    let chars = chars_of(text);
    let mut any = false;
    let mut i: usize = 0;
    while i < chars.len()
        invariant
            i <= chars.len(),
            chars@ == text@,
            (state.romaji.state(), state.composition@, any) == spec_type(old(state).romaji.state(), old(state).composition@, chars@.take(i as int)),
            state.candidates == old(state).candidates,
            state.segmented == old(state).segmented,
            state.context == old(state).context,
            state.is_composing == old(state).is_composing,
            state.japanese_mode == old(state).japanese_mode,
            state.activated_at == old(state).activated_at,
            state.kana_pressed_at == old(state).kana_pressed_at,
        decreases chars.len() - i,
    {
        proof {
            assert(chars@.take(i as int + 1).drop_last() =~= chars@.take(i as int));
            assert(chars@.take(i as int + 1).last() == chars@[i as int]);
        }
        let c = chars[i];
        if '!' <= c && c <= '~' {
            let kana = state.romaji.input(c);
            push_all(&mut state.composition, &kana);
            any = true;
        }
        i = i + 1;
    }
    proof {
        assert(chars@.take(i as int) =~= chars@);
    }
    any
}

/// What typed text does to the session (the `inputText` handler): in direct
/// mode nothing; the space key is left to the platform layer; while
/// candidates are shown a digit commits that line; without candidates a
/// digit or a widened punctuation mark is inserted directly after the pending
/// kana; while converting any other text commits the conversion and starts a
/// new composition; otherwise the text is composed (and passed through when no
/// character of it is printable ASCII).
pub fn handle_text(state: &mut InputState, text: &str) -> (r: TextAction)
    ensures
        same_settings(final(state), old(state)),
        ({
            let v = session_view(old(state));
            let w = session_view(final(state));
            let t = text@;
            if !v.japanese_mode {
                r is PassThrough && *final(state) == *old(state)
            } else if t == " "@ {
                r is Space && *final(state) == *old(state)
            } else if v.list is Some && t.len() == 1 && spec_commit_digit(v, t[0]) is Some {
                r matches TextAction::CommitCandidate(d) && spec_commit_digit(v, t[0]) == Some((w, d@))
            } else if v.list is None && t.len() == 1 && spec_ascii_digit(t[0]) {
                r matches TextAction::InsertDirect { commit, text: x } && (w, commit@) == spec_commit_pending(v) && x@ == t
            } else if v.list is None && t.len() == 1 && spec_fullwidth_punctuation(t[0]) is Some {
                r matches TextAction::InsertDirect { commit, text: x } && (w, commit@) == spec_commit_pending(v)
                    && Some(x@) == spec_fullwidth_punctuation(t[0])
            } else if v.list is Some {
                r matches TextAction::CommitAndCompose { decision, marked } && (w, decision@) == spec_commit_then_type(v, t)
                    && marked@ == spec_display_text(w.composition, w.romaji.0)
            } else {
                let ty = spec_type(v.romaji, v.composition, t);
                if ty.2 {
                    r matches TextAction::Compose { marked } && w == SessionView { romaji: ty.0, composition: ty.1, is_composing: true, ..v }
                        && marked@ == spec_display_text(w.composition, w.romaji.0)
                } else {
                    r is PassThrough && w == v
                }
            }
        }),
{
    if !state.japanese_mode {
        return TextAction::PassThrough;
    }
    let chars = chars_of(text);
    proof {
        reveal_strlit(" ");
    }
    if chars.len() == 1 && chars[0] == ' ' {
        proof {
            assert(text@ =~= " "@);
        }
        return TextAction::Space;
    }
    proof {
        if text@ == " "@ {
            assert(chars@.len() == 1 && chars@[0] == ' ');
        }
    }
    if state.candidates.is_some() && chars.len() == 1 {
        let ghost before = *state;
        match commit_digit(state, chars[0]) {
            Some(d) => {
                return TextAction::CommitCandidate(d);
            },
            None => {},
        }
    }
    if state.candidates.is_none() && chars.len() == 1 {
        let ch = chars[0];
        if '0' <= ch && ch <= '9' {
            let commit = commit_pending(state);
            return TextAction::InsertDirect { commit, text: text.to_string() };
        }
        match ascii_to_fullwidth_punctuation(ch) {
            Some(fw) => {
                let commit = commit_pending(state);
                return TextAction::InsertDirect { commit, text: fw.to_string() };
            },
            None => {},
        }
    }
    if state.candidates.is_some() {
        let decision = decide_commit(state);
        if !decision.commit_text.as_str().is_empty() {
            state.context.push_prev_word(decision.commit_text.as_str());
        }
        state.reset();
        proof {
            assert(state.composition@ =~= Seq::<char>::empty());
        }
        type_text(state, text);
        state.is_composing = true;
        let marked = state.display_text();
        return TextAction::CommitAndCompose { decision, marked };
    }
    let any = type_text(state, text);
    proof {
        lemma_type_nothing(old(state).romaji.state(), old(state).composition@, text@);
    }
    if !any {
        return TextAction::PassThrough;
    }
    state.is_composing = true;
    let marked = state.display_text();
    TextAction::Compose { marked }
}

/// The candidates of segment `idx` as a list, with that segment's selection
/// (an empty list when there is no such segment).
pub fn candidate_list_from_segment(segmented: &SegmentedConversion, idx: usize) -> (r: CandidateList)
    ensures
        idx < segmented@.0.len() ==> r.items() == segmented@.0[idx as int].1 && r.cursor() == (if segmented@.0[idx as int].2 < segmented@.0[idx as int].1.len() {
            segmented@.0[idx as int].2 as nat
        } else {
            0nat
        }),
        idx >= segmented@.0.len() ==> r.items() == Seq::<CandidateView>::empty() && r.cursor() == 0,
{
    if idx < segmented.segments.len() {
        let seg = &segmented.segments[idx];
        proof {
            assert(segmented@.0[idx as int] == seg@);
        }
        let mut list = CandidateList::from_candidates(clone_candidates(&seg.candidates));
        list.select(seg.selected);
        list
    } else {
        CandidateList::new()
    }
}

/// Prepares a conversion: pending romaji is flushed into the composition,
/// which is returned unless it is empty.
pub fn prepare_conversion(state: &mut InputState) -> (r: Option<String>)
    ensures
        final(state).composition@ == old(state).composition@ + spec_flush(mozc_spec_table(), old(state).romaji.state()).1,
        final(state).romaji.state() == (Seq::<char>::empty(), false),
        match r {
            Some(c) => c@ == final(state).composition@ && c@.len() > 0,
            None => final(state).composition@.len() == 0,
        },
        final(state).candidates == old(state).candidates,
        final(state).segmented == old(state).segmented,
        final(state).context == old(state).context,
        final(state).is_composing == old(state).is_composing,
        final(state).japanese_mode == old(state).japanese_mode,
        same_settings(final(state), old(state)),
{
    let remaining = state.romaji.flush();
    push_all(&mut state.composition, &remaining);
    if state.composition.as_str().is_empty() {
        None
    } else {
        Some(state.composition.clone())
    }
}

/// Takes the result of converting the composition: on success the list
/// replaces any conversion and the selected candidate is shown (the
/// composition when none is selected); on failure the composition is shown
/// and nothing changes.
pub fn apply_conversion(state: &mut InputState, result: Result<CandidateList, NukoError>) -> (r: String)
    ensures
        match result {
            Ok(list) => {
                &&& final(state).candidates == Some(list)
                &&& final(state).segmented is None
                &&& r@ == (if list.cursor() < list.items().len() {
                    list.items()[list.cursor() as int].surface
                } else {
                    spec_display_text(old(state).composition@, old(state).romaji.state().0)
                })
            },
            Err(_) => *final(state) == *old(state) && r@ == spec_display_text(old(state).composition@, old(state).romaji.state().0),
        },
        final(state).composition == old(state).composition,
        final(state).romaji.state() == old(state).romaji.state(),
        final(state).context == old(state).context,
        final(state).is_composing == old(state).is_composing,
        final(state).japanese_mode == old(state).japanese_mode,
        same_settings(final(state), old(state)),
{
    match result {
        Ok(list) => {
            let shown = match list.selected() {
                Some(c) => c.surface.clone(),
                None => state.display_text(),
            };
            state.segmented = None;
            state.candidates = Some(list);
            shown
        },
        Err(_) => state.display_text(),
    }
}

/// Converts what is composed (the space key or a conversion command): pending
/// romaji is flushed into the composition; an empty composition is not
/// converted (`None`). Otherwise the engine converts the composition with the
/// session's context, the candidates replace any conversion with the best
/// one selected, and its surface is the text to show.
pub fn convert_composition(state: &mut InputState, engine: &ConversionEngine) -> (r: Option<String>)
    ensures
        final(state).composition@ == old(state).composition@ + spec_flush(mozc_spec_table(), old(state).romaji.state()).1,
        final(state).romaji.state() == (Seq::<char>::empty(), false),
        final(state).context == old(state).context,
        final(state).is_composing == old(state).is_composing,
        final(state).japanese_mode == old(state).japanese_mode,
        same_settings(final(state), old(state)),
        match r {
            None => {
                &&& final(state).composition@.len() == 0
                &&& final(state).candidates == old(state).candidates
                &&& final(state).segmented == old(state).segmented
            },
            Some(shown) => {
                &&& final(state).composition@.len() > 0
                &&& final(state).segmented is None
                &&& final(state).candidates matches Some(list)
                &&& list.cursor() == 0
                &&& list.items().len() > 0
                &&& exists|now: u64| list.items() == spec_convert(engine.learned(), engine.user_entries(), final(state).composition@, now)
                &&& shown@ == list.items()[0].surface
            },
        },
{
    let composition = match prepare_conversion(state) {
        Some(c) => c,
        None => return None,
    };
    let result = engine.convert(composition.as_str(), &state.context);
    match result {
        Ok(list) => {
            proof {
                let now = choose|now: u64| list.items() == spec_convert(engine.learned(), engine.user_entries(), composition@, now);
                lemma_convert_offers_kana(engine.learned(), engine.user_entries(), composition@, now);
            }
            let shown = apply_conversion(state, Ok(list));
            Some(shown)
        },
        Err(_) => {
            proof {
                assert(false);
            }
            None
        },
    }
}

/// The text to show after the flat selection moved: with a segmented
/// conversion the focused segment takes the selection and the whole sentence
/// is shown; otherwise the selected candidate; nothing without candidates.
pub fn refresh_after_selection(state: &mut InputState) -> (r: Option<String>)
    ensures
        match list_opt_view(old(state).candidates) {
            None => r is None && *final(state) == *old(state),
            Some(l) => match seg_opt_view(old(state).segmented) {
                Some(sv) => {
                    let segs = spec_select_focused(sv.0, sv.1, l.1);
                    &&& seg_opt_view(final(state).segmented) == Some((segs, sv.1))
                    &&& crate::candidate::opt_str_view(r) == Some(spec_concat_surfaces(segs))
                },
                None => final(state).segmented is None && if l.1 < l.0.len() {
                    crate::candidate::opt_str_view(r) == Some(l.0[l.1 as int].surface)
                } else {
                    r is None
                },
            },
        },
        final(state).candidates == old(state).candidates,
        final(state).composition == old(state).composition,
        final(state).romaji.state() == old(state).romaji.state(),
        final(state).context == old(state).context,
        final(state).is_composing == old(state).is_composing,
        final(state).japanese_mode == old(state).japanese_mode,
        same_settings(final(state), old(state)),
{
    let sel = match &state.candidates {
        Some(c) => c.selected_index(),
        None => return None,
    };
    match &mut state.segmented {
        Some(segmented) => {
            let ghost s0 = segmented@;
            match segmented.focused_segment_mut() {
                Some(seg) => {
                    seg.select(sel);
                },
                None => {},
            }
            proof {
                assert(segmented@.0 =~= spec_select_focused(s0.0, s0.1, sel as nat));
            }
            let surface = segmented.current_surface();
            Some(surface)
        },
        None => match &state.candidates {
            Some(c) => match c.selected() {
                Some(x) => Some(x.surface.clone()),
                None => None,
            },
            None => None,
        },
    }
}

/// The session and the text shown after the flat selection moved to
/// `cursor`: with a segmented conversion the focused segment takes the
/// selection and the whole sentence is shown; otherwise the selected
/// candidate; without candidates nothing changes and nothing is shown.
pub open spec fn spec_select_and_refresh(v: SessionView, cursor: nat) -> (SessionView, Option<Seq<char>>) {
    match v.list {
        None => (v, None),
        Some(l) => {
            let v1 = SessionView { list: Some((l.0, cursor)), ..v };
            match v.seg {
                Some(sv) => {
                    let segs = spec_select_focused(sv.0, sv.1, cursor);
                    (SessionView { seg: Some((segs, sv.1)), ..v1 }, Some(spec_concat_surfaces(segs)))
                },
                None => (v1, if cursor < l.0.len() {
                    Some(l.0[cursor as int].surface)
                } else {
                    None
                }),
            }
        },
    }
}

/// Moving to the next candidate (wrapping from the last to the first).
pub open spec fn spec_select_next(v: SessionView) -> (SessionView, Option<Seq<char>>) {
    match v.list {
        Some(l) => spec_select_and_refresh(v, spec_wrap_next(l.1, l.0.len())),
        None => (v, None),
    }
}

/// Moving to the previous candidate (wrapping from the first to the last).
pub open spec fn spec_select_prev(v: SessionView) -> (SessionView, Option<Seq<char>>) {
    match v.list {
        Some(l) => spec_select_and_refresh(v, spec_wrap_prev(l.1, l.0.len())),
        None => (v, None),
    }
}

/// The cursor of the flat candidates, if any.
pub open spec fn spec_cursor(v: SessionView) -> Option<usize> {
    match v.list {
        Some(l) => Some(l.1 as usize),
        None => None,
    }
}

/// Moves the flat selection forward (or back) and refreshes what is shown
/// (see [`spec_select_next`], [`spec_select_prev`]); gives the new cursor and
/// the text to show.
fn move_selection(state: &mut InputState, forward: bool) -> (r: (Option<usize>, Option<String>))
    ensures
        ({
            let v = session_view(old(state));
            let m = if forward { spec_select_next(v) } else { spec_select_prev(v) };
            &&& session_view(final(state)) == m.0
            &&& opt_str_view(r.1) == m.1
            &&& r.0 == spec_cursor(m.0)
        }),
        old(state).candidates is None ==> *final(state) == *old(state),
        same_settings(final(state), old(state)),
{
    let index = match &mut state.candidates {
        Some(c) => {
            if forward {
                c.select_next();
            } else {
                c.select_prev();
            }
            Some(c.selected_index())
        },
        None => None,
    };
    let marked = refresh_after_selection(state);
    proof {
        let v = session_view(old(state));
        let m = if forward { spec_select_next(v) } else { spec_select_prev(v) };
        assert(session_view(state) =~= m.0);
    }
    (index, marked)
}

/// What the platform layer does after a command key.
#[derive(Debug)]
pub enum CommandOutcome {
    /// Not handled: left to the application.
    PassThrough,
    /// Committed: record the learned words, hide the panel, insert the text;
    /// `pass_through` says whether the key then goes to the application.
    Committed {
        /// The commit.
        decision: CommitDecision,
        /// Whether the key is also left to the application.
        pass_through: bool,
    },
    /// Cancelled: hide the panel and clear the composition in the client.
    Cancelled,
    /// Backspace: the platform layer picks a [`BackspaceAction`] and calls
    /// [`apply_backspace`].
    Backspace,
    /// Focus shift between segments: the platform layer calls [`shift_focus`].
    FocusShift {
        /// Towards the next segment.
        forward: bool,
    },
    /// The selection moved: show `marked` (when there is one) and highlight
    /// line `index` of the panel (when there are candidates).
    Selection {
        /// The selected index.
        index: Option<usize>,
        /// The text to show.
        marked: Option<String>,
    },
}

/// What a command key does to the session (the `didCommandBySelector`
/// handler): see [`crate::session::decide_command`] for which action a
/// selector is; committing and cancelling change the session as
/// [`commit_composition`] and a reset do; selecting moves the flat selection
/// with wrap-around and refreshes the shown text.
pub fn handle_command(state: &mut InputState, selector_name: &str) -> (r: CommandOutcome)
    ensures
        same_settings(final(state), old(state)),
        ({
            let v = session_view(old(state));
            let w = session_view(final(state));
            match crate::session::spec_decide_command(selector_name@, old(state).is_composing) {
                CommandAction::PassThrough => r is PassThrough && *final(state) == *old(state),
                CommandAction::Commit => r matches CommandOutcome::Committed { decision, pass_through }
                    && !pass_through && (w, decision@) == spec_commit_all(v),
                CommandAction::CommitAndPassThrough => r matches CommandOutcome::Committed { decision, pass_through }
                    && pass_through && (w, decision@) == spec_commit_all(v),
                CommandAction::Cancel => r is Cancelled && w == spec_reset(v),
                CommandAction::Backspace => r is Backspace && *final(state) == *old(state),
                CommandAction::FocusShiftLeft => r == (CommandOutcome::FocusShift { forward: false }) && *final(state) == *old(state),
                CommandAction::FocusShiftRight => r == (CommandOutcome::FocusShift { forward: true }) && *final(state) == *old(state),
                CommandAction::SelectNext => r matches CommandOutcome::Selection { index, marked }
                    && (w, opt_str_view(marked)) == spec_select_next(v) && index == spec_cursor(w),
                CommandAction::SelectPrev => r matches CommandOutcome::Selection { index, marked }
                    && (w, opt_str_view(marked)) == spec_select_prev(v) && index == spec_cursor(w),
            }
        }),
{
    let action = decide_command(selector_name, state.is_composing);
    match action {
        CommandAction::PassThrough => CommandOutcome::PassThrough,
        CommandAction::Commit => {
            let decision = commit_composition(state);
            CommandOutcome::Committed { decision, pass_through: false }
        },
        CommandAction::CommitAndPassThrough => {
            let decision = commit_composition(state);
            CommandOutcome::Committed { decision, pass_through: true }
        },
        CommandAction::Cancel => {
            state.reset();
            proof {
                assert(state.composition@ =~= Seq::<char>::empty());
            }
            CommandOutcome::Cancelled
        },
        CommandAction::Backspace => CommandOutcome::Backspace,
        CommandAction::FocusShiftLeft => CommandOutcome::FocusShift { forward: false },
        CommandAction::FocusShiftRight => CommandOutcome::FocusShift { forward: true },
        CommandAction::SelectNext => {
            let (index, marked) = move_selection(state, true);
            CommandOutcome::Selection { index, marked }
        },
        CommandAction::SelectPrev => {
            let (index, marked) = move_selection(state, false);
            CommandOutcome::Selection { index, marked }
        },
    }
}

/// Which way the space key goes; the platform layer decides it from whether
/// candidates are shown, whether text is composed, and the time since the
/// input method was activated and since the kana key was pressed.
#[derive(Debug, Clone, Copy, PartialEq, Eq, Structural)]
pub enum SpaceAction {
    /// Swallow the key: it came right after activation (a leaked
    /// source-switch shortcut).
    DiscardActivationGuard,
    /// Swallow the key: it came right after the kana key.
    DiscardKanaGuard,
    /// Move to the next candidate.
    CycleNextCandidate,
    /// Convert the composition.
    Convert,
    /// Leave the key to the client (a plain space).
    PassThrough,
}

/// What the platform layer does after the space key.
#[derive(Debug)]
pub enum SpaceOutcome {
    /// The key was swallowed.
    Discarded,
    /// The selection moved: show `marked` (when there is one) and highlight
    /// line `index` of the panel (when there are candidates).
    Selection {
        /// The selected index.
        index: Option<usize>,
        /// The text to show.
        marked: Option<String>,
    },
    /// Convert: [`prepare_conversion`], the engine, [`apply_conversion`].
    Convert,
    /// Leave the key to the client.
    PassThrough,
}

/// What the space key does to the session: a guard swallows the key and is
/// used up (its time is cleared); cycling moves to the next candidate as
/// [`spec_select_next`] says; converting and passing through change nothing.
pub fn apply_space(state: &mut InputState, action: SpaceAction) -> (r: SpaceOutcome)
    ensures
        final(state).context.mode == old(state).context.mode,
        final(state).context.max_candidates == old(state).context.max_candidates,
        match action {
            SpaceAction::DiscardActivationGuard => r is Discarded
                && *final(state) == (InputState { activated_at: None, ..*old(state) }),
            SpaceAction::DiscardKanaGuard => r is Discarded
                && *final(state) == (InputState { kana_pressed_at: None, ..*old(state) }),
            SpaceAction::CycleNextCandidate => r matches SpaceOutcome::Selection { index, marked }
                && (session_view(final(state)), opt_str_view(marked)) == spec_select_next(session_view(old(state)))
                && index == spec_cursor(session_view(final(state)))
                && same_settings(final(state), old(state)),
            SpaceAction::Convert => r is Convert && *final(state) == *old(state),
            SpaceAction::PassThrough => r is PassThrough && *final(state) == *old(state),
        },
{
    match action {
        SpaceAction::DiscardActivationGuard => {
            state.activated_at = None;
            SpaceOutcome::Discarded
        },
        SpaceAction::DiscardKanaGuard => {
            state.kana_pressed_at = None;
            SpaceOutcome::Discarded
        },
        SpaceAction::CycleNextCandidate => {
            let (index, marked) = move_selection(state, true);
            SpaceOutcome::Selection { index, marked }
        },
        SpaceAction::Convert => SpaceOutcome::Convert,
        SpaceAction::PassThrough => SpaceOutcome::PassThrough,
    }
}

/// What the backspace key removes; the platform layer decides it from
/// whether a conversion is shown, whether romaji is pending, and how many
/// characters are composed.
#[derive(Debug, Clone, Copy, PartialEq, Eq, Structural)]
pub enum BackspaceAction {
    /// Drop the conversion and show the composition again.
    ClearConversion,
    /// Drop the pending romaji and end the composition.
    ClearRomajiEndComposing,
    /// Drop the pending romaji and show the rest.
    ClearRomajiRedisplay,
    /// Remove the last composed character and end the composition.
    PopCompositionEndComposing,
    /// Remove the last composed character and show the rest.
    PopCompositionRedisplay,
    /// End the composition.
    EndComposing,
}

/// What the platform layer does after the backspace key.
#[derive(Debug)]
pub enum BackspaceOutcome {
    /// Hide the panel and show `marked` as the composition.
    ConversionCleared {
        /// The composition to show.
        marked: String,
    },
    /// Show `marked` as the composition.
    Compose {
        /// The composition to show.
        marked: String,
    },
    /// End the composition (insert nothing).
    EndComposition,
}

/// A text without its last character (unchanged when empty).
pub open spec fn spec_pop(s: Seq<char>) -> Seq<char> {
    if s.len() > 0 {
        s.drop_last()
    } else {
        s
    }
}

/// The session after a backspace action.
pub open spec fn spec_backspace(v: SessionView, a: BackspaceAction) -> SessionView {
    match a {
        BackspaceAction::ClearConversion => SessionView { list: None, seg: None, ..v },
        BackspaceAction::ClearRomajiEndComposing => SessionView {
            romaji: (Seq::empty(), false),
            is_composing: false,
            ..v
        },
        BackspaceAction::ClearRomajiRedisplay => SessionView { romaji: (Seq::empty(), false), ..v },
        BackspaceAction::PopCompositionEndComposing => SessionView {
            composition: spec_pop(v.composition),
            is_composing: false,
            ..v
        },
        BackspaceAction::PopCompositionRedisplay => SessionView { composition: spec_pop(v.composition), ..v },
        BackspaceAction::EndComposing => SessionView { is_composing: false, ..v },
    }
}

/// Removes the last composed character, if any.
fn pop_composition(state: &mut InputState)
    ensures
        final(state).composition@ == spec_pop(old(state).composition@),
        final(state).romaji == old(state).romaji,
        final(state).candidates == old(state).candidates,
        final(state).segmented == old(state).segmented,
        final(state).context == old(state).context,
        final(state).is_composing == old(state).is_composing,
        final(state).japanese_mode == old(state).japanese_mode,
        final(state).activated_at == old(state).activated_at,
        final(state).kana_pressed_at == old(state).kana_pressed_at,
{
    let cs = chars_of(state.composition.as_str());
    if cs.len() > 0 {
        state.composition = string_of_range(&cs, 0, cs.len() - 1);
        proof {
            assert(state.composition@ =~= old(state).composition@.drop_last());
        }
    }
}

/// What the backspace key does to the session (see [`spec_backspace`]); the
/// composition is shown again after clearing the conversion or redisplaying.
pub fn apply_backspace(state: &mut InputState, action: BackspaceAction) -> (r: BackspaceOutcome)
    ensures
        same_settings(final(state), old(state)),
        session_view(final(state)) == spec_backspace(session_view(old(state)), action),
        match action {
            BackspaceAction::ClearConversion => r matches BackspaceOutcome::ConversionCleared { marked }
                && marked@ == spec_display_text(final(state).composition@, final(state).romaji.state().0),
            BackspaceAction::ClearRomajiRedisplay | BackspaceAction::PopCompositionRedisplay =>
                r matches BackspaceOutcome::Compose { marked }
                && marked@ == spec_display_text(final(state).composition@, final(state).romaji.state().0),
            _ => r is EndComposition,
        },
{
    match action {
        BackspaceAction::ClearConversion => {
            state.candidates = None;
            state.segmented = None;
            let marked = state.display_text();
            BackspaceOutcome::ConversionCleared { marked }
        },
        BackspaceAction::ClearRomajiEndComposing => {
            state.romaji.clear();
            state.is_composing = false;
            BackspaceOutcome::EndComposition
        },
        BackspaceAction::ClearRomajiRedisplay => {
            state.romaji.clear();
            let marked = state.display_text();
            BackspaceOutcome::Compose { marked }
        },
        BackspaceAction::PopCompositionEndComposing => {
            pop_composition(state);
            state.is_composing = false;
            BackspaceOutcome::EndComposition
        },
        BackspaceAction::PopCompositionRedisplay => {
            pop_composition(state);
            let marked = state.display_text();
            BackspaceOutcome::Compose { marked }
        },
        BackspaceAction::EndComposing => {
            state.is_composing = false;
            BackspaceOutcome::EndComposition
        },
    }
}

/// The segmented conversion after a focus shift: the focused segment takes
/// the flat selection (when candidates are shown), then the focus moves to
/// the next (or previous) segment, wrapping around.
pub open spec fn spec_shift_focus(
    sv: (Seq<SegView>, usize),
    list: Option<(Seq<CandidateView>, nat)>,
    forward: bool,
) -> (Seq<SegView>, usize) {
    let segs = match list {
        Some(l) => spec_select_focused(sv.0, sv.1, l.1),
        None => sv.0,
    };
    let f = if forward {
        spec_wrap_next(sv.1 as nat, segs.len())
    } else {
        spec_wrap_prev(sv.1 as nat, segs.len())
    };
    (segs, f as usize)
}

/// The flat candidates shown for segment `idx`: its candidates with its
/// selection as the cursor (0 when out of range); an empty list when there is
/// no such segment.
pub open spec fn spec_segment_list(segs: Seq<SegView>, idx: usize) -> (Seq<CandidateView>, nat) {
    if idx < segs.len() {
        let s = segs[idx as int];
        (s.1, if s.2 < s.1.len() { s.2 as nat } else { 0nat })
    } else {
        (Seq::empty(), 0nat)
    }
}

/// The UTF-16 range of segment `f` in the sentence (at the end, with length
/// 0, when there is no such segment).
pub open spec fn spec_focus_range(segs: Seq<SegView>, f: usize) -> (nat, nat) {
    if f < segs.len() {
        (spec_utf16_len(spec_concat_surfaces(segs.take(f as int))), spec_utf16_len(crate::segment::spec_seg_surface(segs[f as int])))
    } else {
        (spec_utf16_len(spec_concat_surfaces(segs)), 0nat)
    }
}

/// What a focus shift shows: the new focused index, the whole sentence and
/// the UTF-16 range of the focused segment in it.
#[derive(Debug)]
pub struct FocusShown {
    /// The focused segment.
    pub focused: usize,
    /// The whole sentence.
    pub surface: String,
    /// Start of the focused segment (UTF-16 units).
    pub start: usize,
    /// Length of the focused segment (UTF-16 units).
    pub len: usize,
}

/// Shifts the focus between segments (←/→ while converting in segments):
/// see [`spec_shift_focus`]; the candidates of the newly focused segment
/// become the flat candidates. Without a segmented conversion nothing
/// changes and nothing is shown.
pub fn shift_focus(state: &mut InputState, forward: bool) -> (r: Option<FocusShown>)
    requires
        match old(state).segmented {
            Some(s) => {
                &&& forward && s.segments@.len() > 0 ==> s.focused < usize::MAX
                &&& spec_utf16_len(spec_concat_surfaces(
                    spec_shift_focus(s@, list_opt_view(old(state).candidates), forward).0)) <= usize::MAX
            },
            None => true,
        },
    ensures
        same_settings(final(state), old(state)),
        match seg_opt_view(old(state).segmented) {
            None => r is None && *final(state) == *old(state),
            Some(sv) => {
                let n = spec_shift_focus(sv, list_opt_view(old(state).candidates), forward);
                let w = session_view(final(state));
                let v = session_view(old(state));
                &&& w == SessionView { seg: Some(n), list: Some(spec_segment_list(n.0, n.1)), ..v }
                &&& r matches Some(x) && x.focused == n.1 && x.surface@ == spec_concat_surfaces(n.0)
                    && (x.start as nat, x.len as nat) == spec_focus_range(n.0, n.1)
            },
        },
{
    let sel = match &state.candidates {
        Some(c) => Some(c.selected_index()),
        None => None,
    };
    let shown = match &mut state.segmented {
        Some(segmented) => {
            let ghost s0 = segmented@;
            match sel {
                Some(idx) => {
                    match segmented.focused_segment_mut() {
                        Some(seg) => {
                            seg.select(idx);
                        },
                        None => {},
                    }
                    proof {
                        assert(segmented@.0 =~= spec_select_focused(s0.0, s0.1, idx as nat));
                    }
                },
                None => {},
            }
            if forward {
                segmented.focus_next();
            } else {
                segmented.focus_prev();
            }
            let focused = segmented.focused;
            let surface = segmented.current_surface();
            let (start, len) = segmented.focused_surface_range_utf16();
            let list = candidate_list_from_segment(segmented, focused);
            Some((FocusShown { focused, surface, start, len }, list))
        },
        None => None,
    };
    match shown {
        Some((x, list)) => {
            state.candidates = Some(list);
            Some(x)
        },
        None => None,
    }
}

/// Takes a resized segmentation (Shift+←/→ while converting in segments):
/// it replaces the segmented conversion, the candidates of its focused
/// segment become the flat candidates, and the sentence is shown with the
/// focused segment's range.
pub fn apply_resized(state: &mut InputState, resized: SegmentedConversion) -> (r: FocusShown)
    requires
        spec_utf16_len(spec_concat_surfaces(resized@.0)) <= usize::MAX,
    ensures
        same_settings(final(state), old(state)),
        session_view(final(state)) == (SessionView {
            seg: Some(resized@),
            list: Some(spec_segment_list(resized@.0, resized@.1)),
            ..session_view(old(state))
        }),
        r.focused == resized@.1,
        r.surface@ == spec_concat_surfaces(resized@.0),
        (r.start as nat, r.len as nat) == spec_focus_range(resized@.0, resized@.1),
{
    let focused = resized.focused;
    let surface = resized.current_surface();
    let (start, len) = resized.focused_surface_range_utf16();
    let list = candidate_list_from_segment(&resized, focused);
    state.segmented = Some(resized);
    state.candidates = Some(list);
    FocusShown { focused, surface, start, len }
}


/// Law: committing without a conversion commits everything typed: the
/// composition followed by the flushed pending romaji, learning nothing.
pub proof fn lemma_commit_flushes(v: SessionView)
    requires
        v.seg is None,
        v.list is None,
    ensures
        spec_commit_all(v).1 == (v.composition + spec_flush(mozc_spec_table(), v.romaji).1, Seq::<CandidateView>::empty()),
        spec_commit_all(v).0.romaji == (Seq::<char>::empty(), false),
        spec_commit_all(v).0.composition == Seq::<char>::empty(),
{
}

/// Typing printable ASCII is feeding the romaji converter.
proof fn lemma_type_is_feed(r: RomajiState, comp: Seq<char>, text: Seq<char>)
    requires
        forall|i: int| 0 <= i < text.len() ==> spec_ascii_graphic(#[trigger] text[i]),
    ensures
        spec_type(r, comp, text) == (
            crate::romaji::spec_feed(mozc_spec_table(), r, text).0,
            comp + crate::romaji::spec_feed(mozc_spec_table(), r, text).1,
            text.len() > 0,
        ),
    decreases text.len(),
{
    if text.len() > 0 {
        lemma_type_is_feed(r, comp, text.drop_last());
        let a = crate::romaji::spec_feed(mozc_spec_table(), r, text.drop_last());
        let b = spec_input(mozc_spec_table(), a.0, text.last());
        assert(spec_ascii_graphic(text[text.len() - 1]));
        assert(comp + a.1 + b.1 =~= comp + (a.1 + b.1));
    } else {
        assert(comp + Seq::<char>::empty() =~= comp);
    }
}

/// Law: typing romaji into a fresh composition and pressing Enter commits
/// exactly what converting the typed text gives (nothing pending is lost):
/// `nihon` then Enter commits にほん.
pub proof fn lemma_type_then_commit(v: SessionView, text: Seq<char>)
    requires
        v.seg is None,
        v.list is None,
        v.romaji == (Seq::<char>::empty(), false),
        v.composition == Seq::<char>::empty(),
        forall|i: int| 0 <= i < text.len() ==> spec_ascii_graphic(#[trigger] text[i]),
    ensures
        ({
            let ty = spec_type(v.romaji, v.composition, text);
            let w = SessionView { romaji: ty.0, composition: ty.1, is_composing: true, ..v };
            spec_commit_all(w).1 == (
                crate::romaji::spec_convert(mozc_spec_table(), (Seq::<char>::empty(), false), text).1,
                Seq::<CandidateView>::empty(),
            )
        }),
{
    lemma_type_is_feed(v.romaji, v.composition, text);
    let a = crate::romaji::spec_feed(mozc_spec_table(), v.romaji, text);
    assert(Seq::<char>::empty() + a.1 =~= a.1);
}

} // verus!
