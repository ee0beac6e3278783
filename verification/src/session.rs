//! The input session: the state of one input controller and the decisions
//! taken on it, free of any platform call. What to commit, what to learn,
//! what a command key does, which punctuation is widened, and the learning
//! status text are decided here; the platform layer performs the effects.

use vstd::prelude::*;
use std::time::Instant;
use crate::candidate::{cands_view, Candidate, CandidateList, CandidateView};
use crate::context::ConversionContext;
use crate::correction::{prefs_view, CorrectionStore, PrefView};
use crate::romaji::RomajiConverter;
use crate::segment::{spec_concat_surfaces, spec_selected_candidates, SegView, SegmentedConversion};
use crate::text::{append_str, decimal_string, push_all, spec_decimal, str_eq};

verus! {

/// The state of one input session.
#[derive(Debug)]
pub struct InputState {
    /// Romaji to kana conversion of the keys typed.
    pub romaji: RomajiConverter,
    /// The kana composed so far.
    pub composition: String,
    /// Flat conversion candidates (`None`: not converting).
    pub candidates: Option<CandidateList>,
    /// Segmented conversion (used instead of `candidates` when available).
    pub segmented: Option<SegmentedConversion>,
    /// Conversion context (previous words).
    pub context: ConversionContext,
    /// Whether uncommitted text is shown.
    pub is_composing: bool,
    /// Japanese input mode (false: direct input).
    pub japanese_mode: bool,
    /// When the input method was last activated.
    pub activated_at: Option<Instant>,
    /// When the kana key was last pressed.
    pub kana_pressed_at: Option<Instant>,
}

/// The view of an optional segmented conversion.
pub open spec fn seg_opt_view(o: Option<SegmentedConversion>) -> Option<(Seq<SegView>, usize)> {
    match o {
        Some(s) => Some(s@),
        None => None,
    }
}

/// The view of an optional candidate list: its items and cursor.
pub open spec fn list_opt_view(o: Option<CandidateList>) -> Option<(Seq<CandidateView>, nat)> {
    match o {
        Some(l) => Some((l.items(), l.cursor())),
        None => None,
    }
}

impl InputState {
    /// A fresh session: nothing composed, Japanese mode on.
    pub fn new() -> (r: Self)
        ensures
            r.romaji.state() == (Seq::<char>::empty(), false),
            r.composition@.len() == 0,
            r.candidates is None,
            r.segmented is None,
            r.context.prev_words@.len() == 0,
            r.context.mode == crate::context::ConversionMode::Normal,
            r.context.max_candidates == 9,
            !r.is_composing,
            r.japanese_mode,
            r.activated_at is None,
            r.kana_pressed_at is None,
    {
        InputState {
            romaji: RomajiConverter::new(),
            composition: String::new(),
            candidates: None,
            segmented: None,
            context: ConversionContext::new(),
            is_composing: false,
            japanese_mode: true,
            activated_at: None,
            kana_pressed_at: None,
        }
    }

    /// Clears what is being composed (after a commit or a cancel); the
    /// context, the mode and the times stay.
    pub fn reset(&mut self)
        ensures
            final(self).romaji.state() == (Seq::<char>::empty(), false),
            final(self).composition@.len() == 0,
            final(self).candidates is None,
            final(self).segmented is None,
            !final(self).is_composing,
            final(self).context == old(self).context,
            final(self).japanese_mode == old(self).japanese_mode,
            final(self).activated_at == old(self).activated_at,
            final(self).kana_pressed_at == old(self).kana_pressed_at,
    {
        self.romaji.clear();
        self.composition = String::new();
        self.candidates = None;
        self.segmented = None;
        self.is_composing = false;
    }

    /// Whether there is a conversion result (flat or segmented).
    pub fn has_conversion(&self) -> (r: bool)
        ensures
            r == (self.candidates is Some || self.segmented is Some),
    {
        self.candidates.is_some() || self.segmented.is_some()
    }

    /// The text to show: the composition and the pending romaji, a pending
    /// lone `n` shown as `ん` unless the composition already ends with `ん`.
    pub fn display_text(&self) -> (r: String)
        ensures
            r@ == spec_display_text(self.composition@, self.romaji.state().0),
    {
        let mut text = self.composition.clone();
        let buf = self.romaji.buffer();
        if str_eq(buf, "n") {
            let chars = crate::text::chars_of(text.as_str());
            let ends_with_n = chars.len() > 0 && chars[chars.len() - 1] == 'ん';
            if !ends_with_n {
                text.push('ん');
            }
        } else {
            append_str(&mut text, buf);
        }
        text
    }
}

/// The text shown for a composition and pending romaji.
pub open spec fn spec_display_text(composition: Seq<char>, buffer: Seq<char>) -> Seq<char> {
    if buffer == "n"@ {
        if composition.len() > 0 && composition.last() == 'ん' {
            composition
        } else {
            composition.push('ん')
        }
    } else {
        composition + buffer
    }
}

// ------------------------------------------------------------ commits

/// What to commit and what to learn.
#[derive(Debug, PartialEq, Eq)]
pub struct CommitDecision {
    /// The text to insert into the client.
    pub commit_text: String,
    /// The candidates to record as learned, in order.
    pub learn_targets: Vec<Candidate>,
}

impl View for CommitDecision {
    type V = (Seq<char>, Seq<CandidateView>);

    open spec fn view(&self) -> (Seq<char>, Seq<CandidateView>) {
        (self.commit_text@, cands_view(self.learn_targets@))
    }
}

impl CommitDecision {
    /// Nothing to commit.
    pub fn empty() -> (r: Self)
        ensures
            r@ == (Seq::<char>::empty(), Seq::<CandidateView>::empty()),
    {
        let r = CommitDecision { commit_text: String::new(), learn_targets: Vec::new() };
        proof {
            assert(cands_view(r.learn_targets@) =~= Seq::<CandidateView>::empty());
        }
        r
    }
}

/// The commit of a state: with a segmented conversion, the selected surfaces
/// of all segments and each selected candidate; else with a selected flat
/// candidate, its surface and itself; else the composition, learning nothing.
pub open spec fn spec_decide_commit(
    seg: Option<(Seq<SegView>, usize)>,
    list: Option<(Seq<CandidateView>, nat)>,
    composition: Seq<char>,
) -> (Seq<char>, Seq<CandidateView>) {
    match seg {
        Some(s) => (spec_concat_surfaces(s.0), spec_selected_candidates(s.0)),
        None => match list {
            Some(l) if l.1 < l.0.len() => (l.0[l.1 as int].surface, seq![l.0[l.1 as int]]),
            _ => (composition, Seq::empty()),
        },
    }
}

/// What to commit from a state (the state is not changed; pending romaji is
/// not flushed).
pub fn decide_commit(state: &InputState) -> (r: CommitDecision)
    ensures
        r@ == spec_decide_commit(seg_opt_view(state.segmented), list_opt_view(state.candidates), state.composition@),
{
    if let Some(segmented) = &state.segmented {
        let commit_text = segmented.current_surface();
        let learn_targets = segmented.selected_candidates();
        return CommitDecision { commit_text, learn_targets };
    }
    if let Some(candidates) = &state.candidates {
        if let Some(selected) = candidates.selected() {
            let c = selected.clone();
            let mut learn_targets: Vec<Candidate> = Vec::new();
            learn_targets.push(c);
            let r = CommitDecision { commit_text: selected.surface.clone(), learn_targets };
            proof {
                assert(cands_view(r.learn_targets@) =~= seq![selected@]);
            }
            return r;
        }
    }
    let r = CommitDecision { commit_text: state.composition.clone(), learn_targets: Vec::new() };
    proof {
        assert(cands_view(r.learn_targets@) =~= Seq::<CandidateView>::empty());
    }
    r
}

/// The segments after selecting line `idx` in the focused segment (ignored
/// when out of range).
pub open spec fn spec_select_focused(segs: Seq<SegView>, focused: usize, idx: nat) -> Seq<SegView> {
    if focused < segs.len() {
        let s = segs[focused as int];
        segs.update(focused as int, (s.0, s.1, if idx < s.1.len() { idx as usize } else { s.2 }))
    } else {
        segs
    }
}

/// The commit of a digit key: for `'1'..='9'` with at least that many flat
/// candidates, with a segmented conversion the whole sentence after selecting
/// that line in the focused segment, else that candidate; nothing otherwise.
pub open spec fn spec_decide_digit(
    seg: Option<(Seq<SegView>, usize)>,
    list: Option<(Seq<CandidateView>, nat)>,
    digit: char,
) -> Option<(Seq<char>, Seq<CandidateView>)> {
    if !('1' <= digit && digit <= '9') {
        None
    } else {
        let idx = (digit as int - '1' as int) as nat;
        match list {
            None => None,
            Some(l) => if idx >= l.0.len() {
                None
            } else {
                match seg {
                    Some(s) => {
                        let segs = spec_select_focused(s.0, s.1, idx);
                        Some((spec_concat_surfaces(segs), spec_selected_candidates(segs)))
                    },
                    None => Some((l.0[idx as int].surface, seq![l.0[idx as int]])),
                }
            },
        }
    }
}

/// What to commit when a digit key is pressed while candidates are shown
/// (the state is not changed).
pub fn decide_digit_select_and_commit(state: &InputState, digit: char) -> (r: Option<CommitDecision>)
    ensures
        match r {
            Some(d) => spec_decide_digit(seg_opt_view(state.segmented), list_opt_view(state.candidates), digit) == Some(d@),
            None => spec_decide_digit(seg_opt_view(state.segmented), list_opt_view(state.candidates), digit) is None,
        },
{
    if !('1' <= digit && digit <= '9') {
        return None;
    }
    let line_idx = ((digit as u32) - ('1' as u32)) as usize;
    proof {
        assert(line_idx == (digit as int - '1' as int));
    }
    let candidates = match &state.candidates {
        Some(c) => c,
        None => return None,
    };
    if line_idx >= candidates.len() {
        return None;
    }
    if let Some(segmented) = &state.segmented {
        let mut new_segmented = segmented.clone();
        let ghost segs0 = segmented@.0;
        match new_segmented.focused_segment_mut() {
            Some(seg) => {
                seg.select(line_idx);
            },
            None => {},
        }
        proof {
            assert(new_segmented@.0 =~= spec_select_focused(segs0, segmented@.1, line_idx as nat));
        }
        let commit_text = new_segmented.current_surface();
        let learn_targets = new_segmented.selected_candidates();
        return Some(CommitDecision { commit_text, learn_targets });
    }
    match candidates.get(line_idx) {
        Some(picked) => {
            let c = picked.clone();
            let mut learn_targets: Vec<Candidate> = Vec::new();
            learn_targets.push(c);
            let r = CommitDecision { commit_text: picked.surface.clone(), learn_targets };
            proof {
                assert(cands_view(r.learn_targets@) =~= seq![picked@]);
            }
            Some(r)
        },
        None => None,
    }
}

// ------------------------------------------------------------ commands

/// What a command key does.
#[derive(Debug, Clone, Copy, PartialEq, Eq, Structural)]
pub enum CommandAction {
    /// Not composing: left to the application.
    PassThrough,
    /// Enter: commit.
    Commit,
    /// Escape: cancel.
    Cancel,
    /// Backspace: delete one character.
    Backspace,
    /// Left: focus the previous segment.
    FocusShiftLeft,
    /// Right: focus the next segment.
    FocusShiftRight,
    /// Down: next candidate.
    SelectNext,
    /// Up: previous candidate.
    SelectPrev,
    /// Any other command: commit, then leave it to the application.
    CommitAndPassThrough,
}

/// The action of a command selector: always pass-through when not composing;
/// the known selectors map to their actions; anything else commits and passes
/// through.
pub open spec fn spec_decide_command(selector: Seq<char>, is_composing: bool) -> CommandAction {
    if !is_composing {
        CommandAction::PassThrough
    } else if selector == "insertNewline:"@ {
        CommandAction::Commit
    } else if selector == "cancelOperation:"@ {
        CommandAction::Cancel
    } else if selector == "deleteBackward:"@ {
        CommandAction::Backspace
    } else if selector == "moveLeft:"@ {
        CommandAction::FocusShiftLeft
    } else if selector == "moveRight:"@ {
        CommandAction::FocusShiftRight
    } else if selector == "moveDown:"@ {
        CommandAction::SelectNext
    } else if selector == "moveUp:"@ {
        CommandAction::SelectPrev
    } else {
        CommandAction::CommitAndPassThrough
    }
}

/// The action of a command selector (its name, such as `insertNewline:`).
pub fn decide_command(selector_name: &str, is_composing: bool) -> (r: CommandAction)
    ensures
        r == spec_decide_command(selector_name@, is_composing),
{
    if !is_composing {
        return CommandAction::PassThrough;
    }
    if str_eq(selector_name, "insertNewline:") {
        CommandAction::Commit
    } else if str_eq(selector_name, "cancelOperation:") {
        CommandAction::Cancel
    } else if str_eq(selector_name, "deleteBackward:") {
        CommandAction::Backspace
    } else if str_eq(selector_name, "moveLeft:") {
        CommandAction::FocusShiftLeft
    } else if str_eq(selector_name, "moveRight:") {
        CommandAction::FocusShiftRight
    } else if str_eq(selector_name, "moveDown:") {
        CommandAction::SelectNext
    } else if str_eq(selector_name, "moveUp:") {
        CommandAction::SelectPrev
    } else {
        CommandAction::CommitAndPassThrough
    }
}

// ------------------------------------------------------------ punctuation

/// The full-width form of an ASCII punctuation mark typed in Japanese mode,
/// for the marks commonly written full-width.
pub open spec fn spec_fullwidth_punctuation(c: char) -> Option<Seq<char>> {
    if c == ',' { Some("、"@) }
    else if c == '.' { Some("。"@) }
    else if c == '?' { Some("？"@) }
    else if c == '!' { Some("！"@) }
    else if c == '~' { Some("〜"@) }
    else if c == '(' { Some("（"@) }
    else if c == ')' { Some("）"@) }
    else if c == '[' { Some("「"@) }
    else if c == ']' { Some("」"@) }
    else if c == '{' { Some("『"@) }
    else if c == '}' { Some("』"@) }
    else if c == ';' { Some("；"@) }
    else if c == ':' { Some("："@) }
    else if c == '@' { Some("＠"@) }
    else if c == '#' { Some("＃"@) }
    else if c == '$' { Some("＄"@) }
    else if c == '%' { Some("％"@) }
    else if c == '&' { Some("＆"@) }
    else if c == '*' { Some("＊"@) }
    else if c == '+' { Some("＋"@) }
    else if c == '=' { Some("＝"@) }
    else { None }
}

/// The full-width form of an ASCII punctuation mark, if it has one here.
pub fn ascii_to_fullwidth_punctuation(c: char) -> (r: Option<&'static str>)
    ensures
        match r {
            Some(s) => spec_fullwidth_punctuation(c) == Some(s@),
            None => spec_fullwidth_punctuation(c) is None,
        },
{
    match c {
        ',' => Some("、"),
        '.' => Some("。"),
        '?' => Some("？"),
        '!' => Some("！"),
        '~' => Some("〜"),
        '(' => Some("（"),
        ')' => Some("）"),
        '[' => Some("「"),
        ']' => Some("」"),
        '{' => Some("『"),
        '}' => Some("』"),
        ';' => Some("；"),
        ':' => Some("："),
        '@' => Some("＠"),
        '#' => Some("＃"),
        '$' => Some("＄"),
        '%' => Some("％"),
        '&' => Some("＆"),
        '*' => Some("＊"),
        '+' => Some("＋"),
        '=' => Some("＝"),
        _ => None,
    }
}

/// Whether `c` is one of the marks written with a Japanese form rather than
/// the full-width form of the same mark: `, . ~ [ ] { }`.
pub open spec fn spec_japanese_mark(c: char) -> bool {
    c == ',' || c == '.' || c == '~' || c == '[' || c == ']' || c == '{' || c == '}'
}

/// Law: a widened mark is one character. The Japanese marks become
/// 、。〜「」『』; every other widened mark becomes its own full-width form,
/// the character 0xFEE0 code points above it (`!` → `！`, `?` → `？`). The
/// widened marks are exactly `, . ? ! ~ ( ) [ ] { } ; : @ # $ % & * + =`.
pub proof fn lemma_fullwidth_is_own_mark(c: char)
    ensures
        spec_fullwidth_punctuation(c) is Some <==> (c == ',' || c == '.' || c == '?' || c == '!' || c == '~' || c == '(' || c == ')' || c == '[' || c == ']' || c == '{' || c == '}' || c == ';' || c == ':' || c == '@' || c == '#' || c == '$' || c == '%' || c == '&' || c == '*' || c == '+' || c == '='),
        match spec_fullwidth_punctuation(c) {
            Some(x) => {
                &&& x.len() == 1
                &&& c == ',' ==> x[0] == '、'
                &&& c == '.' ==> x[0] == '。'
                &&& c == '~' ==> x[0] == '〜'
                &&& c == '[' ==> x[0] == '「'
                &&& c == ']' ==> x[0] == '」'
                &&& c == '{' ==> x[0] == '『'
                &&& c == '}' ==> x[0] == '』'
                &&& !spec_japanese_mark(c) ==> (x[0] as u32) == (c as u32) + 0xFEE0
            },
            None => true,
        },
{
        reveal_strlit("、");
        reveal_strlit("。");
        reveal_strlit("？");
        reveal_strlit("！");
        reveal_strlit("〜");
        reveal_strlit("（");
        reveal_strlit("）");
        reveal_strlit("「");
        reveal_strlit("」");
        reveal_strlit("『");
        reveal_strlit("』");
        reveal_strlit("；");
        reveal_strlit("：");
        reveal_strlit("＠");
        reveal_strlit("＃");
        reveal_strlit("＄");
        reveal_strlit("％");
        reveal_strlit("＆");
        reveal_strlit("＊");
        reveal_strlit("＋");
        reveal_strlit("＝");
}

/// Law: two different marks never widen to the same text.
pub proof fn lemma_fullwidth_distinct(c: char, d: char)
    requires
        c != d,
        spec_fullwidth_punctuation(c) is Some,
        spec_fullwidth_punctuation(d) is Some,
    ensures
        spec_fullwidth_punctuation(c) != spec_fullwidth_punctuation(d),
{
    lemma_fullwidth_is_own_mark(c);
    lemma_fullwidth_is_own_mark(d);
    let x = spec_fullwidth_punctuation(c).unwrap();
    let y = spec_fullwidth_punctuation(d).unwrap();
    if x == y {
        assert(x[0] == y[0]);
    }
}

// ------------------------------------------------------------ learning status

/// How many times a conversion must be committed before it is learned as a
/// preference.
pub const MIN_SEEN: u32 = 2;

/// One line per preference: `　reading → surface（seen回）`.
pub open spec fn spec_pref_lines(ps: Seq<PrefView>) -> Seq<char>
    decreases ps.len(),
{
    if ps.len() == 0 {
        Seq::empty()
    } else {
        let p = ps.last();
        spec_pref_lines(ps.drop_last()) + "　"@ + p.reading + " → "@ + p.prefer + "（"@ + spec_decimal(p.seen as nat)
            + "回）\n"@
    }
}

/// The learning status text: opt-in state and number of observations, the
/// learned preferences, and a short help.
pub open spec fn spec_learning_status(enabled: bool, count: nat, ps: Seq<PrefView>) -> Seq<char> {
    "🐈 ぬこIME 学習状況\n"@
        + "観察ログ: "@ + (if enabled { "ON"@ } else { "OFF（収集なし）"@ }) + "／観察 "@ + spec_decimal(count) + " 件\n"@
        + (if ps.len() == 0 {
            "学習した変換選好: まだありません\n"@
        } else {
            "学習した変換選好（"@ + spec_decimal(ps.len()) + " 件）:\n"@ + spec_pref_lines(ps)
        })
        + "──────────\n"@
        + "💡 同じ変換を"@ + spec_decimal(MIN_SEEN as nat) + "回以上、または既定でない候補を選ぶと学習され、\n"@
        + "　次からその変換が上位に来ます（読み＝そのままの確定は対象外）。"@
}

/// The learning status text for the status panel, from the opt-in state, the
/// number of observations and the learned preferences.
pub fn learning_status_text(enabled: bool, count: usize, store: &CorrectionStore) -> (r: String)
    ensures
        r@ == spec_learning_status(enabled, count as nat, prefs_view(store.preferences@)),
{
    let mut s = String::new();
    append_str(&mut s, "🐈 ぬこIME 学習状況\n");
    append_str(&mut s, "観察ログ: ");
    if enabled {
        append_str(&mut s, "ON");
    } else {
        append_str(&mut s, "OFF（収集なし）");
    }
    append_str(&mut s, "／観察 ");
    let n = decimal_string(count as u64);
    push_all(&mut s, &n);
    append_str(&mut s, " 件\n");
    let ghost head = s@;
    let ghost ps = prefs_view(store.preferences@);
    if store.is_empty() {
        append_str(&mut s, "学習した変換選好: まだありません\n");
    } else {
        append_str(&mut s, "学習した変換選好（");
        let m = decimal_string(store.len() as u64);
        push_all(&mut s, &m);
        append_str(&mut s, " 件）:\n");
        let ghost mid = s@;
        let mut i: usize = 0;
        while i < store.preferences.len()
            invariant
                i <= store.preferences.len(),
                ps == prefs_view(store.preferences@),
                s@ == mid + spec_pref_lines(ps.take(i as int)),
            decreases store.preferences.len() - i,
        {
            proof {
                assert(ps.take(i as int + 1).drop_last() =~= ps.take(i as int));
                assert(ps.take(i as int + 1).last() == store.preferences@[i as int]@);
            }
            let p = &store.preferences[i];
            append_str(&mut s, "　");
            push_all(&mut s, &p.reading);
            append_str(&mut s, " → ");
            push_all(&mut s, &p.prefer);
            append_str(&mut s, "（");
            let k = decimal_string(p.seen as u64);
            push_all(&mut s, &k);
            append_str(&mut s, "回）\n");
            i = i + 1;
            proof {
                assert(s@ =~= mid + spec_pref_lines(ps.take(i as int)));
            }
        }
        proof {
            assert(ps.take(i as int) =~= ps);
        }
    }
    append_str(&mut s, "──────────\n");
    append_str(&mut s, "💡 同じ変換を");
    let ms = decimal_string(MIN_SEEN as u64);
    push_all(&mut s, &ms);
    append_str(&mut s, "回以上、または既定でない候補を選ぶと学習され、\n");
    append_str(&mut s, "　次からその変換が上位に来ます（読み＝そのままの確定は対象外）。");
    proof {
        assert(s@ =~= spec_learning_status(enabled, count as nat, ps));
    }
    s
}

} // verus!
