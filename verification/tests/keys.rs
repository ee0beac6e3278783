use nuko::candidate::{Candidate, CandidateList};
use nuko::keys::{
    apply_backspace, apply_conversion, apply_resized, apply_space, convert_composition, candidate_list_from_segment, commit_composition,
    handle_command, handle_text, prepare_conversion, shift_focus, BackspaceAction, BackspaceOutcome, CommandOutcome,
    SpaceAction, SpaceOutcome, TextAction,
};
use nuko::segment::{Segment, SegmentedConversion};
use nuko::session::InputState;

fn cand(surface: &str, reading: &str, score: i32) -> Candidate {
    Candidate::new(surface, reading).with_score(score)
}

fn typed(text: &str) -> InputState {
    let mut s = InputState::new();
    match handle_text(&mut s, text) {
        TextAction::Compose { .. } => {}
        other => panic!("unexpected {other:?}"),
    }
    s
}

fn with_list(s: &mut InputState, cands: Vec<Candidate>) {
    let mut list = CandidateList::new();
    for c in cands {
        list.push(c);
    }
    s.candidates = Some(list);
}

#[test]
fn typing_composes_kana() {
    let mut s = InputState::new();
    match handle_text(&mut s, "nihon") {
        TextAction::Compose { marked } => assert_eq!(marked, "にほん"),
        other => panic!("unexpected {other:?}"),
    }
    assert_eq!(s.composition, "にほ");
    assert_eq!(s.romaji.buffer(), "n");
    assert!(s.is_composing);
}

#[test]
fn direct_mode_and_non_ascii_pass_through() {
    let mut s = InputState::new();
    s.japanese_mode = false;
    assert!(matches!(handle_text(&mut s, "a"), TextAction::PassThrough));
    let mut t = InputState::new();
    assert!(matches!(handle_text(&mut t, "あ"), TextAction::PassThrough));
    assert!(!t.is_composing);
    assert!(matches!(handle_text(&mut t, " "), TextAction::Space));
}

#[test]
fn digit_without_candidates_commits_pending_kana_first() {
    let mut s = typed("ka");
    match handle_text(&mut s, "1") {
        TextAction::InsertDirect { commit, text } => {
            assert_eq!(commit, "か");
            assert_eq!(text, "1");
        }
        other => panic!("unexpected {other:?}"),
    }
    assert!(!s.is_composing);
    assert_eq!(s.composition, "");
    assert_eq!(s.context.prev_words, vec!["か".to_string()]);
    let mut t = InputState::new();
    match handle_text(&mut t, "7") {
        TextAction::InsertDirect { commit, text } => {
            assert_eq!(commit, "");
            assert_eq!(text, "7");
        }
        other => panic!("unexpected {other:?}"),
    }
}

#[test]
fn punctuation_is_widened() {
    let mut s = typed("hen");
    match handle_text(&mut s, ".") {
        TextAction::InsertDirect { commit, text } => {
            assert_eq!(commit, "へん");
            assert_eq!(text, "。");
        }
        other => panic!("unexpected {other:?}"),
    }
}

#[test]
fn digit_with_candidates_commits_that_line() {
    let mut s = typed("nihon");
    with_list(&mut s, vec![cand("日本", "にほん", 100), cand("二本", "にほん", 80)]);
    match handle_text(&mut s, "2") {
        TextAction::CommitCandidate(d) => {
            assert_eq!(d.commit_text, "二本");
            assert_eq!(d.learn_targets.len(), 1);
        }
        other => panic!("unexpected {other:?}"),
    }
    assert!(s.candidates.is_none());
    assert_eq!(s.context.prev_words, vec!["二本".to_string()]);
}

#[test]
fn other_text_while_converting_commits_and_starts_again() {
    let mut s = typed("nihon");
    with_list(&mut s, vec![cand("日本", "にほん", 100), cand("二本", "にほん", 80)]);
    match handle_text(&mut s, "ka") {
        TextAction::CommitAndCompose { decision, marked } => {
            assert_eq!(decision.commit_text, "日本");
            assert_eq!(marked, "か");
        }
        other => panic!("unexpected {other:?}"),
    }
    assert!(s.candidates.is_none());
    assert!(s.is_composing);
    assert_eq!(s.composition, "か");
}

#[test]
fn enter_commits_and_escape_cancels() {
    let mut s = typed("nihonn");
    match handle_command(&mut s, "insertNewline:") {
        CommandOutcome::Committed { decision, pass_through } => {
            assert_eq!(decision.commit_text, "にほん");
            assert!(decision.learn_targets.is_empty());
            assert!(!pass_through);
        }
        other => panic!("unexpected {other:?}"),
    }
    assert!(!s.is_composing);
    let mut t = typed("abc");
    assert!(matches!(handle_command(&mut t, "cancelOperation:"), CommandOutcome::Cancelled));
    assert_eq!(t.composition, "");
    assert!(matches!(handle_command(&mut t, "insertNewline:"), CommandOutcome::PassThrough));
}

#[test]
fn arrows_move_the_selection() {
    let mut s = typed("nihon");
    with_list(&mut s, vec![cand("日本", "にほん", 100), cand("二本", "にほん", 80)]);
    match handle_command(&mut s, "moveDown:") {
        CommandOutcome::Selection { index, marked } => {
            assert_eq!(index, Some(1));
            assert_eq!(marked.as_deref(), Some("二本"));
        }
        other => panic!("unexpected {other:?}"),
    }
    match handle_command(&mut s, "moveDown:") {
        CommandOutcome::Selection { index, .. } => assert_eq!(index, Some(0)),
        other => panic!("unexpected {other:?}"),
    }
    match handle_command(&mut s, "moveUp:") {
        CommandOutcome::Selection { index, .. } => assert_eq!(index, Some(1)),
        other => panic!("unexpected {other:?}"),
    }
    assert!(matches!(handle_command(&mut s, "moveLeft:"), CommandOutcome::FocusShift { forward: false }));
    assert!(matches!(handle_command(&mut s, "deleteBackward:"), CommandOutcome::Backspace));
    match handle_command(&mut s, "noop:") {
        CommandOutcome::Committed { decision, pass_through } => {
            assert_eq!(decision.commit_text, "二本");
            assert!(pass_through);
        }
        other => panic!("unexpected {other:?}"),
    }
}

#[test]
fn segmented_commit_takes_the_flat_selection() {
    let mut s = InputState::new();
    s.segmented = Some(SegmentedConversion::new(vec![
        Segment::new("わたし", vec![cand("私", "わたし", 100), cand("渡し", "わたし", 80)]),
        Segment::new("の", vec![cand("の", "の", 100)]),
    ]));
    let list = candidate_list_from_segment(s.segmented.as_ref().unwrap(), 0);
    assert_eq!(list.len(), 2);
    s.candidates = Some(list);
    s.candidates.as_mut().unwrap().select(1);
    s.is_composing = true;
    let d = commit_composition(&mut s);
    assert_eq!(d.commit_text, "渡しの");
    assert_eq!(d.learn_targets.len(), 2);
    assert!(candidate_list_from_segment(&SegmentedConversion::new(Vec::new()), 0).is_empty());
}

#[test]
fn conversion_flow() {
    let mut s = typed("nihonn");
    assert_eq!(prepare_conversion(&mut s).as_deref(), Some("にほん"));
    let mut list = CandidateList::new();
    list.push(cand("日本", "にほん", 100));
    assert_eq!(apply_conversion(&mut s, Ok(list)), "日本");
    assert!(s.candidates.is_some());
    let mut e = InputState::new();
    assert!(prepare_conversion(&mut e).is_none());
    let shown = apply_conversion(&mut e, Err(nuko::error::NukoError::InvalidInput("空の入力です".to_string())));
    assert_eq!(shown, "");
}

#[test]
fn space_cycles_and_guards_are_used_up() {
    let mut s = typed("nihon");
    with_list(&mut s, vec![cand("日本", "にほん", 100), cand("二本", "にほん", 80)]);
    match apply_space(&mut s, SpaceAction::CycleNextCandidate) {
        SpaceOutcome::Selection { index, marked } => {
            assert_eq!(index, Some(1));
            assert_eq!(marked.as_deref(), Some("二本"));
        }
        other => panic!("unexpected {other:?}"),
    }
    match apply_space(&mut s, SpaceAction::CycleNextCandidate) {
        SpaceOutcome::Selection { index, marked } => {
            assert_eq!(index, Some(0));
            assert_eq!(marked.as_deref(), Some("日本"));
        }
        other => panic!("unexpected {other:?}"),
    }
    s.activated_at = Some(std::time::Instant::now());
    s.kana_pressed_at = Some(std::time::Instant::now());
    assert!(matches!(apply_space(&mut s, SpaceAction::DiscardActivationGuard), SpaceOutcome::Discarded));
    assert!(s.activated_at.is_none());
    assert!(s.kana_pressed_at.is_some());
    assert!(matches!(apply_space(&mut s, SpaceAction::DiscardKanaGuard), SpaceOutcome::Discarded));
    assert!(s.kana_pressed_at.is_none());
    assert!(matches!(apply_space(&mut s, SpaceAction::Convert), SpaceOutcome::Convert));
    assert!(matches!(apply_space(&mut s, SpaceAction::PassThrough), SpaceOutcome::PassThrough));
    let mut e = InputState::new();
    match apply_space(&mut e, SpaceAction::CycleNextCandidate) {
        SpaceOutcome::Selection { index, marked } => {
            assert_eq!(index, None);
            assert_eq!(marked, None);
        }
        other => panic!("unexpected {other:?}"),
    }
}

#[test]
fn backspace_actions() {
    let mut s = typed("nihon");
    with_list(&mut s, vec![cand("日本", "にほん", 100)]);
    match apply_backspace(&mut s, BackspaceAction::ClearConversion) {
        BackspaceOutcome::ConversionCleared { marked } => assert_eq!(marked, "にほん"),
        other => panic!("unexpected {other:?}"),
    }
    assert!(s.candidates.is_none());
    match apply_backspace(&mut s, BackspaceAction::ClearRomajiRedisplay) {
        BackspaceOutcome::Compose { marked } => assert_eq!(marked, "にほ"),
        other => panic!("unexpected {other:?}"),
    }
    assert_eq!(s.romaji.buffer(), "");
    match apply_backspace(&mut s, BackspaceAction::PopCompositionRedisplay) {
        BackspaceOutcome::Compose { marked } => assert_eq!(marked, "に"),
        other => panic!("unexpected {other:?}"),
    }
    assert!(s.is_composing);
    assert!(matches!(
        apply_backspace(&mut s, BackspaceAction::PopCompositionEndComposing),
        BackspaceOutcome::EndComposition
    ));
    assert_eq!(s.composition, "");
    assert!(!s.is_composing);
    assert!(matches!(
        apply_backspace(&mut s, BackspaceAction::PopCompositionRedisplay),
        BackspaceOutcome::Compose { .. }
    ));
    assert_eq!(s.composition, "");
    let mut t = typed("k");
    assert!(matches!(
        apply_backspace(&mut t, BackspaceAction::ClearRomajiEndComposing),
        BackspaceOutcome::EndComposition
    ));
    assert_eq!(t.romaji.buffer(), "");
    assert!(!t.is_composing);
    let mut u = typed("a");
    assert!(matches!(apply_backspace(&mut u, BackspaceAction::EndComposing), BackspaceOutcome::EndComposition));
    assert!(!u.is_composing);
    assert_eq!(u.composition, "あ");
}

#[test]
fn focus_shift_keeps_the_selection_and_loads_the_next_segment() {
    let mut s = InputState::new();
    s.segmented = Some(SegmentedConversion::new(vec![
        Segment::new("わたし", vec![cand("私", "わたし", 100), cand("渡し", "わたし", 80)]),
        Segment::new("の", vec![cand("の", "の", 100), cand("乃", "の", 50)]),
    ]));
    s.candidates = Some(candidate_list_from_segment(s.segmented.as_ref().unwrap(), 0));
    s.candidates.as_mut().unwrap().select(1);
    let shown = shift_focus(&mut s, true).unwrap();
    assert_eq!(shown.focused, 1);
    assert_eq!(shown.surface, "渡しの");
    assert_eq!((shown.start, shown.len), (2, 1));
    assert_eq!(s.segmented.as_ref().unwrap().segments[0].selected, 1);
    let list = s.candidates.as_ref().unwrap();
    assert_eq!(list.len(), 2);
    assert_eq!(list.selected_index(), 0);
    assert_eq!(list.selected().unwrap().surface, "の");
    let back = shift_focus(&mut s, false).unwrap();
    assert_eq!(back.focused, 0);
    assert_eq!((back.start, back.len), (0, 2));
    assert_eq!(s.candidates.as_ref().unwrap().selected_index(), 1);
    let wrapped = shift_focus(&mut s, false).unwrap();
    assert_eq!(wrapped.focused, 1);
    let mut flat = InputState::new();
    assert!(shift_focus(&mut flat, true).is_none());
    assert!(flat.candidates.is_none());
}

#[test]
fn focused_range_counts_utf16_units() {
    let mut seg = SegmentedConversion::new(vec![
        Segment::new("a", vec![cand("𠮷野", "よしの", 100)]),
        Segment::new("b", vec![cand("家", "や", 100)]),
    ]);
    assert_eq!(seg.focused_surface_range_utf16(), (0, 3));
    seg.focus_next();
    assert_eq!(seg.focused_surface_range_utf16(), (3, 1));
    seg.focused = 5;
    assert_eq!(seg.focused_surface_range_utf16(), (4, 0));
}

#[test]
fn resized_segments_replace_the_conversion() {
    let mut s = typed("watashino");
    let mut seg = SegmentedConversion::new(vec![
        Segment::new("わたしの", vec![cand("私の", "わたしの", 100)]),
        Segment::new("", vec![]),
    ]);
    seg.focused = 0;
    let shown = apply_resized(&mut s, seg);
    assert_eq!(shown.focused, 0);
    assert_eq!(shown.surface, "私の");
    assert_eq!((shown.start, shown.len), (0, 2));
    assert_eq!(s.segmented.as_ref().unwrap().len(), 2);
    assert_eq!(s.candidates.as_ref().unwrap().selected().unwrap().surface, "私の");
    assert_eq!(s.composition, "わたしの");
}

#[test]
fn converting_the_composition_selects_the_best_candidate() {
    let engine = nuko::engine::ConversionEngine::new().unwrap();
    let mut s = typed("nihonn");
    assert_eq!(convert_composition(&mut s, &engine).as_deref(), Some("日本"));
    assert_eq!(s.composition, "にほん");
    let list = s.candidates.as_ref().unwrap();
    assert_eq!(list.selected_index(), 0);
    assert_eq!(list.selected().unwrap().surface, "日本");
    assert!(s.segmented.is_none());
    let mut e = InputState::new();
    assert!(convert_composition(&mut e, &engine).is_none());
    assert!(e.candidates.is_none());
}
