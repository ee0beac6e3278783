use nuko::candidate::{Candidate, CandidateList};
use nuko::correction::{CorrectionStore, Preference};
use nuko::session::{ascii_to_fullwidth_punctuation, learning_status_text, InputState};

#[test]
fn display_text_shows_pending_n_as_kana() {
    let mut s = InputState::new();
    for c in "hen".chars() {
        let k = s.romaji.input(c);
        s.composition.push_str(&k);
    }
    assert_eq!(s.composition, "へ");
    assert_eq!(s.display_text(), "へん");
}

#[test]
fn display_text_does_not_double_n() {
    let mut s = InputState::new();
    for c in "kann".chars() {
        let k = s.romaji.input(c);
        s.composition.push_str(&k);
    }
    assert_eq!(s.composition, "かん");
    assert_eq!(s.romaji.buffer(), "n");
    assert_eq!(s.display_text(), "かん");
}

#[test]
fn display_text_appends_other_pending_romaji() {
    let mut s = InputState::new();
    for c in "nihk".chars() {
        let k = s.romaji.input(c);
        s.composition.push_str(&k);
    }
    assert_eq!(s.display_text(), "にhk");
}

#[test]
fn reset_keeps_context_and_mode() {
    let mut s = InputState::new();
    s.composition = "にほん".to_string();
    s.is_composing = true;
    s.japanese_mode = false;
    s.context.push_prev_word("日本");
    let mut list = CandidateList::new();
    list.push(Candidate::new("日本", "にほん"));
    s.candidates = Some(list);
    assert!(s.has_conversion());
    s.reset();
    assert!(!s.has_conversion());
    assert_eq!(s.composition, "");
    assert!(!s.is_composing);
    assert!(!s.japanese_mode);
    assert_eq!(s.context.prev_words, vec!["日本".to_string()]);
}

#[test]
fn fullwidth_punctuation() {
    assert_eq!(ascii_to_fullwidth_punctuation(','), Some("、"));
    assert_eq!(ascii_to_fullwidth_punctuation('.'), Some("。"));
    assert_eq!(ascii_to_fullwidth_punctuation('?'), Some("？"));
    assert_eq!(ascii_to_fullwidth_punctuation('='), Some("＝"));
    assert_eq!(ascii_to_fullwidth_punctuation('-'), None);
    assert_eq!(ascii_to_fullwidth_punctuation('a'), None);
}

#[test]
fn learning_status_without_preferences() {
    let text = learning_status_text(false, 0, &CorrectionStore::default());
    assert_eq!(
        text,
        "🐈 ぬこIME 学習状況\n観察ログ: OFF（収集なし）／観察 0 件\n学習した変換選好: まだありません\n──────────\n💡 同じ変換を2回以上、または既定でない候補を選ぶと学習され、\n　次からその変換が上位に来ます（読み＝そのままの確定は対象外）。"
    );
}

#[test]
fn learning_status_with_preferences() {
    let store = CorrectionStore {
        preferences: vec![Preference { reading: "きしゃ".to_string(), prefer: "記者".to_string(), weight: 12, seen: 12 }],
    };
    let text = learning_status_text(true, 1234, &store);
    assert_eq!(
        text,
        "🐈 ぬこIME 学習状況\n観察ログ: ON／観察 1234 件\n学習した変換選好（1 件）:\n　きしゃ → 記者（12回）\n──────────\n💡 同じ変換を2回以上、または既定でない候補を選ぶと学習され、\n　次からその変換が上位に来ます（読み＝そのままの確定は対象外）。"
    );
}

#[test]
fn panel_layout_flat_page() {
    let items: Vec<String> = (0..12).map(|i| format!("候補{i}")).collect();
    let layout = nuko::panel::panel_layout(None, &items, 10);
    assert_eq!(layout.text, "  1. 候補9\n▶ 2. 候補10\n  3. 候補11\n    2 / 2");
    assert_eq!(layout.selected_line, Some((9, 9)));
    assert_eq!(layout.header_focus, None);
    assert_eq!(layout.line_count, 4);
}

#[test]
fn panel_layout_with_header() {
    let segs = vec!["私".to_string(), "の".to_string(), "名前".to_string()];
    let items = vec!["名前".to_string(), "ナマエ".to_string()];
    let layout = nuko::panel::panel_layout(Some((&segs, 2)), &items, 1);
    assert_eq!(layout.text, "私 の 【名前】\n  1. 名前\n▶ 2. ナマエ");
    assert_eq!(layout.header_focus, Some((4, 4)));
    assert_eq!(layout.selected_line, Some((17, 8)));
    assert_eq!(layout.line_count, 3);
}
