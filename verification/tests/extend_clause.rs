use std::ops::Range;
use nuko::extend_clause::{extend_left, extend_right};

/// `readings` と range 列から、各 range が指す部分文字列を取り出す。
fn sliced(readings: &[&str], ranges: &[Range<usize>]) -> Vec<String> {
    let yomi = readings.concat();
    ranges.iter().map(|r| yomi[r.clone()].to_string()).collect()
}

// -- extend_right --

#[test]
fn right_single_char_keeps() {
    assert_eq!(sliced(&["わ"], &extend_right(&["わ"], 0)), vec!["わ"]);
}

#[test]
fn right_grows_focused_takes_from_next() {
    // [わた][しの] focus=0 → [わたし][の]
    let r = extend_right(&["わた", "しの"], 0);
    assert_eq!(sliced(&["わた", "しの"], &r), vec!["わたし", "の"]);
}

#[test]
fn right_absorbs_single_char_neighbor() {
    // [わた][し] focus=0 → [わたし] (右隣が消失)
    let r = extend_right(&["わた", "し"], 0);
    assert_eq!(sliced(&["わた", "し"], &r), vec!["わたし"]);
}

#[test]
fn right_on_last_clause_keeps() {
    let r = extend_right(&["わた", "しの"], 1);
    assert_eq!(sliced(&["わた", "しの"], &r), vec!["わた", "しの"]);
}

#[test]
fn right_preserves_total_length() {
    let readings = ["わたし", "の", "なまえ"];
    let r = extend_right(&readings, 0);
    let total: usize = r.iter().map(|x| x.end - x.start).sum();
    assert_eq!(total, readings.concat().len(), "合計バイト長は保存される");
}

// -- extend_left --

#[test]
fn left_single_clause_splits_last_char() {
    // [わたし] → [わた][し]
    let r = extend_left(&["わたし"], 0);
    assert_eq!(sliced(&["わたし"], &r), vec!["わた", "し"]);
}

#[test]
fn left_single_char_keeps() {
    assert_eq!(sliced(&["わ"], &extend_left(&["わ"], 0)), vec!["わ"]);
}

#[test]
fn left_focus0_shrinks_left_clause() {
    // [わた][しの] focus=0 → [わ][たしの]
    let r = extend_left(&["わた", "しの"], 0);
    assert_eq!(sliced(&["わた", "しの"], &r), vec!["わ", "たしの"]);
}

#[test]
fn left_focus_shrinks_right_edge_moves_char_to_next() {
    // 仕様: focused の右端を 1 文字左へ。末尾文字は右隣の先頭に移る。
    // [わたし][なまえ] focus=0 → [わた][しなまえ]
    let r = extend_left(&["わたし", "なまえ"], 0);
    assert_eq!(sliced(&["わたし", "なまえ"], &r), vec!["わた", "しなまえ"]);
}

#[test]
fn left_focus1_shrinks_focused_not_left_neighbor() {
    // ★ 重要: focused>0 でも「左隣」ではなく focused 自身の右端を縮める。
    // [わたし][なまえ][です] focus=1 → [わたし][なま][えです]
    // (旧 akaza 実装は [わた][しなまえ][です] のように左端を動かしていた)
    let r = extend_left(&["わたし", "なまえ", "です"], 1);
    assert_eq!(
        sliced(&["わたし", "なまえ", "です"], &r),
        vec!["わたし", "なま", "えです"],
    );
}

#[test]
fn left_focus_on_last_segment_creates_new_segment() {
    // 末尾文節を縮めると、削った 1 文字で新しい文節ができる。
    // [わたし][なまえ] focus=1 → [わたし][なま][え]
    let r = extend_left(&["わたし", "なまえ"], 1);
    assert_eq!(
        sliced(&["わたし", "なまえ"], &r),
        vec!["わたし", "なま", "え"]
    );
}

#[test]
fn left_single_char_focused_keeps() {
    // focused が 1 文字なら縮められない (空になるため現状維持)。
    // [わたし][の][なまえ] focus=1 (=「の」) → 変化なし
    let r = extend_left(&["わたし", "の", "なまえ"], 1);
    assert_eq!(
        sliced(&["わたし", "の", "なまえ"], &r),
        vec!["わたし", "の", "なまえ"],
    );
}

#[test]
fn left_then_right_roundtrips() {
    // 右端を 1 縮めて 1 伸ばせば元に戻る (focused 維持)。
    let base = ["わたし", "なまえ"];
    let shrunk = extend_left(&base, 0); // [わた][しなまえ]
    assert_eq!(sliced(&base, &shrunk), vec!["わた", "しなまえ"]);
    // shrunk の読みで focus=0 を右伸長 → 元の [わたし][なまえ]
    let readings: Vec<String> = sliced(&base, &shrunk);
    let refs: Vec<&str> = readings.iter().map(String::as_str).collect();
    let grown = extend_right(&refs, 0);
    assert_eq!(sliced(&refs, &grown), vec!["わたし", "なまえ"]);
}

#[test]
fn left_preserves_total_length() {
    let readings = ["わたし", "の", "なまえ"];
    let r = extend_left(&readings, 2);
    let total: usize = r.iter().map(|x| x.end - x.start).sum();
    assert_eq!(total, readings.concat().len());
}

#[test]
fn left_focus0_single_char_left_clause_keeps() {
    // [わ][たし] focus=0 → 左が 1 文字なので現状維持
    let r = extend_left(&["わ", "たし"], 0);
    assert_eq!(sliced(&["わ", "たし"], &r), vec!["わ", "たし"]);
}

#[test]
fn left_then_right_restores_every_focus() {
    let base = ["わたし", "の", "なまえ"];
    for f in 0..base.len() {
        if base[f].chars().count() < 2 {
            continue;
        }
        let shrunk = extend_left(&base, f);
        let readings: Vec<String> = sliced(&base, &shrunk);
        let refs: Vec<&str> = readings.iter().map(String::as_str).collect();
        let grown = extend_right(&refs, f);
        assert_eq!(sliced(&refs, &grown), vec!["わたし", "の", "なまえ"]);
    }
    let shrunk_last = extend_left(&base, 2);
    assert_eq!(sliced(&base, &shrunk_last), vec!["わたし", "の", "なま", "え"]);
}
