use nuko::kana::{to_halfwidth_katakana, to_hiragana, to_katakana};

#[test]
fn test_to_katakana() {
    assert_eq!(to_katakana("にほんご"), "ニホンゴ");
    assert_eq!(to_katakana("ぬこいめ"), "ヌコイメ");
}

#[test]
fn test_to_hiragana() {
    assert_eq!(to_hiragana("ニホンゴ"), "にほんご");
    assert_eq!(to_hiragana("ヌコイメ"), "ぬこいめ");
}

#[test]
fn test_to_halfwidth() {
    assert_eq!(to_halfwidth_katakana("にほんご"), "ニホンゴ");
}

#[test]
fn katakana_then_hiragana_gives_back_the_hiragana() {
    let s = "ぬこいめにゅうりょく";
    assert_eq!(to_hiragana(&to_katakana(s)), s);
}

#[test]
fn characters_outside_the_kana_tables_are_kept() {
    assert_eq!(to_katakana("abcー漢字"), "abcー漢字");
    assert_eq!(to_hiragana("abcー漢字"), "abcー漢字");
}
