use nuko::romaji::RomajiConverter;

#[test]
fn test_basic_conversion() {
    let mut conv = RomajiConverter::new();
    assert_eq!(conv.convert("aiueo").unwrap(), "あいうえお");
}

#[test]
fn test_ka_gyou() {
    let mut conv = RomajiConverter::new();
    assert_eq!(conv.convert("kakikukeko").unwrap(), "かきくけこ");
}

#[test]
fn test_sokuon() {
    let mut conv = RomajiConverter::new();
    assert_eq!(conv.convert("kitte").unwrap(), "きって");

    let mut conv = RomajiConverter::new();
    assert_eq!(conv.convert("nippon").unwrap(), "にっぽん");
}

#[test]
fn test_n_handling() {
    let mut conv = RomajiConverter::new();
    assert_eq!(conv.convert("kanna").unwrap(), "かんな");

    let mut conv = RomajiConverter::new();
    assert_eq!(conv.convert("kantan").unwrap(), "かんたん");
}

#[test]
fn test_youon() {
    let mut conv = RomajiConverter::new();
    assert_eq!(conv.convert("kyouto").unwrap(), "きょうと");

    let mut conv = RomajiConverter::new();
    assert_eq!(conv.convert("shashin").unwrap(), "しゃしん");
}

#[test]
fn test_nihongo() {
    let mut conv = RomajiConverter::new();
    assert_eq!(conv.convert("nihongo").unwrap(), "にほんご");
}

#[test]
fn test_dakuon() {
    let mut conv = RomajiConverter::new();
    assert_eq!(conv.convert("gakkou").unwrap(), "がっこう");

    let mut conv = RomajiConverter::new();
    assert_eq!(conv.convert("zannen").unwrap(), "ざんねん");

    let mut conv = RomajiConverter::new();
    assert_eq!(conv.convert("denwa").unwrap(), "でんわ");

    let mut conv = RomajiConverter::new();
    assert_eq!(conv.convert("tabemono").unwrap(), "たべもの");
}

#[test]
fn test_handakuon() {
    let mut conv = RomajiConverter::new();
    assert_eq!(conv.convert("panpan").unwrap(), "ぱんぱん");

    let mut conv = RomajiConverter::new();
    assert_eq!(conv.convert("pinpon").unwrap(), "ぴんぽん");
}

#[test]
fn test_small_kana() {
    let mut conv = RomajiConverter::new();
    assert_eq!(conv.convert("xtu").unwrap(), "っ");

    let mut conv = RomajiConverter::new();
    assert_eq!(conv.convert("ltu").unwrap(), "っ");

    let mut conv = RomajiConverter::new();
    assert_eq!(conv.convert("xa").unwrap(), "ぁ");

    let mut conv = RomajiConverter::new();
    assert_eq!(conv.convert("xya").unwrap(), "ゃ");
}

#[test]
fn test_special_chars() {
    let mut conv = RomajiConverter::new();
    assert_eq!(conv.convert("-").unwrap(), "ー");

    let mut conv = RomajiConverter::new();
    assert_eq!(conv.convert(".").unwrap(), "。");

    let mut conv = RomajiConverter::new();
    assert_eq!(conv.convert(",").unwrap(), "、");

    let mut conv = RomajiConverter::new();
    assert_eq!(conv.convert("ra-men").unwrap(), "らーめん");
}

#[test]
fn test_n_apostrophe() {
    let mut conv = RomajiConverter::new();
    assert_eq!(conv.convert("kan'i").unwrap(), "かんい");

    let mut conv = RomajiConverter::new();
    assert_eq!(conv.convert("shin'you").unwrap(), "しんよう");
}

#[test]
fn test_uppercase_input() {
    let mut conv = RomajiConverter::new();
    assert_eq!(conv.convert("NIHON").unwrap(), "にほん");

    let mut conv = RomajiConverter::new();
    assert_eq!(conv.convert("ToKyO").unwrap(), "ときょ");
}

#[test]
fn test_empty_input() {
    let mut conv = RomajiConverter::new();
    assert_eq!(conv.convert("").unwrap(), "");
}

#[test]
fn test_complex_words() {
    let mut conv = RomajiConverter::new();
    assert_eq!(conv.convert("konnichiha").unwrap(), "こんにちは");

    let mut conv = RomajiConverter::new();
    assert_eq!(conv.convert("arigatou").unwrap(), "ありがとう");

    let mut conv = RomajiConverter::new();
    assert_eq!(
        conv.convert("ohayougozaimasu").unwrap(),
        "おはようございます"
    );

    let mut conv = RomajiConverter::new();
    assert_eq!(conv.convert("sumimasen").unwrap(), "すみません");
}

#[test]
fn test_fa_row() {
    let mut conv = RomajiConverter::new();
    assert_eq!(conv.convert("fairu").unwrap(), "ふぁいる");

    let mut conv = RomajiConverter::new();
    assert_eq!(conv.convert("fea").unwrap(), "ふぇあ");
}

#[test]
fn test_ji_zu_variations() {
    let mut conv = RomajiConverter::new();
    assert_eq!(conv.convert("ji").unwrap(), "じ");

    let mut conv = RomajiConverter::new();
    assert_eq!(conv.convert("zi").unwrap(), "じ");

    let mut conv = RomajiConverter::new();
    assert_eq!(conv.convert("zu").unwrap(), "ず");

    let mut conv = RomajiConverter::new();
    assert_eq!(conv.convert("du").unwrap(), "づ");
}

#[test]
fn test_chi_tsu_variations() {
    let mut conv = RomajiConverter::new();
    assert_eq!(conv.convert("chi").unwrap(), "ち");

    let mut conv = RomajiConverter::new();
    assert_eq!(conv.convert("ti").unwrap(), "ち");

    let mut conv = RomajiConverter::new();
    assert_eq!(conv.convert("tsu").unwrap(), "つ");

    let mut conv = RomajiConverter::new();
    assert_eq!(conv.convert("tu").unwrap(), "つ");
}

#[test]
fn test_shi_variations() {
    let mut conv = RomajiConverter::new();
    assert_eq!(conv.convert("shi").unwrap(), "し");

    let mut conv = RomajiConverter::new();
    assert_eq!(conv.convert("si").unwrap(), "し");

    let mut conv = RomajiConverter::new();
    assert_eq!(conv.convert("shu").unwrap(), "しゅ");

    let mut conv = RomajiConverter::new();
    assert_eq!(conv.convert("sya").unwrap(), "しゃ");
}

// ===== Mozc テーブル導入で広がったカバレッジ =====

#[test]
fn test_v_row_foreign_sounds() {
    // ゔ行 (外来音) は Mozc TSV に含まれる
    let mut conv = RomajiConverter::new();
    assert_eq!(conv.convert("va").unwrap(), "ゔぁ");

    let mut conv = RomajiConverter::new();
    assert_eq!(conv.convert("vu").unwrap(), "ゔ");
}

#[test]
fn test_mozc_symbols() {
    // Mozc TSV の z プレフィックス記号
    let mut conv = RomajiConverter::new();
    assert_eq!(conv.convert("z/").unwrap(), "・");

    let mut conv = RomajiConverter::new();
    assert_eq!(conv.convert("z.").unwrap(), "…");

    let mut conv = RomajiConverter::new();
    assert_eq!(conv.convert("z[").unwrap(), "『");
}

#[test]
fn test_n_edge_cases() {
    // henn → へん (末尾の n が ん として描画されるべきだが、内部は buffer="n")
    // RomajiConverter 単体では buffer に "n" が残るため flush で "ん" になる
    let mut conv = RomajiConverter::new();
    let mut result = String::new();
    for c in "henn".chars() {
        result.push_str(&conv.input(c));
    }
    result.push_str(&conv.flush());
    assert_eq!(result, "へん", "henn → へん (flush で末尾 n を ん に)");
}

#[test]
fn test_kanna_keeps_n_in_buffer() {
    // kanna → かんな
    // 1つ目の n は buffer、2つ目で ん 出力 + buffer に n、a で な
    let mut conv = RomajiConverter::new();
    assert_eq!(conv.convert("kanna").unwrap(), "かんな");
}

#[test]
fn test_hon_ya_apostrophe() {
    // 本屋 = ほんや
    let mut conv = RomajiConverter::new();
    assert_eq!(conv.convert("hon'ya").unwrap(), "ほんや");
}

#[test]
fn test_long_sokuon_chains() {
    // matcha = まっちゃ
    let mut conv = RomajiConverter::new();
    assert_eq!(conv.convert("matcha").unwrap(), "まっちゃ");

    // jisshuu = じっしゅう
    let mut conv = RomajiConverter::new();
    assert_eq!(conv.convert("jisshuu").unwrap(), "じっしゅう");
}

#[test]
fn test_consecutive_words() {
    // 文章レベルの連続入力
    let mut conv = RomajiConverter::new();
    assert_eq!(
        conv.convert("watashihagakuseidesu").unwrap(),
        "わたしはがくせいです"
    );
}

