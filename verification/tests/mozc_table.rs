use nuko::mozc_table::mozc_table;

#[test]
fn table_loads() {
    let table = mozc_table();
    assert!(table.contains_key("a"));
    assert!(table.contains_key("ka"));
    assert!(table.contains_key("nn"));
}

#[test]
fn table_size_reasonable() {
    let len = mozc_table().len();
    assert!(
        len > 280 && len < 400,
        "Mozc テーブルのエントリ数が想定範囲外: {len}"
    );
}

#[test]
fn basic_vowels() {
    let table = mozc_table();
    assert_eq!(table.get("a").unwrap().kana, "あ");
    assert_eq!(table.get("i").unwrap().kana, "い");
    assert_eq!(table.get("u").unwrap().kana, "う");
    assert_eq!(table.get("e").unwrap().kana, "え");
    assert_eq!(table.get("o").unwrap().kana, "お");
}

#[test]
fn sokuon_has_next_state() {
    let table = mozc_table();
    let kk = table.get("kk").expect("kk エントリ");
    assert_eq!(kk.kana, "っ");
    assert_eq!(kk.next_state.as_deref(), Some("k"));

    let tt = table.get("tt").expect("tt エントリ");
    assert_eq!(tt.kana, "っ");
    assert_eq!(tt.next_state.as_deref(), Some("t"));
}

#[test]
fn n_variants_present() {
    let table = mozc_table();
    assert_eq!(table.get("n").unwrap().kana, "ん");
    assert_eq!(table.get("nn").unwrap().kana, "ん");
    assert_eq!(table.get("n'").unwrap().kana, "ん");
}

#[test]
fn small_kana_present() {
    let table = mozc_table();
    assert!(table.contains_key("xa") || table.contains_key("la"));
}

#[test]
fn v_row_present() {
    let table = mozc_table();
    assert!(table.contains_key("va") || table.contains_key("vu"));
}

#[test]
fn unknown_key_is_absent() {
    let table = mozc_table();
    assert!(table.get("qqq").is_none());
    assert!(!table.contains_key(""));
}

#[test]
fn later_line_replaces_earlier_one() {
    let table = nuko::mozc_table::parse_table("a\tあ\nb\tい\tx\na\tア\nbad line\n");
    assert_eq!(table.len(), 2);
    assert_eq!(table.get("a").unwrap().kana, "ア");
    assert_eq!(table.get("b").unwrap().next_state.as_deref(), Some("x"));
}
