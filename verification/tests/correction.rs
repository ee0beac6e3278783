use nuko::correction::{extract_corrections, CorrectionStore, Preference};
use nuko::observation::ObservationEvent;

fn commit(reading: &str, surface: &str) -> ObservationEvent {
    ObservationEvent::commit(reading, surface)
}

fn to_toml(store: &CorrectionStore) -> String {
    let mut prefs = Vec::new();
    for p in &store.preferences {
        let mut t = toml::map::Map::new();
        t.insert("reading".to_string(), toml::Value::String(p.reading.clone()));
        t.insert("prefer".to_string(), toml::Value::String(p.prefer.clone()));
        t.insert("weight".to_string(), toml::Value::Integer(i64::from(p.weight)));
        t.insert("seen".to_string(), toml::Value::Integer(i64::from(p.seen)));
        prefs.push(toml::Value::Table(t));
    }
    let mut root = toml::map::Map::new();
    root.insert("preference".to_string(), toml::Value::Array(prefs));
    toml::to_string_pretty(&toml::Value::Table(root)).unwrap()
}

#[test]
fn extract_makes_preference_above_threshold() {
    let events = vec![
        commit("きしゃ", "記者"),
        commit("きしゃ", "記者"),
        commit("きしゃ", "記者"),
        commit("きしゃ", "汽車"),
    ];
    let store = extract_corrections(&events, 3);
    assert_eq!(store.len(), 1);
    assert_eq!(store.preferences[0].reading, "きしゃ");
    assert_eq!(store.preferences[0].prefer, "記者", "★ 最多コミットを採用");
    assert_eq!(store.preferences[0].seen, 3);
}

#[test]
fn below_threshold_makes_no_preference() {
    let events = vec![commit("あ", "亜"), commit("あ", "亜")];
    assert!(extract_corrections(&events, 3).is_empty());
}

#[test]
fn picks_majority_surface() {
    let events = vec![
        commit("かえる", "帰る"),
        commit("かえる", "帰る"),
        commit("かえる", "蛙"),
    ];
    let store = extract_corrections(&events, 2);
    assert_eq!(store.preferences[0].prefer, "帰る", "★ 多数決で「帰る」");
}

#[test]
fn bias_matches_reading_and_surface() {
    let events = vec![commit("きしゃ", "記者"), commit("きしゃ", "記者")];
    let store = extract_corrections(&events, 2);
    assert!(store.bias("きしゃ", "記者") > 0, "★ 一致する選好に bias");
    assert_eq!(store.bias("きしゃ", "汽車"), 0, "★ 別 surface には bias なし");
    assert_eq!(store.bias("でんしゃ", "電車"), 0, "★ 別 reading には bias なし");
}

#[test]
fn extraction_is_deterministic() {
    let events = vec![
        commit("に", "二"),
        commit("さん", "三"),
        commit("に", "二"),
        commit("いち", "一"),
        commit("さん", "三"),
        commit("いち", "一"),
    ];
    let a = extract_corrections(&events, 2);
    let b = extract_corrections(&events, 2);
    assert_eq!(a, b, "★ 同じ入力から同じ store");
    let readings: Vec<&str> = a.preferences.iter().map(|p| p.reading.as_str()).collect();
    assert_eq!(readings, vec!["いち", "さん", "に"], "★ 安定した順序");
    assert_eq!(to_toml(&a), to_toml(&b));
}

#[test]
fn ties_go_to_the_smallest_surface() {
    let events = vec![commit("はし", "箸"), commit("はし", "橋"), commit("はし", "端")];
    let store = extract_corrections(&events, 1);
    assert_eq!(store.len(), 1);
    // 橋 (U+6A4B) < 端 (U+7AEF) < 箸 (U+7BB8)
    assert_eq!(store.preferences[0].prefer, "橋");
    assert_eq!(store.preferences[0].weight, 1);
}

#[test]
fn empty_readings_surfaces_and_corrections_are_not_counted() {
    let events = vec![
        commit("", "空"),
        commit("から", ""),
        ObservationEvent::correction("から", "空", "殻"),
        ObservationEvent::correction("から", "空", "殻"),
    ];
    assert!(extract_corrections(&events, 1).is_empty());
}

#[test]
fn bias_value_is_boost_plus_capped_weight() {
    let store = CorrectionStore {
        preferences: vec![
            Preference { reading: "あ".to_string(), prefer: "亜".to_string(), weight: 3, seen: 3 },
            Preference { reading: "い".to_string(), prefer: "胃".to_string(), weight: 100_000, seen: 100_000 },
        ],
    };
    assert_eq!(store.bias("あ", "亜"), 300_030);
    assert_eq!(store.bias("い", "胃"), 350_000);
    assert_eq!(store.bias("う", "胃"), 0);
}

#[test]
fn default_store_is_empty() {
    let store = CorrectionStore::default();
    assert!(store.is_empty());
    assert_eq!(store.len(), 0);
}
