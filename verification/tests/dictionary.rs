use nuko::candidate::CandidateSource;
use nuko::dictionary::DictionaryManager;
use nuko::system_dict::SystemDictionary;
use nuko::user_dict::{UserDictionary, UserEntry};

#[test]
fn manager_test_lookup() {
    let manager = DictionaryManager::new().unwrap();
    let candidates = manager.lookup("にほん").unwrap();

    assert!(!candidates.is_empty());
    assert!(candidates.iter().any(|c| c.surface == "日本"));
}

#[test]
fn test_user_priority() {
    let mut manager = DictionaryManager::new().unwrap();
    manager
        .user_dictionary_mut()
        .add(UserEntry::new("二本", "にほん"))
        .unwrap();

    let candidates = manager.lookup("にほん").unwrap();

    assert_eq!(candidates[0].surface, "二本");
    assert_eq!(candidates[0].source, CandidateSource::User);
}

#[test]
fn manager_lookup_drops_system_duplicates_of_user_words() {
    let mut manager = DictionaryManager::new().unwrap();
    manager.user_dictionary_mut().add(UserEntry::new("二本", "にほん")).unwrap();
    let candidates = manager.lookup("にほん").unwrap();
    let surfaces: Vec<&str> = candidates.iter().map(|c| c.surface.as_str()).collect();
    assert_eq!(surfaces, vec!["二本", "日本"]);
    assert_eq!(candidates[0].score, 200);
    assert_eq!(candidates[1].source, CandidateSource::System);
    assert_eq!(candidates[1].score, 100);
}

#[test]
fn system_test_lookup() {
    let dict = SystemDictionary::new().unwrap();
    let candidates = dict.lookup("にほん").unwrap();

    assert!(!candidates.is_empty());
    assert!(candidates.iter().any(|c| c.surface == "日本"));
}

#[test]
fn test_lookup_not_found() {
    let dict = SystemDictionary::new().unwrap();
    let candidates = dict.lookup("xxxyyy").unwrap();

    assert!(candidates.is_empty());
}

#[test]
fn test_prefix_search() {
    let dict = SystemDictionary::new().unwrap();
    let results = dict.prefix_search("にほん").unwrap();

    assert!(!results.is_empty());
    assert!(results.iter().any(|(r, _)| r == "にほん"));
}

#[test]
fn test_entry_count() {
    let dict = SystemDictionary::new().unwrap();
    assert!(dict.entry_count() > 100);
}

#[test]
fn system_lookup_scores_and_parts_of_speech() {
    let dict = SystemDictionary::new().unwrap();
    let cs = dict.lookup("かんじ").unwrap();
    let surfaces: Vec<&str> = cs.iter().map(|c| c.surface.as_str()).collect();
    assert_eq!(surfaces, vec!["漢字", "幹事", "感じ"]);
    let scores: Vec<i32> = cs.iter().map(|c| c.score).collect();
    assert_eq!(scores, vec![100, 99, 98]);
    assert_eq!(cs[0].pos.as_deref(), Some("名詞"));
    assert_eq!(cs[0].reading, "かんじ");
    assert_eq!(cs[0].source, CandidateSource::System);
}

#[test]
fn prefix_search_is_sorted_and_complete() {
    let dict = SystemDictionary::new().unwrap();
    let results = dict.prefix_search("にほん").unwrap();
    let readings: Vec<&str> = results.iter().map(|(r, _)| r.as_str()).collect();
    assert_eq!(readings, vec!["にほん", "にほんご", "にほんじん"]);
    assert_eq!(results[1].1[0].surface, "日本語");
    assert!(dict.prefix_search("ゐ").unwrap().is_empty());
    assert_eq!(dict.prefix_search("").unwrap().len(), dict.entry_count());
}

#[test]
fn analyze_needs_a_tokenizer() {
    let dict = SystemDictionary::new().unwrap();
    assert!(!dict.has_tokenizer());
    match dict.analyze("日本語") {
        Err(nuko::error::NukoError::Dictionary(m)) => assert_eq!(m, "形態素解析にはlindera featureが必要です"),
        other => panic!("unexpected: {other:?}"),
    }
}

#[test]
fn test_add_and_lookup() {
    let mut dict = UserDictionary::new();
    dict.add(UserEntry::new("猫", "ねこ")).unwrap();

    let candidates = dict.lookup("ねこ");
    assert_eq!(candidates.len(), 1);
    assert_eq!(candidates[0].surface, "猫");
}

#[test]
fn test_remove() {
    let mut dict = UserDictionary::new();
    dict.add(UserEntry::new("猫", "ねこ")).unwrap();
    dict.add(UserEntry::new("ネコ", "ねこ")).unwrap();

    assert!(dict.remove("ねこ", "猫").unwrap());
    let candidates = dict.lookup("ねこ");
    assert_eq!(candidates.len(), 1);
    assert_eq!(candidates[0].surface, "ネコ");
}

#[test]
fn user_dictionary_bookkeeping() {
    let mut dict = UserDictionary::new();
    assert!(dict.is_empty());
    assert!(!dict.is_dirty());
    dict.add(UserEntry::new("猫", "ねこ").with_pos("名詞").with_comment("かわいい")).unwrap();
    dict.add(UserEntry::new("犬", "いぬ")).unwrap();
    assert_eq!(dict.len(), 2);
    assert!(dict.is_dirty());
    let c = &dict.lookup("ねこ")[0];
    assert_eq!(c.score, 200);
    assert_eq!(c.pos.as_deref(), Some("名詞"));
    assert!(!dict.remove("ねこ", "犬").unwrap());
    let all = dict.all_entries();
    assert_eq!(all.len(), 2);
    assert_eq!(all[0].comment.as_deref(), Some("かわいい"));
    match dict.save_target() {
        Err(nuko::error::NukoError::Dictionary(m)) => assert_eq!(m, "保存先が設定されていません"),
        other => panic!("unexpected: {other:?}"),
    }
    dict.set_path("/tmp/user.json");
    assert_eq!(dict.save_target().unwrap(), "/tmp/user.json");
    dict.mark_clean();
    assert!(!dict.is_dirty());
}
