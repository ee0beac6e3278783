use nuko::candidate::Candidate;
use nuko::context::ConversionContext;
use nuko::learning::LearningManager;

#[test]
fn test_record_and_retrieve() {
    let mut manager = LearningManager::new().unwrap();
    let context = ConversionContext::default();
    let candidate = Candidate::new("日本", "にほん");

    manager.record(&candidate, &context).unwrap();

    let candidates = manager.get_candidates("にほん", &context).unwrap();
    assert_eq!(candidates.len(), 1);
    assert_eq!(candidates[0].surface, "日本");
}

#[test]
fn test_frequency_increment() {
    let mut manager = LearningManager::new().unwrap();
    let context = ConversionContext::default();
    let candidate = Candidate::new("日本", "にほん");

    manager.record(&candidate, &context).unwrap();
    manager.record(&candidate, &context).unwrap();
    manager.record(&candidate, &context).unwrap();

    let candidates = manager.get_candidates("にほん", &context).unwrap();
    assert_eq!(candidates.len(), 1);
    assert!(candidates[0].score > 1000);
}

#[test]
fn record_at_counts_uses_and_scores_them() {
    let mut manager = LearningManager::new().unwrap();
    let context = ConversionContext::new();
    manager.record_at(&Candidate::new("日本", "にほん"), &context, 100).unwrap();
    manager.record_at(&Candidate::new("二本", "にほん"), &context, 100).unwrap();
    manager.record_at(&Candidate::new("日本", "にほん"), &context, 200).unwrap();
    manager.record_at(&Candidate::new("猫", "ねこ"), &context, 300).unwrap();
    assert_eq!(manager.entry_count(), 3);
    assert!(manager.is_dirty());
    let cs = manager.get_candidates_at("にほん", &context, 200).unwrap();
    assert_eq!(cs.len(), 2);
    assert_eq!(cs[0].surface, "日本");
    assert_eq!(cs[0].score, 200_020);
    assert_eq!(cs[1].surface, "二本");
    assert_eq!(cs[1].score, 200_010);
    assert!(cs[0].pos.is_none());
}

#[test]
fn clear_forgets_everything() {
    let mut manager = LearningManager::new().unwrap();
    let context = ConversionContext::new();
    manager.record_at(&Candidate::new("日本", "にほん"), &context, 1).unwrap();
    manager.mark_clean();
    assert!(!manager.is_dirty());
    manager.clear().unwrap();
    assert_eq!(manager.entry_count(), 0);
    assert!(manager.is_dirty());
    assert!(manager.get_candidates_at("にほん", &context, 1).unwrap().is_empty());
}

#[test]
fn save_target_needs_a_path() {
    let mut manager = LearningManager::new().unwrap();
    match manager.save_target() {
        Err(nuko::error::NukoError::Learning(m)) => assert_eq!(m, "保存先が設定されていません"),
        other => panic!("unexpected: {other:?}"),
    }
    assert!(!manager.has_path());
    manager.set_path("/tmp/learning.json");
    assert!(manager.has_path());
    assert_eq!(manager.save_target().unwrap(), "/tmp/learning.json");
}
