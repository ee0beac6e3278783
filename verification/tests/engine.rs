use nuko::candidate::{Candidate, CandidateSource};
use nuko::context::ConversionContext;
use nuko::engine::ConversionEngine;
use nuko::user_dict::UserEntry;

#[test]
fn test_engine_creation() {
    let engine = ConversionEngine::new();
    assert!(engine.is_ok());
}

#[test]
fn test_basic_convert() {
    let engine = ConversionEngine::new().unwrap();
    let context = ConversionContext::new();
    let candidates = engine.convert("にほん", &context).unwrap();

    assert!(!candidates.is_empty());
    assert!(candidates.iter().any(|c| c.surface == "にほん"));
    assert!(candidates.iter().any(|c| c.surface == "ニホン"));
}

#[test]
fn convert_orders_by_score() {
    let engine = ConversionEngine::new().unwrap();
    let context = ConversionContext::new();
    let list = engine.convert_at("にほん", &context, 0).unwrap();
    let surfaces: Vec<&str> = list.iter().map(|c| c.surface.as_str()).collect();
    // dictionary words (100, 99), then the katakana (-90), the narrow form (-95)
    // which equals it here and is dropped, and the reading itself (-100)
    assert_eq!(surfaces, vec!["日本", "二本", "ニホン", "にほん"]);
    assert_eq!(list.selected_index(), 0);
}

#[test]
fn convert_empty_reading_is_invalid_input() {
    let engine = ConversionEngine::new().unwrap();
    match engine.convert("", &ConversionContext::new()) {
        Err(nuko::error::NukoError::InvalidInput(m)) => assert_eq!(m, "空の入力です"),
        Err(e) => panic!("unexpected error {e:?}"),
        Ok(_) => panic!("empty input accepted"),
    }
}

#[test]
fn learned_words_come_first() {
    let mut engine = ConversionEngine::new().unwrap();
    let context = ConversionContext::new();
    engine.learning_mut().record_at(&Candidate::new("二本", "にほん"), &context, 0).unwrap();
    let list = engine.convert_at("にほん", &context, 0).unwrap();
    let first = list.selected().unwrap();
    assert_eq!(first.surface, "二本");
    assert_eq!(first.source, CandidateSource::Learned);
    assert_eq!(first.score, 200_010);
    // the dictionary copy of the learned word is not offered again
    assert_eq!(list.iter().filter(|c| c.surface == "二本").count(), 1);
}

#[test]
fn user_words_take_part() {
    let mut engine = ConversionEngine::new().unwrap();
    engine.dictionary_mut().user_dictionary_mut().add(UserEntry::new("ぬこIME", "ぬこ")).unwrap();
    let list = engine.convert_at("ぬこ", &ConversionContext::new(), 0).unwrap();
    assert_eq!(list.selected().unwrap().surface, "ぬこIME");
}

#[test]
fn commit_records_learning() {
    let mut engine = ConversionEngine::new().unwrap();
    let context = ConversionContext::new();
    engine.commit(&Candidate::new("日本", "にほん"), &context).unwrap();
    engine.commit(&Candidate::new("日本", "にほん"), &context).unwrap();
    assert_eq!(engine.learning().entry_count(), 1);
    engine.clear_learning_data().unwrap();
    assert_eq!(engine.learning().entry_count(), 0);
}

#[test]
fn predict_by_prefix() {
    let engine = ConversionEngine::new().unwrap();
    let all = engine.predict("にほん", 100).unwrap();
    let pairs: Vec<(&str, &str)> = all.iter().map(|(r, c)| (r.as_str(), c.surface.as_str())).collect();
    assert_eq!(pairs, vec![("にほん", "日本"), ("にほん", "二本"), ("にほんご", "日本語"), ("にほんじん", "日本人")]);
    assert_eq!(engine.predict("にほん", 3).unwrap().len(), 3);
    // at least one prediction is returned when there is one
    assert_eq!(engine.predict("にほん", 0).unwrap().len(), 1);
    assert!(engine.predict("", 10).unwrap().is_empty());
}

#[test]
fn convert_selects_the_best_candidate() {
    let engine = ConversionEngine::new().unwrap();
    let list = engine.convert("にほん", &ConversionContext::new()).unwrap();
    assert_eq!(list.selected_index(), 0);
    assert_eq!(list.selected().unwrap().surface, list.iter().next().unwrap().surface);
    let scores: Vec<i32> = list.iter().map(|c| c.score).collect();
    assert!(scores.windows(2).all(|w| w[0] >= w[1]));
    let pairs: Vec<(&str, i32)> = list.iter().map(|c| (c.surface.as_str(), c.score)).collect();
    assert_eq!(pairs, vec![("日本", 100), ("二本", 99), ("ニホン", -90), ("にほん", -100)]);
    assert!(list.iter().all(|c| c.reading == "にほん" && c.source == nuko::candidate::CandidateSource::System));
}
