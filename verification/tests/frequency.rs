use nuko::frequency::FrequencyEntry;

#[test]
fn test_frequency_entry() {
    let mut entry = FrequencyEntry::new("日本", "にほん");
    assert_eq!(entry.count, 1);

    entry.increment();
    assert_eq!(entry.count, 2);
}

#[test]
fn test_score_calculation() {
    let entry = FrequencyEntry::new("日本", "にほん");
    let score = entry.score();
    assert!(score > 100_000, "学習スコアは libakaza BOOST より高くあるべき");
    assert!(score > 200_000, "1 回の使用でも 200_000 以上 (LEARNING_PRIORITY_BOOST)");
}

#[test]
fn test_score_grows_with_count() {
    let mut entry = FrequencyEntry::new("進行", "しんこう");
    let score_1 = entry.score();
    for _ in 0..10 {
        entry.increment();
    }
    let score_11 = entry.score();
    assert!(score_11 > score_1, "使用回数が増えるとスコアも上がる");
}

#[test]
fn score_at_exact_values() {
    let mut e = FrequencyEntry::new_at("日本", "にほん", 1_000_000);
    assert_eq!(e.score_at(1_000_000), 200_010);
    // three whole days later: three points of decay
    assert_eq!(e.score_at(1_000_000 + 3 * 86_400 + 5), 200_007);
    // decay stops at 30 days
    assert_eq!(e.score_at(1_000_000 + 400 * 86_400), 199_980);
    // a clock before the last use counts as no time
    assert_eq!(e.score_at(10), 200_010);
    e.increment_at(2_000_000);
    assert_eq!(e.count, 2);
    assert_eq!(e.last_used, 2_000_000);
    assert_eq!(e.score_at(2_000_000), 200_020);
}

#[test]
fn increment_saturates() {
    let mut e = FrequencyEntry::new_at("日本", "にほん", 0);
    e.count = u32::MAX;
    e.increment_at(1);
    assert_eq!(e.count, u32::MAX);
}
