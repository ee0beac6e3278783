use nuko::observation::{ObservationEvent, ObservationLog};

#[test]
fn disabled_log_has_no_target() {
    let log = ObservationLog::new(false, "/tmp/nuko-observations.jsonl");
    assert!(!log.is_enabled());
    assert!(log.record_target().is_none());
    assert_eq!(log.file().as_deref(), Some("/tmp/nuko-observations.jsonl"));
    let off = ObservationLog::disabled();
    assert!(!off.is_enabled());
    assert!(off.record_target().is_none());
    assert!(off.file().is_none());
}

#[test]
fn enabled_log_records_to_its_file() {
    let log = ObservationLog::new(true, "/tmp/nuko-observations.jsonl");
    assert!(log.is_enabled());
    assert_eq!(log.record_target().as_deref(), Some("/tmp/nuko-observations.jsonl"));
}

#[test]
fn event_constructors() {
    match ObservationEvent::commit_at("はんい", "範囲", 42) {
        ObservationEvent::Commit { ts, reading, surface, candidates, picked } => {
            assert_eq!(ts, 42);
            assert_eq!(reading, "はんい");
            assert_eq!(surface, "範囲");
            assert!(candidates.is_empty());
            assert!(picked.is_none());
        }
        other => panic!("not a commit: {other:?}"),
    }
    match ObservationEvent::correction("こんばん", "今晩", "こんばん") {
        ObservationEvent::Correction { emitted, corrected, .. } => {
            assert_eq!(emitted, "今晩");
            assert_eq!(corrected, "こんばん");
        }
        other => panic!("not a correction: {other:?}"),
    }
    match ObservationEvent::commit_with_candidates("に", "二", vec!["二".to_string(), "2".to_string()], Some(0)) {
        ObservationEvent::Commit { candidates, picked, .. } => {
            assert_eq!(candidates.len(), 2);
            assert_eq!(picked, Some(0));
        }
        other => panic!("not a commit: {other:?}"),
    }
}
