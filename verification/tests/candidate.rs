use nuko::candidate::{Candidate, CandidateList, CandidateSource};
use nuko::context::{ConversionContext, ConversionMode, MAX_PREV_WORDS};

fn cand(surface: &str, score: i32) -> Candidate {
    Candidate::new(surface, "よみ").with_score(score)
}

#[test]
fn candidate_builders() {
    let c = Candidate::new("日本", "にほん").with_score(5).with_pos("名詞").with_source(CandidateSource::User);
    assert_eq!(c.surface, "日本");
    assert_eq!(c.reading, "にほん");
    assert_eq!(c.score, 5);
    assert_eq!(c.pos.as_deref(), Some("名詞"));
    assert_eq!(c.source, CandidateSource::User);
    let d = Candidate::new("日本", "にほん");
    assert_eq!(d.score, 0);
    assert!(d.pos.is_none());
    assert_eq!(d.source, CandidateSource::System);
}

#[test]
fn sort_by_score_is_stable_and_descending() {
    let mut list = CandidateList::new();
    list.push(cand("a", 1));
    list.push(cand("b", 5));
    list.push(cand("c", 1));
    list.push(cand("d", 5));
    list.sort_by_score();
    let order: Vec<&str> = list.iter().map(|c| c.surface.as_str()).collect();
    assert_eq!(order, vec!["b", "d", "a", "c"]);
}

#[test]
fn selection_wraps_both_ways() {
    let mut list = CandidateList::new();
    assert!(list.selected().is_none());
    list.select_next();
    assert_eq!(list.selected_index(), 0);
    list.push(cand("a", 0));
    list.push(cand("b", 0));
    list.push(cand("c", 0));
    list.select_prev();
    assert_eq!(list.selected_index(), 2);
    list.select_next();
    assert_eq!(list.selected_index(), 0);
    list.select_next();
    list.select_prev();
    assert_eq!(list.selected_index(), 0);
    list.select(7);
    assert_eq!(list.selected_index(), 0);
    list.select(1);
    assert_eq!(list.selected().unwrap().surface, "b");
    assert_eq!(list.get(2).unwrap().surface, "c");
    assert!(list.get(3).is_none());
    assert!(list.contains_surface("c"));
    assert!(!list.contains_surface("z"));
    assert_eq!(list.all().len(), 3);
    assert_eq!(list.len(), 3);
    assert_eq!(list.clone().into_vec().len(), 3);
}

#[test]
fn context_keeps_the_last_words() {
    let mut ctx = ConversionContext::new();
    assert_eq!(ctx.mode, ConversionMode::Normal);
    for w in ["一", "二", "三", "四", "五", "六", "七"] {
        ctx.push_prev_word(w);
    }
    assert_eq!(ctx.prev_words.len(), MAX_PREV_WORDS);
    assert_eq!(ctx.prev_words[0], "三");
    assert_eq!(ctx.prev_words[4], "七");
    ctx.clear();
    assert!(ctx.prev_words.is_empty());
}
