use nuko::candidate::Candidate;
use nuko::candidate_window::{CandidateWindow, Theme};

#[test]
fn test_candidate_window() {
    let mut window = CandidateWindow::new();
    assert!(!window.is_visible());
    assert!(window.is_empty());

    let candidates = vec![Candidate::new("日本", "にほん"), Candidate::new("二本", "にほん")];
    window.set_candidates(candidates);

    assert!(window.is_visible());
    assert_eq!(window.len(), 2);
    assert_eq!(window.selected_index(), 0);
}

#[test]
fn test_navigation() {
    let mut window = CandidateWindow::new();
    let candidates: Vec<_> = (0..15).map(|i| Candidate::new(&format!("候補{i}"), "こうほ")).collect();
    window.set_candidates(candidates);

    assert_eq!(window.selected_index(), 0);

    window.select_next();
    assert_eq!(window.selected_index(), 1);

    window.select_prev();
    assert_eq!(window.selected_index(), 0);

    window.select_prev();
    assert_eq!(window.selected_index(), 14);
}

#[test]
fn test_pagination() {
    let mut window = CandidateWindow::new();
    let candidates: Vec<_> = (0..20).map(|i| Candidate::new(&format!("候補{i}"), "こうほ")).collect();
    window.set_candidates(candidates);

    assert_eq!(window.total_pages(), 3);
    assert_eq!(window.current_page_candidates().len(), 9);

    window.next_page();
    assert_eq!(window.current_page(), 1);
    assert_eq!(window.current_page_candidates().len(), 9);

    window.next_page();
    assert_eq!(window.current_page(), 2);
    assert_eq!(window.current_page_candidates().len(), 2);
}

#[test]
fn window_pages_wrap_and_select_by_number() {
    let mut window = CandidateWindow::new();
    let candidates: Vec<_> = (0..20).map(|i| Candidate::new(&format!("候補{i}"), "こうほ")).collect();
    window.set_candidates(candidates);
    window.prev_page();
    assert_eq!(window.current_page(), 2);
    assert_eq!(window.selected_index(), 18);
    assert_eq!(window.selected_candidate().unwrap().surface, "候補18");
    window.select_by_number(2);
    assert_eq!(window.selected_index(), 19);
    assert_eq!(window.selected_index_in_page(), 1);
    window.select_by_number(5);
    assert_eq!(window.selected_index(), 19);
    window.select_by_number(0);
    assert_eq!(window.selected_index(), 19);
    window.next_page();
    assert_eq!(window.current_page(), 0);
    assert_eq!(window.current_page_candidates()[0].surface, "候補0");
    // moving past a page boundary moves the page
    for _ in 0..9 {
        window.select_next();
    }
    assert_eq!(window.current_page(), 1);
}

#[test]
fn window_visibility_theme_and_clear() {
    let mut window = CandidateWindow::default();
    assert_eq!(window.theme(), Theme::Light);
    window.set_theme(Theme::Dark);
    assert_eq!(window.theme(), Theme::Dark);
    window.set_candidates(vec![Candidate::new("日本", "にほん")]);
    window.set_visible(false);
    assert!(!window.is_visible());
    window.clear();
    assert!(window.is_empty());
    assert_eq!(window.total_pages(), 0);
    assert!(window.current_page_candidates().is_empty());
    assert!(window.selected_candidate().is_none());
    window.next_page();
    assert_eq!(window.current_page(), 0);
    window.set_candidates(Vec::new());
    assert!(!window.is_visible());
}

#[test]
fn pages_always_hold_the_selection() {
    let mut w = CandidateWindow::new();
    assert_eq!(w.current_page_candidates().len(), 0);
    let cands: Vec<Candidate> = (0..20).map(|i| Candidate::new(&format!("候補{i}"), "こうほ")).collect();
    w.set_candidates(cands);
    let mut lens = Vec::new();
    for _ in 0..3 {
        assert!(w.current_page() * 9 < w.len());
        assert!(w.selected_index() < w.len());
        lens.push(w.current_page_candidates().len());
        w.next_page();
    }
    assert_eq!(lens, vec![9, 9, 2]);
    w.select_prev();
    assert!(w.selected_index() < w.len());
    assert!(w.current_page() * 9 < w.len());
}
