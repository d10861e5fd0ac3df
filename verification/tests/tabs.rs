//! Tests of the tab strip decisions.
use ade::code_review::{ActivePanel, CodeReviewPanel, ReviewTab};
use ade::tabs::{select_tab_number, Mode, TabCloseOutcome, TabStrip, MAX_TABS};

fn strip(count: usize, active: usize) -> TabStrip {
    TabStrip { count, active }
}

#[test]
fn test_open_tabs_up_to_limit() {
    let mut s = TabStrip::new();
    assert_eq!(s, strip(1, 0));
    assert!(!s.shows_tab_bar());
    assert_eq!(s.chrome_height(), 32);
    s.tab_opened();
    assert_eq!(s, strip(2, 1));
    assert!(s.shows_tab_bar());
    assert_eq!(s.chrome_height(), 62);
    while s.can_open_tab() {
        s.tab_opened();
    }
    assert_eq!(s.count, MAX_TABS);
    assert_eq!(s.active, MAX_TABS - 1);
}

#[test]
fn test_close_last_tab_quits() {
    let mut s = TabStrip::new();
    assert_eq!(s.close_tab(0), TabCloseOutcome::QuitApp);
    assert_eq!(s, strip(1, 0));
}

#[test]
fn test_close_tab_clamps_active() {
    let mut s = strip(3, 2);
    assert_eq!(s.close_tab(2), TabCloseOutcome::Closed);
    assert_eq!(s, strip(2, 1));
    // Closing an earlier tab keeps the active index where it is.
    let mut s = strip(4, 2);
    assert_eq!(s.close_tab(0), TabCloseOutcome::Closed);
    assert_eq!(s, strip(3, 2));
}

#[test]
fn test_switch_next_prev_wrap() {
    let mut s = strip(3, 2);
    assert!(s.next_tab());
    assert_eq!(s.active, 0);
    assert!(s.prev_tab());
    assert_eq!(s.active, 2);
    assert!(!s.switch_to_tab(2));
    assert!(!s.switch_to_tab(7));
    let mut one = TabStrip::new();
    assert!(!one.next_tab());
    assert!(!one.prev_tab());
    assert_eq!(one.active, 0);
}

#[test]
fn test_select_tab_by_number() {
    let mut s = strip(3, 0);
    assert!(s.select_tab_by_number(3));
    assert_eq!(s.active, 2);
    assert!(!s.select_tab_by_number(4));
    assert_eq!(s.active, 2);
    assert!(!s.select_tab_by_number(3));
}

#[test]
fn test_select_tab_number_in_review_mode_switches_review_tab() {
    let mut s = strip(3, 0);
    let mut panel = CodeReviewPanel::new();
    assert!(!select_tab_number(Mode::CodeReview, &mut s, &mut panel, 1));
    assert_eq!(panel.active_tab, ReviewTab::Changes);
    assert_eq!(panel.active_panel, ActivePanel::ChangesFileList);
    assert!(panel.pending_working_tree_request);
    assert!(!select_tab_number(Mode::CodeReview, &mut s, &mut panel, 2));
    assert_eq!(panel.active_tab, ReviewTab::History);
    assert!(!select_tab_number(Mode::CodeReview, &mut s, &mut panel, 3));
    assert_eq!(s, strip(3, 0));
    assert!(select_tab_number(Mode::Terminal, &mut s, &mut panel, 2));
    assert_eq!(s.active, 1);
    assert_eq!(Mode::Terminal.toggled(), Mode::CodeReview);
    assert_eq!(Mode::CodeReview.toggled(), Mode::Terminal);
}
