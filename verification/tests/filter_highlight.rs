use log_analyzer::filter::{FilterOp, FilterState};
use log_analyzer::highlight::HighlightState;

#[test]
fn new_filter_is_empty_inactive_and() {
    let f = FilterState::new();
    assert_eq!(f.query(), "");
    assert!(!f.is_active());
    assert!(!f.is_editing());
    assert_eq!(f.op(), FilterOp::And);
    let d = FilterState::default();
    assert_eq!(d.query(), "");
    assert_eq!(d.op(), FilterOp::And);
}

#[test]
fn filter_setters() {
    let mut f = FilterState::new();
    f.set_active(true);
    f.set_is_editing(true);
    f.set_op(FilterOp::Or);
    assert!(f.is_active());
    assert!(f.is_editing());
    assert_eq!(f.op(), FilterOp::Or);
}

#[test]
fn change_op_flips_and_twice_restores() {
    let mut f = FilterState::new();
    f.change_op();
    assert_eq!(f.op(), FilterOp::Or);
    f.change_op();
    assert_eq!(f.op(), FilterOp::And);
}

#[test]
fn filter_typing_and_deleting() {
    let mut f = FilterState::new();
    f.push_char('e');
    f.push_char('r');
    f.push_char('é');
    assert_eq!(f.query(), "eré");
    f.pop_char();
    assert_eq!(f.query(), "er");
    f.push_char('x');
    f.pop_char();
    assert_eq!(f.query(), "er");
    f.pop_char();
    f.pop_char();
    f.pop_char();
    assert_eq!(f.query(), "");
}

#[test]
fn filter_clear_empties_and_deactivates() {
    let mut f = FilterState::new();
    f.push_char('a');
    f.set_active(true);
    f.set_op(FilterOp::Or);
    f.set_is_editing(true);
    f.clear();
    assert_eq!(f.query(), "");
    assert!(!f.is_active());
    assert_eq!(f.op(), FilterOp::Or);
    assert!(f.is_editing());
}

#[test]
fn highlight_state_basics() {
    let mut h = HighlightState::new();
    assert_eq!(h.query(), "");
    assert!(!h.is_active());
    assert!(!h.is_editing());
    h.set_active(true);
    h.set_is_editing(true);
    h.push_char('o');
    h.push_char('k');
    assert_eq!(h.query(), "ok");
    assert!(h.is_active());
    assert!(h.is_editing());
    h.pop_char();
    assert_eq!(h.query(), "o");
    h.clear();
    assert_eq!(h.query(), "");
    assert!(!h.is_active());
    assert!(h.is_editing());
}

#[test]
fn highlight_clone_keeps_everything() {
    let mut h = HighlightState::default();
    h.push_char('z');
    h.set_active(true);
    let c = h.clone();
    assert_eq!(c.query(), "z");
    assert!(c.is_active());
    assert!(!c.is_editing());
}
