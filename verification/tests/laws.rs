use std::sync::Arc;

use log_analyzer::app::App;
use log_analyzer::bookmark::BookMark;
use log_analyzer::filter::{FilterOp, FilterState};
use log_analyzer::log_line::{LogLevel, LogLine};
use log_analyzer::log_store::LogStore;
use log_analyzer::search::SearchState;
use log_analyzer::spans::split_fragment;

fn sample_app() -> App {
    let text = "a | INFO | one\nb | WARN | two\nc | ERROR | three";
    App::new(Arc::new(LogStore::new("l".to_string(), text.as_bytes().to_vec())))
}

#[test]
fn toggling_a_filter_twice_restores_it() {
    let mut a = sample_app();
    a.enter_filter_mode();
    a.handle_filter_char('t');
    a.toggle_filter();
    let before = (a.filters()[0].query().to_string(), a.filters()[0].op(), a.filters()[0].is_active());
    a.toggle_filter();
    a.toggle_filter();
    let after = (a.filters()[0].query().to_string(), a.filters()[0].op(), a.filters()[0].is_active());
    assert_eq!(before, after);
}

#[test]
fn toggling_a_highlight_twice_restores_it() {
    let mut a = sample_app();
    a.enter_highlight_mode();
    a.handle_highlight_char('t');
    a.toggle_highlight();
    a.toggle_highlight();
    assert!(!a.highlights()[0].is_active());
    assert_eq!(a.highlights()[0].query(), "t");
}

#[test]
fn changing_the_operator_twice_restores_it() {
    let mut f = FilterState::new();
    f.set_op(FilterOp::Or);
    f.change_op();
    f.change_op();
    assert_eq!(f.op(), FilterOp::Or);
}

#[test]
fn backspace_undoes_a_typed_character() {
    let mut s = SearchState::new();
    s.push_char('a');
    s.push_char('ß');
    s.pop_char();
    assert_eq!(s.query(), "a");
}

#[test]
fn scrolling_left_undoes_scrolling_right() {
    let mut a = sample_app();
    a.scroll_right();
    a.scroll_right();
    a.scroll_left();
    a.scroll_right();
    assert_eq!(a.horizontal_scroll(), 20);
}

#[test]
fn stepping_through_all_matches_comes_back() {
    let mut s = SearchState::new();
    s.set_matches(vec![4, 8, 15, 16, 23]);
    s.next_match();
    let start = s.current_match_index();
    for _ in 0..5 {
        s.next_match();
    }
    assert_eq!(s.current_match_index(), start);
}

#[test]
fn adding_a_bookmark_twice_is_adding_it_once_and_removing_undoes_it() {
    let mut b = BookMark::new();
    b.add_bookmark(3);
    b.add_bookmark(9);
    let before = b.indices().to_vec();
    b.add_bookmark(5);
    b.add_bookmark(5);
    assert_eq!(b.indices(), &[3, 5, 9]);
    b.remove_bookmark(5);
    assert_eq!(b.indices(), before.as_slice());
}

#[test]
fn bookmark_selection_round_trip() {
    let mut b = BookMark::new();
    for i in [1, 2, 3] {
        b.add_bookmark(i);
    }
    for start in 0..3 {
        b.state().select(Some(start));
        b.select_next_bookmark();
        b.select_previous_bookmark();
        assert_eq!(b.state().selected(), Some(start));
    }
}

#[test]
fn moving_up_after_moving_down_comes_back() {
    let mut a = sample_app();
    a.select_next();
    a.select_previous();
    assert_eq!(a.list_state().selected(), Some(0));
}

#[test]
fn highlighted_fragments_are_the_term() {
    for (text, _) in split_fragment("Warn warn WARN wa", "wArN", 4) {
        if text.len() == 4 {
            assert!(text.eq_ignore_ascii_case("warn"));
        }
    }
    let parts = split_fragment("xx WARN yy", "warn", 4);
    assert_eq!(parts[1], ("WARN", log_analyzer::spans::FragmentType::Highlighted(4)));
}

#[test]
fn a_formatted_line_parses_back() {
    for (word, level) in [
        ("ERROR", LogLevel::Error),
        ("WARN", LogLevel::Warn),
        ("INFO", LogLevel::Info),
        ("DEBUG", LogLevel::Debug),
        ("TRACE", LogLevel::Trace),
    ] {
        let line = format!("{} | {} | {}", "12:00:01", word, "a b c");
        let log = LogLine::new(&line).unwrap();
        assert_eq!(log.time_stamp(), "12:00:01");
        assert_eq!(*log.log_level(), level);
        assert_eq!(log.content(), "a b c");
    }
    let empty = LogLine::new(" | TRACE | ").unwrap();
    assert_eq!((empty.time_stamp(), empty.content()), ("", ""));
}

#[test]
fn parsed_fields_are_trimmed() {
    let log = LogLine::new("  x  |INFO|\t y \u{a0}").unwrap();
    assert_eq!(log.time_stamp(), "x");
    assert_eq!(log.content(), "y");
}
