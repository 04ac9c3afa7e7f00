use std::sync::Arc;

use log_analyzer::app::App;
use log_analyzer::filter::FilterOp;
use log_analyzer::input::{
    handle_bookmark_mode_input, handle_key, handle_normal_mode_input, handle_search_mode_input,
    key_out_of_range, InputAction, Key,
};
use log_analyzer::log_store::LogStore;
use log_analyzer::mode::Mode;

const SAMPLE: &str = "t0 | INFO | server started\n\
t1 | ERROR | disk full\n\
\n\
garbage line\n\
t4 | WARN | Disk nearly full\n\
t5 | DEBUG | retry";

fn app() -> App {
    let store = LogStore::new("sample.log".to_string(), SAMPLE.as_bytes().to_vec());
    App::new(Arc::new(store))
}

fn type_filter(app: &mut App, text: &str) {
    for c in text.chars() {
        app.handle_filter_char(c);
    }
}

#[test]
fn a_new_app_starts_in_normal_mode() {
    let a = app();
    assert_eq!(a.mode(), Mode::Normal);
    assert_eq!(a.list_state().selected(), Some(0));
    assert_eq!(a.horizontal_scroll(), 0);
    assert!(a.filters().is_empty());
    assert!(a.highlights().is_empty());
    assert_eq!(a.filter_index(), 0);
    assert_eq!(a.highlight_index(), 0);
    assert_eq!(a.logs().len(), 6);
    assert_eq!(a.search().query(), "");
}

#[test]
fn blank_and_unparsable_lines_are_hidden() {
    let a = app();
    assert_eq!(a.visible_line_indices(), vec![0, 1, 4, 5]);
}

#[test]
fn an_active_filter_keeps_matching_lines_ignoring_case() {
    let mut a = app();
    a.enter_filter_mode();
    assert_eq!(a.mode(), Mode::Filter);
    assert_eq!(a.filters().len(), 1);
    type_filter(&mut a, "DISK");
    assert_eq!(a.visible_line_indices(), vec![0, 1, 4, 5]);
    a.toggle_filter();
    assert!(a.filters()[0].is_active());
    assert_eq!(a.visible_line_indices(), vec![1, 4]);
}

#[test]
fn bookmarked_lines_stay_visible_under_filters() {
    let mut a = app();
    a.add_bookmark();
    assert_eq!(a.bookmark().indices(), &[0]);
    a.enter_filter_mode();
    type_filter(&mut a, "disk");
    a.toggle_filter();
    assert_eq!(a.visible_line_indices(), vec![0, 1, 4]);
}

#[test]
fn filters_combine_with_the_operator_of_the_one_before() {
    let mut a = app();
    a.enter_filter_mode();
    type_filter(&mut a, "disk");
    a.toggle_filter();
    a.add_filter();
    assert_eq!(a.filter_index(), 1);
    type_filter(&mut a, "nearly");
    a.toggle_filter();
    assert_eq!(a.visible_line_indices(), vec![4]);
    a.next_filter();
    assert_eq!(a.filter_index(), 0);
    a.change_filter_op();
    assert_eq!(a.filters()[0].op(), FilterOp::Or);
    assert_eq!(a.visible_line_indices(), vec![1, 4]);
}

#[test]
fn inactive_filters_are_skipped() {
    let mut a = app();
    a.enter_filter_mode();
    type_filter(&mut a, "nothing matches this");
    a.add_filter();
    type_filter(&mut a, "retry");
    a.toggle_filter();
    assert_eq!(a.visible_line_indices(), vec![5]);
}

#[test]
fn filter_backspace_edits_then_removes() {
    let mut a = app();
    a.enter_filter_mode();
    type_filter(&mut a, "ab");
    assert!(a.filters()[0].is_editing());
    a.handle_filter_backspace();
    assert_eq!(a.filters()[0].query(), "a");
    a.add_filter();
    a.add_filter();
    assert_eq!(a.filter_index(), 2);
    a.handle_filter_backspace();
    assert_eq!(a.filters().len(), 2);
    assert_eq!(a.filter_index(), 1);
    a.next_filter();
    a.next_filter();
    assert_eq!(a.filter_index(), 1);
    a.handle_filter_backspace();
    assert_eq!(a.filters().len(), 1);
    assert_eq!(a.filter_index(), 0);
    a.toggle_filter();
    a.handle_filter_backspace();
    assert!(a.filters().is_empty());
    assert_eq!(a.filter_index(), 0);
    a.handle_filter_backspace();
    a.toggle_filter();
    a.handle_filter_char('x');
    assert!(a.filters().is_empty());
}

#[test]
fn highlights_are_edited_like_filters() {
    let mut a = app();
    a.enter_highlight_mode();
    assert_eq!(a.mode(), Mode::Highlight);
    assert_eq!(a.highlights().len(), 1);
    a.handle_highlight_char('d');
    a.toggle_highlight();
    assert!(a.highlights()[0].is_active());
    assert!(!a.highlights()[0].is_editing());
    a.add_highlight();
    a.handle_highlight_char('q');
    a.handle_highlight_backspace();
    assert_eq!(a.highlights()[1].query(), "");
    a.toggle_highlight();
    a.handle_highlight_backspace();
    assert_eq!(a.highlights().len(), 1);
    assert_eq!(a.highlight_index(), 0);
    a.next_highlight();
    assert_eq!(a.highlight_index(), 0);
    a.exit_highlight_mode();
    assert_eq!(a.mode(), Mode::Normal);
}

#[test]
fn entering_filter_mode_twice_adds_one_filter() {
    let mut a = app();
    a.enter_filter_mode();
    a.exit_filter_mode();
    a.enter_filter_mode();
    assert_eq!(a.filters().len(), 1);
}

#[test]
fn search_results_select_the_first_visible_match() {
    let mut a = app();
    a.receive_search_result(vec![1, 4]);
    assert_eq!(a.list_state().selected(), Some(1));
    a.next_search_match();
    assert_eq!(a.list_state().selected(), Some(2));
    assert_eq!(a.search().current_match_index(), Some(4));
    a.next_search_match();
    assert_eq!(a.list_state().selected(), Some(1));
}

#[test]
fn hidden_matches_are_skipped() {
    let mut a = app();
    a.receive_search_result(vec![3, 5]);
    assert_eq!(a.list_state().selected(), Some(3));
    assert_eq!(a.search().current_match_index(), Some(5));
}

#[test]
fn a_round_without_shown_matches_keeps_the_selection() {
    let mut a = app();
    a.receive_search_result(vec![2, 3]);
    assert_eq!(a.list_state().selected(), Some(0));
    assert_eq!(a.search().current_match_index(), Some(2));
}

#[test]
fn empty_search_results_change_nothing_else() {
    let mut a = app();
    a.receive_search_result(vec![]);
    assert_eq!(a.list_state().selected(), Some(0));
    assert!(!a.search().has_matches());
}

#[test]
fn moving_stays_within_the_shown_lines() {
    let mut a = app();
    for _ in 0..10 {
        a.select_next();
    }
    assert_eq!(a.list_state().selected(), Some(3));
    for _ in 0..10 {
        a.select_previous();
    }
    assert_eq!(a.list_state().selected(), Some(0));
    a.scroll_down();
    assert_eq!(a.list_state().selected(), Some(10));
    a.scroll_up();
    a.scroll_up();
    assert_eq!(a.list_state().selected(), Some(0));
}

#[test]
fn horizontal_scrolling() {
    let mut a = app();
    a.scroll_right();
    a.scroll_right();
    assert_eq!(a.horizontal_scroll(), 20);
    a.scroll_left();
    assert_eq!(a.horizontal_scroll(), 10);
    a.scroll_left();
    a.scroll_left();
    assert_eq!(a.horizontal_scroll(), 0);
}

#[test]
fn bookmarks_in_the_app() {
    let mut a = app();
    a.select_next();
    a.add_bookmark();
    a.select_next();
    a.select_next();
    a.add_bookmark();
    assert_eq!(a.bookmark().indices(), &[1, 3]);
    a.enter_bookmark_mode();
    a.select_previous_bookmark();
    a.jump_to_bookmark();
    assert_eq!(a.list_state().selected(), Some(3));
    a.remove_bookmark();
    assert_eq!(a.bookmark().indices(), &[1]);
    a.select_next_bookmark();
    a.remove_bookmark();
    assert!(a.bookmark().indices().is_empty());
    a.remove_bookmark();
    a.jump_to_bookmark();
    assert_eq!(a.list_state().selected(), Some(3));
    a.exit_bookmark_mode();
    assert_eq!(a.mode(), Mode::Normal);
}

#[test]
fn search_through_keys() {
    let mut a = app();
    assert!(matches!(handle_key(&mut a, Key::Char('/')), InputAction::Continue));
    assert_eq!(a.mode(), Mode::Search);
    for c in "DISK".chars() {
        handle_key(&mut a, Key::Char(c));
    }
    handle_key(&mut a, Key::Backspace);
    handle_key(&mut a, Key::Char('K'));
    assert_eq!(a.search().query(), "DISK");
    let needle = match handle_key(&mut a, Key::Enter) {
        InputAction::Search(Some(n)) => n,
        _ => panic!("a search was expected"),
    };
    assert_eq!(a.mode(), Mode::Normal);
    assert_eq!(needle, b"disk".to_vec());
    let found = a.logs().find_matches(&needle);
    assert_eq!(found, vec![1, 4]);
    a.receive_search_result(found);
    assert_eq!(a.list_state().selected(), Some(1));
    handle_key(&mut a, Key::Enter);
    assert_eq!(a.list_state().selected(), Some(2));
    handle_key(&mut a, Key::Esc);
    assert_eq!(a.search().query(), "");
    assert!(!a.search().has_matches());
}

#[test]
fn an_empty_search_asks_for_nothing() {
    let mut a = app();
    a.receive_search_result(vec![1]);
    handle_key(&mut a, Key::Char('/'));
    match handle_key(&mut a, Key::Enter) {
        InputAction::Search(None) => {}
        _ => panic!("an empty search was expected"),
    }
    assert!(!a.search().has_matches());
}

#[test]
fn keys_in_normal_mode() {
    let mut a = app();
    assert!(matches!(handle_key(&mut a, Key::Char('q')), InputAction::Quit));
    handle_key(&mut a, Key::Down);
    handle_key(&mut a, Key::Down);
    handle_key(&mut a, Key::Up);
    assert_eq!(a.list_state().selected(), Some(1));
    handle_key(&mut a, Key::Right);
    assert_eq!(a.horizontal_scroll(), 10);
    handle_key(&mut a, Key::Left);
    assert_eq!(a.horizontal_scroll(), 0);
    handle_key(&mut a, Key::PageDown);
    assert_eq!(a.list_state().selected(), Some(11));
    handle_key(&mut a, Key::PageUp);
    assert_eq!(a.list_state().selected(), Some(1));
    handle_key(&mut a, Key::Char('b'));
    assert_eq!(a.bookmark().indices(), &[1]);
    handle_key(&mut a, Key::Char('B'));
    assert_eq!(a.mode(), Mode::BookMark);
    handle_key(&mut a, Key::Backspace);
    assert!(a.bookmark().indices().is_empty());
    handle_key(&mut a, Key::Esc);
    assert_eq!(a.mode(), Mode::Normal);
    assert!(matches!(handle_key(&mut a, Key::Other), InputAction::Continue));
}

#[test]
fn keys_in_the_bookmark_list() {
    let mut a = app();
    a.add_bookmark();
    a.select_next();
    a.select_next();
    a.add_bookmark();
    handle_key(&mut a, Key::Char('B'));
    handle_key(&mut a, Key::Up);
    handle_key(&mut a, Key::Enter);
    assert_eq!(a.mode(), Mode::Normal);
    assert_eq!(a.list_state().selected(), Some(2));
}

#[test]
fn f_and_h_open_the_filter_and_highlight_bars() {
    let mut a = app();
    handle_key(&mut a, Key::Char('f'));
    assert_eq!(a.mode(), Mode::Filter);
    assert_eq!(a.filters().len(), 1);
    handle_key(&mut a, Key::Esc);
    assert_eq!(a.mode(), Mode::Normal);
    handle_key(&mut a, Key::Char('h'));
    assert_eq!(a.mode(), Mode::Highlight);
    assert_eq!(a.highlights().len(), 1);
    handle_key(&mut a, Key::Esc);
    assert_eq!(a.mode(), Mode::Normal);
}

#[test]
fn keys_in_filter_mode() {
    let mut a = app();
    handle_key(&mut a, Key::Char('f'));
    for c in "disk".chars() {
        handle_key(&mut a, Key::Char(c));
    }
    assert_eq!(a.filters()[0].query(), "disk");
    assert!(matches!(handle_key(&mut a, Key::Char('q')), InputAction::Continue));
    assert_eq!(a.filters()[0].query(), "diskq");
    handle_key(&mut a, Key::Backspace);
    handle_key(&mut a, Key::Enter);
    assert!(a.filters()[0].is_active());
    assert_eq!(a.visible_line_indices(), vec![1, 4]);
    handle_key(&mut a, Key::Char('+'));
    assert_eq!(a.filters().len(), 2);
    assert_eq!(a.filter_index(), 1);
    for c in "server".chars() {
        handle_key(&mut a, Key::Char(c));
    }
    handle_key(&mut a, Key::Enter);
    assert_eq!(a.visible_line_indices(), Vec::<usize>::new());
    handle_key(&mut a, Key::Tab);
    assert_eq!(a.filter_index(), 0);
    handle_key(&mut a, Key::Down);
    assert_eq!(a.filters()[0].op(), FilterOp::Or);
    assert_eq!(a.visible_line_indices(), vec![0, 1, 4]);
    handle_key(&mut a, Key::Up);
    assert_eq!(a.filters()[0].op(), FilterOp::And);
    handle_key(&mut a, Key::Tab);
    handle_key(&mut a, Key::Backspace);
    assert_eq!(a.filters().len(), 1);
    handle_key(&mut a, Key::Esc);
    assert_eq!(a.mode(), Mode::Normal);
}

#[test]
fn keys_in_highlight_mode() {
    let mut a = app();
    handle_key(&mut a, Key::Char('h'));
    handle_key(&mut a, Key::Char('x'));
    handle_key(&mut a, Key::Enter);
    assert!(a.highlights()[0].is_active());
    handle_key(&mut a, Key::Char('+'));
    assert_eq!(a.highlights().len(), 2);
    handle_key(&mut a, Key::Char('y'));
    handle_key(&mut a, Key::Backspace);
    assert_eq!(a.highlights()[1].query(), "");
    handle_key(&mut a, Key::Tab);
    assert_eq!(a.highlight_index(), 0);
    handle_key(&mut a, Key::Tab);
    handle_key(&mut a, Key::Enter);
    handle_key(&mut a, Key::Backspace);
    assert_eq!(a.highlights().len(), 1);
    assert_eq!(a.highlights()[0].query(), "x");
    handle_key(&mut a, Key::Up);
    assert_eq!(a.mode(), Mode::Highlight);
    handle_key(&mut a, Key::Esc);
    assert_eq!(a.mode(), Mode::Normal);
}

#[test]
fn ctrl_r_switches_regex_search_and_searches_again() {
    let mut a = app();
    handle_key(&mut a, Key::Char('/'));
    handle_key(&mut a, Key::Char('D'));
    match handle_key(&mut a, Key::Ctrl('r')) {
        InputAction::Search(Some(n)) => assert_eq!(n, b"d".to_vec()),
        _ => panic!("a search was expected"),
    }
    assert!(a.search().is_regex_search());
    assert_eq!(a.mode(), Mode::Search);
    assert_eq!(a.search().query(), "D");
}

#[test]
fn handlers_work_in_any_mode() {
    let mut a = app();
    a.enter_search_mode();
    assert!(matches!(handle_normal_mode_input(&mut a, Key::Char('q')), InputAction::Quit));
    handle_normal_mode_input(&mut a, Key::Down);
    assert_eq!(a.list_state().selected(), Some(1));
    handle_search_mode_input(&mut a, Key::Char('z'));
    assert_eq!(a.search().query(), "z");
    a.exit_search_mode();
    handle_search_mode_input(&mut a, Key::Char('y'));
    assert_eq!(a.search().query(), "zy");
    a.add_bookmark();
    handle_bookmark_mode_input(&mut a, Key::Enter);
    assert_eq!(a.mode(), Mode::Normal);
    assert_eq!(a.list_state().selected(), Some(1));
}

#[test]
fn keys_that_would_overflow_are_reported() {
    let mut a = app();
    assert!(!key_out_of_range(&a, Key::Down));
    a.list_state_mut().select(Some(usize::MAX));
    assert!(key_out_of_range(&a, Key::Down));
    assert!(!key_out_of_range(&a, Key::Up));
    a.enter_filter_mode();
    assert!(!key_out_of_range(&a, Key::Tab));
    a.exit_filter_mode();
    a.bookmark_mut().add_bookmark(3);
    a.enter_bookmark_mode();
    a.bookmark_mut().state().select(Some(usize::MAX));
    assert!(key_out_of_range(&a, Key::Down));
    assert!(key_out_of_range(&a, Key::Up));
    a.bookmark_mut().state().select(Some(2));
    assert!(!key_out_of_range(&a, Key::Up));
}

#[test]
fn regex_toggle_searches_again() {
    let mut a = app();
    a.handle_search_char('r');
    let needle = a.toggle_regex_search();
    assert!(a.search().is_regex_search());
    assert_eq!(needle, Some(b"r".to_vec()));
    a.clear_search();
    assert_eq!(a.toggle_regex_search(), None);
    assert!(!a.search().is_regex_search());
}

#[test]
fn the_search_bar_through_the_app() {
    let mut a = app();
    a.enter_search_mode();
    a.handle_search_char('x');
    a.handle_search_backspace();
    a.handle_search_backspace();
    assert_eq!(a.search().query(), "");
    a.exit_search_mode();
    assert_eq!(a.mode(), Mode::Normal);
    a.search_mut().push_char('y');
    assert_eq!(a.search().query(), "y");
    assert_eq!(a.run_search(), Some(b"y".to_vec()));
}

#[test]
fn control_chords_count_as_their_character() {
    let mut a = app();
    assert!(matches!(handle_key(&mut a, Key::Ctrl('q')), InputAction::Quit));
    handle_key(&mut a, Key::Ctrl('/'));
    assert_eq!(a.mode(), Mode::Search);
    handle_key(&mut a, Key::Ctrl('a'));
    handle_key(&mut a, Key::Char('b'));
    assert_eq!(a.search().query(), "ab");
    handle_key(&mut a, Key::Esc);
    handle_key(&mut a, Key::Ctrl('f'));
    assert_eq!(a.mode(), Mode::Filter);
    handle_key(&mut a, Key::Ctrl('x'));
    assert_eq!(a.filters()[0].query(), "x");
    handle_key(&mut a, Key::Ctrl('+'));
    assert_eq!(a.filters().len(), 2);
}
