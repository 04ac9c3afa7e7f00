use std::sync::Arc;

use log_analyzer::app::App;
use log_analyzer::filter::FilterState;
use log_analyzer::highlight::HighlightState;
use log_analyzer::log_line::LogLevel;
use log_analyzer::log_store::LogStore;
use log_analyzer::mode::Mode;
use log_analyzer::screen::{
    active_highlights, bookmark_panel_shown, add_regex_indicator, bookmark_entries, filter_bar, highlight_bar,
    highlight_color_index, log_rows, BarStyle, RowBackground, HIGHLIGHT_PALETTE_SIZE,
};
use log_analyzer::spans::{FragmentType, SpanRole};

const SAMPLE: &str = "t0 | INFO | server started\n\
t1 | ERROR | disk full\n\
\n\
garbage line\n\
t4 | WARN | Disk nearly full\n\
t5 | DEBUG | retry";

fn app_on(text: &str) -> App {
    app_on_bytes(text.as_bytes())
}

fn app_on_bytes(data: &[u8]) -> App {
    App::new(Arc::new(LogStore::new("s.log".to_string(), data.to_vec())))
}

fn bar(items: &[log_analyzer::screen::BarItem]) -> Vec<(String, BarStyle)> {
    items.iter().map(|b| (b.text.clone(), b.style)).collect()
}

#[test]
fn highlight_colours_repeat() {
    assert_eq!(HIGHLIGHT_PALETTE_SIZE, 10);
    assert_eq!(highlight_color_index(0), 0);
    assert_eq!(highlight_color_index(9), 9);
    assert_eq!(highlight_color_index(10), 0);
    assert_eq!(highlight_color_index(23), 3);
    assert_eq!(highlight_color_index(usize::MAX), usize::MAX % 10);
}

#[test]
fn only_active_nonempty_highlights_are_used() {
    let mut a = HighlightState::new();
    a.push_char('x');
    a.set_active(true);
    let mut b = HighlightState::new();
    b.set_active(true);
    let mut c = HighlightState::new();
    c.push_char('y');
    let mut d = HighlightState::new();
    d.push_char('z');
    d.set_active(true);
    let hs = vec![a, b, c, d];
    assert_eq!(active_highlights(&hs), vec!["x", "z"]);
}

#[test]
fn rows_follow_the_shown_lines() {
    let mut a = app_on(SAMPLE);
    a.add_bookmark();
    a.receive_search_result(vec![1]);
    let rows = log_rows(&a).unwrap();
    assert_eq!(rows.iter().map(|r| r.line).collect::<Vec<_>>(), vec![0, 1, 4, 5]);
    assert_eq!(
        rows.iter().map(|r| r.background).collect::<Vec<_>>(),
        vec![RowBackground::Bookmarked, RowBackground::SearchMatch, RowBackground::Plain, RowBackground::Plain]
    );
    assert_eq!(
        rows.iter().map(|r| r.level).collect::<Vec<_>>(),
        vec![LogLevel::Info, LogLevel::Error, LogLevel::Warn, LogLevel::Debug]
    );
    assert_eq!(rows[0].spans[0].text, "* ");
    assert_eq!(rows[1].spans[0].text, "  ");
    let row1: String = rows[1].spans.iter().map(|s| s.text.clone()).collect();
    assert_eq!(row1, "  [t1] Error disk full");
}

#[test]
fn a_search_match_outweighs_a_bookmark() {
    let mut a = app_on(SAMPLE);
    a.add_bookmark();
    a.receive_search_result(vec![0]);
    let rows = log_rows(&a).unwrap();
    assert_eq!(rows[0].background, RowBackground::SearchMatch);
    assert_eq!(rows[0].spans[0].text, "* ");
}

#[test]
fn rows_are_highlighted_and_scrolled() {
    let mut a = app_on(SAMPLE);
    a.enter_highlight_mode();
    a.handle_highlight_char('d');
    a.handle_highlight_char('i');
    a.handle_highlight_char('s');
    a.handle_highlight_char('k');
    a.toggle_highlight();
    let rows = log_rows(&a).unwrap();
    let kinds: Vec<(String, SpanRole, FragmentType)> =
        rows[1].spans.iter().map(|s| (s.text.clone(), s.role, s.kind)).collect();
    assert_eq!(
        kinds,
        vec![
            ("  ".to_string(), SpanRole::BookmarkMarker, FragmentType::Normal),
            ("[t1] ".to_string(), SpanRole::Timestamp, FragmentType::Normal),
            ("Error ".to_string(), SpanRole::Level, FragmentType::Normal),
            ("disk".to_string(), SpanRole::Content, FragmentType::Highlighted(0)),
            (" full".to_string(), SpanRole::Content, FragmentType::Normal),
        ]
    );
    a.scroll_right();
    let rows = log_rows(&a).unwrap();
    let text: String = rows[1].spans.iter().map(|s| s.text.clone()).collect();
    assert_eq!(text, "or disk full");
}

#[test]
fn rows_that_would_cut_a_character_apart_give_nothing() {
    let mut a = app_on("t | INFO | café");
    assert!(log_rows(&a).is_some());
    a.enter_highlight_mode();
    a.handle_highlight_char('x');
    a.toggle_highlight();
    assert!(log_rows(&a).is_none());
}

#[test]
fn bookmark_entries_show_the_raw_lines() {
    let mut a = app_on_bytes(b"a | INFO | one\n\xff\nb | WARN | two");
    a.bookmark_mut().add_bookmark(1);
    a.bookmark_mut().add_bookmark(2);
    a.bookmark_mut().add_bookmark(0);
    a.bookmark_mut().add_bookmark(7);
    assert_eq!(bookmark_entries(&a), vec!["a | INFO | one".to_string(), "b | WARN | two".to_string()]);
}

#[test]
fn the_filter_bar() {
    let mut f0 = FilterState::new();
    f0.push_char('a');
    f0.set_active(true);
    let mut f1 = FilterState::new();
    f1.push_char('b');
    f1.change_op();
    let f2 = FilterState::new();
    let fs = vec![f0, f1, f2];
    assert_eq!(
        bar(&filter_bar(&fs, 1)),
        vec![
            (" [X] a ".to_string(), BarStyle::Active),
            (" AND ".to_string(), BarStyle::Active),
            (" | ".to_string(), BarStyle::Active),
            (" [] b ".to_string(), BarStyle::Selected),
            (" OR ".to_string(), BarStyle::Selected),
            (" | ".to_string(), BarStyle::Selected),
            (" []  ".to_string(), BarStyle::Inactive),
        ]
    );
    assert!(filter_bar(&[], 0).is_empty());
}

#[test]
fn the_highlight_bar() {
    let mut h0 = HighlightState::new();
    h0.push_char('q');
    let mut h1 = HighlightState::new();
    h1.set_active(true);
    let hs = vec![h0, h1];
    assert_eq!(
        bar(&highlight_bar(&hs, 0)),
        vec![
            (" [] q ".to_string(), BarStyle::Selected),
            (" | ".to_string(), BarStyle::Separator),
            (" [X]  ".to_string(), BarStyle::Active),
        ]
    );
}

#[test]
fn the_regex_indicator() {
    let on = add_regex_indicator(true);
    assert_eq!((on.text.as_str(), on.style), ("[REGEX ON]", BarStyle::IndicatorOn));
    let off = add_regex_indicator(false);
    assert_eq!((off.text.as_str(), off.style), ("[REGEX OFF]", BarStyle::IndicatorOff));
}

#[test]
fn only_bookmark_mode_shows_the_bookmark_panel() {
    assert!(bookmark_panel_shown(Mode::BookMark));
    for m in [Mode::Normal, Mode::Search, Mode::Filter, Mode::Highlight] {
        assert!(!bookmark_panel_shown(m));
    }
}
