use log_analyzer::log_line::LogLine;
use log_analyzer::spans::{
    build_multi_highlighted_spans, build_span_from_log_line, split_fragment,
    try_build_multi_highlighted_spans, try_build_span_from_log_line, try_split_fragment,
    FragmentType, SpanRole,
};

use FragmentType::{Highlighted, Normal};

#[test]
fn split_marks_each_occurrence_ignoring_ascii_case() {
    let parts = split_fragment("Error and error", "error", 0);
    assert_eq!(parts, vec![("Error", Highlighted(0)), (" and ", Normal), ("error", Highlighted(0))]);
}

#[test]
fn split_with_an_empty_term_keeps_the_text() {
    assert_eq!(split_fragment("abc", "", 3), vec![("abc", Normal)]);
}

#[test]
fn split_does_not_overlap_occurrences() {
    assert_eq!(split_fragment("aaa", "aa", 1), vec![("aa", Highlighted(1)), ("a", Normal)]);
}

#[test]
fn split_of_empty_text_is_empty() {
    assert_eq!(split_fragment("", "a", 0), Vec::<(&str, FragmentType)>::new());
}

#[test]
fn split_without_occurrence_is_one_plain_fragment() {
    assert_eq!(split_fragment("hello", "xyz", 0), vec![("hello", Normal)]);
    assert_eq!(split_fragment("éa", "ab", 0), vec![("éa", Normal)]);
}

#[test]
fn split_refuses_to_cut_a_character_apart() {
    assert!(try_split_fragment("é", "x", 0).is_none());
    assert!(try_split_fragment("aé", "a", 0).is_none());
    assert_eq!(try_split_fragment("éé", "é", 2), Some(vec![("é", Highlighted(2)), ("é", Highlighted(2))]));
}

#[test]
fn several_terms_keep_their_own_index() {
    let mut spans = Vec::new();
    build_multi_highlighted_spans("disk error DISK", &["disk", "", "error"], &mut spans);
    assert_eq!(
        spans,
        vec![
            ("disk", Highlighted(0)),
            (" ", Normal),
            ("error", Highlighted(2)),
            (" ", Normal),
            ("DISK", Highlighted(0)),
        ]
    );
}

#[test]
fn an_earlier_term_wins() {
    let mut spans = vec![("x", Normal)];
    build_multi_highlighted_spans("abc", &["abc", "b"], &mut spans);
    assert_eq!(spans, vec![("x", Normal), ("abc", Highlighted(0))]);
}

#[test]
fn a_failing_split_appends_nothing() {
    let mut spans = vec![("x", Normal)];
    assert!(!try_build_multi_highlighted_spans("é", &["x"], &mut spans));
    assert_eq!(spans, vec![("x", Normal)]);
    assert!(try_build_multi_highlighted_spans("é", &[], &mut spans));
    assert_eq!(spans, vec![("x", Normal), ("é", Normal)]);
}

fn texts(spans: &[log_analyzer::spans::StyledText]) -> Vec<(String, SpanRole, FragmentType)> {
    spans.iter().map(|s| (s.text.clone(), s.role, s.kind)).collect()
}

fn owned(v: &[(&str, SpanRole, FragmentType)]) -> Vec<(String, SpanRole, FragmentType)> {
    v.iter().map(|(t, r, k)| (t.to_string(), *r, *k)).collect()
}

#[test]
fn a_line_without_highlights() {
    let log = LogLine::new("t1 | ERROR | disk full").unwrap();
    let spans = build_span_from_log_line(&log, "*", &[], 0);
    assert_eq!(
        texts(&spans),
        owned(&[
            ("* ", SpanRole::BookmarkMarker, Normal),
            ("[t1] ", SpanRole::Timestamp, Normal),
            ("Error ", SpanRole::Level, Normal),
            ("disk full", SpanRole::Content, Normal),
        ])
    );
}

#[test]
fn a_scrolled_line_loses_its_first_characters() {
    let log = LogLine::new("t1 | ERROR | disk full").unwrap();
    let spans = build_span_from_log_line(&log, "*", &[], 4);
    assert_eq!(
        texts(&spans),
        owned(&[
            ("1] ", SpanRole::Timestamp, Normal),
            ("Error ", SpanRole::Level, Normal),
            ("disk full", SpanRole::Content, Normal),
        ])
    );
    let far = build_span_from_log_line(&log, "*", &[], 100);
    assert!(far.is_empty());
    let joined: String = build_span_from_log_line(&log, " ", &[], 13).iter().map(|s| s.text.clone()).collect();
    assert_eq!(joined, "  [t1] Error disk full".chars().skip(13).collect::<String>());
}

#[test]
fn scrolling_counts_characters_not_bytes() {
    let log = LogLine::new("té | INFO | ünï").unwrap();
    let spans = build_span_from_log_line(&log, " ", &[], 3);
    assert_eq!(
        texts(&spans),
        owned(&[
            ("té] ", SpanRole::Timestamp, Normal),
            ("Info ", SpanRole::Level, Normal),
            ("ünï", SpanRole::Content, Normal),
        ])
    );
}

#[test]
fn a_highlighted_line() {
    let log = LogLine::new("t1 | ERROR | disk full").unwrap();
    let spans = build_span_from_log_line(&log, " ", &["r"], 0);
    assert_eq!(
        texts(&spans),
        owned(&[
            ("  ", SpanRole::BookmarkMarker, Normal),
            ("[t1] ", SpanRole::Timestamp, Normal),
            ("E", SpanRole::Level, Normal),
            ("r", SpanRole::Level, Highlighted(0)),
            ("r", SpanRole::Level, Highlighted(0)),
            ("o", SpanRole::Level, Normal),
            ("r", SpanRole::Level, Highlighted(0)),
            (" ", SpanRole::Level, Normal),
            ("disk full", SpanRole::Content, Normal),
        ])
    );
}

#[test]
fn highlighting_never_changes_the_text() {
    let log = LogLine::new("2024 | WARN | Disk nearly full, disk").unwrap();
    let plain: String = build_span_from_log_line(&log, "*", &[], 0).iter().map(|s| s.text.clone()).collect();
    let lit: String = build_span_from_log_line(&log, "*", &["disk", "n", "WARN "], 0)
        .iter()
        .map(|s| s.text.clone())
        .collect();
    assert_eq!(plain, lit);
    assert_eq!(plain, "* [2024] Warn Disk nearly full, disk");
}

#[test]
fn a_line_that_highlighting_would_cut_apart_gives_nothing() {
    let log = LogLine::new("t | INFO | é").unwrap();
    assert!(try_build_span_from_log_line(&log, " ", &["x"], 0).is_none());
    assert!(try_build_span_from_log_line(&log, " ", &[], 0).is_some());
}

#[test]
fn scrolling_trims_the_unscrolled_spans() {
    let log = LogLine::new("té | WARN | disk é full").unwrap();
    let terms = ["disk", "full"];
    let base = build_span_from_log_line(&log, "*", &terms, 0);
    for h in 0..30usize {
        let mut expected = Vec::new();
        let mut pos = 0usize;
        for s in &base {
            let len = s.text.chars().count();
            if pos + len > h {
                let text: String = s.text.chars().skip(h.saturating_sub(pos)).collect();
                expected.push((text, s.role, s.kind));
            }
            pos += len;
        }
        assert_eq!(texts(&build_span_from_log_line(&log, "*", &terms, h)), expected, "scroll {h}");
    }
}
