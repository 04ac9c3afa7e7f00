use log_analyzer::log_line::{parse_log_line, LogLevel, LogLine};
use log_analyzer::text::{is_blank_chars, is_whitespace_char, trim_chars};

#[test]
fn parses_the_three_fields() {
    let log = LogLine::new("2024-01-01 10:00:00 | ERROR | disk full").unwrap();
    assert_eq!(log.time_stamp(), "2024-01-01 10:00:00");
    assert_eq!(*log.log_level(), LogLevel::Error);
    assert_eq!(log.content(), "disk full");
}

#[test]
fn maps_each_level_word() {
    let cases = [
        ("ERROR", LogLevel::Error),
        ("WARN", LogLevel::Warn),
        ("INFO", LogLevel::Info),
        ("DEBUG", LogLevel::Debug),
        ("TRACE", LogLevel::Trace),
        ("info", LogLevel::Trace),
        ("FATAL", LogLevel::Trace),
        ("", LogLevel::Trace),
    ];
    for (word, level) in cases {
        let line = format!("t | {word} | c");
        let log = parse_log_line(&line).unwrap();
        assert_eq!(*log.log_level(), level, "level word {word:?}");
    }
}

#[test]
fn blank_lines_do_not_parse() {
    assert!(LogLine::new("").is_none());
    assert!(LogLine::new("   ").is_none());
    assert!(LogLine::new("\t \u{a0}\u{3000}").is_none());
}

#[test]
fn lines_with_fewer_than_three_fields_do_not_parse() {
    assert!(LogLine::new("just text").is_none());
    assert!(LogLine::new("t | INFO").is_none());
}

#[test]
fn fields_after_the_third_are_dropped() {
    let log = LogLine::new("t | WARN | a | b | c").unwrap();
    assert_eq!(log.time_stamp(), "t");
    assert_eq!(*log.log_level(), LogLevel::Warn);
    assert_eq!(log.content(), "a");
}

#[test]
fn empty_fields_are_kept() {
    let log = LogLine::new("||").unwrap();
    assert_eq!(log.time_stamp(), "");
    assert_eq!(*log.log_level(), LogLevel::Trace);
    assert_eq!(log.content(), "");
}

#[test]
fn fields_are_trimmed_of_unicode_whitespace() {
    let log = LogLine::new("\u{2003}t1\u{a0}|\u{3000}DEBUG\n| \u{85}body text\u{2029} ").unwrap();
    assert_eq!(log.time_stamp(), "t1");
    assert_eq!(*log.log_level(), LogLevel::Debug);
    assert_eq!(log.content(), "body text");
}

#[test]
fn level_default_is_debug() {
    assert_eq!(LogLevel::default(), LogLevel::Debug);
}

#[test]
fn whitespace_test_agrees_with_std_on_every_char() {
    for code in 0u32..=0x10FFFF {
        if let Some(c) = char::from_u32(code) {
            assert_eq!(is_whitespace_char(c), c.is_whitespace(), "char {code:#x}");
        }
    }
}

#[test]
fn trimming_agrees_with_str_trim() {
    let samples = ["", " ", "  a b  ", "\u{a0}x\u{3000}", "x", "\t\n", " \u{1680}y z\u{202f}"];
    for s in samples {
        let chars: Vec<char> = s.chars().collect();
        let trimmed: String = trim_chars(&chars).into_iter().collect();
        assert_eq!(trimmed, s.trim());
        assert_eq!(is_blank_chars(&chars), s.trim().is_empty());
    }
}
