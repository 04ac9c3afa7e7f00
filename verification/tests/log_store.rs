use log_analyzer::log_store::LogStore;

fn store(text: &[u8]) -> LogStore {
    LogStore::new("sample.log".to_string(), text.to_vec())
}

#[test]
fn lines_are_split_at_newlines() {
    let s = store(b"a\nbb\n\nccc");
    assert_eq!(s.len(), 4);
    assert!(!s.is_empty());
    assert_eq!(s.get_line(0), Some("a"));
    assert_eq!(s.get_line(1), Some("bb"));
    assert_eq!(s.get_line(2), Some(""));
    assert_eq!(s.get_line(3), Some("ccc"));
    assert_eq!(s.get_line(4), None);
    assert_eq!(s.line_offsets(), &[(0, 1), (2, 4), (5, 5), (6, 9)]);
    assert_eq!(s.file_path(), "sample.log");
}

#[test]
fn a_trailing_newline_gives_an_empty_last_line() {
    let s = store(b"x\n");
    assert_eq!(s.len(), 2);
    assert_eq!(s.get_line(1), Some(""));
}

#[test]
fn an_empty_file_has_one_empty_line() {
    let s = store(b"");
    assert_eq!(s.len(), 1);
    assert!(!s.is_empty());
    assert_eq!(s.get_line(0), Some(""));
}

#[test]
fn carriage_returns_stay_in_the_line() {
    let s = store(b"a\r\nb");
    assert_eq!(s.get_line(0), Some("a\r"));
}

#[test]
fn invalid_utf8_lines_are_not_text() {
    let s = store(b"ok\n\xff\xfe\nfine \xc3\xa9");
    assert_eq!(s.get_line(0), Some("ok"));
    assert_eq!(s.get_line(1), None);
    assert_eq!(s.get_line(2), Some("fine é"));
}

#[test]
fn lines_rebuild_the_file() {
    let data = b"one\ntwo\n\nthree\n".to_vec();
    let s = store(&data);
    let mut rebuilt = Vec::new();
    for i in 0..s.len() {
        if i > 0 {
            rebuilt.push(b'\n');
        }
        let (a, b) = s.line_offsets()[i];
        rebuilt.extend_from_slice(&data[a..b]);
    }
    assert_eq!(rebuilt, data);
}

#[test]
fn find_matches_is_ascii_case_insensitive_and_ordered() {
    let s = store(b"Error one\nok\nan ERROR\nerr\n\xffERROR");
    assert_eq!(s.find_matches(b"error"), vec![0, 2, 4]);
    assert_eq!(s.find_matches(b"ok"), vec![1]);
    assert_eq!(s.find_matches(b"zzz"), Vec::<usize>::new());
}

#[test]
fn find_matches_compares_bytes() {
    let s = store("Ärger\närger".as_bytes());
    assert_eq!(s.find_matches("ärger".as_bytes()), vec![1]);
}

#[test]
fn many_lines_are_found_in_order() {
    let mut data = Vec::new();
    for i in 0..2000 {
        if i % 7 == 0 {
            data.extend_from_slice(b"needle here\n");
        } else {
            data.extend_from_slice(b"hay\n");
        }
    }
    let s = store(&data);
    let expected: Vec<usize> = (0..2000).filter(|i| i % 7 == 0).collect();
    assert_eq!(s.find_matches(b"needle"), expected);
    assert_eq!(s.len(), 2001);
}
