use log_analyzer::search::SearchState;

#[test]
fn new_search_is_empty() {
    let s = SearchState::new();
    assert_eq!(s.query(), "");
    assert!(s.matches().is_empty());
    assert!(!s.has_matches());
    assert_eq!(s.current_match_index(), None);
    assert!(!s.is_regex_search());
}

#[test]
fn matches_and_cycling() {
    let mut s = SearchState::new();
    s.set_matches(vec![3, 7, 9]);
    assert!(s.has_matches());
    assert_eq!(s.current_match_index(), Some(3));
    s.next_match();
    assert_eq!(s.current_match_index(), Some(7));
    s.next_match();
    assert_eq!(s.current_match_index(), Some(9));
    s.next_match();
    assert_eq!(s.current_match_index(), Some(3));
}

#[test]
fn next_match_without_matches_does_nothing() {
    let mut s = SearchState::new();
    s.next_match();
    assert_eq!(s.current_match_index(), None);
}

#[test]
fn set_matches_resets_the_current_match() {
    let mut s = SearchState::new();
    s.set_matches(vec![1, 2]);
    s.next_match();
    s.set_matches(vec![5, 6]);
    assert_eq!(s.current_match_index(), Some(5));
}

#[test]
fn clear_and_clear_matches() {
    let mut s = SearchState::new();
    s.push_char('a');
    s.set_matches(vec![1]);
    s.clear_matches();
    assert_eq!(s.query(), "a");
    assert!(!s.has_matches());
    s.set_matches(vec![4]);
    s.clear();
    assert_eq!(s.query(), "");
    assert!(!s.has_matches());
}

#[test]
fn typing_and_deleting() {
    let mut s = SearchState::new();
    s.push_char('E');
    s.push_char('r');
    assert_eq!(s.query(), "Er");
    s.pop_char();
    assert_eq!(s.query(), "E");
    s.pop_char();
    s.pop_char();
    assert_eq!(s.query(), "");
}

#[test]
fn run_search_gives_the_lowercased_needle() {
    let mut s = SearchState::new();
    for c in "ErRoR Ä".chars() {
        s.push_char(c);
    }
    s.set_matches(vec![2]);
    let needle = s.run_search().unwrap();
    assert_eq!(needle, "error ä".as_bytes().to_vec());
    assert_eq!(s.matches(), &[2]);
}

#[test]
fn run_search_with_empty_query_clears_matches() {
    let mut s = SearchState::new();
    s.set_matches(vec![1, 2]);
    assert_eq!(s.run_search(), None);
    assert!(!s.has_matches());
}

#[test]
fn regex_flag() {
    let mut s = SearchState::new();
    s.set_is_regex_search(true);
    assert!(s.is_regex_search());
}
