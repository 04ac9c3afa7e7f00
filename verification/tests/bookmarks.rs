use log_analyzer::bookmark::BookMark;
use log_analyzer::list_state::ListState;

#[test]
fn new_bookmarks_select_the_first_entry() {
    let mut b = BookMark::new();
    assert!(b.indices().is_empty());
    assert_eq!(b.state().selected(), Some(0));
    assert_eq!(b.state().offset(), 0);
}

#[test]
fn bookmarks_are_kept_sorted_without_repeats() {
    let mut b = BookMark::new();
    b.add_bookmark(5);
    b.add_bookmark(1);
    b.add_bookmark(9);
    b.add_bookmark(5);
    b.add_bookmark(3);
    assert_eq!(b.indices(), &[1, 3, 5, 9]);
}

#[test]
fn removing_bookmarks() {
    let mut b = BookMark::new();
    for i in [4, 2, 8] {
        b.add_bookmark(i);
    }
    b.remove_bookmark(4);
    assert_eq!(b.indices(), &[2, 8]);
    b.remove_bookmark(100);
    assert_eq!(b.indices(), &[2, 8]);
    b.add_bookmark(4);
    b.remove_bookmark(4);
    assert_eq!(b.indices(), &[2, 8]);
}

#[test]
fn bookmark_selection_wraps_around() {
    let mut b = BookMark::new();
    for i in [10, 20, 30] {
        b.add_bookmark(i);
    }
    b.select_next_bookmark();
    assert_eq!(b.state().selected(), Some(2));
    b.select_next_bookmark();
    assert_eq!(b.state().selected(), Some(1));
    b.select_previous_bookmark();
    assert_eq!(b.state().selected(), Some(2));
    b.select_previous_bookmark();
    assert_eq!(b.state().selected(), Some(0));
}

#[test]
fn bookmark_selection_without_bookmarks_stays() {
    let mut b = BookMark::new();
    b.select_next_bookmark();
    b.select_previous_bookmark();
    assert_eq!(b.state().selected(), Some(0));
}

#[test]
fn bookmark_selection_from_none_starts_at_zero() {
    let mut b = BookMark::new();
    b.add_bookmark(1);
    b.add_bookmark(2);
    b.state().select(None);
    b.select_next_bookmark();
    assert_eq!(b.state().selected(), Some(0));
    b.state().select(None);
    b.select_previous_bookmark();
    assert_eq!(b.state().selected(), Some(0));
}

#[test]
fn list_state_select_and_scroll() {
    let mut s = ListState::default();
    assert_eq!(s.selected(), None);
    assert_eq!(s.offset(), 0);
    s.scroll_down_by(3);
    assert_eq!(s.selected(), Some(3));
    s.scroll_up_by(5);
    assert_eq!(s.selected(), Some(0));
    let mut t = ListState::from_parts(7, Some(2));
    t.select(None);
    assert_eq!(t.offset(), 0);
    assert_eq!(t.selected(), None);
    let u = ListState::default().with_offset(4).with_selected(Some(9));
    assert_eq!(u.offset(), 4);
    assert_eq!(u.selected(), Some(9));
    let mut w = ListState::from_parts(0, Some(usize::MAX - 1));
    w.scroll_down_by(10);
    assert_eq!(w.selected(), Some(usize::MAX));
}

fn ratatui_state(offset: usize, selected: Option<usize>) -> ratatui::widgets::ListState {
    ratatui::widgets::ListState::default().with_offset(offset).with_selected(selected)
}

#[test]
fn list_state_behaves_as_ratatui_list_state() {
    let starts = [(0usize, None), (5, Some(3usize)), (2, Some(0)), (9, Some(usize::MAX - 2))];
    for (offset, selected) in starts {
        for amount in [0u16, 1, 10, 300] {
            let mut ours = ListState::from_parts(offset, selected);
            let mut theirs = ratatui_state(offset, selected);
            ours.scroll_down_by(amount);
            theirs.scroll_down_by(amount);
            assert_eq!((ours.offset(), ours.selected()), (theirs.offset(), theirs.selected()));
            ours.scroll_up_by(amount);
            theirs.scroll_up_by(amount);
            assert_eq!((ours.offset(), ours.selected()), (theirs.offset(), theirs.selected()));
        }
        for target in [None, Some(0usize), Some(4)] {
            let mut ours = ListState::from_parts(offset, selected);
            let mut theirs = ratatui_state(offset, selected);
            ours.select(target);
            theirs.select(target);
            assert_eq!((ours.offset(), ours.selected()), (theirs.offset(), theirs.selected()));
        }
    }
}

#[test]
fn default_bookmarks_select_nothing() {
    let mut b = BookMark::default();
    assert!(b.indices().is_empty());
    assert_eq!(b.state().selected(), None);
}
