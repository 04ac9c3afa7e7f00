use vstd::prelude::*;

use crate::app::{
    after_add_bookmark, after_add_filter, after_add_highlight, after_change_filter_op,
    after_clear_search, after_enter_filter_mode, after_enter_highlight_mode, after_filter_backspace,
    after_filter_char, after_highlight_backspace, after_highlight_char, after_jump_to_bookmark,
    after_next_filter, after_next_highlight, after_next_search_match, after_remove_bookmark,
    after_run_search, after_scroll_down, after_scroll_left, after_scroll_right, after_scroll_up,
    after_search_backspace, after_search_char, after_select_next, after_select_next_bookmark,
    after_select_previous, after_select_previous_bookmark, after_toggle_filter,
    after_toggle_highlight, needle_view, run_search_needle, with_mode, with_search, App, AppView,
};
use crate::search::SearchView;
use crate::mode::Mode;

verus! {

/// A key press, as far as the viewer tells keys apart.
#[derive(Debug, Clone, Copy, PartialEq, Eq, Structural)]
pub enum Key {
    Char(char),
    Up,
    Down,
    Left,
    Right,
    PageUp,
    PageDown,
    Enter,
    Esc,
    Backspace,
    Tab,
    /// A character typed with Control held.
    Ctrl(char),
    Other,
}

/// What the caller has to do after a key press.
#[derive(Debug)]
pub enum InputAction {
    /// Go on drawing and reading keys.
    Continue,
    /// Leave the viewer.
    Quit,
    /// A search was started: drop any search still running and, where there is
    /// a needle, look for it in the lines and hand the result back with
    /// `App::receive_search_result`.
    Search(Option<Vec<u8>>),
}

/// The needle of a search action, as a sequence; `None` for other actions.
pub open spec fn action_needle(a: InputAction) -> Option<Seq<u8>> {
    match a {
        InputAction::Search(r) => needle_view(r),
        _ => None,
    }
}

/// The key as its key code alone tells it: a character typed with Control held
/// counts as the character.
pub open spec fn unctrl(key: Key) -> Key {
    match key {
        Key::Ctrl(c) => Key::Char(c),
        _ => key,
    }
}

/// The key as its key code alone tells it; see `unctrl`.
pub fn strip_ctrl(key: Key) -> (r: Key)
    ensures
        r == unctrl(key),
{
    match key {
        Key::Ctrl(c) => Key::Char(c),
        _ => key,
    }
}

/// What a key does in normal mode to the state.
pub open spec fn normal_mode_effect(v: AppView, key: Key) -> AppView {
    match unctrl(key) {
        Key::Char('/') => with_mode(v, Mode::Search),
        Key::Char('B') => with_mode(v, Mode::BookMark),
        Key::Char('f') => after_enter_filter_mode(v),
        Key::Char('h') => after_enter_highlight_mode(v),
        Key::Down => after_select_next(v),
        Key::Up => after_select_previous(v),
        Key::Right => after_scroll_right(v),
        Key::Left => after_scroll_left(v),
        Key::PageDown => after_scroll_down(v),
        Key::PageUp => after_scroll_up(v),
        Key::Enter => after_next_search_match(v),
        Key::Char('b') => after_add_bookmark(v),
        Key::Esc => after_clear_search(v),
        _ => v,
    }
}

/// The search bar with regular expressions switched on or off.
pub open spec fn with_regex_toggled(v: AppView) -> AppView {
    with_search(v, SearchView { is_regex_search: !v.search.is_regex_search, ..v.search })
}

/// What a key does in search mode to the state.
pub open spec fn search_mode_effect(v: AppView, key: Key) -> AppView {
    if key == Key::Ctrl('r') {
        after_run_search(with_regex_toggled(v))
    } else {
        match unctrl(key) {
            Key::Esc => with_mode(v, Mode::Normal),
            Key::Enter => with_mode(after_run_search(v), Mode::Normal),
            Key::Backspace => after_search_backspace(v),
            Key::Char(c) => after_search_char(v, c),
            _ => v,
        }
    }
}

/// What a key does in bookmark mode to the state.
pub open spec fn bookmark_mode_effect(v: AppView, key: Key) -> AppView {
    match unctrl(key) {
        Key::Esc => with_mode(v, Mode::Normal),
        Key::Enter => with_mode(after_jump_to_bookmark(v), Mode::Normal),
        Key::Backspace => after_remove_bookmark(v),
        Key::Up => after_select_next_bookmark(v),
        Key::Down => after_select_previous_bookmark(v),
        _ => v,
    }
}

/// What a key does in filter mode to the state: `Tab` moves to the next
/// filter, `Enter` switches it, `Up`/`Down` flip its operator, `+` adds a
/// filter, `Backspace` edits or removes, other characters type, `Esc` leaves.
pub open spec fn filter_mode_effect(v: AppView, key: Key) -> AppView {
    match unctrl(key) {
        Key::Esc => with_mode(v, Mode::Normal),
        Key::Tab => after_next_filter(v),
        Key::Enter => after_toggle_filter(v),
        Key::Up => after_change_filter_op(v),
        Key::Down => after_change_filter_op(v),
        Key::Char('+') => after_add_filter(v),
        Key::Backspace => after_filter_backspace(v),
        Key::Char(c) => after_filter_char(v, c),
        _ => v,
    }
}

/// What a key does in highlight mode to the state: `Tab` moves to the next
/// highlight, `Enter` switches it, `+` adds a highlight, `Backspace` edits or
/// removes, other characters type, `Esc` leaves.
pub open spec fn highlight_mode_effect(v: AppView, key: Key) -> AppView {
    match unctrl(key) {
        Key::Esc => with_mode(v, Mode::Normal),
        Key::Tab => after_next_highlight(v),
        Key::Enter => after_toggle_highlight(v),
        Key::Char('+') => after_add_highlight(v),
        Key::Backspace => after_highlight_backspace(v),
        Key::Char(c) => after_highlight_char(v, c),
        _ => v,
    }
}

/// What a key does to the state in the current mode.
pub open spec fn key_effect(v: AppView, key: Key) -> AppView {
    match v.mode {
        Mode::Normal => normal_mode_effect(v, key),
        Mode::Search => search_mode_effect(v, key),
        Mode::BookMark => bookmark_mode_effect(v, key),
        Mode::Filter => filter_mode_effect(v, key),
        Mode::Highlight => highlight_mode_effect(v, key),
    }
}

/// The normal-mode key would not overflow a position: `Down` needs a
/// selection below the last possible line.
pub open spec fn normal_key_in_range(v: AppView, key: Key) -> bool {
    key == Key::Down ==> v.list_state.selected != Some(usize::MAX)
}

/// The bookmark-mode key would not overflow a position: `Up` and `Down` step
/// from a selection small enough.
pub open spec fn bookmark_key_in_range(v: AppView, key: Key) -> bool {
    &&& key == Key::Up ==> (v.bookmark_state.selected matches Some(i) ==> i + v.bookmarks.len()
        <= usize::MAX)
    &&& key == Key::Down ==> (v.bookmark_state.selected matches Some(i) ==> i < usize::MAX)
}

/// The filter-mode key would not overflow a position: `Tab` steps from a
/// selection below `usize::MAX`.
pub open spec fn filter_key_in_range(v: AppView, key: Key) -> bool {
    key == Key::Tab ==> (v.filters.len() > 0 ==> v.filter_index < usize::MAX)
}

/// The highlight-mode key would not overflow a position: `Tab` steps from a
/// selection below `usize::MAX`.
pub open spec fn highlight_key_in_range(v: AppView, key: Key) -> bool {
    key == Key::Tab ==> (v.highlights.len() > 0 ==> v.highlight_index < usize::MAX)
}

/// The key, in the current mode, would not overflow a position.
pub open spec fn key_in_range(v: AppView, key: Key) -> bool {
    match v.mode {
        Mode::Normal => normal_key_in_range(v, key),
        Mode::Search => true,
        Mode::BookMark => bookmark_key_in_range(v, key),
        Mode::Filter => filter_key_in_range(v, key),
        Mode::Highlight => highlight_key_in_range(v, key),
    }
}

/// Whether handling the key would overflow a position (see `key_in_range`).
pub fn key_out_of_range(app: &App, key: Key) -> (r: bool)
    ensures
        r == !key_in_range(app@, key),
{
    match app.mode() {
        Mode::Normal => {
            key == Key::Down && match app.list_state().selected() {
                Some(i) => i == usize::MAX,
                None => false,
            }
        },
        Mode::BookMark => {
            let n = app.bookmark().indices().len();
            match app.bookmark().state_selected() {
                Some(i) => (key == Key::Up && i > usize::MAX - n) || (key == Key::Down && i
                    == usize::MAX),
                None => false,
            }
        },
        Mode::Filter => key == Key::Tab && app.filters().len() != 0 && app.filter_index()
            == usize::MAX,
        Mode::Highlight => key == Key::Tab && app.highlights().len() != 0 && app.highlight_index()
            == usize::MAX,
        Mode::Search => false,
    }
}

/// Handles a key as normal mode does: `q` quits, `/` opens the search bar,
/// `B` the bookmark list, `f` the filter bar, `h` the highlight bar, arrows and
/// page keys move, `Enter` goes to the next match, `b` bookmarks, `Esc` clears
/// the search.
pub fn handle_normal_mode_input(app: &mut App, key: Key) -> (r: InputAction)
    requires
        normal_key_in_range(old(app)@, key),
    ensures
        final(app)@ == normal_mode_effect(old(app)@, key),
        (r is Quit) == (unctrl(key) == Key::Char('q')),
        r is Quit || r is Continue,
{
    match strip_ctrl(key) {
        Key::Char('q') => {
            return InputAction::Quit;
        },
        Key::Char('/') => {
            app.enter_search_mode();
        },
        Key::Char('B') => {
            app.enter_bookmark_mode();
        },
        Key::Char('f') => {
            app.enter_filter_mode();
        },
        Key::Char('h') => {
            app.enter_highlight_mode();
        },
        Key::Down => {
            app.select_next();
        },
        Key::Up => {
            app.select_previous();
        },
        Key::Right => {
            app.scroll_right();
        },
        Key::Left => {
            app.scroll_left();
        },
        Key::PageDown => {
            app.scroll_down();
        },
        Key::PageUp => {
            app.scroll_up();
        },
        Key::Enter => {
            app.next_search_match();
        },
        Key::Char('b') => {
            app.add_bookmark();
        },
        Key::Esc => {
            app.clear_search();
        },
        _ => {},
    }
    InputAction::Continue
}

/// Handles a key as search mode does: `Esc` closes the bar, `Enter` searches
/// and closes it, `Ctrl-R` switches regular expressions and searches again,
/// `Backspace` and characters edit the query.
pub fn handle_search_mode_input(app: &mut App, key: Key) -> (r: InputAction)
    ensures
        final(app)@ == search_mode_effect(old(app)@, key),
        (key == Key::Enter || key == Key::Ctrl('r')) ==> r is Search && action_needle(r)
            == run_search_needle(old(app)@),
        !(key == Key::Enter || key == Key::Ctrl('r')) ==> r is Continue,
        action_needle(r) matches Some(n) ==> n.len() > 0,
{
    if key == Key::Ctrl('r') {
        let needle = app.toggle_regex_search();
        return InputAction::Search(needle);
    }
    match strip_ctrl(key) {
        Key::Esc => {
            app.exit_search_mode();
        },
        Key::Enter => {
            let needle = app.run_search();
            app.exit_search_mode();
            return InputAction::Search(needle);
        },
        Key::Backspace => {
            app.handle_search_backspace();
        },
        Key::Char(c) => {
            app.handle_search_char(c);
        },
        _ => {},
    }
    InputAction::Continue
}

/// Handles a key as bookmark mode does: `Esc` closes the list, `Enter` jumps
/// to the selected bookmark and closes it, `Backspace` removes it, `Up` and
/// `Down` move.
pub fn handle_bookmark_mode_input(app: &mut App, key: Key) -> (r: InputAction)
    requires
        bookmark_key_in_range(old(app)@, key),
    ensures
        final(app)@ == bookmark_mode_effect(old(app)@, key),
        r is Continue,
{
    match strip_ctrl(key) {
        Key::Esc => {
            app.exit_bookmark_mode();
        },
        Key::Enter => {
            app.jump_to_bookmark();
            app.exit_bookmark_mode();
        },
        Key::Backspace => {
            app.remove_bookmark();
        },
        Key::Up => {
            app.select_next_bookmark();
        },
        Key::Down => {
            app.select_previous_bookmark();
        },
        _ => {},
    }
    InputAction::Continue
}

/// Handles a key as filter mode does; see `filter_mode_effect`.
pub fn handle_filter_mode_input(app: &mut App, key: Key) -> (r: InputAction)
    requires
        filter_key_in_range(old(app)@, key),
    ensures
        final(app)@ == filter_mode_effect(old(app)@, key),
        r is Continue,
{
    match strip_ctrl(key) {
        Key::Esc => {
            app.exit_filter_mode();
        },
        Key::Tab => {
            app.next_filter();
        },
        Key::Enter => {
            app.toggle_filter();
        },
        Key::Up | Key::Down => {
            app.change_filter_op();
        },
        Key::Char('+') => {
            app.add_filter();
        },
        Key::Backspace => {
            app.handle_filter_backspace();
        },
        Key::Char(c) => {
            app.handle_filter_char(c);
        },
        _ => {},
    }
    InputAction::Continue
}

/// Handles a key as highlight mode does; see `highlight_mode_effect`.
pub fn handle_highlight_mode_input(app: &mut App, key: Key) -> (r: InputAction)
    requires
        highlight_key_in_range(old(app)@, key),
    ensures
        final(app)@ == highlight_mode_effect(old(app)@, key),
        r is Continue,
{
    match strip_ctrl(key) {
        Key::Esc => {
            app.exit_highlight_mode();
        },
        Key::Tab => {
            app.next_highlight();
        },
        Key::Enter => {
            app.toggle_highlight();
        },
        Key::Char('+') => {
            app.add_highlight();
        },
        Key::Backspace => {
            app.handle_highlight_backspace();
        },
        Key::Char(c) => {
            app.handle_highlight_char(c);
        },
        _ => {},
    }
    InputAction::Continue
}

/// Handles a key in the current mode; see `key_effect`. A character typed
/// with Control held counts as the character, but for `Ctrl-R` in search
/// mode. Only `q` in normal mode quits, and only `Enter` and `Ctrl-R` in
/// search mode start a search.
pub fn handle_key(app: &mut App, key: Key) -> (r: InputAction)
    requires
        key_in_range(old(app)@, key),
    ensures
        final(app)@ == key_effect(old(app)@, key),
        (r is Quit) == (old(app)@.mode == Mode::Normal && unctrl(key) == Key::Char('q')),
        (r is Search) == (old(app)@.mode == Mode::Search && (key == Key::Enter || key
            == Key::Ctrl('r'))),
        r is Search ==> action_needle(r) == run_search_needle(old(app)@),
        action_needle(r) matches Some(n) ==> n.len() > 0,
{
    match app.mode() {
        Mode::Normal => handle_normal_mode_input(app, key),
        Mode::Search => handle_search_mode_input(app, key),
        Mode::BookMark => handle_bookmark_mode_input(app, key),
        Mode::Filter => handle_filter_mode_input(app, key),
        Mode::Highlight => handle_highlight_mode_input(app, key),
    }
}

} // verus!
