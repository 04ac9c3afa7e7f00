use std::sync::Arc;

use vstd::prelude::*;

use crate::bookmark::{bookmarks_with, bookmarks_without, cyclic_next, cyclic_prev, BookMark};
use crate::filter::{FilterOp, FilterState, FilterView, flipped};
use crate::highlight::{HighlightState, HighlightView};
use crate::list_state::{scrolled_down, scrolled_up, ListState};
use crate::log_line::{parse_spec, LogLine};
use crate::log_store::{listing, lists_exactly, lemma_listing, LogStore};
use crate::mode::Mode;
use crate::search::{search_needle, SearchState, SearchView};
use crate::text::{
    index_of, lemma_index_of_is, chars_of, contains_chars, contains_seq, is_blank, is_blank_chars, lowercase, to_lowercase,
};

verus! {

/// How far one step of horizontal or page scrolling moves.
pub const SCROLL_AMOUNT: usize = 10;

/// Everything the viewer holds, as mathematical values.
pub struct AppView {
    pub logs: LogStore,
    pub mode: Mode,
    pub search: SearchView,
    pub bookmarks: Seq<usize>,
    pub bookmark_state: ListState,
    pub filters: Seq<FilterView>,
    pub filter_index: usize,
    pub highlights: Seq<HighlightView>,
    pub highlight_index: usize,
    pub list_state: ListState,
    pub horizontal_scroll: usize,
}

/// The viewer: the log, the mode, the search bar, the bookmarks, the filters and
/// highlights with the selected one of each, and the position in the log list.
#[derive(Debug)]
pub struct App {
    logs: Arc<LogStore>,
    mode: Mode,
    search: SearchState,
    bookmark: BookMark,
    filters: Vec<FilterState>,
    filter_index: usize,
    highlights: Vec<HighlightState>,
    highlight_index: usize,
    list_state: ListState,
    horizontal_scroll: usize,
}

impl View for App {
    type V = AppView;

    closed spec fn view(&self) -> AppView {
        AppView {
            logs: *self.logs,
            mode: self.mode,
            search: self.search@,
            bookmarks: self.bookmark.spec_indices(),
            bookmark_state: self.bookmark.spec_state(),
            filters: self.filters@.map_values(|f: FilterState| f@),
            filter_index: self.filter_index,
            highlights: self.highlights@.map_values(|h: HighlightState| h@),
            highlight_index: self.highlight_index,
            list_state: self.list_state,
            horizontal_scroll: self.horizontal_scroll,
        }
    }
}

// ---------------------------------------------------------------------------
// Which lines are shown
// ---------------------------------------------------------------------------

/// The filters that apply, in order.
pub open spec fn active_filters(fs: Seq<FilterView>) -> Seq<FilterView>
    decreases fs.len(),
{
    if fs.len() == 0 {
        Seq::empty()
    } else if fs.last().is_active {
        active_filters(fs.drop_last()).push(fs.last())
    } else {
        active_filters(fs.drop_last())
    }
}

/// The lower-cased query and the operator of each filter.
pub open spec fn lowered_filters(fs: Seq<FilterView>) -> Seq<(Seq<char>, FilterOp)> {
    fs.map_values(|f: FilterView| (lowercase(f.query), f.op))
}

/// The verdict of terms `0..=k` on a line: whether the line holds the first
/// term, then each next one joined by the operator of the term before it.
pub open spec fn filters_verdict(line: Seq<char>, terms: Seq<(Seq<char>, FilterOp)>, k: int) -> bool
    decreases k,
{
    if k <= 0 {
        contains_seq(line, terms[0].0)
    } else {
        match terms[k - 1].1 {
            FilterOp::And => filters_verdict(line, terms, k - 1) && contains_seq(line, terms[k].0),
            FilterOp::Or => filters_verdict(line, terms, k - 1) || contains_seq(line, terms[k].0),
        }
    }
}

/// The terms as sequences of characters, with their operators.
pub open spec fn term_views(terms: Seq<(Vec<char>, FilterOp)>) -> Seq<(Seq<char>, FilterOp)> {
    terms.map_values(|t: (Vec<char>, FilterOp)| (t.0@, t.1))
}

/// Whether line `i` is shown: it exists, is valid UTF-8, is not blank and
/// parses; and it is bookmarked, or no filter applies, or the applying filters
/// let it through. Bookmarked lines stay visible whatever the filters say.
pub open spec fn line_visible(v: AppView, i: usize) -> bool {
    match v.logs.line_text(i as int) {
        None => false,
        Some(raw) => {
            &&& !is_blank(raw)
            &&& parse_spec(raw) is Some
            &&& (v.bookmarks.contains(i) || active_filters(v.filters).len() == 0
                || filters_verdict(
                lowercase(raw),
                lowered_filters(active_filters(v.filters)),
                active_filters(v.filters).len() - 1,
            ))
        }
    }
}

/// The shown lines, in increasing order.
pub open spec fn visible_lines(v: AppView) -> Seq<usize> {
    listing(v.logs.spec_lines().len() as int, |i: usize| line_visible(v, i))
}

/// The position of the first step count in `j..=matches.len()` after which
/// the current match is a shown line.
pub open spec fn first_shown_step(ms: Seq<usize>, c: usize, vis: Seq<usize>, j: int) -> Option<int>
    decreases ms.len() + 1 - j,
{
    if j < 1 || j > ms.len() {
        None
    } else if vis.contains(ms[cursor_after(c, ms.len() as usize, j as nat) as int]) {
        Some(j)
    } else {
        first_shown_step(ms, c, vis, j + 1)
    }
}

/// The current match after `j` steps of `next_match` from `c`, among `n` matches.
pub open spec fn cursor_after(c: usize, n: usize, j: nat) -> usize
    decreases j,
{
    if j == 0 {
        c
    } else {
        ((cursor_after(c, n, (j - 1) as nat) + 1) % (n as int)) as usize
    }
}

/// What `next_search_match` makes of a state: the current match steps forward,
/// wrapping around, until it is a shown line, which is then selected in the
/// list; after a full round without one, only the current match has moved.
/// Without matches or without shown lines nothing changes.
pub open spec fn after_next_search_match(v: AppView) -> AppView {
    let ms = v.search.matches;
    let n = ms.len() as usize;
    let c = v.search.current_match;
    let vis = visible_lines(v);
    if ms.len() == 0 || vis.len() == 0 {
        v
    } else {
        match first_shown_step(ms, c, vis, 1) {
            Some(j) => AppView {
                search: SearchView { current_match: cursor_after(c, n, j as nat), ..v.search },
                list_state: ListState {
                    selected: Some(index_of(vis, ms[cursor_after(c, n, j as nat) as int]) as usize),
                    ..v.list_state
                },
                ..v
            },
            None => AppView {
                search: SearchView { current_match: cursor_after(c, n, n as nat), ..v.search },
                ..v
            },
        }
    }
}

/// What `receive_search_result` makes of a state: the matches are taken with
/// the first one current; if that line is shown it is selected in the list,
/// otherwise the search moves on as `next_search_match` does.
pub open spec fn after_search_result(v: AppView, ms: Seq<usize>) -> AppView {
    let w = AppView { search: SearchView { matches: ms, current_match: 0, ..v.search }, ..v };
    if ms.len() == 0 {
        w
    } else if visible_lines(v).contains(ms[0]) {
        AppView {
            list_state: ListState {
                selected: Some(index_of(visible_lines(v), ms[0]) as usize),
                ..v.list_state
            },
            ..w
        }
    } else {
        after_next_search_match(w)
    }
}

/// The shown lines depend on the log, the bookmarks and the filters alone.
pub proof fn lemma_visible_lines_depend(v: AppView, w: AppView)
    requires
        v.logs == w.logs,
        v.bookmarks == w.bookmarks,
        v.filters == w.filters,
    ensures
        visible_lines(v) == visible_lines(w),
{
    let p = |i: usize| line_visible(v, i);
    let q = |i: usize| line_visible(w, i);
    assert(p =~= q);
}

/// The position of the first `x` in a slice.
fn position(s: &[usize], x: usize) -> (r: Option<usize>)
    ensures
        r matches Some(p) ==> p == index_of(s@, x) && p < s@.len(),
        r is None <==> index_of(s@, x) >= s@.len(),
        r is None <==> !s@.contains(x),
{
    let n = s.len();
    let mut i: usize = 0;
    while i < n
        invariant
            n == s@.len(),
            i <= n,
            forall|k: int| 0 <= k < i ==> s@[k] != x,
        decreases n - i,
    {
        if s[i] == x {
            proof {
                lemma_index_of_is(s@, x, i as int);
            }
            return Some(i);
        }
        i = i + 1;
    }
    proof {
        lemma_index_of_is(s@, x, n as int);
    }
    None
}

/// Whether a slice holds a value.
pub(crate) fn slice_contains(s: &[usize], x: usize) -> (r: bool)
    ensures
        r == s@.contains(x),
{
    let n = s.len();
    let mut i: usize = 0;
    while i < n
        invariant
            n == s@.len(),
            i <= n,
            forall|k: int| 0 <= k < i ==> s@[k] != x,
        decreases n - i,
    {
        if s[i] == x {
            return true;
        }
        i = i + 1;
    }
    false
}

/// Whether a (lower-cased) line passes the (lower-cased) filter terms: it
/// holds the first term, then each next one joined by the operator of the term
/// before it; with no terms every line passes.
pub fn passes_filters(lower: &[char], terms: &[(Vec<char>, FilterOp)]) -> (r: bool)
    ensures
        r == (terms@.len() == 0 || filters_verdict(lower@, term_views(terms@), terms@.len() - 1)),
{
    let n = terms.len();
    if n == 0 {
        return true;
    }
    let ghost tv = term_views(terms@);
    let mut m = contains_chars(lower, terms[0].0.as_slice());
    let mut i: usize = 0;
    while i + 1 < n
        invariant
            n == terms@.len() == tv.len() > 0,
            tv == term_views(terms@),
            i + 1 <= n,
            m == filters_verdict(lower@, tv, i as int),
        decreases n - i,
    {
        let next = contains_chars(lower, terms[i + 1].0.as_slice());
        assert(tv[i + 1].0 == terms@[i + 1].0@);
        assert(tv[i as int].1 == terms@[i as int].1);
        m = match terms[i].1 {
            FilterOp::And => m && next,
            FilterOp::Or => m || next,
        };
        i = i + 1;
    }
    m
}

/// The filter and highlight positions point at an entry, or are 0.
pub open spec fn positions_valid(v: AppView) -> bool {
    &&& (v.filter_index == 0 || v.filter_index < v.filters.len())
    &&& (v.highlight_index == 0 || v.highlight_index < v.highlights.len())
}

/// An empty filter that is off, not being edited, with `And`.
pub open spec fn empty_filter() -> FilterView {
    FilterView { query: Seq::empty(), is_editing: false, is_active: false, op: FilterOp::And }
}

/// An empty highlight that is off and not being edited.
pub open spec fn empty_highlight() -> HighlightView {
    HighlightView { query: Seq::empty(), is_editing: false, is_active: false }
}

/// `enter_filter_mode`: filter mode, with an empty filter where there is none.
pub open spec fn after_enter_filter_mode(v: AppView) -> AppView {
    if v.filters.len() == 0 {
        AppView { mode: Mode::Filter, filters: seq![empty_filter()], ..v }
    } else {
        AppView { mode: Mode::Filter, ..v }
    }
}

/// `enter_highlight_mode`: highlight mode, with an empty highlight where there is none.
pub open spec fn after_enter_highlight_mode(v: AppView) -> AppView {
    if v.highlights.len() == 0 {
        AppView { mode: Mode::Highlight, highlights: seq![empty_highlight()], ..v }
    } else {
        AppView { mode: Mode::Highlight, ..v }
    }
}

/// `next_filter`: the next filter, from the last back to the first, is
/// selected and stops being edited; without filters nothing changes.
pub open spec fn after_next_filter(v: AppView) -> AppView {
    if v.filters.len() == 0 {
        v
    } else {
        let i = ((v.filter_index + 1) % (v.filters.len() as int)) as usize;
        AppView {
            filter_index: i,
            filters: v.filters.update(i as int, FilterView { is_editing: false, ..v.filters[i as int] }),
            ..v
        }
    }
}

/// `next_highlight`: the next highlight, from the last back to the first, is
/// selected and stops being edited; without highlights nothing changes.
pub open spec fn after_next_highlight(v: AppView) -> AppView {
    if v.highlights.len() == 0 {
        v
    } else {
        let i = ((v.highlight_index + 1) % (v.highlights.len() as int)) as usize;
        AppView {
            highlight_index: i,
            highlights: v.highlights.update(
                i as int,
                HighlightView { is_editing: false, ..v.highlights[i as int] },
            ),
            ..v
        }
    }
}

/// `change_filter_op`: the selected filter's operator flips.
pub open spec fn after_change_filter_op(v: AppView) -> AppView {
    if v.filter_index < v.filters.len() {
        let f = v.filters[v.filter_index as int];
        AppView {
            filters: v.filters.update(v.filter_index as int, FilterView { op: flipped(f.op), ..f }),
            ..v
        }
    } else {
        v
    }
}

/// `add_filter`: an empty filter is added at the end and selected.
pub open spec fn after_add_filter(v: AppView) -> AppView {
    AppView {
        filters: v.filters.push(empty_filter()),
        filter_index: v.filters.len() as usize,
        ..v
    }
}

/// `add_highlight`: an empty highlight is added at the end and selected.
pub open spec fn after_add_highlight(v: AppView) -> AppView {
    AppView {
        highlights: v.highlights.push(empty_highlight()),
        highlight_index: v.highlights.len() as usize,
        ..v
    }
}

/// `handle_filter_char`: the character joins the selected filter's query,
/// which is then being edited.
pub open spec fn after_filter_char(v: AppView, c: char) -> AppView {
    if v.filter_index < v.filters.len() {
        let f = v.filters[v.filter_index as int];
        AppView {
            filters: v.filters.update(
                v.filter_index as int,
                FilterView { is_editing: true, query: f.query.push(c), ..f },
            ),
            ..v
        }
    } else {
        v
    }
}

/// `handle_highlight_char`: the character joins the selected highlight's
/// query, which is then being edited.
pub open spec fn after_highlight_char(v: AppView, c: char) -> AppView {
    if v.highlight_index < v.highlights.len() {
        let h = v.highlights[v.highlight_index as int];
        AppView {
            highlights: v.highlights.update(
                v.highlight_index as int,
                HighlightView { is_editing: true, query: h.query.push(c), ..h },
            ),
            ..v
        }
    } else {
        v
    }
}

/// The query without its last character, if it has one.
pub open spec fn popped(q: Seq<char>) -> Seq<char> {
    if q.len() == 0 {
        q
    } else {
        q.drop_last()
    }
}

/// The selection after removing entry `i` of `n`: it moves back from the end.
pub open spec fn index_after_removal(i: usize, n: nat) -> usize {
    if i + 1 >= n && n > 1 {
        (n - 2) as usize
    } else {
        i
    }
}

/// `handle_filter_backspace`: a selected filter that is not being edited is
/// removed; one that is loses the last character of its query.
pub open spec fn after_filter_backspace(v: AppView) -> AppView {
    if v.filter_index >= v.filters.len() {
        v
    } else {
        let f = v.filters[v.filter_index as int];
        if !f.is_editing {
            AppView {
                filters: v.filters.remove(v.filter_index as int),
                filter_index: index_after_removal(v.filter_index, v.filters.len()),
                ..v
            }
        } else {
            AppView {
                filters: v.filters.update(v.filter_index as int, FilterView { query: popped(f.query), ..f }),
                ..v
            }
        }
    }
}

/// `handle_highlight_backspace`: a selected highlight that is not being
/// edited is removed; one that is loses the last character of its query.
pub open spec fn after_highlight_backspace(v: AppView) -> AppView {
    if v.highlight_index >= v.highlights.len() {
        v
    } else {
        let h = v.highlights[v.highlight_index as int];
        if !h.is_editing {
            AppView {
                highlights: v.highlights.remove(v.highlight_index as int),
                highlight_index: index_after_removal(v.highlight_index, v.highlights.len()),
                ..v
            }
        } else {
            AppView {
                highlights: v.highlights.update(
                    v.highlight_index as int,
                    HighlightView { query: popped(h.query), ..h },
                ),
                ..v
            }
        }
    }
}

/// `toggle_filter`: the selected filter is switched on or off and stops being
/// edited; without a selected filter nothing changes.
pub open spec fn after_toggle_filter(v: AppView) -> AppView {
    if v.filter_index < v.filters.len() {
        let f = v.filters[v.filter_index as int];
        AppView {
            filters: v.filters.update(
                v.filter_index as int,
                FilterView { is_active: !f.is_active, is_editing: false, ..f },
            ),
            ..v
        }
    } else {
        v
    }
}

/// `toggle_highlight`: the selected highlight is switched on or off and stops
/// being edited; without a selected highlight nothing changes.
pub open spec fn after_toggle_highlight(v: AppView) -> AppView {
    if v.highlight_index < v.highlights.len() {
        let h = v.highlights[v.highlight_index as int];
        AppView {
            highlights: v.highlights.update(
                v.highlight_index as int,
                HighlightView { is_active: !h.is_active, is_editing: false, ..h },
            ),
            ..v
        }
    } else {
        v
    }
}

/// The state in another mode.
pub open spec fn with_mode(v: AppView, m: Mode) -> AppView {
    AppView { mode: m, ..v }
}

/// The state with another search bar.
pub open spec fn with_search(v: AppView, s: SearchView) -> AppView {
    AppView { search: s, ..v }
}

/// The state with position `p` selected in the log list.
pub open spec fn with_selection(v: AppView, p: usize) -> AppView {
    AppView { list_state: ListState { selected: Some(p), ..v.list_state }, ..v }
}

/// The selected position of a list, or the first where none is selected.
pub open spec fn selected_or_first(l: ListState) -> usize {
    match l.selected {
        Some(i) => i,
        None => 0,
    }
}

/// `select_next`: one line down, but not past the last shown line.
pub open spec fn after_select_next(v: AppView) -> AppView {
    let cur = selected_or_first(v.list_state);
    let shown = visible_lines(v).len();
    let last = if shown == 0 {
        0
    } else {
        shown - 1
    };
    with_selection(
        v,
        if cur + 1 <= last {
            (cur + 1) as usize
        } else {
            last as usize
        },
    )
}

/// `select_previous`: one line up, but not before the first.
pub open spec fn after_select_previous(v: AppView) -> AppView {
    let cur = selected_or_first(v.list_state);
    with_selection(
        v,
        if cur == 0 {
            0
        } else {
            (cur - 1) as usize
        },
    )
}

/// `scroll_right`: ten columns further right, saturating.
pub open spec fn after_scroll_right(v: AppView) -> AppView {
    AppView {
        horizontal_scroll: if v.horizontal_scroll + SCROLL_AMOUNT > usize::MAX {
            usize::MAX
        } else {
            (v.horizontal_scroll + SCROLL_AMOUNT) as usize
        },
        ..v
    }
}

/// `scroll_left`: ten columns back, stopping at the first.
pub open spec fn after_scroll_left(v: AppView) -> AppView {
    AppView {
        horizontal_scroll: if v.horizontal_scroll < SCROLL_AMOUNT {
            0
        } else {
            (v.horizontal_scroll - SCROLL_AMOUNT) as usize
        },
        ..v
    }
}

/// `scroll_up`: the selection ten lines up (see `ListState::scroll_up_by`).
pub open spec fn after_scroll_up(v: AppView) -> AppView {
    with_selection(v, scrolled_up(v.list_state.selected, SCROLL_AMOUNT as u16))
}

/// `scroll_down`: the selection ten lines down (see `ListState::scroll_down_by`).
pub open spec fn after_scroll_down(v: AppView) -> AppView {
    with_selection(v, scrolled_down(v.list_state.selected, SCROLL_AMOUNT as u16))
}

/// `add_bookmark`: bookmarks the selected position of the log list.
pub open spec fn after_add_bookmark(v: AppView) -> AppView {
    match v.list_state.selected {
        Some(i) => AppView { bookmarks: bookmarks_with(v.bookmarks, i), ..v },
        None => v,
    }
}

/// The bookmark selected in the bookmark list, if the selection points at one.
pub open spec fn selected_bookmark(v: AppView) -> Option<usize> {
    match v.bookmark_state.selected {
        Some(k) => if k < v.bookmarks.len() {
            Some(v.bookmarks[k as int])
        } else {
            None
        },
        None => None,
    }
}

/// `remove_bookmark`: drops the bookmark selected in the bookmark list.
pub open spec fn after_remove_bookmark(v: AppView) -> AppView {
    match selected_bookmark(v) {
        Some(b) => AppView { bookmarks: bookmarks_without(v.bookmarks, b), ..v },
        None => v,
    }
}

/// `jump_to_bookmark`: selects the bookmarked position in the log list.
pub open spec fn after_jump_to_bookmark(v: AppView) -> AppView {
    match selected_bookmark(v) {
        Some(b) => with_selection(v, b),
        None => v,
    }
}

/// `select_next_bookmark`: one entry up the bookmark list, wrapping around.
pub open spec fn after_select_next_bookmark(v: AppView) -> AppView {
    if v.bookmarks.len() == 0 {
        v
    } else {
        AppView {
            bookmark_state: ListState {
                selected: Some(
                    match v.bookmark_state.selected {
                        Some(i) => cyclic_prev(i, v.bookmarks.len() as usize),
                        None => 0,
                    },
                ),
                ..v.bookmark_state
            },
            ..v
        }
    }
}

/// `select_previous_bookmark`: one entry down the bookmark list, wrapping around.
pub open spec fn after_select_previous_bookmark(v: AppView) -> AppView {
    if v.bookmarks.len() == 0 {
        v
    } else {
        AppView {
            bookmark_state: ListState {
                selected: Some(
                    match v.bookmark_state.selected {
                        Some(i) => cyclic_next(i, v.bookmarks.len() as usize),
                        None => 0,
                    },
                ),
                ..v.bookmark_state
            },
            ..v
        }
    }
}

/// `handle_search_char`: the character joins the query.
pub open spec fn after_search_char(v: AppView, c: char) -> AppView {
    with_search(v, SearchView { query: v.search.query.push(c), ..v.search })
}

/// `handle_search_backspace`: the last character of the query goes.
pub open spec fn after_search_backspace(v: AppView) -> AppView {
    if v.search.query.len() == 0 {
        v
    } else {
        with_search(v, SearchView { query: v.search.query.drop_last(), ..v.search })
    }
}

/// `clear_search`: no query and no matches.
pub open spec fn after_clear_search(v: AppView) -> AppView {
    with_search(
        v,
        SearchView {
            query: Seq::<char>::empty(),
            matches: Seq::<usize>::empty(),
            current_match: 0,
            ..v.search
        },
    )
}

/// `run_search`: a query that lower-cases to nothing clears the matches;
/// otherwise the state stays.
pub open spec fn after_run_search(v: AppView) -> AppView {
    if lowercase(v.search.query).len() == 0 {
        with_search(
            v,
            SearchView { matches: Seq::<usize>::empty(), current_match: 0, ..v.search },
        )
    } else {
        v
    }
}

/// What `run_search` asks the caller to look for: nothing for a query that
/// lower-cases to nothing, the needle otherwise.
pub open spec fn run_search_needle(v: AppView) -> Option<Seq<u8>> {
    if lowercase(v.search.query).len() == 0 {
        None
    } else {
        Some(search_needle(v.search.query))
    }
}

/// The needle a search returned, as a sequence.
pub open spec fn needle_view(r: Option<Vec<u8>>) -> Option<Seq<u8>> {
    match r {
        Some(b) => Some(b@),
        None => None,
    }
}

/// Shares the log store (`Arc::clone`).
#[verifier::external_body]
fn share_logs(logs: &Arc<LogStore>) -> (r: Arc<LogStore>)
    ensures
        *r == **logs,
{
    Arc::clone(logs)
}

impl App {
    /// A viewer on the log in normal mode, with the first line selected and
    /// nothing searched, bookmarked, filtered or highlighted.
    pub fn new(logs: Arc<LogStore>) -> (r: Self)
        ensures
            r@.logs == *logs,
            r@.mode == Mode::Normal,
            r@.search.query == Seq::<char>::empty(),
            r@.search.matches == Seq::<usize>::empty(),
            r@.search.current_match == 0,
            !r@.search.is_regex_search,
            r@.bookmarks == Seq::<usize>::empty(),
            r@.bookmark_state.selected == Some(0usize),
            r@.bookmark_state.offset == 0,
            r@.filters == Seq::<FilterView>::empty(),
            r@.filter_index == 0,
            r@.highlights == Seq::<HighlightView>::empty(),
            r@.highlight_index == 0,
            r@.list_state.selected == Some(0usize),
            r@.list_state.offset == 0,
            r@.horizontal_scroll == 0,
            positions_valid(r@),
    {
        let mut list_state = ListState::default();
        list_state.select(Some(0));
        let r = App {
            logs,
            mode: Mode::Normal,
            search: SearchState::new(),
            bookmark: BookMark::new(),
            filters: Vec::new(),
            filter_index: 0,
            highlights: Vec::new(),
            highlight_index: 0,
            list_state,
            horizontal_scroll: 0,
        };
        assert(r@.filters =~= Seq::<FilterView>::empty());
        assert(r@.highlights =~= Seq::<HighlightView>::empty());
        r
    }

    /// The log store, shared.
    pub fn logs(&self) -> (r: Arc<LogStore>)
        ensures
            *r == self@.logs,
    {
        share_logs(&self.logs)
    }

    pub fn mode(&self) -> (r: Mode)
        ensures
            r == self@.mode,
    {
        self.mode
    }

    pub fn search(&self) -> (r: &SearchState)
        ensures
            r@ == self@.search,
    {
        &self.search
    }

    /// The search bar, for the caller to change.
    pub fn search_mut(&mut self) -> (r: &mut SearchState)
        ensures
            r@ == old(self)@.search,
            final(self)@ == (AppView { search: final(r)@, ..old(self)@ }),
    {
        &mut self.search
    }

    pub fn bookmark(&self) -> (r: &BookMark)
        ensures
            r.spec_indices() == self@.bookmarks,
            r.spec_state() == self@.bookmark_state,
    {
        &self.bookmark
    }

    /// The bookmarks, for the caller to change.
    pub fn bookmark_mut(&mut self) -> (r: &mut BookMark)
        ensures
            r.spec_indices() == old(self)@.bookmarks,
            r.spec_state() == old(self)@.bookmark_state,
            final(self)@ == (AppView {
                bookmarks: final(r).spec_indices(),
                bookmark_state: final(r).spec_state(),
                ..old(self)@
            }),
    {
        &mut self.bookmark
    }

    pub fn filters(&self) -> (r: &[FilterState])
        ensures
            r@.map_values(|f: FilterState| f@) == self@.filters,
    {
        self.filters.as_slice()
    }

    pub fn filter_index(&self) -> (r: usize)
        ensures
            r == self@.filter_index,
    {
        self.filter_index
    }

    pub fn highlights(&self) -> (r: &[HighlightState])
        ensures
            r@.map_values(|h: HighlightState| h@) == self@.highlights,
    {
        self.highlights.as_slice()
    }

    pub fn highlight_index(&self) -> (r: usize)
        ensures
            r == self@.highlight_index,
    {
        self.highlight_index
    }

    /// The selection and offset of the log list.
    pub fn list_state(&self) -> (r: ListState)
        ensures
            r == self@.list_state,
    {
        self.list_state
    }

    /// The state of the log list, for the caller to change.
    pub fn list_state_mut(&mut self) -> (r: &mut ListState)
        ensures
            *r == old(self)@.list_state,
            final(self)@ == (AppView { list_state: *final(r), ..old(self)@ }),
    {
        &mut self.list_state
    }

    pub fn horizontal_scroll(&self) -> (r: usize)
        ensures
            r == self@.horizontal_scroll,
    {
        self.horizontal_scroll
    }

    pub fn enter_search_mode(&mut self)
        ensures
            final(self)@ == with_mode(old(self)@, Mode::Search),
    {
        self.mode = Mode::Search;
    }

    pub fn exit_search_mode(&mut self)
        ensures
            final(self)@ == with_mode(old(self)@, Mode::Normal),
    {
        self.mode = Mode::Normal;
    }

    pub fn enter_bookmark_mode(&mut self)
        ensures
            final(self)@ == with_mode(old(self)@, Mode::BookMark),
    {
        self.mode = Mode::BookMark;
    }

    pub fn exit_bookmark_mode(&mut self)
        ensures
            final(self)@ == with_mode(old(self)@, Mode::Normal),
    {
        self.mode = Mode::Normal;
    }

    pub fn exit_filter_mode(&mut self)
        ensures
            final(self)@ == with_mode(old(self)@, Mode::Normal),
    {
        self.mode = Mode::Normal;
    }

    pub fn exit_highlight_mode(&mut self)
        ensures
            final(self)@ == with_mode(old(self)@, Mode::Normal),
    {
        self.mode = Mode::Normal;
    }

    /// Enters filter mode, adding an empty filter where there is none.
    pub fn enter_filter_mode(&mut self)
        ensures
            positions_valid(old(self)@) ==> positions_valid(final(self)@),
            final(self)@ == after_enter_filter_mode(old(self)@),
    {
        if self.filters.len() == 0 {
            let ghost before = self.filters@;
            self.filters.push(FilterState::new());
            assert(self.filters@.map_values(|f: FilterState| f@) =~= seq![FilterView { query: Seq::empty(), is_editing: false, is_active: false, op: FilterOp::And }]);
        }
        self.mode = Mode::Filter;
    }

    /// Enters highlight mode, adding an empty highlight where there is none.
    pub fn enter_highlight_mode(&mut self)
        ensures
            positions_valid(old(self)@) ==> positions_valid(final(self)@),
            final(self)@ == after_enter_highlight_mode(old(self)@),
    {
        if self.highlights.len() == 0 {
            self.highlights.push(HighlightState::new());
            assert(self.highlights@.map_values(|h: HighlightState| h@) =~= seq![HighlightView { query: Seq::empty(), is_editing: false, is_active: false }]);
        }
        self.mode = Mode::Highlight;
    }

    /// Types a character into the search query.
    pub fn handle_search_char(&mut self, c: char)
        ensures
            final(self)@ == after_search_char(old(self)@, c),
    {
        self.search.push_char(c);
    }

    /// Deletes the last character of the search query.
    pub fn handle_search_backspace(&mut self)
        ensures
            final(self)@ == after_search_backspace(old(self)@),
    {
        self.search.pop_char();
    }

    /// Empties the search query and forgets the matches.
    pub fn clear_search(&mut self)
        ensures
            final(self)@ == after_clear_search(old(self)@),
    {
        self.search.clear();
    }

    /// Starts a search for the query; see `SearchState::run_search`. The caller
    /// looks for the returned needle in the lines and hands the result to
    /// `receive_search_result`; a new search supersedes one still running.
    pub fn run_search(&mut self) -> (r: Option<Vec<u8>>)
        ensures
            final(self)@ == after_run_search(old(self)@),
            needle_view(r) == run_search_needle(old(self)@),
            r matches Some(b) ==> b@.len() > 0,
    {
        self.search.run_search()
    }

    /// Switches regular-expression search on or off, and searches again.
    pub fn toggle_regex_search(&mut self) -> (r: Option<Vec<u8>>)
        ensures
            final(self)@ == after_run_search(
                with_search(
                    old(self)@,
                    SearchView { is_regex_search: !old(self)@.search.is_regex_search, ..old(self)@.search },
                ),
            ),
            needle_view(r) == run_search_needle(old(self)@),
            r matches Some(b) ==> b@.len() > 0,
    {
        let current_state = self.search().is_regex_search();
        self.search_mut().set_is_regex_search(!current_state);
        self.run_search()
    }

    /// Scrolls the log ten columns to the right.
    pub fn scroll_right(&mut self)
        ensures
            final(self)@ == after_scroll_right(old(self)@),
    {
        self.horizontal_scroll = self.horizontal_scroll.saturating_add(SCROLL_AMOUNT);
    }

    /// Scrolls the log ten columns to the left, stopping at the first column.
    pub fn scroll_left(&mut self)
        ensures
            final(self)@ == after_scroll_left(old(self)@),
    {
        self.horizontal_scroll = self.horizontal_scroll.saturating_sub(SCROLL_AMOUNT);
    }

    /// Moves the selection ten lines up.
    pub fn scroll_up(&mut self)
        ensures
            final(self)@ == after_scroll_up(old(self)@),
    {
        self.list_state.scroll_up_by(SCROLL_AMOUNT as u16);
    }

    /// Moves the selection ten lines down.
    pub fn scroll_down(&mut self)
        ensures
            final(self)@ == after_scroll_down(old(self)@),
    {
        self.list_state.scroll_down_by(SCROLL_AMOUNT as u16);
    }

    /// Moves to the next filter, from the last back to the first; it stops being edited.
    pub fn next_filter(&mut self)
        requires
            old(self)@.filters.len() > 0 ==> old(self)@.filter_index < usize::MAX,
        ensures
            positions_valid(old(self)@) ==> positions_valid(final(self)@),
            final(self)@ == after_next_filter(old(self)@),
    {
        if self.filters.len() != 0 {
            self.filter_index = (self.filter_index + 1) % self.filters.len();
            let i = self.filter_index;
            let ghost before = self.filters@;
            self.filters[i].set_is_editing(false);
            assert(self.filters@ == before.update(i as int, self.filters@[i as int]));
            assert(self.filters@.map_values(|f: FilterState| f@) =~= before.map_values(
                |f: FilterState| f@,
            ).update(i as int, FilterView { is_editing: false, ..before[i as int]@ }));
        }
    }

    /// Switches the selected filter on or off; it stops being edited.
    pub fn toggle_filter(&mut self)
        ensures
            final(self)@ == after_toggle_filter(old(self)@),
    {
        let i = self.filter_index;
        if i < self.filters.len() {
            let ghost before = self.filters@;
            let active = self.filters[i].is_active();
            self.filters[i].set_active(!active);
            self.filters[i].set_is_editing(false);
            assert(self.filters@ == before.update(i as int, self.filters@[i as int]));
            assert(self.filters@.map_values(|f: FilterState| f@) =~= before.map_values(
                |f: FilterState| f@,
            ).update(
                i as int,
                FilterView { is_active: !before[i as int]@.is_active, is_editing: false, ..before[i as int]@ },
            ));
        }
    }

    /// Switches the operator of the selected filter between `And` and `Or`.
    pub fn change_filter_op(&mut self)
        ensures
            final(self)@ == after_change_filter_op(old(self)@),
    {
        let i = self.filter_index;
        if i < self.filters.len() {
            let ghost before = self.filters@;
            self.filters[i].change_op();
            assert(self.filters@ == before.update(i as int, self.filters@[i as int]));
            assert(self.filters@.map_values(|f: FilterState| f@) =~= before.map_values(
                |f: FilterState| f@,
            ).update(i as int, FilterView { op: flipped(before[i as int]@.op), ..before[i as int]@ }));
        }
    }

    /// Adds an empty filter at the end and selects it.
    pub fn add_filter(&mut self)
        ensures
            final(self)@ == after_add_filter(old(self)@),
    {
        let ghost before = self.filters@;
        self.filters.push(FilterState::new());
        self.filter_index = self.filters.len() - 1;
        let i = self.filter_index;
        self.filters[i].set_is_editing(false);
        assert(self.filters@.map_values(|f: FilterState| f@) =~= before.map_values(
            |f: FilterState| f@,
        ).push(FilterView { query: Seq::empty(), is_editing: false, is_active: false, op: FilterOp::And }));
    }

    /// Types a character into the selected filter, which is then being edited.
    pub fn handle_filter_char(&mut self, c: char)
        ensures
            final(self)@ == after_filter_char(old(self)@, c),
    {
        let i = self.filter_index;
        if i < self.filters.len() {
            let ghost before = self.filters@;
            self.filters[i].set_is_editing(true);
            self.filters[i].push_char(c);
            assert(self.filters@ == before.update(i as int, self.filters@[i as int]));
            assert(self.filters@.map_values(|f: FilterState| f@) =~= before.map_values(
                |f: FilterState| f@,
            ).update(
                i as int,
                FilterView { is_editing: true, query: before[i as int]@.query.push(c), ..before[i as int]@ },
            ));
        }
    }

    /// Backspace in filter mode: a filter that is not being edited is removed
    /// (the selection stays in range); otherwise its last character goes.
    pub fn handle_filter_backspace(&mut self)
        ensures
            positions_valid(old(self)@) ==> positions_valid(final(self)@),
            final(self)@ == after_filter_backspace(old(self)@),
    {
        let i = self.filter_index;
        if i < self.filters.len() {
            let ghost before = self.filters@;
            if !self.filters[i].is_editing() {
                self.filters.remove(i);
                if self.filter_index >= self.filters.len() && self.filters.len() != 0 {
                    self.filter_index = self.filters.len() - 1;
                }
                assert(self.filters@.map_values(|f: FilterState| f@) =~= before.map_values(
                    |f: FilterState| f@,
                ).remove(i as int));
            } else {
                self.filters[i].pop_char();
                assert(self.filters@ == before.update(i as int, self.filters@[i as int]));
                assert(self.filters@.map_values(|f: FilterState| f@) =~= before.map_values(
                    |f: FilterState| f@,
                ).update(i as int, self.filters@[i as int]@));
            }
        }
    }
    /// Moves to the next highlight, from the last back to the first; it stops being edited.
    pub fn next_highlight(&mut self)
        requires
            old(self)@.highlights.len() > 0 ==> old(self)@.highlight_index < usize::MAX,
        ensures
            positions_valid(old(self)@) ==> positions_valid(final(self)@),
            final(self)@ == after_next_highlight(old(self)@),
    {
        if self.highlights.len() != 0 {
            self.highlight_index = (self.highlight_index + 1) % self.highlights.len();
            let i = self.highlight_index;
            let ghost before = self.highlights@;
            self.highlights[i].set_is_editing(false);
            assert(self.highlights@ == before.update(i as int, self.highlights@[i as int]));
            assert(self.highlights@.map_values(|h: HighlightState| h@) =~= before.map_values(
                |h: HighlightState| h@,
            ).update(i as int, HighlightView { is_editing: false, ..before[i as int]@ }));
        }
    }

    /// Switches the selected highlight on or off; it stops being edited.
    pub fn toggle_highlight(&mut self)
        ensures
            final(self)@ == after_toggle_highlight(old(self)@),
    {
        let i = self.highlight_index;
        if i < self.highlights.len() {
            let ghost before = self.highlights@;
            let active = self.highlights[i].is_active();
            self.highlights[i].set_active(!active);
            self.highlights[i].set_is_editing(false);
            assert(self.highlights@ == before.update(i as int, self.highlights@[i as int]));
            assert(self.highlights@.map_values(|h: HighlightState| h@) =~= before.map_values(
                |h: HighlightState| h@,
            ).update(
                i as int,
                HighlightView { is_active: !before[i as int]@.is_active, is_editing: false, ..before[i as int]@ },
            ));
        }
    }

    /// Adds an empty highlight at the end and selects it.
    pub fn add_highlight(&mut self)
        ensures
            final(self)@ == after_add_highlight(old(self)@),
    {
        let ghost before = self.highlights@;
        self.highlights.push(HighlightState::new());
        self.highlight_index = self.highlights.len() - 1;
        let i = self.highlight_index;
        self.highlights[i].set_is_editing(false);
        assert(self.highlights@.map_values(|h: HighlightState| h@) =~= before.map_values(
            |h: HighlightState| h@,
        ).push(HighlightView { query: Seq::empty(), is_editing: false, is_active: false }));
    }

    /// Types a character into the selected highlight, which is then being edited.
    pub fn handle_highlight_char(&mut self, c: char)
        ensures
            final(self)@ == after_highlight_char(old(self)@, c),
    {
        let i = self.highlight_index;
        if i < self.highlights.len() {
            let ghost before = self.highlights@;
            self.highlights[i].set_is_editing(true);
            self.highlights[i].push_char(c);
            assert(self.highlights@ == before.update(i as int, self.highlights@[i as int]));
            assert(self.highlights@.map_values(|h: HighlightState| h@) =~= before.map_values(
                |h: HighlightState| h@,
            ).update(
                i as int,
                HighlightView { is_editing: true, query: before[i as int]@.query.push(c), ..before[i as int]@ },
            ));
        }
    }

    /// Backspace in highlight mode: a highlight that is not being edited is removed
    /// (the selection stays in range); otherwise its last character goes.
    pub fn handle_highlight_backspace(&mut self)
        ensures
            positions_valid(old(self)@) ==> positions_valid(final(self)@),
            final(self)@ == after_highlight_backspace(old(self)@),
    {
        let i = self.highlight_index;
        if i < self.highlights.len() {
            let ghost before = self.highlights@;
            if !self.highlights[i].is_editing() {
                self.highlights.remove(i);
                if self.highlight_index >= self.highlights.len() && self.highlights.len() != 0 {
                    self.highlight_index = self.highlights.len() - 1;
                }
                assert(self.highlights@.map_values(|h: HighlightState| h@) =~= before.map_values(
                    |h: HighlightState| h@,
                ).remove(i as int));
            } else {
                self.highlights[i].pop_char();
                assert(self.highlights@ == before.update(i as int, self.highlights@[i as int]));
                assert(self.highlights@.map_values(|h: HighlightState| h@) =~= before.map_values(
                    |h: HighlightState| h@,
                ).update(i as int, self.highlights@[i as int]@));
            }
        }
    }

    /// The lower-cased queries and the operators of the applying filters, in order.
    fn filter_terms(&self) -> (r: Vec<(Vec<char>, FilterOp)>)
        ensures
            term_views(r@) == lowered_filters(active_filters(self@.filters)),
    {
        let ghost fs = self@.filters;
        let mut r: Vec<(Vec<char>, FilterOp)> = Vec::new();
        let n = self.filters.len();
        for j in 0..n
            invariant
                n == self.filters@.len() == fs.len(),
                fs == self@.filters,
                term_views(r@) == lowered_filters(active_filters(fs.take(j as int))),
        {
            let ghost r0 = r@;
            proof {
                assert(fs.take(j + 1).drop_last() =~= fs.take(j as int));
                assert(fs[j as int] == self.filters@[j as int]@);
            }
            if self.filters[j].is_active() {
                let lower = to_lowercase(self.filters[j].query());
                let chars = chars_of(lower.as_str());
                r.push((chars, self.filters[j].op()));
                proof {
                    assert(term_views(r@) =~= term_views(r0).push((lowercase(fs[j as int].query), fs[j as int].op)));
                }
            }
            assert(term_views(r@) =~= lowered_filters(active_filters(fs.take(j + 1))));
        }
        assert(fs.take(n as int) =~= fs);
        r
    }

    /// Whether line `idx` is shown; see `line_visible`.
    fn is_line_visible(
        &self,
        idx: usize,
        terms: &Vec<(Vec<char>, FilterOp)>,
        bookmarks: &[usize],
    ) -> (r: bool)
        requires
            bookmarks@ == self@.bookmarks,
            term_views(terms@) == lowered_filters(active_filters(self@.filters)),
        ensures
            r == line_visible(self@, idx),
    {
        proof {
            assert(term_views(terms@).len() == terms@.len());
            assert(lowered_filters(active_filters(self@.filters)).len() == active_filters(self@.filters).len());
        }
        let raw = match self.logs.get_line(idx) {
            None => return false,
            Some(raw) => raw,
        };
        let chars = chars_of(raw);
        if is_blank_chars(chars.as_slice()) || LogLine::new(raw).is_none() {
            return false;
        }
        if slice_contains(bookmarks, idx) || terms.len() == 0 {
            return true;
        }
        let lower = to_lowercase(raw);
        let lower_chars = chars_of(lower.as_str());
        passes_filters(lower_chars.as_slice(), terms.as_slice())
    }

    /// The lines shown in the log list, in increasing order; see `line_visible`.
    pub fn visible_line_indices(&self) -> (r: Vec<usize>)
        ensures
            r@ == visible_lines(self@),
            lists_exactly(r@, self@.logs.spec_lines().len() as int, |i: usize| line_visible(self@, i)),
    {
        let terms = self.filter_terms();
        let bookmarks = self.bookmark.indices();
        let total = self.logs.len();
        let ghost p = |i: usize| line_visible(self@, i);
        let mut r: Vec<usize> = Vec::new();
        for idx in 0..total
            invariant
                total == self@.logs.spec_lines().len(),
                bookmarks@ == self@.bookmarks,
                term_views(terms@) == lowered_filters(active_filters(self@.filters)),
                r@ == listing(idx as int, p),
                forall|i: usize| p(i) == line_visible(self@, i),
        {
            let ghost before = r@;
            let shown = self.is_line_visible(idx, &terms, bookmarks);
            if shown {
                r.push(idx);
            }
            proof {
                assert(p(idx) == shown);
                assert(((idx + 1) - 1) as usize == idx);
                assert(listing(idx + 1, p) == if p(idx) {
                    listing(idx as int, p).push(idx)
                } else {
                    listing(idx as int, p)
                });
            }
        }
        proof {
            lemma_listing(total as int, p);
        }
        r
    }

    /// Steps to the next search match that is a shown line and selects it in
    /// the list; see `after_next_search_match`.
    pub fn next_search_match(&mut self)
        ensures
            final(self)@ == after_next_search_match(old(self)@),
    {
        let ghost v = self@;
        let match_count = self.search.matches().len();
        if match_count == 0 {
            return;
        }
        let visible = self.visible_line_indices();
        if visible.len() == 0 {
            return;
        }
        let ghost ms = v.search.matches;
        let ghost c = v.search.current_match;
        let ghost vis = visible@;
        self.search.current_is_valid();
        assert(self@ == v);
        assert(match_count == ms.len());
        let mut j: usize = 0;
        while j < match_count
            invariant
                v == old(self)@,
                ms == v.search.matches,
                c == v.search.current_match,
                0 < match_count == ms.len(),
                vis == visible_lines(v),
                visible@ == vis,
                vis.len() > 0,
                j <= match_count,
                c == 0 || c < match_count,
                self@ == (AppView {
                    search: SearchView { current_match: cursor_after(c, match_count, j as nat), ..v.search },
                    ..v
                }),
                cursor_after(c, match_count, j as nat) < match_count,
                first_shown_step(ms, c, vis, 1) == first_shown_step(ms, c, vis, j + 1),
            decreases match_count - j,
        {
            let ghost before_search = self.search@;
            assert(before_search.current_match == cursor_after(c, match_count, j as nat));
            assert(before_search.matches.len() == match_count);
            self.search.next_match();
            assert(self.search@.current_match == ((before_search.current_match + 1) % (match_count as int)) as usize);
            let ghost cur = cursor_after(c, match_count, (j + 1) as nat);
            assert(cur == ((cursor_after(c, match_count, j as nat) + 1) % (match_count as int)) as usize);
            assert(self@.search.current_match == cur);
            if let Some(match_idx) = self.search.current_match_index() {
                assert(match_idx == ms[cur as int]);
                if let Some(idx) = position(visible.as_slice(), match_idx) {
                    self.list_state.select(Some(idx));
                    return;
                }
                assert(!vis.contains(ms[cur as int]));
                assert(first_shown_step(ms, c, vis, j + 1) == first_shown_step(ms, c, vis, j + 2));
            }
            j = j + 1;
        }
    }

    /// Takes the lines found by a search (see `after_search_result`).
    pub fn receive_search_result(&mut self, matches: Vec<usize>)
        ensures
            final(self)@ == after_search_result(old(self)@, matches@),
    {
        let ghost v = self@;
        self.search.set_matches(matches);
        proof {
            lemma_visible_lines_depend(v, self@);
        }
        if let Some(first) = self.search.current_match_index() {
            let visible = self.visible_line_indices();
            match position(visible.as_slice(), first) {
                Some(idx) => {
                    self.list_state.select(Some(idx));
                },
                None => {
                    self.next_search_match();
                },
            }
        }
    }

    /// Moves the selection one line down, stopping at the last shown line.
    pub fn select_next(&mut self)
        requires
            old(self)@.list_state.selected != Some(usize::MAX),
        ensures
            final(self)@ == after_select_next(old(self)@),
    {
        let current = match self.list_state.selected() {
            Some(i) => i,
            None => 0,
        };
        let shown = self.visible_line_indices().len();
        let last = shown.saturating_sub(1);
        let next = if current + 1 <= last {
            current + 1
        } else {
            last
        };
        self.list_state.select(Some(next));
    }

    /// Moves the selection one line up, stopping at the first line.
    pub fn select_previous(&mut self)
        ensures
            final(self)@ == after_select_previous(old(self)@),
    {
        let current = match self.list_state.selected() {
            Some(i) => i,
            None => 0,
        };
        self.list_state.select(Some(current.saturating_sub(1)));
    }

    /// Bookmarks the line at the selected position of the log list.
    pub fn add_bookmark(&mut self)
        ensures
            final(self)@ == after_add_bookmark(old(self)@),
    {
        if let Some(log_idx) = self.list_state.selected() {
            self.bookmark.add_bookmark(log_idx);
        }
    }

    /// Removes the bookmark selected in the bookmark list.
    pub fn remove_bookmark(&mut self)
        ensures
            final(self)@ == after_remove_bookmark(old(self)@),
    {
        if let Some(state_idx) = self.bookmark.state().selected() {
            let indices = self.bookmark.indices();
            if state_idx < indices.len() {
                let log_idx = indices[state_idx];
                self.bookmark.remove_bookmark(log_idx);
            }
        }
    }

    /// Selects, in the log list, the position named by the bookmark selected in
    /// the bookmark list.
    pub fn jump_to_bookmark(&mut self)
        ensures
            final(self)@ == after_jump_to_bookmark(old(self)@),
    {
        if let Some(state_idx) = self.bookmark.state().selected() {
            let indices = self.bookmark.indices();
            if state_idx < indices.len() {
                let log_idx = indices[state_idx];
                self.list_state.select(Some(log_idx));
            }
        }
    }

    /// Moves the bookmark selection one entry up, wrapping around.
    pub fn select_next_bookmark(&mut self)
        requires
            old(self)@.bookmark_state.selected matches Some(i) ==> i + old(self)@.bookmarks.len()
                <= usize::MAX,
        ensures
            final(self)@ == after_select_next_bookmark(old(self)@),
    {
        self.bookmark.select_next_bookmark();
    }

    /// Moves the bookmark selection one entry down, wrapping around.
    pub fn select_previous_bookmark(&mut self)
        requires
            old(self)@.bookmark_state.selected matches Some(i) ==> i < usize::MAX,
        ensures
            final(self)@ == after_select_previous_bookmark(old(self)@),
    {
        self.bookmark.select_previous_bookmark();
    }
}

} // verus!
