use vstd::prelude::*;

use vstd::utf8::encode_utf8;

use crate::app::{line_visible, slice_contains, visible_lines, App, AppView};
use crate::filter::{FilterOp, FilterState, FilterView};
use crate::highlight::{HighlightState, HighlightView};
use crate::log_line::{parse_spec, LogLevel, LogLine, LogLineView};
use crate::log_store::LogStore;
use crate::mode::Mode;
use crate::spans::{
    clamped, line_bytes_fit, line_highlight_ok, line_pieces, scrolled, shown_text, span_texts,
    styled_view, term_bytes, try_build_span_from_log_line, StyledText,
};
use crate::text::{chars_of, is_blank_chars, string_from_chars};

verus! {

// ---------------------------------------------------------------------------
// Highlight colours
// ---------------------------------------------------------------------------

/// The number of colours that highlights cycle through.
pub const HIGHLIGHT_PALETTE_SIZE: usize = 10;

/// The palette entry of the highlight with the given index: the colours repeat.
pub fn highlight_color_index(index: usize) -> (r: usize)
    ensures
        r == index % HIGHLIGHT_PALETTE_SIZE,
        r < HIGHLIGHT_PALETTE_SIZE,
{
    index % HIGHLIGHT_PALETTE_SIZE
}

// ---------------------------------------------------------------------------
// The layout
// ---------------------------------------------------------------------------

/// Whether the log area is split to show the bookmark list below the log, in
/// place of the footer: in bookmark mode only; every other mode shows its bar
/// in the footer.
pub fn bookmark_panel_shown(mode: Mode) -> (r: bool)
    ensures
        r == (mode == Mode::BookMark),
{
    match mode {
        Mode::BookMark => true,
        _ => false,
    }
}

// ---------------------------------------------------------------------------
// The highlight terms in force
// ---------------------------------------------------------------------------

/// The queries of the highlights that are on and not empty, in order.
pub open spec fn active_queries(hs: Seq<HighlightView>) -> Seq<Seq<char>>
    decreases hs.len(),
{
    if hs.len() == 0 {
        Seq::empty()
    } else if hs.last().is_active && hs.last().query.len() > 0 {
        active_queries(hs.drop_last()).push(hs.last().query)
    } else {
        active_queries(hs.drop_last())
    }
}

/// The text of each string slice.
pub open spec fn str_views<'a>(v: Seq<&'a str>) -> Seq<Seq<char>> {
    v.map_values(|s: &'a str| s@)
}

/// The queries of the highlights that are on and not empty, in order.
pub fn active_highlights<'a>(highlights: &'a [HighlightState]) -> (r: Vec<&'a str>)
    ensures
        str_views(r@) == active_queries(highlights@.map_values(|h: HighlightState| h@)),
{
    let ghost hs = highlights@.map_values(|h: HighlightState| h@);
    let mut r: Vec<&'a str> = Vec::new();
    let n = highlights.len();
    for j in 0..n
        invariant
            n == highlights@.len() == hs.len(),
            hs == highlights@.map_values(|h: HighlightState| h@),
            str_views(r@) == active_queries(hs.take(j as int)),
    {
        let ghost r0 = r@;
        proof {
            assert(hs.take(j + 1).drop_last() =~= hs.take(j as int));
            assert(hs[j as int] == highlights@[j as int]@);
        }
        let q = highlights[j].query();
        if highlights[j].is_active() && !q.is_empty() {
            r.push(q);
            assert(str_views(r@) =~= str_views(r0).push(q@));
        }
    }
    assert(hs.take(n as int) =~= hs);
    r
}

// ---------------------------------------------------------------------------
// The rows of the log list
// ---------------------------------------------------------------------------

/// The background of a row: search matches first, then bookmarks.
#[derive(Debug, Clone, Copy, PartialEq, Eq, Structural)]
pub enum RowBackground {
    SearchMatch,
    Bookmarked,
    Plain,
}

/// The background of the row of line `i`.
pub open spec fn row_background(v: AppView, i: usize) -> RowBackground {
    if v.search.matches.contains(i) {
        RowBackground::SearchMatch
    } else if v.bookmarks.contains(i) {
        RowBackground::Bookmarked
    } else {
        RowBackground::Plain
    }
}

/// `"*"` before a bookmarked line, `" "` before others.
pub open spec fn marker_symbol(v: AppView, i: usize) -> Seq<char> {
    if v.bookmarks.contains(i) {
        seq!['*']
    } else {
        seq![' ']
    }
}

/// The parsed line `i` (meaningful for shown lines).
pub open spec fn row_log(v: AppView, i: usize) -> LogLineView {
    parse_spec(v.logs.line_text(i as int).unwrap()).unwrap()
}

/// The bytes of the highlight queries in force.
pub open spec fn shown_terms(v: AppView) -> Seq<Seq<u8>> {
    active_queries(v.highlights).map_values(|q: Seq<char>| encode_utf8(q))
}

/// The row of line `i` can be built: highlighting cuts no character apart and
/// the line's bytes fit a `usize`.
pub open spec fn row_ok(v: AppView, i: usize) -> bool {
    &&& line_highlight_ok(row_log(v, i), shown_terms(v))
    &&& line_bytes_fit(row_log(v, i), marker_symbol(v, i))
}

/// One row of the log list.
#[derive(Debug)]
pub struct LogRow {
    /// The line number.
    pub line: usize,
    pub background: RowBackground,
    /// The level, by which the level spans are coloured.
    pub level: LogLevel,
    pub spans: Vec<StyledText>,
}

/// `row` is the row of line `i`: its background, its level, and the spans of
/// the line with its marker, highlighted and scrolled; together the spans read
/// as the line's text without its first `horizontal_scroll` characters.
pub open spec fn row_spec(v: AppView, i: usize, row: LogRow) -> bool {
    &&& row.line == i
    &&& row.background == row_background(v, i)
    &&& row.level == row_log(v, i).log_level
    &&& styled_view(row.spans@) == scrolled(
        line_pieces(row_log(v, i), marker_symbol(v, i), shown_terms(v)),
        v.horizontal_scroll as int,
        0,
    )
    &&& span_texts(styled_view(row.spans@)) == shown_text(row_log(v, i), marker_symbol(v, i)).skip(
        clamped(
            v.horizontal_scroll as int,
            shown_text(row_log(v, i), marker_symbol(v, i)).len() as int,
        ),
    )
}

/// The rows of the log list, one for each shown line in order; none where
/// some shown line cannot be built (see `row_ok`).
pub fn log_rows(app: &App) -> (r: Option<Vec<LogRow>>)
    ensures
        r is Some <==> forall|k: int|
            0 <= k < visible_lines(app@).len() ==> row_ok(app@, #[trigger] visible_lines(app@)[k]),
        r matches Some(rows) ==> {
            &&& rows@.len() == visible_lines(app@).len()
            &&& forall|k: int|
                0 <= k < rows@.len() ==> row_spec(app@, visible_lines(app@)[k], #[trigger] rows@[k])
        },
{
    let ghost v = app@;
    let vis = app.visible_line_indices();
    let highlights = active_highlights(app.highlights());
    let matches = app.search().matches();
    let bookmarks = app.bookmark().indices();
    let logs = app.logs();
    let scroll = app.horizontal_scroll();
    proof {
        assert(term_bytes(highlights@) =~= shown_terms(v)) by {
            assert forall|j: int| 0 <= j < highlights@.len() implies #[trigger] term_bytes(highlights@)[j]
                == shown_terms(v)[j] by {
                assert(str_views(highlights@)[j] == highlights@[j]@);
            }
        }
    }
    let mut star: Vec<char> = Vec::new();
    star.push('*');
    let star = string_from_chars(star.as_slice());
    let mut space: Vec<char> = Vec::new();
    space.push(' ');
    let space = string_from_chars(space.as_slice());
    let n = vis.len();
    let mut rows: Vec<LogRow> = Vec::new();
    for k in 0..n
        invariant
            n == vis@.len(),
            v == app@,
            vis@ == visible_lines(v),
            forall|j: int| 0 <= j < vis@.len() ==> line_visible(v, #[trigger] vis@[j]),
            term_bytes(highlights@) == shown_terms(v),
            matches@ == v.search.matches,
            bookmarks@ == v.bookmarks,
            *logs == v.logs,
            scroll == v.horizontal_scroll,
            star@ == seq!['*'],
            space@ == seq![' '],
            rows@.len() == k,
            forall|j: int| 0 <= j < k ==> row_ok(v, #[trigger] vis@[j]),
            forall|j: int| 0 <= j < k ==> row_spec(v, vis@[j], #[trigger] rows@[j]),
    {
        let idx = vis[k];
        assert(line_visible(v, vis@[k as int]));
        if let Some(raw) = logs.get_line(idx) {
            let chars = chars_of(raw);
            if !is_blank_chars(chars.as_slice()) {
                if let Some(log) = LogLine::new(raw) {
                    let is_match = slice_contains(matches, idx);
                    let is_bookmarked = slice_contains(bookmarks, idx);
                    let background = if is_match {
                        RowBackground::SearchMatch
                    } else if is_bookmarked {
                        RowBackground::Bookmarked
                    } else {
                        RowBackground::Plain
                    };
                    let symbol = if is_bookmarked {
                        star.as_str()
                    } else {
                        space.as_str()
                    };
                    assert(log@ == row_log(v, idx));
                    assert(symbol@ == marker_symbol(v, idx));
                    match try_build_span_from_log_line(&log, symbol, highlights.as_slice(), scroll) {
                        Some(spans) => {
                            let level = *log.log_level();
                            rows.push(LogRow { line: idx, background, level, spans });
                        },
                        None => {
                            return None;
                        },
                    }
                }
            }
        }
    }
    Some(rows)
}

// ---------------------------------------------------------------------------
// The bookmark list
// ---------------------------------------------------------------------------

/// The texts of the given lines, leaving out those that are missing or not
/// valid UTF-8.
pub open spec fn present_lines(logs: LogStore, idx: Seq<usize>) -> Seq<Seq<char>>
    decreases idx.len(),
{
    if idx.len() == 0 {
        Seq::empty()
    } else {
        match logs.line_text(idx.last() as int) {
            Some(t) => present_lines(logs, idx.drop_last()).push(t),
            None => present_lines(logs, idx.drop_last()),
        }
    }
}

/// The text of each string.
pub open spec fn string_views(v: Seq<String>) -> Seq<Seq<char>> {
    v.map_values(|s: String| s@)
}

/// The entries of the bookmark list: the text of each bookmarked line, in
/// order.
pub fn bookmark_entries(app: &App) -> (r: Vec<String>)
    ensures
        string_views(r@) == present_lines(app@.logs, app@.bookmarks),
{
    let logs = app.logs();
    let indices = app.bookmark().indices();
    let n = indices.len();
    let mut r: Vec<String> = Vec::new();
    for j in 0..n
        invariant
            n == indices@.len(),
            indices@ == app@.bookmarks,
            *logs == app@.logs,
            string_views(r@) == present_lines(app@.logs, indices@.take(j as int)),
    {
        let ghost r0 = r@;
        proof {
            assert(indices@.take(j + 1).drop_last() =~= indices@.take(j as int));
        }
        if let Some(raw) = logs.get_line(indices[j]) {
            let chars = chars_of(raw);
            r.push(string_from_chars(chars.as_slice()));
            assert(string_views(r@) =~= string_views(r0).push(raw@));
        }
    }
    assert(indices@.take(n as int) =~= indices@);
    r
}

// ---------------------------------------------------------------------------
// The filter and highlight bars
// ---------------------------------------------------------------------------

/// How an item of a bar is styled.
#[derive(Debug, Clone, Copy, PartialEq, Eq, Structural)]
pub enum BarStyle {
    /// The selected entry.
    Selected,
    /// An entry that is on.
    Active,
    /// An entry that is off.
    Inactive,
    /// The separator between highlights.
    Separator,
    /// The indicator of a mode that is on.
    IndicatorOn,
    /// The indicator of a mode that is off.
    IndicatorOff,
}

/// One piece of text of a bar.
#[derive(Debug)]
pub struct BarItem {
    pub text: String,
    pub style: BarStyle,
}

/// The text and style of each bar item.
pub open spec fn bar_view(v: Seq<BarItem>) -> Seq<(Seq<char>, BarStyle)> {
    v.map_values(|b: BarItem| (b.text@, b.style))
}

/// `"[X]"` for an entry that is on, `"[]"` otherwise.
pub open spec fn status_text(active: bool) -> Seq<char> {
    if active {
        seq!['[', 'X', ']']
    } else {
        seq!['[', ']']
    }
}

/// `" {status} {query} "`.
pub open spec fn entry_text(active: bool, query: Seq<char>) -> Seq<char> {
    seq![' '] + status_text(active) + seq![' '] + query + seq![' ']
}

/// The style of entry `idx`: selected, else on, else off.
pub open spec fn entry_style(idx: int, selected: usize, active: bool) -> BarStyle {
    if idx == selected {
        BarStyle::Selected
    } else if active {
        BarStyle::Active
    } else {
        BarStyle::Inactive
    }
}

/// `" AND "` or `" OR "`.
pub open spec fn op_text(op: FilterOp) -> Seq<char> {
    match op {
        FilterOp::And => seq![' ', 'A', 'N', 'D', ' '],
        FilterOp::Or => seq![' ', 'O', 'R', ' '],
    }
}

/// `" | "`.
pub open spec fn separator_text() -> Seq<char> {
    seq![' ', '|', ' ']
}

/// The items of filter `i`: its entry, then, but for the last filter, its
/// operator and a separator in the same style.
pub open spec fn filter_items(fs: Seq<FilterView>, selected: usize, i: int) -> Seq<(Seq<char>, BarStyle)> {
    let st = entry_style(i, selected, fs[i].is_active);
    let e = seq![(entry_text(fs[i].is_active, fs[i].query), st)];
    if i < fs.len() - 1 {
        e + seq![(op_text(fs[i].op), st), (separator_text(), st)]
    } else {
        e
    }
}

/// The items of the first `k` filters.
pub open spec fn filter_bar_spec(fs: Seq<FilterView>, selected: usize, k: int) -> Seq<(Seq<char>, BarStyle)>
    decreases k,
{
    if k <= 0 {
        Seq::empty()
    } else {
        filter_bar_spec(fs, selected, k - 1) + filter_items(fs, selected, k - 1)
    }
}

/// The items of highlight `i`: its entry, then, but for the last highlight, a
/// separator.
pub open spec fn highlight_items(hs: Seq<HighlightView>, selected: usize, i: int) -> Seq<(Seq<char>, BarStyle)> {
    let e = seq![(entry_text(hs[i].is_active, hs[i].query), entry_style(i, selected, hs[i].is_active))];
    if i < hs.len() - 1 {
        e + seq![(separator_text(), BarStyle::Separator)]
    } else {
        e
    }
}

/// The items of the first `k` highlights.
pub open spec fn highlight_bar_spec(hs: Seq<HighlightView>, selected: usize, k: int) -> Seq<(Seq<char>, BarStyle)>
    decreases k,
{
    if k <= 0 {
        Seq::empty()
    } else {
        highlight_bar_spec(hs, selected, k - 1) + highlight_items(hs, selected, k - 1)
    }
}

/// The characters of a bar entry, `" {status} {query} "`.
fn entry_string(active: bool, query: &str) -> (r: String)
    ensures
        r@ == entry_text(active, query@),
{
    let mut v: Vec<char> = Vec::new();
    v.push(' ');
    v.push('[');
    if active {
        v.push('X');
    }
    v.push(']');
    v.push(' ');
    let mut q = chars_of(query);
    v.append(&mut q);
    v.push(' ');
    assert(v@ =~= entry_text(active, query@));
    string_from_chars(v.as_slice())
}

/// `" AND "` or `" OR "`.
fn op_string(op: FilterOp) -> (r: String)
    ensures
        r@ == op_text(op),
{
    let mut v: Vec<char> = Vec::new();
    v.push(' ');
    match op {
        FilterOp::And => {
            v.push('A');
            v.push('N');
            v.push('D');
        },
        FilterOp::Or => {
            v.push('O');
            v.push('R');
        },
    }
    v.push(' ');
    assert(v@ =~= op_text(op));
    string_from_chars(v.as_slice())
}

/// `" | "`.
fn separator_string() -> (r: String)
    ensures
        r@ == separator_text(),
{
    let mut v: Vec<char> = Vec::new();
    v.push(' ');
    v.push('|');
    v.push(' ');
    assert(v@ =~= separator_text());
    string_from_chars(v.as_slice())
}

/// The style of entry `idx`.
fn entry_style_of(idx: usize, selected: usize, active: bool) -> (r: BarStyle)
    ensures
        r == entry_style(idx as int, selected, active),
{
    if idx == selected {
        BarStyle::Selected
    } else if active {
        BarStyle::Active
    } else {
        BarStyle::Inactive
    }
}

/// The filter bar: for each filter `" {status} {query} "`, followed, but for
/// the last, by its operator and `" | "`; the selected filter is marked, the
/// others styled by whether they are on.
pub fn filter_bar(filters: &[FilterState], selected: usize) -> (r: Vec<BarItem>)
    ensures
        bar_view(r@) == filter_bar_spec(
            filters@.map_values(|f: FilterState| f@),
            selected,
            filters@.len() as int,
        ),
{
    let ghost fs = filters@.map_values(|f: FilterState| f@);
    let n = filters.len();
    let mut r: Vec<BarItem> = Vec::new();
    for idx in 0..n
        invariant
            n == filters@.len() == fs.len(),
            fs == filters@.map_values(|f: FilterState| f@),
            bar_view(r@) == filter_bar_spec(fs, selected, idx as int),
    {
        let ghost r0 = r@;
        let f = &filters[idx];
        assert(fs[idx as int] == f@);
        let active = f.is_active();
        let style = entry_style_of(idx, selected, active);
        r.push(BarItem { text: entry_string(active, f.query()), style });
        if idx < n - 1 {
            r.push(BarItem { text: op_string(f.op()), style });
            r.push(BarItem { text: separator_string(), style });
        }
        assert(bar_view(r@) =~= bar_view(r0) + filter_items(fs, selected, idx as int));
    }
    r
}

/// The highlight bar: for each highlight `" {status} {query} "`, followed, but
/// for the last, by a `" | "` separator; the selected highlight is marked, the
/// others styled by whether they are on.
pub fn highlight_bar(highlights: &[HighlightState], selected: usize) -> (r: Vec<BarItem>)
    ensures
        bar_view(r@) == highlight_bar_spec(
            highlights@.map_values(|h: HighlightState| h@),
            selected,
            highlights@.len() as int,
        ),
{
    let ghost hs = highlights@.map_values(|h: HighlightState| h@);
    let n = highlights.len();
    let mut r: Vec<BarItem> = Vec::new();
    for idx in 0..n
        invariant
            n == highlights@.len() == hs.len(),
            hs == highlights@.map_values(|h: HighlightState| h@),
            bar_view(r@) == highlight_bar_spec(hs, selected, idx as int),
    {
        let ghost r0 = r@;
        let h = &highlights[idx];
        assert(hs[idx as int] == h@);
        let active = h.is_active();
        let style = entry_style_of(idx, selected, active);
        r.push(BarItem { text: entry_string(active, h.query()), style });
        if idx < n - 1 {
            r.push(BarItem { text: separator_string(), style: BarStyle::Separator });
        }
        assert(bar_view(r@) =~= bar_view(r0) + highlight_items(hs, selected, idx as int));
    }
    r
}

/// `"[REGEX ON]"` or `"[REGEX OFF]"`.
pub open spec fn regex_indicator_text(on: bool) -> Seq<char> {
    if on {
        seq!['[', 'R', 'E', 'G', 'E', 'X', ' ', 'O', 'N', ']']
    } else {
        seq!['[', 'R', 'E', 'G', 'E', 'X', ' ', 'O', 'F', 'F', ']']
    }
}

/// The indicator of whether regular expressions are on.
pub fn add_regex_indicator(is_regex_on: bool) -> (r: BarItem)
    ensures
        r.text@ == regex_indicator_text(is_regex_on),
        r.style == (if is_regex_on {
            BarStyle::IndicatorOn
        } else {
            BarStyle::IndicatorOff
        }),
{
    let mut v: Vec<char> = Vec::new();
    v.push('[');
    v.push('R');
    v.push('E');
    v.push('G');
    v.push('E');
    v.push('X');
    v.push(' ');
    v.push('O');
    if is_regex_on {
        v.push('N');
    } else {
        v.push('F');
        v.push('F');
    }
    v.push(']');
    assert(v@ =~= regex_indicator_text(is_regex_on));
    BarItem {
        text: string_from_chars(v.as_slice()),
        style: if is_regex_on {
            BarStyle::IndicatorOn
        } else {
            BarStyle::IndicatorOff
        },
    }
}

} // verus!
