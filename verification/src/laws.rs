use vstd::prelude::*;
use vstd::utf8::{decode_utf8, encode_utf8};

use crate::app::{
    after_next_search_match, after_scroll_left, after_scroll_right, after_search_backspace,
    after_search_char, after_search_result, after_select_next, after_select_next_bookmark,
    after_select_previous, after_select_previous_bookmark, after_toggle_filter,
    after_toggle_highlight, cursor_after, first_shown_step, line_visible, selected_or_first,
    visible_lines, AppView, SCROLL_AMOUNT,
};
use crate::bookmark::{
    bookmarks_with, bookmarks_without, cyclic_next, cyclic_prev, insert_pos, strictly_increasing,
};
use crate::filter::{flipped, FilterOp, FilterView};
use crate::app::filters_verdict;
use crate::input::{key_effect, Key};
use crate::mode::Mode;
use crate::text::contains_seq;
use crate::highlight::HighlightView;
use crate::log_line::{level_of, parse_spec, LogLevel, LogLineView};
use crate::log_store::{lemma_listing, newline, LogStore};
use crate::search::current_match_of;
use crate::spans::{
    clamped, first_term_from, fragment_ranges, joined, lemma_first_term_from,
    lemma_highlighting_keeps_text, level_text, line_pieces, marker_text, multi_spec, piece_texts,
    pieces_joined, scrolled, span_texts, split_spec, term_at, timestamp_text, with_role,
    FragmentType, SpanRole,
};
use crate::text::{
    eq_ignore_ascii_case, index_of, is_blank, is_whitespace, join_with, lemma_index_of_bounds,
    lemma_index_of_is, lemma_split_len, lemma_trim_end_take, lemma_trim_start_skip, split_seq,
    trim, trim_end, trim_start,
};

verus! {

// ---------------------------------------------------------------------------
// Parsing a line
// ---------------------------------------------------------------------------

/// No whitespace at either end.
pub open spec fn is_trimmed(s: Seq<char>) -> bool {
    s.len() == 0 || (!is_whitespace(s[0]) && !is_whitespace(s.last()))
}

/// The word for a level in a log line.
pub open spec fn level_word(l: LogLevel) -> Seq<char> {
    match l {
        LogLevel::Error => seq!['E', 'R', 'R', 'O', 'R'],
        LogLevel::Warn => seq!['W', 'A', 'R', 'N'],
        LogLevel::Info => seq!['I', 'N', 'F', 'O'],
        LogLevel::Debug => seq!['D', 'E', 'B', 'U', 'G'],
        LogLevel::Trace => seq!['T', 'R', 'A', 'C', 'E'],
    }
}

/// `"{timestamp} | {LEVEL} | {content}"`.
pub open spec fn formatted_line(time_stamp: Seq<char>, l: LogLevel, content: Seq<char>) -> Seq<char> {
    time_stamp + seq![' ', '|', ' '] + level_word(l) + seq![' ', '|', ' '] + content
}

proof fn lemma_trim_start_is_trimmed_front(s: Seq<char>)
    ensures
        trim_start(s).len() == 0 || !is_whitespace(trim_start(s)[0]),
    decreases s.len(),
{
    if s.len() > 0 && is_whitespace(s[0]) {
        lemma_trim_start_is_trimmed_front(s.drop_first());
    }
}

proof fn lemma_trim_end_is_prefix(s: Seq<char>)
    ensures
        trim_end(s).len() <= s.len(),
        trim_end(s) == s.take(trim_end(s).len() as int),
        trim_end(s).len() == 0 || !is_whitespace(trim_end(s).last()),
    decreases s.len(),
{
    if s.len() > 0 && is_whitespace(s.last()) {
        lemma_trim_end_is_prefix(s.drop_last());
        assert(s.drop_last().take(trim_end(s).len() as int) =~= s.take(trim_end(s).len() as int));
    } else {
        assert(s.take(s.len() as int) =~= s);
    }
}

/// Parsing trims the timestamp and the content.
pub proof fn law_parsed_fields_are_trimmed(line: Seq<char>)
    ensures
        parse_spec(line) matches Some(l) ==> is_trimmed(l.time_stamp) && is_trimmed(l.content),
{
    let fields = split_seq(line, '|');
    if parse_spec(line) is Some {
        lemma_trim_is_trimmed(fields[0]);
        lemma_trim_is_trimmed(fields[2]);
    }
}

/// `trim` leaves no whitespace at either end.
pub proof fn lemma_trim_is_trimmed(s: Seq<char>)
    ensures
        is_trimmed(trim(s)),
{
    let t = trim_start(s);
    lemma_trim_start_is_trimmed_front(s);
    lemma_trim_end_is_prefix(t);
    let u = trim_end(t);
    if u.len() > 0 {
        assert(u[0] == t[0]);
    }
}

/// `" " + s + " "`, `s + " "` and `" " + s` all trim to a trimmed `s`.
proof fn lemma_trim_padded(s: Seq<char>)
    requires
        is_trimmed(s),
    ensures
        trim(seq![' '] + s + seq![' ']) == s,
        trim(s + seq![' ']) == s,
        trim(seq![' '] + s) == s,
{
    let both = seq![' '] + s + seq![' '];
    let right = s + seq![' '];
    let left = seq![' '] + s;
    if s.len() == 0 {
        lemma_trim_start_skip(both, 2);
        lemma_trim_start_skip(right, 1);
        lemma_trim_start_skip(left, 1);
        assert(both.skip(2) =~= s);
        assert(right.skip(1) =~= s);
        assert(left.skip(1) =~= s);
    } else {
        assert(both[1] == s[0]);
        lemma_trim_start_skip(both, 1);
        assert(both.skip(1) =~= right);
        lemma_trim_start_skip(right, 0);
        assert(right.skip(0) =~= right);
        assert(right[s.len() - 1] == s.last());
        lemma_trim_end_take(right, s.len() as int);
        assert(right.take(s.len() as int) =~= s);
        assert(left[1] == s[0]);
        lemma_trim_start_skip(left, 1);
        assert(left.skip(1) =~= s);
        assert(s[s.len() - 1] == s.last());
        lemma_trim_end_take(s, s.len() as int);
        assert(s.take(s.len() as int) =~= s);
    }
}

/// Splitting `a + [d] + b`, where `a` holds no `d`, gives `a` and then the
/// pieces of `b`.
proof fn lemma_split_first_piece(a: Seq<char>, d: char, b: Seq<char>)
    requires
        !a.contains(d),
    ensures
        split_seq(a + seq![d] + b, d) == seq![a] + split_seq(b, d),
{
    let s = a + seq![d] + b;
    assert forall|k: int| 0 <= k < a.len() implies s[k] != d by {
        assert(s[k] == a[k]);
        if s[k] == d {
            assert(a.contains(d));
        }
    }
    assert(s[a.len() as int] == d);
    lemma_index_of_is(s, d, a.len() as int);
    lemma_index_of_bounds(s, d);
    assert(s.take(a.len() as int) =~= a);
    assert(s.skip((a.len() + 1) as int) =~= b);
}

/// A sequence without `d` splits into itself alone.
proof fn lemma_split_none(a: Seq<char>, d: char)
    requires
        !a.contains(d),
    ensures
        split_seq(a, d) == seq![a],
{
    assert forall|k: int| 0 <= k < a.len() implies a[k] != d by {
        if a[k] == d {
            assert(a.contains(d));
        }
    }
    lemma_index_of_is(a, d, a.len() as int);
}

/// A line written as `"{timestamp} | {LEVEL} | {content}"`, with a timestamp
/// and content that hold no `|` and are trimmed, parses back to them.
pub proof fn law_parse_formatted_line(time_stamp: Seq<char>, l: LogLevel, content: Seq<char>)
    requires
        !time_stamp.contains('|'),
        !content.contains('|'),
        is_trimmed(time_stamp),
        is_trimmed(content),
    ensures
        parse_spec(formatted_line(time_stamp, l, content)) matches Some(p) && p.time_stamp
            == time_stamp && p.log_level == l && p.content == content,
{
    let w = level_word(l);
    let line = formatted_line(time_stamp, l, content);
    let f0 = time_stamp + seq![' '];
    let f1 = seq![' '] + w + seq![' '];
    let f2 = seq![' '] + content;
    assert(line =~= f0 + seq!['|'] + (f1 + seq!['|'] + f2));
    assert(!f0.contains('|')) by {
        if f0.contains('|') {
            let k = choose|k: int| 0 <= k < f0.len() && f0[k] == '|';
            if k < time_stamp.len() {
                assert(time_stamp[k] == '|');
            }
        }
    }
    assert(!f1.contains('|')) by {
        if f1.contains('|') {
            let k = choose|k: int| 0 <= k < f1.len() && f1[k] == '|';
            assert(f1[k] == '|');
        }
    }
    assert(!f2.contains('|')) by {
        if f2.contains('|') {
            let k = choose|k: int| 0 <= k < f2.len() && f2[k] == '|';
            if k > 0 {
                assert(content[k - 1] == '|');
            }
        }
    }
    lemma_split_first_piece(f0, '|', f1 + seq!['|'] + f2);
    lemma_split_first_piece(f1, '|', f2);
    lemma_split_none(f2, '|');
    let fields = split_seq(line, '|');
    assert(fields =~= seq![f0, f1, f2]);
    lemma_trim_padded(time_stamp);
    lemma_trim_padded(content);
    assert(is_trimmed(w));
    lemma_trim_padded(w);
    assert(level_of(w) == l);
    assert(!is_blank(line)) by {
        let i = (time_stamp.len() + 3) as int;
        assert(line[i] == w[0]);
    }
}

// ---------------------------------------------------------------------------
// Editing filters and highlights
// ---------------------------------------------------------------------------

/// Changing a filter's operator twice gives the filter back.
pub proof fn law_change_op_twice(f: FilterView)
    ensures
        ({
            let once = FilterView { op: flipped(f.op), ..f };
            FilterView { op: flipped(once.op), ..once }
        }) == f,
{
}

/// Deleting the last character of a filter's query undoes typing it.
pub proof fn law_filter_pop_undoes_push(f: FilterView, c: char)
    ensures
        ({
            let typed = FilterView { query: f.query.push(c), ..f };
            typed.query.len() > 0 && FilterView { query: typed.query.drop_last(), ..typed } == f
        }),
{
    assert(f.query.push(c).drop_last() =~= f.query);
}

/// Deleting the last character of a highlight's query undoes typing it.
pub proof fn law_highlight_pop_undoes_push(h: HighlightView, c: char)
    ensures
        ({
            let typed = HighlightView { query: h.query.push(c), ..h };
            typed.query.len() > 0 && HighlightView { query: typed.query.drop_last(), ..typed } == h
        }),
{
    assert(h.query.push(c).drop_last() =~= h.query);
}

/// In the viewer, a backspace in the search bar undoes the character typed
/// before it.
pub proof fn law_search_backspace_undoes_char(v: AppView, c: char)
    ensures
        after_search_backspace(after_search_char(v, c)) == v,
{
    assert(v.search.query.push(c).drop_last() =~= v.search.query);
}

/// Toggling the selected filter twice leaves every filter's query, operator
/// and on/off state as they were (it is left not being edited).
pub proof fn law_toggle_filter_twice(v: AppView)
    ensures
        ({
            let w = after_toggle_filter(after_toggle_filter(v));
            &&& w.filters.len() == v.filters.len()
            &&& forall|j: int|
                0 <= j < v.filters.len() ==> (#[trigger] w.filters[j]).query == v.filters[j].query
                    && w.filters[j].op == v.filters[j].op && w.filters[j].is_active
                    == v.filters[j].is_active
            &&& AppView { filters: v.filters, ..w } == v
        }),
{
}

/// Toggling the selected highlight twice leaves every highlight's query and
/// on/off state as they were (it is left not being edited).
pub proof fn law_toggle_highlight_twice(v: AppView)
    ensures
        ({
            let w = after_toggle_highlight(after_toggle_highlight(v));
            &&& w.highlights.len() == v.highlights.len()
            &&& forall|j: int|
                0 <= j < v.highlights.len() ==> (#[trigger] w.highlights[j]).query
                    == v.highlights[j].query && w.highlights[j].is_active == v.highlights[j].is_active
            &&& AppView { highlights: v.highlights, ..w } == v
        }),
{
}

// ---------------------------------------------------------------------------
// Moving through the log list
// ---------------------------------------------------------------------------

/// Moving down never leaves the shown lines.
pub proof fn law_select_next_stays_in_list(v: AppView)
    requires
        visible_lines(v).len() > 0,
    ensures
        after_select_next(v).list_state.selected matches Some(p) && p < visible_lines(v).len(),
{
}

/// Moving down from a line that is not the last goes one line further.
pub proof fn law_select_next_moves_one(v: AppView)
    requires
        selected_or_first(v.list_state) < usize::MAX,
        selected_or_first(v.list_state) + 1 < visible_lines(v).len(),
    ensures
        after_select_next(v).list_state.selected == Some((selected_or_first(v.list_state) + 1) as usize),
{
}

/// Moving up after moving down comes back, away from the ends of the list.
pub proof fn law_select_previous_undoes_next(v: AppView)
    requires
        selected_or_first(v.list_state) < usize::MAX,
        selected_or_first(v.list_state) + 1 < visible_lines(v).len(),
    ensures
        after_select_previous(after_select_next(v)).list_state.selected == Some(
            selected_or_first(v.list_state),
        ),
{
}

/// Where `next_search_match` finds a shown match, the selected row shows the
/// line of the current match.
pub proof fn law_next_match_selects_current(v: AppView)
    requires
        v.logs.spec_lines().len() <= usize::MAX,
        0 < v.search.matches.len() <= usize::MAX,
        v.search.current_match < v.search.matches.len(),
        visible_lines(v).len() > 0,
        first_shown_step(v.search.matches, v.search.current_match, visible_lines(v), 1) is Some,
    ensures
        ({
            let w = after_next_search_match(v);
            &&& w.list_state.selected matches Some(p) && p < visible_lines(v).len()
            &&& current_match_of(w.search) == Some(visible_lines(v)[w.list_state.selected.unwrap() as int])
        }),
{
    let ms = v.search.matches;
    let n = ms.len() as usize;
    let c = v.search.current_match;
    let vis = visible_lines(v);
    let j = first_shown_step(ms, c, vis, 1).unwrap();
    lemma_first_shown_step(ms, c, vis, 1);
    let cur = cursor_after(c, n, j as nat);
    law_cursor_after_is_modular(c, n, j as nat);
    vstd::arithmetic::div_mod::lemma_mod_pos_bound(c + j, n as int);
    let x = ms[cur as int];
    assert(vis.contains(x));
    crate::log_store::lemma_listing_len(v.logs.spec_lines().len() as int, |i: usize| line_visible(v, i));
    lemma_index_of_bounds(vis, x);
    if index_of(vis, x) >= vis.len() {
        let k = choose|k: int| 0 <= k < vis.len() && vis[k] == x;
        assert(vis[k] == x);
    }
}

/// When a search result comes in and its first match is a shown line, that
/// line is selected and its match is the current one.
pub proof fn law_search_result_selects_first_match(v: AppView, ms: Seq<usize>)
    requires
        v.logs.spec_lines().len() <= usize::MAX,
        ms.len() > 0,
        visible_lines(v).contains(ms[0]),
    ensures
        ({
            let w = after_search_result(v, ms);
            &&& w.search.matches == ms
            &&& w.search.current_match == 0
            &&& w.list_state.selected matches Some(p) && p < visible_lines(v).len() && visible_lines(v)[p as int] == ms[0]
        }),
{
    let vis = visible_lines(v);
    crate::log_store::lemma_listing_len(v.logs.spec_lines().len() as int, |i: usize| line_visible(v, i));
    lemma_index_of_bounds(vis, ms[0]);
    if index_of(vis, ms[0]) >= vis.len() {
        let k = choose|k: int| 0 <= k < vis.len() && vis[k] == ms[0];
        assert(vis[k] == ms[0]);
    }
}

/// What `first_shown_step` finds is a step count in range after which the
/// current match is shown.
proof fn lemma_first_shown_step(ms: Seq<usize>, c: usize, vis: Seq<usize>, j: int)
    requires
        j >= 1,
    ensures
        first_shown_step(ms, c, vis, j) matches Some(s) ==> j <= s <= ms.len() && vis.contains(
            ms[cursor_after(c, ms.len() as usize, s as nat) as int],
        ),
    decreases ms.len() + 1 - j,
{
    if j <= ms.len() && !vis.contains(ms[cursor_after(c, ms.len() as usize, j as nat) as int]) {
        lemma_first_shown_step(ms, c, vis, j + 1);
    }
}

// ---------------------------------------------------------------------------
// Scrolling
// ---------------------------------------------------------------------------

/// Scrolling left undoes scrolling right, where scrolling right did not saturate.
pub proof fn law_scroll_left_undoes_scroll_right(v: AppView)
    requires
        v.horizontal_scroll + SCROLL_AMOUNT <= usize::MAX,
    ensures
        after_scroll_left(after_scroll_right(v)) == v,
{
}

/// Scrolling right undoes scrolling left, where scrolling left did not stop at
/// the first column.
pub proof fn law_scroll_right_undoes_scroll_left(v: AppView)
    requires
        v.horizontal_scroll >= SCROLL_AMOUNT,
    ensures
        after_scroll_right(after_scroll_left(v)) == v,
{
}

// ---------------------------------------------------------------------------
// Stepping through search matches
// ---------------------------------------------------------------------------

/// After `j` steps among `n` matches the current match is `(c + j) mod n`.
pub proof fn law_cursor_after_is_modular(c: usize, n: usize, j: nat)
    requires
        0 < n,
        c < n,
    ensures
        cursor_after(c, n, j) == (c + j) % (n as int),
    decreases j,
{
    if j > 0 {
        law_cursor_after_is_modular(c, n, (j - 1) as nat);
        let prev = (c + j - 1) % (n as int);
        assert((prev + 1) % (n as int) == (c + j) % (n as int)) by {
            if n == 1 {
                assert((prev + 1) % 1 == 0 && (c + j) % 1 == 0) by (nonlinear_arith);
            } else {
                vstd::arithmetic::div_mod::lemma_add_mod_noop(c + j - 1, 1, n as int);
                vstd::arithmetic::div_mod::lemma_small_mod(1, n as nat);
            }
        }
        vstd::arithmetic::div_mod::lemma_mod_pos_bound(c + j, n as int);
        assert(cursor_after(c, n, j) == ((cursor_after(c, n, (j - 1) as nat) + 1) % (n as int)) as usize);
        assert(cursor_after(c, n, (j - 1) as nat) == prev);
    } else {
        vstd::arithmetic::div_mod::lemma_small_mod(c as nat, n as nat);
    }
}

/// Stepping through all `n` matches comes back to the match it started from.
pub proof fn law_next_match_full_cycle(c: usize, n: usize)
    requires
        0 < n,
        c < n,
    ensures
        cursor_after(c, n, n as nat) == c,
{
    law_cursor_after_is_modular(c, n, n as nat);
    vstd::arithmetic::div_mod::lemma_mod_add_multiples_vanish(c as int, n as int);
    vstd::arithmetic::div_mod::lemma_small_mod(c as nat, n as nat);
}

// ---------------------------------------------------------------------------
// Bookmarks
// ---------------------------------------------------------------------------

/// In a strictly increasing list, the entries before `insert_pos` are below
/// `x` and the one at it (if any) is not.
proof fn lemma_insert_pos_bounds(s: Seq<usize>, x: usize)
    requires
        strictly_increasing(s),
    ensures
        0 <= insert_pos(s, x) <= s.len(),
        forall|k: int| 0 <= k < insert_pos(s, x) ==> s[k] < x,
        insert_pos(s, x) < s.len() ==> s[insert_pos(s, x)] >= x,
    decreases s.len(),
{
    if s.len() > 0 && s[0] < x {
        let t = s.drop_first();
        assert(strictly_increasing(t)) by {
            assert forall|i: int, j: int| 0 <= i < j < t.len() implies t[i] < t[j] by {
                assert(t[i] == s[i + 1] && t[j] == s[j + 1]);
            }
        }
        lemma_insert_pos_bounds(t, x);
        assert forall|k: int| 0 <= k < insert_pos(s, x) implies s[k] < x by {
            if k > 0 {
                assert(s[k] == t[k - 1]);
            }
        }
    }
}

/// Adding a bookmark keeps the list strictly increasing and adds exactly that
/// line.
pub proof fn law_bookmark_added(s: Seq<usize>, x: usize)
    requires
        strictly_increasing(s),
    ensures
        strictly_increasing(bookmarks_with(s, x)),
        forall|e: usize| #[trigger] bookmarks_with(s, x).contains(e) <==> (s.contains(e) || e == x),
{
    if !s.contains(x) {
        lemma_insert_pos_bounds(s, x);
        let p = insert_pos(s, x);
        let r = s.insert(p, x);
        if p < s.len() {
            assert(s[p] != x);
        }
        assert forall|i: int, j: int| 0 <= i < j < r.len() implies r[i] < r[j] by {
            if j < p {
                assert(r[i] == s[i] && r[j] == s[j]);
            } else if j == p {
                assert(r[i] == s[i]);
            } else if i < p {
                assert(r[j] == s[j - 1]);
                assert(s[j - 1] >= x) by {
                    assert(s[p] >= x);
                    if j - 1 > p {
                        assert(s[p] < s[j - 1]);
                    }
                }
                if i < p {
                    assert(r[i] == s[i]);
                }
                assert(s[j - 1] != x) by {
                    if s[j - 1] == x {
                        assert(s.contains(x));
                    }
                }
            } else if i == p {
                assert(r[j] == s[j - 1]);
                assert(s[j - 1] >= s[p]) by {
                    if j - 1 > p {
                        assert(s[p] < s[j - 1]);
                    }
                }
            } else {
                assert(r[i] == s[i - 1] && r[j] == s[j - 1]);
            }
        }
        assert forall|e: usize| #[trigger] r.contains(e) <==> (s.contains(e) || e == x) by {
            if r.contains(e) {
                let k = choose|k: int| 0 <= k < r.len() && r[k] == e;
                if k < p {
                    assert(s[k] == e);
                } else if k > p {
                    assert(s[k - 1] == e);
                }
            }
            if s.contains(e) {
                let k = choose|k: int| 0 <= k < s.len() && s[k] == e;
                if k < p {
                    assert(r[k] == e);
                } else {
                    assert(r[k + 1] == e);
                }
            }
            if e == x {
                assert(r[p] == x);
            }
        }
    }
}

/// Adding a bookmark twice is adding it once.
pub proof fn law_bookmark_add_idempotent(s: Seq<usize>, x: usize)
    requires
        strictly_increasing(s),
    ensures
        bookmarks_with(bookmarks_with(s, x), x) == bookmarks_with(s, x),
{
    law_bookmark_added(s, x);
    assert(bookmarks_with(s, x).contains(x));
}

/// Removing a bookmark that was just added gives the list back.
pub proof fn law_bookmark_remove_undoes_add(s: Seq<usize>, x: usize)
    requires
        strictly_increasing(s),
        !s.contains(x),
    ensures
        bookmarks_without(bookmarks_with(s, x), x) == s,
{
    law_bookmark_added(s, x);
    lemma_insert_pos_bounds(s, x);
    let p = insert_pos(s, x);
    let r = s.insert(p, x);
    assert(r.contains(x)) by {
        assert(r[p] == x);
    }
    assert forall|k: int| 0 <= k < p implies r[k] != x by {
        assert(r[k] == s[k]);
    }
    lemma_index_of_is(r, x, p);
    assert(r.remove(p) =~= s);
}

/// Removing a bookmark keeps the list strictly increasing and leaves out
/// exactly that line.
pub proof fn law_bookmark_removed(s: Seq<usize>, x: usize)
    requires
        strictly_increasing(s),
    ensures
        strictly_increasing(bookmarks_without(s, x)),
        forall|e: usize| #[trigger] bookmarks_without(s, x).contains(e) <==> (s.contains(e) && e != x),
{
    if s.contains(x) {
        crate::text::lemma_index_of_bounds(s, x);
        let p = index_of(s, x);
        let r = s.remove(p);
        assert forall|i: int, j: int| 0 <= i < j < r.len() implies r[i] < r[j] by {
            if j < p {
                assert(r[i] == s[i] && r[j] == s[j]);
            } else if i < p {
                assert(r[i] == s[i] && r[j] == s[j + 1]);
            } else {
                assert(r[i] == s[i + 1] && r[j] == s[j + 1]);
            }
        }
        assert forall|e: usize| #[trigger] r.contains(e) <==> (s.contains(e) && e != x) by {
            if r.contains(e) {
                let k = choose|k: int| 0 <= k < r.len() && r[k] == e;
                if k < p {
                    assert(s[k] == e);
                    assert(s[k] < s[p]);
                } else {
                    assert(s[k + 1] == e);
                    assert(s[p] < s[k + 1]);
                }
            }
            if s.contains(e) && e != x {
                let k = choose|k: int| 0 <= k < s.len() && s[k] == e;
                assert(k != p);
                if k < p {
                    assert(r[k] == e);
                } else {
                    assert(r[k - 1] == e);
                }
            }
        }
    }
}

/// In the bookmark list, moving down after moving up comes back to the same
/// entry (for a selection from which moving up does not overflow, as
/// `select_next_bookmark` requires).
pub proof fn law_bookmark_selection_round_trip(v: AppView)
    requires
        v.bookmarks.len() > 0,
        v.bookmark_state.selected matches Some(i) && i < v.bookmarks.len() && i
            + v.bookmarks.len() <= usize::MAX,
    ensures
        after_select_previous_bookmark(after_select_next_bookmark(v)) == v,
{
    let n = v.bookmarks.len() as usize;
    let i = v.bookmark_state.selected.unwrap();
    let p = cyclic_prev(i, n);
    assert(cyclic_next(p, n) == i) by {
        if i == 0 {
            assert((i + n - 1) % (n as int) == n - 1) by {
                vstd::arithmetic::div_mod::lemma_small_mod((n - 1) as nat, n as nat);
            }
            assert((n - 1 + 1) % (n as int) == 0) by {
                vstd::arithmetic::div_mod::lemma_mod_self_0(n as int);
            }
        } else {
            assert((i + n - 1) % (n as int) == i - 1) by {
                vstd::arithmetic::div_mod::lemma_mod_add_multiples_vanish(i - 1, n as int);
                vstd::arithmetic::div_mod::lemma_small_mod((i - 1) as nat, n as nat);
            }
            vstd::arithmetic::div_mod::lemma_small_mod(i as nat, n as nat);
        }
    }
}

// ---------------------------------------------------------------------------
// Which lines are shown
// ---------------------------------------------------------------------------

/// A bookmarked line that exists, is not blank and parses is shown, whatever
/// the filters are.
pub proof fn law_bookmarked_lines_stay_visible(v: AppView, i: usize, filters: Seq<FilterView>)
    requires
        v.logs.spec_lines().len() <= usize::MAX,
        v.bookmarks.contains(i),
        v.logs.line_text(i as int) is Some,
        !is_blank(v.logs.line_text(i as int).unwrap()),
        parse_spec(v.logs.line_text(i as int).unwrap()) is Some,
    ensures
        visible_lines(v).contains(i),
        visible_lines(AppView { filters, ..v }).contains(i),
{
    let w = AppView { filters, ..v };
    let n = v.logs.spec_lines().len() as int;
    lemma_listing(n, |j: usize| line_visible(v, j));
    lemma_listing(n, |j: usize| line_visible(w, j));
    assert(line_visible(v, i));
    assert(line_visible(w, i));
}

// ---------------------------------------------------------------------------
// Highlighting
// ---------------------------------------------------------------------------

/// Each highlighted range of a split is an occurrence of the term.
proof fn lemma_highlighted_ranges(tb: Seq<u8>, mb: Seq<u8>, pos: int)
    requires
        0 <= pos,
    ensures
        forall|k: int|
            0 <= k < fragment_ranges(tb, mb, pos).len() && (#[trigger] fragment_ranges(tb, mb, pos)[k]).2
                ==> term_at(tb, mb, fragment_ranges(tb, mb, pos)[k].0)
                && fragment_ranges(tb, mb, pos)[k].1 == fragment_ranges(tb, mb, pos)[k].0 + mb.len(),
    decreases tb.len() - pos,
{
    if mb.len() > 0 && pos <= tb.len() {
        lemma_first_term_from(tb, mb, pos);
        let s = first_term_from(tb, mb, pos);
        if s < tb.len() {
            lemma_highlighted_ranges(tb, mb, s + mb.len());
            let before: Seq<(int, int, bool)> = if pos < s {
                seq![(pos, s, false)]
            } else {
                Seq::empty()
            };
            let rest = fragment_ranges(tb, mb, s + mb.len());
            let all = fragment_ranges(tb, mb, pos);
            assert(all == before + seq![(s, s + mb.len(), true)] + rest);
            assert forall|k: int| 0 <= k < all.len() && (#[trigger] all[k]).2 implies term_at(
                tb,
                mb,
                all[k].0,
            ) && all[k].1 == all[k].0 + mb.len() by {
                let b = before.len() as int;
                if k > b {
                    assert(all[k] == rest[k - b - 1]);
                }
            }
        }
    }
}

/// Every highlighted fragment of a split carries the term's index and equals
/// the term up to ASCII case; with an empty term nothing is highlighted.
pub proof fn law_split_highlights_the_term(tb: Seq<u8>, mb: Seq<u8>, idx: usize)
    ensures
        forall|k: int|
            0 <= k < split_spec(tb, mb, idx).len() && (#[trigger] split_spec(tb, mb, idx)[k]).1
                != FragmentType::Normal ==> split_spec(tb, mb, idx)[k].1 == FragmentType::Highlighted(idx)
                && eq_ignore_ascii_case(split_spec(tb, mb, idx)[k].0, mb),
{
    if mb.len() > 0 {
        lemma_highlighted_ranges(tb, mb, 0);
        let rs = fragment_ranges(tb, mb, 0);
        assert forall|k: int|
            0 <= k < split_spec(tb, mb, idx).len() && (#[trigger] split_spec(tb, mb, idx)[k]).1
                != FragmentType::Normal implies split_spec(tb, mb, idx)[k].1
            == FragmentType::Highlighted(idx) && eq_ignore_ascii_case(split_spec(tb, mb, idx)[k].0, mb) by {
            assert(rs[k].2);
            assert(term_at(tb, mb, rs[k].0));
        }
    }
}

proof fn lemma_pieces_joined_append(a: Seq<(Seq<u8>, SpanRole, FragmentType)>, b: Seq<(Seq<u8>, SpanRole, FragmentType)>)
    ensures
        pieces_joined(a + b) == pieces_joined(a) + pieces_joined(b),
    decreases a.len(),
{
    if a.len() == 0 {
        assert(a + b =~= b);
    } else {
        lemma_pieces_joined_append(a.drop_first(), b);
        assert((a + b).drop_first() =~= a.drop_first() + b);
        assert((a + b)[0] == a[0]);
    }
}

proof fn lemma_pieces_joined_one(x: (Seq<u8>, SpanRole, FragmentType))
    ensures
        pieces_joined(seq![x]) == x.0,
{
    let e = Seq::<(Seq<u8>, SpanRole, FragmentType)>::empty();
    assert(seq![x].drop_first() =~= e);
    assert(pieces_joined(e) == Seq::<u8>::empty());
    assert(pieces_joined(seq![x]) == seq![x][0].0 + pieces_joined(seq![x].drop_first()));
    assert(x.0 + Seq::<u8>::empty() =~= x.0);
}

proof fn lemma_pieces_joined_with_role(frags: Seq<(Seq<u8>, FragmentType)>, role: SpanRole)
    ensures
        pieces_joined(with_role(frags, role)) == joined(frags),
    decreases frags.len(),
{
    if frags.len() > 0 {
        let init = frags.drop_last();
        lemma_pieces_joined_with_role(init, role);
        assert(with_role(frags, role) =~= with_role(init, role) + seq![(frags.last().0, role, frags.last().1)]);
        lemma_pieces_joined_append(with_role(init, role), seq![(frags.last().0, role, frags.last().1)]);
        lemma_pieces_joined_one((frags.last().0, role, frags.last().1));
    } else {
        assert(with_role(frags, role) =~= Seq::<(Seq<u8>, SpanRole, FragmentType)>::empty());
    }
}

/// Highlighting never changes what a line shows: the pieces of a line, joined,
/// are the bytes of its marker, `[timestamp] `, `LEVEL ` and content, whatever
/// the highlight terms.
pub proof fn law_line_pieces_keep_text(log: LogLineView, sym: Seq<char>, terms: Seq<Seq<u8>>)
    ensures
        pieces_joined(line_pieces(log, sym, terms)) == encode_utf8(marker_text(sym)) + encode_utf8(
            timestamp_text(log.time_stamp),
        ) + encode_utf8(level_text(log.log_level)) + encode_utf8(log.content),
{
    let mk = encode_utf8(marker_text(sym));
    let t = encode_utf8(timestamp_text(log.time_stamp));
    let l = encode_utf8(level_text(log.log_level));
    let c = encode_utf8(log.content);
    let k = terms.len() as int;
    let m = seq![(mk, SpanRole::BookmarkMarker, FragmentType::Normal)];
    lemma_pieces_joined_one(m[0]);
    assert(m =~= seq![m[0]]);
    if terms.len() == 0 {
        let pt = seq![(t, SpanRole::Timestamp, FragmentType::Normal)];
        let pl = seq![(l, SpanRole::Level, FragmentType::Normal)];
        let pc = seq![(c, SpanRole::Content, FragmentType::Normal)];
        assert(line_pieces(log, sym, terms) =~= m + pt + pl + pc);
        lemma_pieces_joined_append(m + pt + pl, pc);
        lemma_pieces_joined_append(m + pt, pl);
        lemma_pieces_joined_append(m, pt);
        lemma_pieces_joined_one(pt[0]);
        lemma_pieces_joined_one(pl[0]);
        lemma_pieces_joined_one(pc[0]);
        assert(pt =~= seq![pt[0]]);
        assert(pl =~= seq![pl[0]]);
        assert(pc =~= seq![pc[0]]);
    } else {
        let wt = with_role(multi_spec(t, terms, k), SpanRole::Timestamp);
        let wl = with_role(multi_spec(l, terms, k), SpanRole::Level);
        let wc = with_role(multi_spec(c, terms, k), SpanRole::Content);
        lemma_pieces_joined_append(m + wt + wl, wc);
        lemma_pieces_joined_append(m + wt, wl);
        lemma_pieces_joined_append(m, wt);
        lemma_pieces_joined_with_role(multi_spec(t, terms, k), SpanRole::Timestamp);
        lemma_pieces_joined_with_role(multi_spec(l, terms, k), SpanRole::Level);
        lemma_pieces_joined_with_role(multi_spec(c, terms, k), SpanRole::Content);
        lemma_highlighting_keeps_text(t, terms, k);
        lemma_highlighting_keeps_text(l, terms, k);
        lemma_highlighting_keeps_text(c, terms, k);
    }
}

// ---------------------------------------------------------------------------
// Horizontal scrolling
// ---------------------------------------------------------------------------

/// Spans of text, scrolled `h` columns to the right from column `pos` on:
/// spans that end at or before column `h` vanish, the one that straddles it
/// loses its first characters.
pub open spec fn rescrolled(
    s: Seq<(Seq<char>, SpanRole, FragmentType)>,
    h: int,
    pos: int,
) -> Seq<(Seq<char>, SpanRole, FragmentType)>
    decreases s.len(),
{
    if s.len() == 0 {
        Seq::empty()
    } else {
        let t = s[0].0;
        let rest = rescrolled(s.drop_first(), h, pos + t.len());
        if pos + t.len() > h {
            seq![(t.skip(if h > pos { h - pos } else { 0 }), s[0].1, s[0].2)] + rest
        } else {
            rest
        }
    }
}

/// Scrolling a line by `h` columns is scrolling its unscrolled spans by `h`:
/// the spans whose end lies past column `h`, each without the characters
/// before that column.
pub proof fn law_scrolling_trims_unscrolled_spans(
    p: Seq<(Seq<u8>, SpanRole, FragmentType)>,
    h: int,
    pos: int,
)
    requires
        h >= 0,
        pos >= 0,
    ensures
        scrolled(p, h, pos) == rescrolled(scrolled(p, 0, pos), h, pos),
    decreases p.len(),
{
    if p.len() > 0 {
        let t = decode_utf8(p[0].0);
        let rest = p.drop_first();
        law_scrolling_trims_unscrolled_spans(rest, h, pos + t.len());
        let s0 = scrolled(p, 0, pos);
        let r0 = scrolled(rest, 0, pos + t.len());
        if pos + t.len() > 0 {
            let first = (t.skip(0), p[0].1, p[0].2);
            assert(t.skip(0) =~= t);
            assert(s0 == seq![first] + r0);
            assert((seq![first] + r0).drop_first() =~= r0);
            assert((seq![first] + r0)[0] == first);
        } else {
            assert(s0 == r0);
        }
    }
}

/// Scrolling a line from column `pos` on, `scroll` columns to the right, shows
/// its text without its first `scroll - pos` characters (all of it where that
/// is not positive, nothing where the text is shorter).
pub proof fn law_scrolling_drops_leading_chars(
    p: Seq<(Seq<u8>, SpanRole, FragmentType)>,
    scroll: int,
    pos: int,
)
    ensures
        span_texts(scrolled(p, scroll, pos)) == piece_texts(p).skip(
            clamped(scroll - pos, piece_texts(p).len() as int),
        ),
    decreases p.len(),
{
    if p.len() == 0 {
        assert(piece_texts(p).skip(0) =~= Seq::<char>::empty());
    } else {
        let t = decode_utf8(p[0].0);
        let rest = p.drop_first();
        let r = piece_texts(rest);
        law_scrolling_drops_leading_chars(rest, scroll, pos + t.len());
        let rs = scrolled(rest, scroll, pos + t.len());
        assert(piece_texts(p) == t + r);
        if pos + t.len() > scroll {
            let a = if scroll > pos {
                scroll - pos
            } else {
                0
            };
            let first = (t.skip(a), p[0].1, p[0].2);
            assert(scrolled(p, scroll, pos) == seq![first] + rs);
            assert((seq![first] + rs).drop_first() =~= rs);
            assert(span_texts(seq![first] + rs) == t.skip(a) + span_texts(rs));
            assert(r.skip(0) =~= r);
            assert((t + r).skip(a) =~= t.skip(a) + r);
        } else {
            assert(scrolled(p, scroll, pos) == rs);
            if scroll - pos >= t.len() + r.len() {
                assert((t + r).skip((t.len() + r.len()) as int) =~= r.skip(r.len() as int));
            } else {
                assert((t + r).skip(scroll - pos) =~= r.skip(scroll - pos - t.len()));
            }
        }
    }
}

// ---------------------------------------------------------------------------
// The lines of a file
// ---------------------------------------------------------------------------

/// Splitting at a delimiter and joining the pieces with it gives the sequence back.
pub proof fn law_split_then_join<T>(s: Seq<T>, d: T)
    ensures
        join_with(split_seq(s, d), d) == s,
    decreases s.len(),
{
    lemma_index_of_bounds(s, d);
    let i = index_of(s, d);
    if i < s.len() {
        let rest = s.skip(i + 1);
        law_split_then_join(rest, d);
        lemma_split_len(rest, d);
        let pieces = split_seq(s, d);
        assert(pieces.drop_first() =~= split_seq(rest, d));
        assert(s.take(i) + seq![d] + rest =~= s);
    }
}

/// A log has at least one line: an empty file is one empty line.
pub proof fn law_log_has_a_line(store: LogStore)
    ensures
        store.spec_lines().len() >= 1,
{
    lemma_split_len(store.spec_data(), newline());
}

/// The lines of a log, joined with newlines, are the bytes of its file.
pub proof fn law_lines_rebuild_the_file(store: LogStore)
    ensures
        join_with(store.spec_lines(), newline()) == store.spec_data(),
{
    law_split_then_join(store.spec_data(), newline());
}

// ---------------------------------------------------------------------------
// The parts of a shown line
// ---------------------------------------------------------------------------

/// The pieces of a line that belong to one part, with their fragment types.
pub open spec fn pieces_of_role(p: Seq<(Seq<u8>, SpanRole, FragmentType)>, role: SpanRole) -> Seq<(Seq<u8>, FragmentType)>
    decreases p.len(),
{
    if p.len() == 0 {
        Seq::empty()
    } else {
        let first: Seq<(Seq<u8>, FragmentType)> = if p[0].1 == role {
            seq![(p[0].0, p[0].2)]
        } else {
            Seq::empty()
        };
        first + pieces_of_role(p.drop_first(), role)
    }
}

proof fn lemma_pieces_of_role_append(a: Seq<(Seq<u8>, SpanRole, FragmentType)>, b: Seq<(Seq<u8>, SpanRole, FragmentType)>, role: SpanRole)
    ensures
        pieces_of_role(a + b, role) == pieces_of_role(a, role) + pieces_of_role(b, role),
    decreases a.len(),
{
    if a.len() == 0 {
        assert(a + b =~= b);
        assert(pieces_of_role(a, role) + pieces_of_role(b, role) =~= pieces_of_role(b, role));
    } else {
        lemma_pieces_of_role_append(a.drop_first(), b, role);
        assert((a + b).drop_first() =~= a.drop_first() + b);
        assert((a + b)[0] == a[0]);
        let first: Seq<(Seq<u8>, FragmentType)> = if a[0].1 == role {
            seq![(a[0].0, a[0].2)]
        } else {
            Seq::empty()
        };
        assert(first + (pieces_of_role(a.drop_first(), role) + pieces_of_role(b, role)) =~= (first
            + pieces_of_role(a.drop_first(), role)) + pieces_of_role(b, role));
    }
}

proof fn lemma_pieces_of_role_with_role(f: Seq<(Seq<u8>, FragmentType)>, r: SpanRole, role: SpanRole)
    ensures
        pieces_of_role(with_role(f, r), role) == if r == role {
            f
        } else {
            Seq::<(Seq<u8>, FragmentType)>::empty()
        },
    decreases f.len(),
{
    if f.len() > 0 {
        let w = with_role(f, r);
        lemma_pieces_of_role_with_role(f.drop_first(), r, role);
        assert(w.drop_first() =~= with_role(f.drop_first(), r));
        assert(w[0] == (f[0].0, r, f[0].1));
        if r == role {
            assert(seq![(f[0].0, f[0].1)] + f.drop_first() =~= f);
        } else {
            assert(Seq::<(Seq<u8>, FragmentType)>::empty() + Seq::<(Seq<u8>, FragmentType)>::empty() =~= Seq::<(Seq<u8>, FragmentType)>::empty());
        }
    } else {
        assert(with_role(f, r) =~= Seq::<(Seq<u8>, SpanRole, FragmentType)>::empty());
    }
}

/// Each part of a shown line is highlighted on its own: the timestamp pieces
/// are `"[{timestamp}] "` split at the terms, the level pieces `"{level:?} "`
/// split at the terms, and the content pieces the content split at the terms;
/// the marker is one plain piece.
pub proof fn law_each_part_is_highlighted(log: LogLineView, sym: Seq<char>, terms: Seq<Seq<u8>>)
    ensures
        pieces_of_role(line_pieces(log, sym, terms), SpanRole::BookmarkMarker) == seq![
            (encode_utf8(marker_text(sym)), FragmentType::Normal),
        ],
        pieces_of_role(line_pieces(log, sym, terms), SpanRole::Timestamp) == multi_spec(
            encode_utf8(timestamp_text(log.time_stamp)),
            terms,
            terms.len() as int,
        ),
        pieces_of_role(line_pieces(log, sym, terms), SpanRole::Level) == multi_spec(
            encode_utf8(level_text(log.log_level)),
            terms,
            terms.len() as int,
        ),
        pieces_of_role(line_pieces(log, sym, terms), SpanRole::Content) == multi_spec(
            encode_utf8(log.content),
            terms,
            terms.len() as int,
        ),
{
    let mk = encode_utf8(marker_text(sym));
    let t = encode_utf8(timestamp_text(log.time_stamp));
    let l = encode_utf8(level_text(log.log_level));
    let c = encode_utf8(log.content);
    let k = terms.len() as int;
    let m = seq![(mk, SpanRole::BookmarkMarker, FragmentType::Normal)];
    let m0 = seq![(mk, FragmentType::Normal)];
    assert(m =~= with_role(m0, SpanRole::BookmarkMarker));
    let (ft, fl, fc) = if k == 0 {
        (seq![(t, FragmentType::Normal)], seq![(l, FragmentType::Normal)], seq![(c, FragmentType::Normal)])
    } else {
        (multi_spec(t, terms, k), multi_spec(l, terms, k), multi_spec(c, terms, k))
    };
    let wt = with_role(ft, SpanRole::Timestamp);
    let wl = with_role(fl, SpanRole::Level);
    let wc = with_role(fc, SpanRole::Content);
    assert(line_pieces(log, sym, terms) =~= m + wt + wl + wc);
    assert(multi_spec(t, terms, 0) == seq![(t, FragmentType::Normal)]);
    assert(multi_spec(l, terms, 0) == seq![(l, FragmentType::Normal)]);
    assert(multi_spec(c, terms, 0) == seq![(c, FragmentType::Normal)]);
    let roles = seq![SpanRole::BookmarkMarker, SpanRole::Timestamp, SpanRole::Level, SpanRole::Content];
    assert forall|j: int| 0 <= j < 4 implies ({
        let role = #[trigger] roles[j];
        pieces_of_role(m + wt + wl + wc, role) == pieces_of_role(m, role) + pieces_of_role(wt, role)
            + pieces_of_role(wl, role) + pieces_of_role(wc, role)
    }) by {
        let role = roles[j];
        lemma_pieces_of_role_append(m + wt + wl, wc, role);
        lemma_pieces_of_role_append(m + wt, wl, role);
        lemma_pieces_of_role_append(m, wt, role);
    }
    let e = Seq::<(Seq<u8>, FragmentType)>::empty();
    assert forall|j: int| 0 <= j < 4 implies ({
        let role = #[trigger] roles[j];
        &&& pieces_of_role(m, role) == (if role == SpanRole::BookmarkMarker { m0 } else { e })
        &&& pieces_of_role(wt, role) == (if role == SpanRole::Timestamp { ft } else { e })
        &&& pieces_of_role(wl, role) == (if role == SpanRole::Level { fl } else { e })
        &&& pieces_of_role(wc, role) == (if role == SpanRole::Content { fc } else { e })
    }) by {
        let role = roles[j];
        lemma_pieces_of_role_with_role(m0, SpanRole::BookmarkMarker, role);
        lemma_pieces_of_role_with_role(ft, SpanRole::Timestamp, role);
        lemma_pieces_of_role_with_role(fl, SpanRole::Level, role);
        lemma_pieces_of_role_with_role(fc, SpanRole::Content, role);
    }
    assert(roles[0] == SpanRole::BookmarkMarker);
    assert(roles[1] == SpanRole::Timestamp);
    assert(roles[2] == SpanRole::Level);
    assert(roles[3] == SpanRole::Content);
    assert(m0 + e + e + e =~= m0);
    assert(e + ft + e + e =~= ft);
    assert(e + e + fl + e =~= fl);
    assert(e + e + e + fc =~= fc);
}

/// The level shown on a line is the level's word as log lines write it, in
/// title case, followed by a space: the first letter as written, the others
/// lower-cased. So different levels show different names.
pub proof fn law_level_text_names_the_level(l: LogLevel)
    ensures
        level_text(l).len() == level_word(l).len() + 1,
        level_text(l)[0] == level_word(l)[0],
        forall|i: int| 0 < i < level_word(l).len() ==> (#[trigger] level_text(l)[i]) as int == level_word(l)[i] as int + 32,
        level_text(l).last() == ' ',
        forall|m: LogLevel| m != l ==> level_text(m) != level_text(l),
{
    assert forall|m: LogLevel| m != l implies level_text(m) != level_text(l) by {
        if level_text(m) == level_text(l) {
            assert(level_text(m)[0] == level_text(l)[0]);
            assert(level_text(m).len() == level_text(l).len());
            assert(level_text(m)[1] == level_text(l)[1]);
        }
    }
}

// ---------------------------------------------------------------------------
// Chaining filters
// ---------------------------------------------------------------------------

/// A line that holds none of terms `0..=k` fails their verdict.
proof fn lemma_verdict_without_hits(line: Seq<char>, terms: Seq<(Seq<char>, FilterOp)>, k: int)
    requires
        0 <= k < terms.len(),
        forall|j: int| 0 <= j <= k ==> !contains_seq(line, #[trigger] terms[j].0),
    ensures
        !filters_verdict(line, terms, k),
    decreases k,
{
    assert(!contains_seq(line, terms[k].0));
    if k > 0 {
        lemma_verdict_without_hits(line, terms, k - 1);
    } else {
        assert(!contains_seq(line, terms[0].0));
    }
}

/// Each filter is joined to the ones before it by the operator of the filter
/// just before it: a line that holds term `k` and none before it passes
/// exactly when that operator is `Or`.
pub proof fn law_filter_joined_by_previous_op(line: Seq<char>, terms: Seq<(Seq<char>, FilterOp)>, k: int)
    requires
        1 <= k < terms.len(),
        forall|j: int| 0 <= j < k ==> !contains_seq(line, #[trigger] terms[j].0),
        contains_seq(line, terms[k].0),
    ensures
        filters_verdict(line, terms, k) == (terms[k - 1].1 == FilterOp::Or),
{
    lemma_verdict_without_hits(line, terms, k - 1);
}

/// Three filters combine from the left: `(hit 0 op0 hit 1) op1 hit 2`.
pub proof fn law_three_filters(line: Seq<char>, terms: Seq<(Seq<char>, FilterOp)>)
    requires
        terms.len() == 3,
    ensures
        ({
            let h0 = contains_seq(line, terms[0].0);
            let h1 = contains_seq(line, terms[1].0);
            let h2 = contains_seq(line, terms[2].0);
            let first = if terms[0].1 == FilterOp::And {
                h0 && h1
            } else {
                h0 || h1
            };
            filters_verdict(line, terms, 2) == if terms[1].1 == FilterOp::And {
                first && h2
            } else {
                first || h2
            }
        }),
{
    assert(filters_verdict(line, terms, 0) == contains_seq(line, terms[0].0));
    assert(filters_verdict(line, terms, 1) == (if terms[0].1 == FilterOp::And {
        contains_seq(line, terms[0].0) && contains_seq(line, terms[1].0)
    } else {
        contains_seq(line, terms[0].0) || contains_seq(line, terms[1].0)
    }));
}

// ---------------------------------------------------------------------------
// Finding a shown match
// ---------------------------------------------------------------------------

/// `first_shown_step` from `j0` finds a step when some step in `j0..=n` leads to
/// a shown match.
proof fn lemma_first_shown_step_finds(ms: Seq<usize>, c: usize, vis: Seq<usize>, j0: int, j: int)
    requires
        1 <= j0 <= j <= ms.len(),
        vis.contains(ms[cursor_after(c, ms.len() as usize, j as nat) as int]),
    ensures
        first_shown_step(ms, c, vis, j0) is Some,
    decreases j - j0,
{
    if !vis.contains(ms[cursor_after(c, ms.len() as usize, j0 as nat) as int]) {
        lemma_first_shown_step_finds(ms, c, vis, j0 + 1, j);
    }
}

/// When some match is a shown line, stepping to the next match finds one: the
/// selected row then shows the current match, which is a shown line. With a
/// single shown match the search comes round to it again.
pub proof fn law_next_match_finds_a_shown_match(v: AppView, k: int)
    requires
        v.logs.spec_lines().len() <= usize::MAX,
        0 < v.search.matches.len() <= usize::MAX,
        v.search.current_match < v.search.matches.len(),
        0 <= k < v.search.matches.len(),
        visible_lines(v).contains(v.search.matches[k]),
    ensures
        ({
            let w = after_next_search_match(v);
            &&& w.list_state.selected matches Some(p) && p < visible_lines(v).len()
            &&& current_match_of(w.search) == Some(visible_lines(v)[w.list_state.selected.unwrap() as int])
        }),
{
    let ms = v.search.matches;
    let n = ms.len() as usize;
    let c = v.search.current_match;
    let vis = visible_lines(v);
    assert(vis.len() > 0);
    let j: int = if k > c { k - c } else { k - c + n };
    assert(1 <= j <= n);
    law_cursor_after_is_modular(c, n, j as nat);
    assert((c + j) % (n as int) == k) by {
        if k > c {
            vstd::arithmetic::div_mod::lemma_small_mod(k as nat, n as nat);
        } else {
            vstd::arithmetic::div_mod::lemma_mod_add_multiples_vanish(k, n as int);
            vstd::arithmetic::div_mod::lemma_small_mod(k as nat, n as nat);
        }
    }
    lemma_first_shown_step_finds(ms, c, vis, 1, j);
    law_next_match_selects_current(v);
}

// ---------------------------------------------------------------------------
// Keys in the bookmark list
// ---------------------------------------------------------------------------

/// In the bookmark list, `Down` moves the selection one entry down, wrapping
/// to the first, and `Up` then `Down` gives the state back.
pub proof fn law_bookmark_keys(v: AppView)
    requires
        v.mode == Mode::BookMark,
        v.bookmarks.len() > 0,
        v.bookmark_state.selected matches Some(i) && i < v.bookmarks.len() && i
            + v.bookmarks.len() <= usize::MAX,
    ensures
        key_effect(v, Key::Down).bookmark_state.selected == Some(
            ((v.bookmark_state.selected.unwrap() + 1) % (v.bookmarks.len() as int)) as usize,
        ),
        key_effect(v, Key::Down).bookmarks == v.bookmarks,
        key_effect(v, Key::Down).mode == Mode::BookMark,
        key_effect(key_effect(v, Key::Up), Key::Down) == v,
{
    law_bookmark_selection_round_trip(v);
}

} // verus!
