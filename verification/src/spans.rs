use vstd::prelude::*;
use vstd::string::StringSliceAdditionalSpecFns;
use vstd::utf8::{
    decode_utf8, encode_utf8, encode_utf8_valid_utf8,
    is_char_boundary_iff_not_is_continuation_byte, is_char_boundary_start_end_of_seq,
    is_continuation_byte, valid_utf8_split,
};

use crate::log_line::{LogLevel, LogLine, LogLineView};
use crate::text::{ascii_lower, ascii_lower_byte, chars_of, copy_range, eq_ignore_ascii_case, string_from_chars};

verus! {

/// Whether a piece of text is plain or highlighted by the term with the given index.
#[derive(Debug, Clone, Copy, PartialEq, Eq, Structural)]
pub enum FragmentType {
    Highlighted(usize),
    Normal,
}

// ---------------------------------------------------------------------------
// Splitting one text at the occurrences of one term
// ---------------------------------------------------------------------------

/// Byte `p` of `tb` starts a character (for UTF-8: it is not a continuation byte).
pub open spec fn is_char_start(tb: Seq<u8>, p: int) -> bool {
    0 <= p < tb.len() && !is_continuation_byte(tb[p])
}

/// The term `mb` occurs at character start `p` of `tb`, up to ASCII case.
pub open spec fn term_at(tb: Seq<u8>, mb: Seq<u8>, p: int) -> bool {
    &&& is_char_start(tb, p)
    &&& p + mb.len() <= tb.len()
    &&& eq_ignore_ascii_case(tb.subrange(p, p + mb.len()), mb)
}

/// The first position at or after `p` where the term occurs, or `tb.len()`.
pub open spec fn first_term_from(tb: Seq<u8>, mb: Seq<u8>, p: int) -> int
    decreases tb.len() - p,
{
    if p >= tb.len() || p < 0 {
        tb.len() as int
    } else if term_at(tb, mb, p) {
        p
    } else {
        first_term_from(tb, mb, p + 1)
    }
}

/// `first_term_from` finds the first occurrence at or after `p`.
pub proof fn lemma_first_term_from(tb: Seq<u8>, mb: Seq<u8>, p: int)
    requires
        0 <= p,
    ensures
        p <= first_term_from(tb, mb, p) || (p > tb.len() && first_term_from(tb, mb, p) == tb.len()),
        first_term_from(tb, mb, p) <= tb.len(),
        first_term_from(tb, mb, p) < tb.len() ==> term_at(tb, mb, first_term_from(tb, mb, p)),
        forall|q: int| p <= q < first_term_from(tb, mb, p) ==> !term_at(tb, mb, q),
    decreases tb.len() - p,
{
    if p < tb.len() && !term_at(tb, mb, p) {
        lemma_first_term_from(tb, mb, p + 1);
    }
}

/// The pieces of `tb` from `pos` on, as `(start, end, highlighted)`: the
/// leftmost occurrence of the term at or after `pos` is highlighted, the text
/// before it is plain, and the search goes on after it; what is left after the
/// last occurrence is plain. No piece is empty.
pub open spec fn fragment_ranges(tb: Seq<u8>, mb: Seq<u8>, pos: int) -> Seq<(int, int, bool)>
    decreases tb.len() - pos,
{
    if mb.len() == 0 || pos < 0 || pos > tb.len() {
        Seq::empty()
    } else {
        let s = first_term_from(tb, mb, pos);
        proof {
            lemma_first_term_from(tb, mb, pos);
        }
        if s >= tb.len() {
            if pos < tb.len() {
                seq![(pos, tb.len() as int, false)]
            } else {
                Seq::empty()
            }
        } else {
            let before: Seq<(int, int, bool)> = if pos < s {
                seq![(pos, s, false)]
            } else {
                Seq::empty()
            };
            before + seq![(s, s + mb.len(), true)] + fragment_ranges(tb, mb, s + mb.len())
        }
    }
}

/// Cutting `tb` at `p + mb.len()` lands between characters, or `p` is no
/// character start, or the term would not fit: the cut at `p` cannot panic.
pub open spec fn cut_ok(tb: Seq<u8>, mb: Seq<u8>, p: int) -> bool {
    is_char_start(tb, p) && p + mb.len() < tb.len() ==> !is_continuation_byte(
        tb[p + mb.len()],
    )
}

/// Every cut that the scan from `pos` makes is at a character boundary: the
/// inputs on which splitting does not panic.
pub open spec fn cuts_ok_from(tb: Seq<u8>, mb: Seq<u8>, pos: int) -> bool
    decreases tb.len() - pos,
{
    if mb.len() == 0 || pos < 0 || pos > tb.len() {
        true
    } else {
        let s = first_term_from(tb, mb, pos);
        proof {
            lemma_first_term_from(tb, mb, pos);
        }
        &&& forall|p: int| pos <= p <= s && p < tb.len() ==> cut_ok(tb, mb, p)
        &&& (s < tb.len() ==> cuts_ok_from(tb, mb, s + mb.len()))
    }
}

/// The fragment that a range of `tb` stands for.
pub open spec fn range_fragment(tb: Seq<u8>, idx: usize, r: (int, int, bool)) -> (Seq<u8>, FragmentType) {
    (
        tb.subrange(r.0, r.1),
        if r.2 {
            FragmentType::Highlighted(idx)
        } else {
            FragmentType::Normal
        },
    )
}

/// The fragments that ranges of `tb` stand for.
pub open spec fn ranges_to_fragments(tb: Seq<u8>, idx: usize, rs: Seq<(int, int, bool)>) -> Seq<(Seq<u8>, FragmentType)> {
    rs.map_values(|r: (int, int, bool)| range_fragment(tb, idx, r))
}

/// The fragments of a text split at the occurrences of a term, as bytes; an
/// empty term leaves the text whole.
pub open spec fn split_spec(tb: Seq<u8>, mb: Seq<u8>, idx: usize) -> Seq<(Seq<u8>, FragmentType)> {
    if mb.len() == 0 {
        seq![(tb, FragmentType::Normal)]
    } else {
        ranges_to_fragments(tb, idx, fragment_ranges(tb, mb, 0))
    }
}

/// Splitting `tb` at `mb` does not panic.
pub open spec fn split_ok(tb: Seq<u8>, mb: Seq<u8>) -> bool {
    mb.len() == 0 || cuts_ok_from(tb, mb, 0)
}

/// The bytes of each fragment, with its type.
pub open spec fn fragment_bytes<'a>(v: Seq<(&'a str, FragmentType)>) -> Seq<(Seq<u8>, FragmentType)> {
    v.map_values(|f: (&'a str, FragmentType)| (f.0.spec_bytes(), f.1))
}

/// Whether `tb[p..p + m]` equals `mb` up to ASCII case.
fn eq_ignore_case_at(tb: &[u8], p: usize, mb: &[u8]) -> (r: bool)
    requires
        p + mb@.len() <= tb@.len(),
    ensures
        r == eq_ignore_ascii_case(tb@.subrange(p as int, p + mb@.len()), mb@),
{
    let m = mb.len();
    let n = tb.len();
    let mut k: usize = 0;
    while k < m
        invariant
            m == mb@.len(),
            n == tb@.len(),
            p + m <= n,
            k <= m,
            forall|j: int| 0 <= j < k ==> ascii_lower(tb@[p + j]) == ascii_lower(mb@[j]),
        decreases m - k,
    {
        if ascii_lower_byte(tb[p + k]) != ascii_lower_byte(mb[k]) {
            assert(tb@.subrange(p as int, p + m)[k as int] == tb@[p + k]);
            return false;
        }
        k = k + 1;
    }
    assert forall|j: int| 0 <= j < m implies ascii_lower(
        #[trigger] tb@.subrange(p as int, p + m)[j],
    ) == ascii_lower(mb@[j]) by {
        assert(tb@.subrange(p as int, p + m)[j] == tb@[p + j]);
    }
    true
}

/// `text[a..b]`, for `a` and `b` at character boundaries.
fn str_range<'a>(text: &'a str, a: usize, b: usize) -> (r: &'a str)
    requires
        a <= b <= text.spec_bytes().len(),
        a == text.spec_bytes().len() || !is_continuation_byte(text.spec_bytes()[a as int]),
        b == text.spec_bytes().len() || !is_continuation_byte(text.spec_bytes()[b as int]),
    ensures
        r.spec_bytes() == text.spec_bytes().subrange(a as int, b as int),
{
    let ghost tb = text.spec_bytes();
    proof {
        encode_utf8_valid_utf8(text@);
        is_char_boundary_start_end_of_seq(tb);
        if a < tb.len() {
            is_char_boundary_iff_not_is_continuation_byte(tb, a as int);
        }
    }
    let (_, rest) = text.split_at(a);
    let ghost rb = rest.spec_bytes();
    proof {
        valid_utf8_split(tb, a as int);
        assert(rb == tb.subrange(a as int, tb.len() as int));
        is_char_boundary_start_end_of_seq(rb);
        if b < tb.len() {
            assert(rb[b - a] == tb[b as int]);
            is_char_boundary_iff_not_is_continuation_byte(rb, b - a);
        }
    }
    let (mid, _) = rest.split_at(b - a);
    assert(mid.spec_bytes() =~= tb.subrange(a as int, b as int));
    mid
}

/// Splits `text` at the occurrences of `term`, compared up to ASCII case at
/// character starts, leftmost first and without overlap; see `split_spec`.
/// Nothing comes back exactly where splitting would cut a character apart.
pub fn try_split_fragment<'a>(text: &'a str, term: &str, term_idx: usize) -> (r: Option<Vec<(&'a str, FragmentType)>>)
    ensures
        r is Some <==> split_ok(text.spec_bytes(), term.spec_bytes()),
        r matches Some(v) ==> fragment_bytes(v@) == split_spec(text.spec_bytes(), term.spec_bytes(), term_idx),
{
    let ghost tb = text.spec_bytes();
    let ghost mb = term.spec_bytes();
    let tbs = text.as_bytes();
    let mbs = term.as_bytes();
    let n = tbs.len();
    let m = mbs.len();
    if m == 0 {
        let mut r = Vec::new();
        r.push((text, FragmentType::Normal));
        assert(fragment_bytes(r@) =~= seq![(tb, FragmentType::Normal)]);
        return Some(r);
    }
    let mut result: Vec<(&'a str, FragmentType)> = Vec::new();
    let mut prev_end: usize = 0;
    let mut p: usize = 0;
    let ghost done: Seq<(int, int, bool)> = Seq::empty();
    proof {
        lemma_first_term_from(tb, mb, 0);
        assert(fragment_bytes(result@) =~= ranges_to_fragments(tb, term_idx, done));
        encode_utf8_valid_utf8(text@);
        if n > 0 {
            is_char_boundary_start_end_of_seq(tb);
            is_char_boundary_iff_not_is_continuation_byte(tb, 0);
        }
    }
    while p < n
        invariant
            tbs@ == tb,
            mbs@ == mb,
            tb == text.spec_bytes(),
            mb == term.spec_bytes(),
            n == tb.len(),
            m == mb.len() > 0,
            prev_end <= n,
            p <= n,
            fragment_ranges(tb, mb, 0) == done + fragment_ranges(tb, mb, prev_end as int),
            cuts_ok_from(tb, mb, 0) == cuts_ok_from(tb, mb, prev_end as int),
            prev_end <= p ==> first_term_from(tb, mb, prev_end as int) == first_term_from(tb, mb, p as int),
            prev_end <= p ==> forall|q: int| prev_end <= q < p ==> cut_ok(tb, mb, q),
            prev_end > p ==> prev_end <= p + m,
            prev_end == n || is_char_start(tb, prev_end as int),
            fragment_bytes(result@) == ranges_to_fragments(tb, term_idx, done),
        decreases n - p,
    {
        if p >= prev_end && (tbs[p] < 0x80 || tbs[p] > 0xbf) {
            proof {
                lemma_first_term_from(tb, mb, prev_end as int);
                lemma_first_term_from(tb, mb, p as int);
            }
            let fits = n - p >= m;
            if fits && p + m < n && tbs[p + m] >= 0x80 && tbs[p + m] <= 0xbf {
                proof {
                    assert(!cut_ok(tb, mb, p as int));
                    assert(!cuts_ok_from(tb, mb, prev_end as int));
                }
                return None;
            }
            assert(cut_ok(tb, mb, p as int));
            let hit = fits && eq_ignore_case_at(tbs, p, mbs);
            if hit {
                proof {
                    assert(term_at(tb, mb, p as int));
                    assert(first_term_from(tb, mb, p as int) == p);
                    assert(cuts_ok_from(tb, mb, prev_end as int) == cuts_ok_from(tb, mb, p + m));
                }
                let ghost before: Seq<(int, int, bool)> = if prev_end < p {
                    seq![(prev_end as int, p as int, false)]
                } else {
                    Seq::empty()
                };
                let ghost r0 = result@;
                if prev_end < p {
                    let piece = str_range(text, prev_end, p);
                    result.push((piece, FragmentType::Normal));
                    proof {
                        assert(fragment_bytes(result@) =~= fragment_bytes(r0).push(range_fragment(tb, term_idx, (prev_end as int, p as int, false))));
                        assert(ranges_to_fragments(tb, term_idx, done + before) =~= ranges_to_fragments(tb, term_idx, done).push(range_fragment(tb, term_idx, (prev_end as int, p as int, false))));
                    }
                } else {
                    proof {
                        assert(done + before =~= done);
                    }
                }
                let ghost r1 = result@;
                let hl = str_range(text, p, p + m);
                result.push((hl, FragmentType::Highlighted(term_idx)));
                proof {
                    let d2 = done + before + seq![(p as int, p + m, true)];
                    assert(fragment_bytes(result@) =~= fragment_bytes(r1).push(range_fragment(tb, term_idx, (p as int, p + m, true))));
                    assert(ranges_to_fragments(tb, term_idx, d2) =~= ranges_to_fragments(tb, term_idx, done + before).push(range_fragment(tb, term_idx, (p as int, p + m, true))));
                    assert(fragment_ranges(tb, mb, prev_end as int) == before + seq![(p as int, p + m, true)] + fragment_ranges(tb, mb, p + m));
                    assert(fragment_ranges(tb, mb, 0) =~= d2 + fragment_ranges(tb, mb, p + m));
                    assert(fragment_bytes(result@) =~= ranges_to_fragments(tb, term_idx, d2));
                    done = d2;
                }
                prev_end = p + m;
            } else {
                proof {
                    assert(!term_at(tb, mb, p as int));
                    assert(first_term_from(tb, mb, p as int) == first_term_from(tb, mb, p + 1));
                }
            }
        } else {
            proof {
                if p >= prev_end {
                    assert(!term_at(tb, mb, p as int));
                    assert(first_term_from(tb, mb, p as int) == first_term_from(tb, mb, p + 1));
                    assert(cut_ok(tb, mb, p as int));
                }
            }
        }
        p = p + 1;
    }
    proof {
        lemma_first_term_from(tb, mb, prev_end as int);
        assert(cuts_ok_from(tb, mb, prev_end as int));
    }
    let ghost tail: Seq<(int, int, bool)> = if prev_end < n {
        seq![(prev_end as int, n as int, false)]
    } else {
        Seq::empty()
    };
    let ghost r0 = result@;
    if prev_end < n {
        let piece = str_range(text, prev_end, n);
        result.push((piece, FragmentType::Normal));
        proof {
            assert(fragment_bytes(result@) =~= fragment_bytes(r0).push(range_fragment(tb, term_idx, (prev_end as int, n as int, false))));
            assert(ranges_to_fragments(tb, term_idx, done + tail) =~= ranges_to_fragments(tb, term_idx, done).push(range_fragment(tb, term_idx, (prev_end as int, n as int, false))));
        }
    } else {
        proof {
            assert(done + tail =~= done);
        }
    }
    proof {
        assert(fragment_ranges(tb, mb, prev_end as int) == tail);
        assert(fragment_ranges(tb, mb, 0) =~= done + tail);
        assert(fragment_bytes(result@) =~= ranges_to_fragments(tb, term_idx, done + tail));
    }
    Some(result)
}

/// Splits `text` at the occurrences of `term`; see `split_spec`.
pub fn split_fragment<'a>(text: &'a str, term: &str, term_idx: usize) -> (r: Vec<(&'a str, FragmentType)>)
    requires
        split_ok(text.spec_bytes(), term.spec_bytes()),
    ensures
        fragment_bytes(r@) == split_spec(text.spec_bytes(), term.spec_bytes(), term_idx),
{
    match try_split_fragment(text, term, term_idx) {
        Some(v) => v,
        None => Vec::new(),
    }
}

// ---------------------------------------------------------------------------
// Splitting a text at the occurrences of several terms
// ---------------------------------------------------------------------------

/// What one fragment becomes under a further term: highlighted fragments stay,
/// plain ones are split.
pub open spec fn refine_one(f: (Seq<u8>, FragmentType), term: Seq<u8>, idx: usize) -> Seq<(Seq<u8>, FragmentType)> {
    match f.1 {
        FragmentType::Highlighted(_) => seq![f],
        FragmentType::Normal => split_spec(f.0, term, idx),
    }
}

/// The fragments split further at the occurrences of a term (term `idx`).
pub open spec fn refine(frags: Seq<(Seq<u8>, FragmentType)>, term: Seq<u8>, idx: usize) -> Seq<(Seq<u8>, FragmentType)>
    decreases frags.len(),
{
    if frags.len() == 0 {
        Seq::empty()
    } else {
        refine(frags.drop_last(), term, idx) + refine_one(frags.last(), term, idx)
    }
}

/// Splitting each plain fragment at the term does not panic.
pub open spec fn refine_ok(frags: Seq<(Seq<u8>, FragmentType)>, term: Seq<u8>) -> bool {
    forall|k: int| 0 <= k < frags.len() && (#[trigger] frags[k]).1 == FragmentType::Normal ==> split_ok(frags[k].0, term)
}

/// The fragments of `content` after the first `k` terms, each non-empty term
/// splitting what is still plain; a term keeps its index among all terms.
pub open spec fn multi_spec(content: Seq<u8>, terms: Seq<Seq<u8>>, k: int) -> Seq<(Seq<u8>, FragmentType)>
    decreases k,
{
    if k <= 0 {
        seq![(content, FragmentType::Normal)]
    } else if terms[k - 1].len() == 0 {
        multi_spec(content, terms, k - 1)
    } else {
        refine(multi_spec(content, terms, k - 1), terms[k - 1], (k - 1) as usize)
    }
}

/// No split that the first `k` terms make panics.
pub open spec fn multi_ok(content: Seq<u8>, terms: Seq<Seq<u8>>, k: int) -> bool
    decreases k,
{
    k <= 0 || (multi_ok(content, terms, k - 1) && (terms[k - 1].len() == 0 || refine_ok(
        multi_spec(content, terms, k - 1),
        terms[k - 1],
    )))
}

/// The bytes of each term.
pub open spec fn term_bytes(terms: Seq<&str>) -> Seq<Seq<u8>> {
    terms.map_values(|t: &str| t.spec_bytes())
}

/// Splits `content` at the occurrences of each term in turn (see `multi_spec`)
/// and appends the fragments to `spans`. Where one of the splits would cut a
/// character apart, nothing is appended and `false` comes back.
pub fn try_build_multi_highlighted_spans<'a>(
    content: &'a str,
    highlights: &[&str],
    spans: &mut Vec<(&'a str, FragmentType)>,
) -> (ok: bool)
    ensures
        ok == multi_ok(content.spec_bytes(), term_bytes(highlights@), highlights@.len() as int),
        ok ==> fragment_bytes(final(spans)@) == fragment_bytes(old(spans)@) + multi_spec(
            content.spec_bytes(),
            term_bytes(highlights@),
            highlights@.len() as int,
        ),
        !ok ==> final(spans)@ == old(spans)@,
{
    let ghost cb = content.spec_bytes();
    let ghost terms = term_bytes(highlights@);
    let mut fragments: Vec<(&'a str, FragmentType)> = Vec::new();
    fragments.push((content, FragmentType::Normal));
    proof {
        assert(fragment_bytes(fragments@) =~= multi_spec(cb, terms, 0));
    }
    let nh = highlights.len();
    let mut term_idx: usize = 0;
    while term_idx < nh
        invariant
            nh == highlights@.len() == terms.len(),
            cb == content.spec_bytes(),
            terms == term_bytes(highlights@),
            term_idx <= nh,
            multi_ok(cb, terms, term_idx as int),
            fragment_bytes(fragments@) == multi_spec(cb, terms, term_idx as int),
        decreases nh - term_idx,
    {
        let term = highlights[term_idx];
        assert(term.spec_bytes() == terms[term_idx as int]);
        if !term.is_empty() {
            proof {
                assert(terms[term_idx as int].len() > 0) by {
                    if terms[term_idx as int].len() == 0 {
                        assert(term.spec_bytes() =~= encode_utf8(term@));
                        lemma_encode_utf8_empty(term@);
                    }
                }
            }
            let ghost src = fragment_bytes(fragments@);
            let mut next: Vec<(&'a str, FragmentType)> = Vec::new();
            let nf = fragments.len();
            proof {
                assert(src.take(0) =~= Seq::<(Seq<u8>, FragmentType)>::empty());
                assert(fragment_bytes(next@) =~= refine(src.take(0), term.spec_bytes(), term_idx));
            }
            let mut j: usize = 0;
            while j < nf
                invariant
                    nf == fragments@.len() == src.len(),
                    src == fragment_bytes(fragments@),
                    nh == terms.len() == highlights@.len(),
                    terms == term_bytes(highlights@),
                    cb == content.spec_bytes(),
                    term_idx < nh,
                    src == multi_spec(cb, terms, term_idx as int),
                    term.spec_bytes() == terms[term_idx as int],
                    terms[term_idx as int].len() > 0,
                    j <= nf,
                    forall|k: int|
                        0 <= k < j && (#[trigger] src[k]).1 == FragmentType::Normal ==> split_ok(
                            src[k].0,
                            term.spec_bytes(),
                        ),
                    fragment_bytes(next@) == refine(src.take(j as int), term.spec_bytes(), term_idx),
                decreases nf - j,
            {
                let (text, ft) = fragments[j];
                let ghost n0 = next@;
                assert(src[j as int] == (text.spec_bytes(), ft));
                match ft {
                    FragmentType::Highlighted(_) => {
                        next.push((text, ft));
                        proof {
                            assert(fragment_bytes(next@) =~= fragment_bytes(n0) + refine_one(src[j as int], term.spec_bytes(), term_idx));
                        }
                    },
                    FragmentType::Normal => {
                        match try_split_fragment(text, term, term_idx) {
                            Some(mut parts) => {
                                let ghost pv = parts@;
                                next.append(&mut parts);
                                proof {
                                    assert(next@ == n0 + pv);
                                    assert(fragment_bytes(next@) =~= fragment_bytes(n0) + fragment_bytes(pv));
                                }
                            },
                            None => {
                                proof {
                                    assert(!refine_ok(src, term.spec_bytes()));
                                    assert(!multi_ok(cb, terms, term_idx + 1));
                                    if multi_ok(cb, terms, nh as int) {
                                        lemma_multi_ok_prefix(cb, terms, nh as int, term_idx + 1);
                                    }
                                }
                                return false;
                            },
                        }
                    },
                }
                proof {
                    assert(src.take(j + 1).drop_last() =~= src.take(j as int));
                    assert(src.take(j + 1).last() == src[j as int]);
                }
                j = j + 1;
            }
            proof {
                assert(src.take(nf as int) =~= src);
                assert(refine_ok(src, term.spec_bytes()));
            }
            fragments = next;
        }
        term_idx = term_idx + 1;
    }
    let ghost s0 = spans@;
    let nf = fragments.len();
    let mut j: usize = 0;
    while j < nf
        invariant
            nf == fragments@.len(),
            j <= nf,
            fragment_bytes(spans@) == fragment_bytes(s0) + fragment_bytes(fragments@).take(j as int),
        decreases nf - j,
    {
        let ghost sj = spans@;
        spans.push(fragments[j]);
        proof {
            assert(fragment_bytes(spans@) =~= fragment_bytes(sj).push(fragment_bytes(fragments@)[j as int]));
            assert(fragment_bytes(fragments@).take(j + 1) =~= fragment_bytes(fragments@).take(j as int).push(fragment_bytes(fragments@)[j as int]));
        }
        j = j + 1;
    }
    assert(fragment_bytes(fragments@).take(nf as int) =~= fragment_bytes(fragments@));
    true
}

/// Splits `content` at the occurrences of each term in turn (see `multi_spec`)
/// and appends the fragments to `spans`.
pub fn build_multi_highlighted_spans<'a>(
    content: &'a str,
    highlights: &[&str],
    spans: &mut Vec<(&'a str, FragmentType)>,
)
    requires
        multi_ok(content.spec_bytes(), term_bytes(highlights@), highlights@.len() as int),
    ensures
        fragment_bytes(final(spans)@) == fragment_bytes(old(spans)@) + multi_spec(
            content.spec_bytes(),
            term_bytes(highlights@),
            highlights@.len() as int,
        ),
{
    let _ = try_build_multi_highlighted_spans(content, highlights, spans);
}

/// `multi_ok` holds for every shorter prefix of the terms.
pub proof fn lemma_multi_ok_prefix(content: Seq<u8>, terms: Seq<Seq<u8>>, k: int, j: int)
    requires
        0 <= j <= k,
        multi_ok(content, terms, k),
    ensures
        multi_ok(content, terms, j),
    decreases k - j,
{
    if j < k {
        lemma_multi_ok_prefix(content, terms, k - 1, j);
    }
}

/// Only the empty text has no bytes.
pub proof fn lemma_encode_utf8_empty(s: Seq<char>)
    ensures
        (encode_utf8(s).len() == 0) == (s.len() == 0),
{
    if s.len() > 0 {
        let e = vstd::utf8::encode_scalar(s[0] as u32);
        assert(e.len() >= 1);
        assert(encode_utf8(s) == e + encode_utf8(s.drop_first()));
    }
}

// ---------------------------------------------------------------------------
// Splitting keeps the text
// ---------------------------------------------------------------------------

/// The bytes of the fragments, one after another.
pub open spec fn joined(frags: Seq<(Seq<u8>, FragmentType)>) -> Seq<u8>
    decreases frags.len(),
{
    if frags.len() == 0 {
        Seq::empty()
    } else {
        joined(frags.drop_last()) + frags.last().0
    }
}

proof fn lemma_joined_single(f: (Seq<u8>, FragmentType))
    ensures
        joined(seq![f]) == f.0,
{
    assert(seq![f].drop_last() =~= Seq::<(Seq<u8>, FragmentType)>::empty());
    assert(joined(Seq::<(Seq<u8>, FragmentType)>::empty()) + f.0 =~= f.0);
}

proof fn lemma_joined_append(a: Seq<(Seq<u8>, FragmentType)>, b: Seq<(Seq<u8>, FragmentType)>)
    ensures
        joined(a + b) == joined(a) + joined(b),
    decreases b.len(),
{
    if b.len() == 0 {
        assert(a + b =~= a);
        assert(joined(a) + joined(b) =~= joined(a));
    } else {
        lemma_joined_append(a, b.drop_last());
        assert((a + b).drop_last() =~= a + b.drop_last());
        assert(joined(a) + joined(b) =~= joined(a) + joined(b.drop_last()) + b.last().0);
    }
}

proof fn lemma_ranges_join(tb: Seq<u8>, mb: Seq<u8>, idx: usize, pos: int)
    requires
        mb.len() > 0,
        0 <= pos <= tb.len(),
    ensures
        joined(ranges_to_fragments(tb, idx, fragment_ranges(tb, mb, pos))) == tb.subrange(pos, tb.len() as int),
    decreases tb.len() - pos,
{
    lemma_first_term_from(tb, mb, pos);
    let s = first_term_from(tb, mb, pos);
    let rs = fragment_ranges(tb, mb, pos);
    if s >= tb.len() {
        if pos < tb.len() {
            assert(ranges_to_fragments(tb, idx, rs) =~= seq![range_fragment(tb, idx, (pos, tb.len() as int, false))]);
            lemma_joined_single(range_fragment(tb, idx, (pos, tb.len() as int, false)));
        } else {
            assert(ranges_to_fragments(tb, idx, rs) =~= Seq::<(Seq<u8>, FragmentType)>::empty());
            assert(tb.subrange(pos, tb.len() as int) =~= Seq::<u8>::empty());
        }
    } else {
        let before: Seq<(int, int, bool)> = if pos < s {
            seq![(pos, s, false)]
        } else {
            Seq::empty()
        };
        let hl = seq![(s, s + mb.len(), true)];
        let rest = fragment_ranges(tb, mb, s + mb.len());
        assert(rs == before + hl + rest);
        lemma_ranges_join(tb, mb, idx, s + mb.len());
        let f = |r: (int, int, bool)| range_fragment(tb, idx, r);
        assert(ranges_to_fragments(tb, idx, rs) =~= ranges_to_fragments(tb, idx, before) + ranges_to_fragments(tb, idx, hl) + ranges_to_fragments(tb, idx, rest));
        lemma_joined_append(ranges_to_fragments(tb, idx, before) + ranges_to_fragments(tb, idx, hl), ranges_to_fragments(tb, idx, rest));
        lemma_joined_append(ranges_to_fragments(tb, idx, before), ranges_to_fragments(tb, idx, hl));
        let jb = joined(ranges_to_fragments(tb, idx, before));
        if pos < s {
            assert(ranges_to_fragments(tb, idx, before) =~= seq![range_fragment(tb, idx, (pos, s, false))]);
            lemma_joined_single(range_fragment(tb, idx, (pos, s, false)));
        } else {
            assert(ranges_to_fragments(tb, idx, before) =~= Seq::<(Seq<u8>, FragmentType)>::empty());
            assert(jb =~= tb.subrange(pos, s));
        }
        assert(ranges_to_fragments(tb, idx, hl) =~= seq![range_fragment(tb, idx, (s, s + mb.len(), true))]);
        let jh = joined(ranges_to_fragments(tb, idx, hl));
        lemma_joined_single(range_fragment(tb, idx, (s, s + mb.len(), true)));
        assert(tb.subrange(pos, s) + tb.subrange(s, s + mb.len()) + tb.subrange(s + mb.len(), tb.len() as int) =~= tb.subrange(pos, tb.len() as int));
    }
}

/// Splitting at a term keeps the text: the fragments, joined, are the text.
pub proof fn lemma_split_keeps_text(tb: Seq<u8>, mb: Seq<u8>, idx: usize)
    ensures
        joined(split_spec(tb, mb, idx)) == tb,
{
    if mb.len() == 0 {
        lemma_joined_single((tb, FragmentType::Normal));
    } else {
        lemma_ranges_join(tb, mb, idx, 0);
        assert(tb.subrange(0, tb.len() as int) =~= tb);
    }
}

/// Splitting the plain fragments further keeps the joined text.
pub proof fn lemma_refine_keeps_text(frags: Seq<(Seq<u8>, FragmentType)>, term: Seq<u8>, idx: usize)
    ensures
        joined(refine(frags, term, idx)) == joined(frags),
    decreases frags.len(),
{
    if frags.len() > 0 {
        lemma_refine_keeps_text(frags.drop_last(), term, idx);
        lemma_joined_append(refine(frags.drop_last(), term, idx), refine_one(frags.last(), term, idx));
        match frags.last().1 {
            FragmentType::Highlighted(_) => {
                lemma_joined_single(frags.last());
            },
            FragmentType::Normal => {
                lemma_split_keeps_text(frags.last().0, term, idx);
            },
        }
    }
}

/// Highlighting keeps the text: the fragments of a text, joined, are the text.
pub proof fn lemma_highlighting_keeps_text(content: Seq<u8>, terms: Seq<Seq<u8>>, k: int)
    requires
        k <= terms.len(),
    ensures
        joined(multi_spec(content, terms, k)) == content,
    decreases k,
{
    if k <= 0 {
        lemma_joined_single((content, FragmentType::Normal));
    } else {
        lemma_highlighting_keeps_text(content, terms, k - 1);
        if terms[k - 1].len() > 0 {
            lemma_refine_keeps_text(multi_spec(content, terms, k - 1), terms[k - 1], (k - 1) as usize);
        }
    }
}

// ---------------------------------------------------------------------------
// The spans of one log line
// ---------------------------------------------------------------------------

/// Which part of a log line a span shows; the caller styles it by its part and
/// its fragment type.
#[derive(Debug, Clone, Copy, PartialEq, Eq, Structural)]
pub enum SpanRole {
    BookmarkMarker,
    Timestamp,
    Level,
    Content,
}

/// One span of a shown log line.
#[derive(Debug)]
pub struct StyledText {
    pub text: String,
    pub role: SpanRole,
    pub kind: FragmentType,
}

/// The name of a level as `Debug` prints it.
pub open spec fn level_name(l: LogLevel) -> Seq<char> {
    match l {
        LogLevel::Error => seq!['E', 'r', 'r', 'o', 'r'],
        LogLevel::Warn => seq!['W', 'a', 'r', 'n'],
        LogLevel::Info => seq!['I', 'n', 'f', 'o'],
        LogLevel::Debug => seq!['D', 'e', 'b', 'u', 'g'],
        LogLevel::Trace => seq!['T', 'r', 'a', 'c', 'e'],
    }
}

/// `"{symbol} "`.
pub open spec fn marker_text(sym: Seq<char>) -> Seq<char> {
    sym.push(' ')
}

/// `"[{timestamp}] "`.
pub open spec fn timestamp_text(ts: Seq<char>) -> Seq<char> {
    seq!['['] + ts + seq![']', ' ']
}

/// `"{level:?} "`.
pub open spec fn level_text(l: LogLevel) -> Seq<char> {
    level_name(l).push(' ')
}

/// The fragments, each with the part of the line it belongs to.
pub open spec fn with_role(frags: Seq<(Seq<u8>, FragmentType)>, role: SpanRole) -> Seq<(Seq<u8>, SpanRole, FragmentType)> {
    frags.map_values(|f: (Seq<u8>, FragmentType)| (f.0, role, f.1))
}

/// The pieces of a shown line before scrolling: the bookmark marker, then the
/// timestamp, the level and the content, each split at the highlight terms
/// where there are any.
pub open spec fn line_pieces(log: LogLineView, sym: Seq<char>, terms: Seq<Seq<u8>>) -> Seq<(Seq<u8>, SpanRole, FragmentType)> {
    let m = seq![(encode_utf8(marker_text(sym)), SpanRole::BookmarkMarker, FragmentType::Normal)];
    let t = encode_utf8(timestamp_text(log.time_stamp));
    let l = encode_utf8(level_text(log.log_level));
    let c = encode_utf8(log.content);
    let k = terms.len() as int;
    if terms.len() == 0 {
        m + seq![
            (t, SpanRole::Timestamp, FragmentType::Normal),
            (l, SpanRole::Level, FragmentType::Normal),
            (c, SpanRole::Content, FragmentType::Normal),
        ]
    } else {
        m + with_role(multi_spec(t, terms, k), SpanRole::Timestamp) + with_role(
            multi_spec(l, terms, k),
            SpanRole::Level,
        ) + with_role(multi_spec(c, terms, k), SpanRole::Content)
    }
}

/// The bytes of the marker, timestamp, level and content together fit a `usize`.
pub open spec fn line_bytes_fit(log: LogLineView, sym: Seq<char>) -> bool {
    encode_utf8(marker_text(sym)).len() + encode_utf8(timestamp_text(log.time_stamp)).len()
        + encode_utf8(level_text(log.log_level)).len() + encode_utf8(log.content).len()
        <= usize::MAX
}

/// Splitting the timestamp, level and content at the terms does not panic.
pub open spec fn line_highlight_ok(log: LogLineView, terms: Seq<Seq<u8>>) -> bool {
    let k = terms.len() as int;
    &&& multi_ok(encode_utf8(timestamp_text(log.time_stamp)), terms, k)
    &&& multi_ok(encode_utf8(level_text(log.log_level)), terms, k)
    &&& multi_ok(encode_utf8(log.content), terms, k)
}

/// The pieces from column `pos` on, scrolled `scroll` columns (characters) to
/// the right: pieces that end at or before the scroll position vanish, the one
/// that straddles it loses its first characters.
pub open spec fn scrolled(pieces: Seq<(Seq<u8>, SpanRole, FragmentType)>, scroll: int, pos: int) -> Seq<(Seq<char>, SpanRole, FragmentType)>
    decreases pieces.len(),
{
    if pieces.len() == 0 {
        Seq::empty()
    } else {
        let t = decode_utf8(pieces[0].0);
        let rest = scrolled(pieces.drop_first(), scroll, pos + t.len());
        if pos + t.len() > scroll {
            seq![(t.skip(if scroll > pos { scroll - pos } else { 0 }), pieces[0].1, pieces[0].2)] + rest
        } else {
            rest
        }
    }
}

/// The number of bytes of the pieces together.
pub open spec fn bytes_total(pieces: Seq<(Seq<u8>, SpanRole, FragmentType)>) -> int
    decreases pieces.len(),
{
    if pieces.len() == 0 {
        0
    } else {
        bytes_total(pieces.drop_last()) + pieces.last().0.len()
    }
}

/// The bytes, role and type of each piece.
pub open spec fn piece_bytes<'a>(v: Seq<(&'a str, SpanRole, FragmentType)>) -> Seq<(Seq<u8>, SpanRole, FragmentType)> {
    v.map_values(|p: (&'a str, SpanRole, FragmentType)| (p.0.spec_bytes(), p.1, p.2))
}

/// The text, role and type of each span.
pub open spec fn styled_view(v: Seq<StyledText>) -> Seq<(Seq<char>, SpanRole, FragmentType)> {
    v.map_values(|s: StyledText| (s.text@, s.role, s.kind))
}

proof fn lemma_bytes_total_append(a: Seq<(Seq<u8>, SpanRole, FragmentType)>, b: Seq<(Seq<u8>, SpanRole, FragmentType)>)
    ensures
        bytes_total(a + b) == bytes_total(a) + bytes_total(b),
    decreases b.len(),
{
    if b.len() > 0 {
        lemma_bytes_total_append(a, b.drop_last());
        assert((a + b).drop_last() =~= a + b.drop_last());
    } else {
        assert(a + b =~= a);
    }
}

proof fn lemma_bytes_total_with_role(frags: Seq<(Seq<u8>, FragmentType)>, role: SpanRole)
    ensures
        bytes_total(with_role(frags, role)) == joined(frags).len(),
    decreases frags.len(),
{
    if frags.len() > 0 {
        lemma_bytes_total_with_role(frags.drop_last(), role);
        assert(with_role(frags, role).drop_last() =~= with_role(frags.drop_last(), role));
    }
}

proof fn lemma_bytes_total_take(p: Seq<(Seq<u8>, SpanRole, FragmentType)>, i: int)
    requires
        0 <= i <= p.len(),
    ensures
        bytes_total(p.take(i)) <= bytes_total(p),
    decreases p.len() - i,
{
    if i < p.len() {
        lemma_bytes_total_take(p, i + 1);
        assert(p.take(i + 1).drop_last() =~= p.take(i));
    } else {
        assert(p.take(i) =~= p);
    }
}

/// A text has no more characters than bytes.
pub proof fn lemma_chars_le_bytes(s: Seq<char>)
    ensures
        s.len() <= encode_utf8(s).len(),
    decreases s.len(),
{
    if s.len() > 0 {
        lemma_chars_le_bytes(s.drop_first());
        assert(vstd::utf8::encode_scalar(s[0] as u32).len() >= 1);
    }
}

/// The bytes of the pieces of a line add up to those of its marker, timestamp,
/// level and content.
proof fn lemma_line_pieces_bytes(log: LogLineView, sym: Seq<char>, terms: Seq<Seq<u8>>)
    ensures
        bytes_total(line_pieces(log, sym, terms)) == encode_utf8(marker_text(sym)).len()
            + encode_utf8(timestamp_text(log.time_stamp)).len() + encode_utf8(
            level_text(log.log_level),
        ).len() + encode_utf8(log.content).len(),
{
    let m = seq![(encode_utf8(marker_text(sym)), SpanRole::BookmarkMarker, FragmentType::Normal)];
    let t = encode_utf8(timestamp_text(log.time_stamp));
    let l = encode_utf8(level_text(log.log_level));
    let c = encode_utf8(log.content);
    let k = terms.len() as int;
    assert(m.drop_last() =~= Seq::<(Seq<u8>, SpanRole, FragmentType)>::empty());
    assert(bytes_total(Seq::<(Seq<u8>, SpanRole, FragmentType)>::empty()) == 0);
    assert(bytes_total(m) == bytes_total(m.drop_last()) + m.last().0.len());
    if terms.len() == 0 {
        let rest = seq![
            (t, SpanRole::Timestamp, FragmentType::Normal),
            (l, SpanRole::Level, FragmentType::Normal),
            (c, SpanRole::Content, FragmentType::Normal),
        ];
        lemma_bytes_total_append(m, rest);
        let r2 = seq![(t, SpanRole::Timestamp, FragmentType::Normal), (l, SpanRole::Level, FragmentType::Normal)];
        let r1 = seq![(t, SpanRole::Timestamp, FragmentType::Normal)];
        assert(rest.drop_last() =~= r2);
        assert(r2.drop_last() =~= r1);
        assert(r1.drop_last() =~= Seq::<(Seq<u8>, SpanRole, FragmentType)>::empty());
        assert(bytes_total(Seq::<(Seq<u8>, SpanRole, FragmentType)>::empty()) == 0);
        assert(r1.last().0 == t);
        assert(bytes_total(r1) == bytes_total(r1.drop_last()) + r1.last().0.len());
        assert(bytes_total(r1) == t.len());
        assert(r2.last().0 == l);
        assert(rest.last().0 == c);
        assert(bytes_total(r2) == t.len() + l.len());
        assert(bytes_total(rest) == t.len() + l.len() + c.len());
    } else {
        let wt = with_role(multi_spec(t, terms, k), SpanRole::Timestamp);
        let wl = with_role(multi_spec(l, terms, k), SpanRole::Level);
        let wc = with_role(multi_spec(c, terms, k), SpanRole::Content);
        lemma_bytes_total_append(m + wt + wl, wc);
        lemma_bytes_total_append(m + wt, wl);
        lemma_bytes_total_append(m, wt);
        lemma_bytes_total_with_role(multi_spec(t, terms, k), SpanRole::Timestamp);
        lemma_bytes_total_with_role(multi_spec(l, terms, k), SpanRole::Level);
        lemma_bytes_total_with_role(multi_spec(c, terms, k), SpanRole::Content);
        lemma_highlighting_keeps_text(t, terms, k);
        lemma_highlighting_keeps_text(l, terms, k);
        lemma_highlighting_keeps_text(c, terms, k);
    }
}

/// The bytes of the pieces of a line, one after another.
pub open spec fn pieces_joined(p: Seq<(Seq<u8>, SpanRole, FragmentType)>) -> Seq<u8>
    decreases p.len(),
{
    if p.len() == 0 {
        Seq::empty()
    } else {
        p[0].0 + pieces_joined(p.drop_first())
    }
}

/// The texts of the pieces, one after another.
pub open spec fn piece_texts(p: Seq<(Seq<u8>, SpanRole, FragmentType)>) -> Seq<char>
    decreases p.len(),
{
    if p.len() == 0 {
        Seq::empty()
    } else {
        decode_utf8(p[0].0) + piece_texts(p.drop_first())
    }
}

/// The texts of the spans, one after another.
pub open spec fn span_texts(s: Seq<(Seq<char>, SpanRole, FragmentType)>) -> Seq<char>
    decreases s.len(),
{
    if s.len() == 0 {
        Seq::empty()
    } else {
        s[0].0 + span_texts(s.drop_first())
    }
}

/// `x` held within `0..=len`.
pub open spec fn clamped(x: int, len: int) -> int {
    if x < 0 {
        0
    } else if x > len {
        len
    } else {
        x
    }
}

/// The text of a shown line before scrolling: `"{symbol} [{timestamp}] {level:?} {content}"`.
pub open spec fn shown_text(log: LogLineView, sym: Seq<char>) -> Seq<char> {
    marker_text(sym) + timestamp_text(log.time_stamp) + level_text(log.log_level) + log.content
}

/// The texts of string slices, one after another.
pub open spec fn str_texts<'a>(v: Seq<(&'a str, SpanRole, FragmentType)>) -> Seq<char>
    decreases v.len(),
{
    if v.len() == 0 {
        Seq::empty()
    } else {
        v[0].0@ + str_texts(v.drop_first())
    }
}

/// Encoding a concatenation is concatenating the encodings.
proof fn lemma_encode_append(a: Seq<char>, b: Seq<char>)
    ensures
        encode_utf8(a + b) == encode_utf8(a) + encode_utf8(b),
    decreases a.len(),
{
    if a.len() > 0 {
        lemma_encode_append(a.drop_first(), b);
        assert((a + b).drop_first() =~= a.drop_first() + b);
        assert((a + b)[0] == a[0]);
    } else {
        assert(a + b =~= b);
    }
}

/// Pieces taken from string slices decode to those slices' texts, and their
/// bytes are the encoding of the texts together.
proof fn lemma_str_pieces<'a>(v: Seq<(&'a str, SpanRole, FragmentType)>)
    ensures
        piece_texts(piece_bytes(v)) == str_texts(v),
        pieces_joined(piece_bytes(v)) == encode_utf8(str_texts(v)),
    decreases v.len(),
{
    if v.len() > 0 {
        lemma_str_pieces(v.drop_first());
        assert(piece_bytes(v).drop_first() =~= piece_bytes(v.drop_first()));
        vstd::utf8::encode_utf8_decode_utf8(v[0].0@);
        lemma_encode_append(v[0].0@, str_texts(v.drop_first()));
    } else {
        assert(piece_bytes(v) =~= Seq::<(Seq<u8>, SpanRole, FragmentType)>::empty());
    }
}

/// `"{level:?} "` for a level.
fn level_string(l: &LogLevel) -> (r: String)
    ensures
        r@ == level_text(*l),
{
    let mut v: Vec<char> = Vec::new();
    match l {
        LogLevel::Error => {
            v.push('E');
            v.push('r');
            v.push('r');
            v.push('o');
            v.push('r');
        },
        LogLevel::Warn => {
            v.push('W');
            v.push('a');
            v.push('r');
            v.push('n');
        },
        LogLevel::Info => {
            v.push('I');
            v.push('n');
            v.push('f');
            v.push('o');
        },
        LogLevel::Debug => {
            v.push('D');
            v.push('e');
            v.push('b');
            v.push('u');
            v.push('g');
        },
        LogLevel::Trace => {
            v.push('T');
            v.push('r');
            v.push('a');
            v.push('c');
            v.push('e');
        },
    }
    v.push(' ');
    assert(v@ =~= level_text(*l));
    string_from_chars(v.as_slice())
}

/// `"{symbol} "`.
fn marker_string(sym: &str) -> (r: String)
    ensures
        r@ == marker_text(sym@),
{
    let mut v = chars_of(sym);
    v.push(' ');
    string_from_chars(v.as_slice())
}

/// `"[{timestamp}] "`.
fn timestamp_string(ts: &str) -> (r: String)
    ensures
        r@ == timestamp_text(ts@),
{
    let mut v: Vec<char> = Vec::new();
    v.push('[');
    let mut t = chars_of(ts);
    v.append(&mut t);
    v.push(']');
    v.push(' ');
    assert(v@ =~= timestamp_text(ts@));
    string_from_chars(v.as_slice())
}

/// Appends fragments to the pieces with the given role.
fn push_with_role<'a>(
    pieces: &mut Vec<(&'a str, SpanRole, FragmentType)>,
    frags: &Vec<(&'a str, FragmentType)>,
    role: SpanRole,
)
    ensures
        piece_bytes(final(pieces)@) == piece_bytes(old(pieces)@) + with_role(fragment_bytes(frags@), role),
{
    let n = frags.len();
    let ghost p0 = pieces@;
    let mut j: usize = 0;
    while j < n
        invariant
            n == frags@.len(),
            j <= n,
            piece_bytes(pieces@) == piece_bytes(p0) + with_role(fragment_bytes(frags@), role).take(j as int),
        decreases n - j,
    {
        let (text, kind) = frags[j];
        let ghost pj = pieces@;
        pieces.push((text, role, kind));
        proof {
            assert(piece_bytes(pieces@) =~= piece_bytes(pj).push((text.spec_bytes(), role, kind)));
            assert(with_role(fragment_bytes(frags@), role).take(j + 1) =~= with_role(fragment_bytes(frags@), role).take(j as int).push((text.spec_bytes(), role, kind)));
        }
        j = j + 1;
    }
    assert(with_role(fragment_bytes(frags@), role).take(n as int) =~= with_role(fragment_bytes(frags@), role));
}

/// The spans of a shown log line: the bookmark marker, the timestamp in
/// brackets, the level and the content, the last three split at the highlight
/// terms, scrolled `horizontal_scroll` characters to the right; see
/// `line_pieces` and `scrolled`. They are the spans of the unscrolled line
/// trimmed by `horizontal_scroll` columns (`rescrolled`), and together they
/// read as the line's text (`shown_text`) without its first
/// `horizontal_scroll` characters. `None`
/// exactly where a split would cut a character apart or the line's bytes do
/// not fit a `usize`.
pub fn try_build_span_from_log_line(
    log: &LogLine,
    bookmark_symbol: &str,
    active_highlights: &[&str],
    horizontal_scroll: usize,
) -> (r: Option<Vec<StyledText>>)
    ensures
        r is Some <==> (line_highlight_ok(log@, term_bytes(active_highlights@)) && line_bytes_fit(
            log@,
            bookmark_symbol@,
        )),
        r matches Some(v) ==> styled_view(v@) == scrolled(
            line_pieces(log@, bookmark_symbol@, term_bytes(active_highlights@)),
            horizontal_scroll as int,
            0,
        ),
        r matches Some(v) ==> styled_view(v@) == crate::laws::rescrolled(
            scrolled(line_pieces(log@, bookmark_symbol@, term_bytes(active_highlights@)), 0, 0),
            horizontal_scroll as int,
            0,
        ),
        r matches Some(v) ==> span_texts(styled_view(v@)) == shown_text(log@, bookmark_symbol@).skip(
            clamped(horizontal_scroll as int, shown_text(log@, bookmark_symbol@).len() as int),
        ),
{
    let ghost terms = term_bytes(active_highlights@);
    let marker = marker_string(bookmark_symbol);
    let timestamp_str = timestamp_string(log.time_stamp());
    let level_str = level_string(log.log_level());
    let content = log.content();
    let n_marker = marker.as_str().as_bytes().len();
    let n_time = timestamp_str.as_str().as_bytes().len();
    let n_level = level_str.as_str().as_bytes().len();
    let n_content = content.as_bytes().len();
    proof {
        assert(marker@ == marker_text(bookmark_symbol@));
        assert(timestamp_str@ == timestamp_text(log@.time_stamp));
        assert(level_str@ == level_text(log@.log_level));
        assert(content@ == log@.content);
    }
    if n_marker > usize::MAX - n_time || n_marker + n_time > usize::MAX - n_level
        || n_marker + n_time + n_level > usize::MAX - n_content {
        return None;
    }
    assert(line_bytes_fit(log@, bookmark_symbol@));
    let mut pieces: Vec<(&str, SpanRole, FragmentType)> = Vec::new();
    pieces.push((marker.as_str(), SpanRole::BookmarkMarker, FragmentType::Normal));
    let ghost m = seq![(encode_utf8(marker_text(bookmark_symbol@)), SpanRole::BookmarkMarker, FragmentType::Normal)];
    assert(piece_bytes(pieces@) =~= m);
    if active_highlights.len() != 0 {
        let mut ft: Vec<(&str, FragmentType)> = Vec::new();
        if !try_build_multi_highlighted_spans(timestamp_str.as_str(), active_highlights, &mut ft) {
            return None;
        }
        let mut fl: Vec<(&str, FragmentType)> = Vec::new();
        if !try_build_multi_highlighted_spans(level_str.as_str(), active_highlights, &mut fl) {
            return None;
        }
        let mut fc: Vec<(&str, FragmentType)> = Vec::new();
        if !try_build_multi_highlighted_spans(log.content(), active_highlights, &mut fc) {
            return None;
        }
        proof {
            assert(fragment_bytes(Seq::<(&str, FragmentType)>::empty()) =~= Seq::<(Seq<u8>, FragmentType)>::empty());
            assert(fragment_bytes(ft@) =~= multi_spec(encode_utf8(timestamp_text(log@.time_stamp)), terms, terms.len() as int));
            assert(fragment_bytes(fl@) =~= multi_spec(encode_utf8(level_text(log@.log_level)), terms, terms.len() as int));
            assert(fragment_bytes(fc@) =~= multi_spec(encode_utf8(log@.content), terms, terms.len() as int));
        }
        push_with_role(&mut pieces, &ft, SpanRole::Timestamp);
        push_with_role(&mut pieces, &fl, SpanRole::Level);
        push_with_role(&mut pieces, &fc, SpanRole::Content);
    } else {
        pieces.push((timestamp_str.as_str(), SpanRole::Timestamp, FragmentType::Normal));
        pieces.push((level_str.as_str(), SpanRole::Level, FragmentType::Normal));
        pieces.push((log.content(), SpanRole::Content, FragmentType::Normal));
    }
    let ghost all = line_pieces(log@, bookmark_symbol@, terms);
    proof {
        assert(piece_bytes(pieces@) =~= all);
        lemma_line_pieces_bytes(log@, bookmark_symbol@, terms);
        let full = shown_text(log@, bookmark_symbol@);
        lemma_str_pieces(pieces@);
        crate::laws::law_line_pieces_keep_text(log@, bookmark_symbol@, terms);
        lemma_encode_append(marker_text(bookmark_symbol@), timestamp_text(log@.time_stamp));
        lemma_encode_append(
            marker_text(bookmark_symbol@) + timestamp_text(log@.time_stamp),
            level_text(log@.log_level),
        );
        lemma_encode_append(
            marker_text(bookmark_symbol@) + timestamp_text(log@.time_stamp) + level_text(log@.log_level),
            log@.content,
        );
        vstd::utf8::encode_utf8_decode_utf8(str_texts(pieces@));
        vstd::utf8::encode_utf8_decode_utf8(full);
        assert(piece_texts(all) == full);
        crate::laws::law_scrolling_drops_leading_chars(all, horizontal_scroll as int, 0);
        crate::laws::law_scrolling_trims_unscrolled_spans(all, horizontal_scroll as int, 0);
    }
    let mut current_pos: usize = 0;
    let mut scrolled_spans: Vec<StyledText> = Vec::new();
    let np = pieces.len();
    let mut i: usize = 0;
    proof {
        assert(all.skip(0) =~= all);
        assert(all.take(0) =~= Seq::<(Seq<u8>, SpanRole, FragmentType)>::empty());
        assert(styled_view(scrolled_spans@) =~= Seq::<(Seq<char>, SpanRole, FragmentType)>::empty());
    }
    while i < np
        invariant
            np == pieces@.len() == all.len(),
            piece_bytes(pieces@) == all,
            bytes_total(all) <= usize::MAX,
            i <= np,
            current_pos <= bytes_total(all.take(i as int)),
            scrolled(all, horizontal_scroll as int, 0) == styled_view(scrolled_spans@) + scrolled(
                all.skip(i as int),
                horizontal_scroll as int,
                current_pos as int,
            ),
        decreases np - i,
    {
        let (text, role, kind) = pieces[i];
        let chars = chars_of(text);
        let len = chars.len();
        proof {
            assert(all[i as int] == (text.spec_bytes(), role, kind));
            vstd::utf8::encode_utf8_decode_utf8(text@);
            lemma_chars_le_bytes(text@);
            assert(all.take(i + 1).drop_last() =~= all.take(i as int));
            lemma_bytes_total_take(all, i + 1);
            let rest = all.skip(i as int);
            assert(rest[0] == all[i as int]);
            assert(rest.drop_first() =~= all.skip(i + 1));
        }
        let ghost s0 = scrolled_spans@;
        if current_pos + len > horizontal_scroll {
            let offset = horizontal_scroll.saturating_sub(current_pos);
            let sliced = copy_range(chars.as_slice(), offset, len);
            let text_out = string_from_chars(sliced.as_slice());
            scrolled_spans.push(StyledText { text: text_out, role, kind });
            proof {
                assert(sliced@ =~= text@.skip(offset as int));
                assert(styled_view(scrolled_spans@) =~= styled_view(s0) + seq![(text@.skip(offset as int), role, kind)]);
            }
        }
        current_pos = current_pos + len;
        i = i + 1;
    }
    proof {
        assert(all.skip(np as int) =~= Seq::<(Seq<u8>, SpanRole, FragmentType)>::empty());
        assert(styled_view(scrolled_spans@) + Seq::<(Seq<char>, SpanRole, FragmentType)>::empty() =~= styled_view(scrolled_spans@));
    }
    Some(scrolled_spans)
}

/// The spans of a shown log line; see `try_build_span_from_log_line`.
pub fn build_span_from_log_line(
    log: &LogLine,
    bookmark_symbol: &str,
    active_highlights: &[&str],
    horizontal_scroll: usize,
) -> (r: Vec<StyledText>)
    requires
        line_highlight_ok(log@, term_bytes(active_highlights@)),
        line_bytes_fit(log@, bookmark_symbol@),
    ensures
        styled_view(r@) == scrolled(
            line_pieces(log@, bookmark_symbol@, term_bytes(active_highlights@)),
            horizontal_scroll as int,
            0,
        ),
        styled_view(r@) == crate::laws::rescrolled(
            scrolled(line_pieces(log@, bookmark_symbol@, term_bytes(active_highlights@)), 0, 0),
            horizontal_scroll as int,
            0,
        ),
        span_texts(styled_view(r@)) == shown_text(log@, bookmark_symbol@).skip(
            clamped(horizontal_scroll as int, shown_text(log@, bookmark_symbol@).len() as int),
        ),
{
    match try_build_span_from_log_line(log, bookmark_symbol, active_highlights, horizontal_scroll) {
        Some(v) => v,
        None => Vec::new(),
    }
}

} // verus!
