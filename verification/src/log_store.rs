use vstd::prelude::*;
use vstd::slice::slice_subrange;
use vstd::string::StringSliceAdditionalSpecFns;
use vstd::utf8::{decode_utf8, encode_utf8, encode_utf8_decode_utf8, valid_utf8};

use rayon::iter::{IntoParallelIterator, ParallelIterator};
use rayon::slice::ParallelSlice;

use crate::bookmark::strictly_increasing;
use crate::text::{
    ascii_lower_seq, ascii_lowercase, contains_bytes, contains_seq, index_of,
    lemma_index_of_bounds, lemma_split_len, split_seq,
};

verus! {

/// The byte that ends a line.
pub open spec fn newline() -> u8 {
    10u8
}

/// `r` lists, in increasing order, exactly the numbers below `n` that satisfy `p`.
pub open spec fn lists_exactly(r: Seq<usize>, n: int, p: spec_fn(usize) -> bool) -> bool {
    &&& strictly_increasing(r)
    &&& forall|k: int| 0 <= k < r.len() ==> r[k] < n && p(#[trigger] r[k])
    &&& forall|i: usize| i < n && p(i) ==> r.contains(i)
}

/// The numbers below `n` that satisfy `p`, in increasing order.
pub open spec fn listing(n: int, p: spec_fn(usize) -> bool) -> Seq<usize>
    decreases n,
{
    if n <= 0 {
        Seq::empty()
    } else if p((n - 1) as usize) {
        listing(n - 1, p).push((n - 1) as usize)
    } else {
        listing(n - 1, p)
    }
}

/// `listing` has no more entries than there are numbers below `n`.
pub proof fn lemma_listing_len(n: int, p: spec_fn(usize) -> bool)
    ensures
        listing(n, p).len() <= if n < 0 {
            0
        } else {
            n
        },
    decreases n,
{
    if n > 0 {
        lemma_listing_len(n - 1, p);
    }
}

/// `listing` lists exactly the numbers below `n` that satisfy `p`.
pub proof fn lemma_listing(n: int, p: spec_fn(usize) -> bool)
    requires
        0 <= n <= usize::MAX + 1,
    ensures
        lists_exactly(listing(n, p), n, p),
        forall|k: int| 0 <= k < listing(n, p).len() ==> listing(n, p)[k] < n,
    decreases n,
{
    if n > 0 {
        lemma_listing(n - 1, p);
        let r = listing(n - 1, p);
        if p((n - 1) as usize) {
            let r2 = r.push((n - 1) as usize);
            assert forall|i: usize| i < n && p(i) implies r2.contains(i) by {
                if i < n - 1 {
                    assert(r.contains(i));
                    let k = choose|k: int| 0 <= k < r.len() && r[k] == i;
                    assert(r2[k] == i);
                } else {
                    assert(r2[r.len() as int] == i);
                }
            }
        } else {
            assert forall|i: usize| i < n && p(i) implies r.contains(i) by {
                assert(i != n - 1);
                assert(i < n - 1 && p(i));
            }
        }
    }
}

/// The offsets `(start, end)` of the lines of `data`, one for each piece of
/// `data` split at newlines: the first starts at 0 and each next one just
/// after the newline that ends the one before.
pub open spec fn offsets_of_lines(data: Seq<u8>, offsets: Seq<(usize, usize)>) -> bool {
    let lines = split_seq(data, newline());
    &&& offsets.len() == lines.len()
    &&& forall|k: int|
        0 <= k < offsets.len() ==> {
            let (s, e) = #[trigger] offsets[k];
            &&& s <= e <= data.len()
            &&& data.subrange(s as int, e as int) == lines[k]
        }
    &&& offsets.len() > 0 ==> offsets[0].0 == 0
    &&& forall|k: int| 0 < k < offsets.len() ==> (#[trigger] offsets[k]).0 == offsets[k - 1].1 + 1
}

/// Whether a line, lower-cased in ASCII, holds the needle.
pub open spec fn line_has(line: Seq<u8>, needle: Seq<u8>) -> bool {
    contains_seq(ascii_lower_seq(line), needle)
}

/// The text of a log file, split into lines at newline bytes.
#[derive(Debug)]
pub struct LogStore {
    file_path: String,
    data: Vec<u8>,
    line_offsets: Vec<(usize, usize)>,
}

/// Whether a byte ends a line.
fn is_line_break(b: &u8) -> (r: bool)
    ensures
        r == (*b == newline()),
{
    *b == 10u8
}

/// The length of a piece of bytes.
fn piece_len(piece: &[u8]) -> (r: usize)
    ensures
        r == piece@.len(),
{
    piece.len()
}

/// The lengths of the pieces of `data` between newlines, in order (rayon's
/// `par_split`, which yields the pieces that `<[u8]>::split` yields, mapped to
/// their lengths and collected in order).
#[verifier::external_body]
fn split_line_lengths(data: &[u8]) -> (r: Vec<usize>)
    ensures
        r@.len() == split_seq(data@, newline()).len(),
        forall|k: int| 0 <= k < r@.len() ==> r@[k] == #[trigger] split_seq(data@, newline())[k].len(),
{
    data.par_split(is_line_break).map(piece_len).collect()
}

/// `std::str::from_utf8`, with the error dropped: some exactly on valid UTF-8.
#[verifier::external_body]
fn str_from_utf8(v: &[u8]) -> (r: Option<&str>)
    ensures
        r is Some <==> valid_utf8(v@),
        r matches Some(s) ==> s.spec_bytes() == v@,
{
    std::str::from_utf8(v).ok()
}

/// How `split_seq` unfolds at the first delimiter.
proof fn lemma_split_unfold(s: Seq<u8>, d: u8)
    ensures
        index_of(s, d) < s.len() ==> split_seq(s, d) == seq![s.take(index_of(s, d))] + split_seq(
            s.skip(index_of(s, d) + 1),
            d,
        ),
        index_of(s, d) >= s.len() ==> split_seq(s, d) == seq![s],
        0 <= index_of(s, d) <= s.len(),
        split_seq(s, d).len() >= 1,
{
    lemma_index_of_bounds(s, d);
    lemma_split_len(s, d);
}

impl LogStore {
    #[verifier::type_invariant]
    spec fn offsets_valid(self) -> bool {
        offsets_of_lines(self.data@, self.line_offsets@)
    }

    /// The bytes of the file.
    pub closed spec fn spec_data(self) -> Seq<u8> {
        self.data@
    }

    /// The name of the file.
    pub closed spec fn spec_file_path(self) -> Seq<char> {
        self.file_path@
    }

    /// The lines of the file, without their newline bytes.
    pub open spec fn spec_lines(self) -> Seq<Seq<u8>> {
        split_seq(self.spec_data(), newline())
    }

    /// The text of line `i`, where there is such a line and it is valid UTF-8.
    pub open spec fn line_text(self, i: int) -> Option<Seq<char>> {
        if 0 <= i < self.spec_lines().len() && valid_utf8(self.spec_lines()[i]) {
            Some(decode_utf8(self.spec_lines()[i]))
        } else {
            None
        }
    }

    /// Splits the bytes of a file into lines at newline bytes: a file with `k`
    /// newlines has `k + 1` lines, the last one empty where the file ends in a newline.
    pub fn new(file_path: String, data: Vec<u8>) -> (r: Self)
        ensures
            r.spec_data() == data@,
            r.spec_file_path() == file_path@,
    {
        let lens = split_line_lengths(data.as_slice());
        let ghost lines = split_seq(data@, newline());
        let mut offsets: Vec<(usize, usize)> = Vec::new();
        let mut start: usize = 0;
        let n = lens.len();
        let mut k: usize = 0;
        let dlen = data.len();
        proof {
            assert(data@.skip(0) =~= data@);
            assert(lines.skip(0) =~= lines);
        }
        while k < n
            invariant
                n == lens@.len() == lines.len(),
                lines == split_seq(data@, newline()),
                forall|j: int| 0 <= j < n ==> lens@[j] == #[trigger] lines[j].len(),
                k <= n,
                start <= dlen == data@.len(),
                k < n ==> split_seq(data@.skip(start as int), newline()) == lines.skip(k as int),
                offsets@.len() == k,
                k == 0 ==> start == 0,
                0 < k < n ==> start == offsets@[k - 1].1 + 1,
                k > 0 ==> offsets@[0].0 == 0,
                forall|j: int| 0 < j < k ==> (#[trigger] offsets@[j]).0 == offsets@[j - 1].1 + 1,
                forall|j: int|
                    0 <= j < k ==> {
                        let (s, e) = #[trigger] offsets@[j];
                        &&& s <= e <= data@.len()
                        &&& data@.subrange(s as int, e as int) == lines[j]
                    },
            decreases n - k,
        {
            let ghost t = data@.skip(start as int);
            proof {
                lemma_split_unfold(t, newline());
                assert(lines[k as int] == split_seq(t, newline())[0]);
            }
            let len = lens[k];
            proof {
                let i = index_of(t, newline());
                if i < t.len() {
                    assert(split_seq(t, newline())[0] == t.take(i));
                } else {
                    assert(split_seq(t, newline())[0] == t);
                }
                assert(len <= t.len());
                assert(data@.subrange(start as int, start + len) =~= split_seq(t, newline())[0]);
            }
            offsets.push((start, start + len));
            proof {
                let i = index_of(t, newline());
                if k + 1 < n {
                    assert(lines.skip(k as int).len() > 1);
                    assert(split_seq(t, newline()).len() > 1);
                    assert(i < t.len());
                    assert(len == i);
                    assert(split_seq(t, newline()).skip(1) =~= split_seq(t.skip(i + 1), newline()));
                    assert(lines.skip(k + 1) =~= lines.skip(k as int).skip(1));
                    assert(t.skip(i + 1) =~= data@.skip(start + len + 1));
                }
            }
            if k + 1 < n {
                start = start + len + 1;
            }
            k = k + 1;
        }
        LogStore { file_path, data, line_offsets: offsets }
    }

    /// The name of the file.
    pub fn file_path(&self) -> (r: &str)
        ensures
            r@ == self.spec_file_path(),
    {
        self.file_path.as_str()
    }

    /// The `(start, end)` byte offsets of the lines.
    pub fn line_offsets(&self) -> (r: &[(usize, usize)])
        ensures
            offsets_of_lines(self.spec_data(), r@),
    {
        proof {
            use_type_invariant(self);
        }
        self.line_offsets.as_slice()
    }

    /// The number of lines.
    pub fn len(&self) -> (r: usize)
        ensures
            r == self.spec_lines().len(),
    {
        proof {
            use_type_invariant(self);
        }
        self.line_offsets.len()
    }

    pub fn is_empty(&self) -> (r: bool)
        ensures
            r == (self.spec_lines().len() == 0),
    {
        self.len() == 0
    }

    /// The bytes of line `index`.
    fn line_bytes(&self, index: usize) -> (r: &[u8])
        requires
            index < self.spec_lines().len(),
        ensures
            r@ == self.spec_lines()[index as int],
    {
        proof {
            use_type_invariant(self);
        }
        let (s, e) = self.line_offsets[index];
        slice_subrange(self.data.as_slice(), s, e)
    }

    /// Line `index` as text: none where there is no such line or it is not valid UTF-8.
    pub fn get_line(&self, index: usize) -> (r: Option<&str>)
        ensures
            r is Some <==> self.line_text(index as int) is Some,
            r matches Some(t) ==> self.line_text(index as int) == Some(t@),
    {
        if index >= self.len() {
            return None;
        }
        let bytes = self.line_bytes(index);
        let r = str_from_utf8(bytes);
        proof {
            if let Some(t) = r {
                encode_utf8_decode_utf8(t@);
                assert(t.spec_bytes() == encode_utf8(t@));
            }
        }
        r
    }

    /// Whether line `index`, lower-cased in ASCII, holds the (non-empty) needle.
    pub fn line_matches(&self, index: usize, needle: &[u8]) -> (r: bool)
        requires
            index < self.spec_lines().len(),
            needle@.len() > 0,
        ensures
            r == line_has(self.spec_lines()[index as int], needle@),
    {
        let line = self.line_bytes(index);
        let lower = ascii_lowercase(line);
        if lower.len() < needle.len() {
            return false;
        }
        contains_bytes(lower.as_slice(), needle)
    }

    /// The lines that hold the needle, in increasing order.
    pub fn find_matches(&self, needle: &[u8]) -> (r: Vec<usize>)
        requires
            needle@.len() > 0,
        ensures
            r@ == listing(
                self.spec_lines().len() as int,
                |i: usize| line_has(self.spec_lines()[i as int], needle@),
            ),
    {
        matching_lines(self, self.len(), needle)
    }
}

/// The lines of `store` that hold the needle, found in parallel by rayon
/// (`into_par_iter` over the line numbers below `n`, `filter` with the verified
/// test `LogStore::line_matches`, `collect` into a vector, which keeps the order).
#[verifier::external_body]
fn matching_lines(store: &LogStore, n: usize, needle: &[u8]) -> (r: Vec<usize>)
    requires
        n == store.spec_lines().len(),
        needle@.len() > 0,
    ensures
        r@ == listing(
            store.spec_lines().len() as int,
            |i: usize| line_has(store.spec_lines()[i as int], needle@),
        ),
{
    (0..n).into_par_iter().filter(|&i| store.line_matches(i, needle)).collect()
}

} // verus!
