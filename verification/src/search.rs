use vstd::prelude::*;
use vstd::slice::slice_to_vec;
use vstd::utf8::encode_utf8;

use crate::text::{lowercase, string_pop, string_push, to_lowercase};

verus! {

/// The search bar: the query, the lines that matched the last search, which of
/// them is current, and whether the query is meant as a regular expression.
#[derive(Debug)]
pub struct SearchState {
    query: String,
    matches: Vec<usize>,
    current_match: usize,
    is_regex_search: bool,
}

/// What the search bar holds, as mathematical values.
pub struct SearchView {
    pub query: Seq<char>,
    pub matches: Seq<usize>,
    pub current_match: usize,
    pub is_regex_search: bool,
}

impl View for SearchState {
    type V = SearchView;

    closed spec fn view(&self) -> SearchView {
        SearchView {
            query: self.query@,
            matches: self.matches@,
            current_match: self.current_match,
            is_regex_search: self.is_regex_search,
        }
    }
}

/// The line of the current match, if the current position holds one.
pub open spec fn current_match_of(v: SearchView) -> Option<usize> {
    if v.current_match < v.matches.len() {
        Some(v.matches[v.current_match as int])
    } else {
        None
    }
}

/// The bytes that a search looks for: the query lower-cased twice, in UTF-8.
pub open spec fn search_needle(query: Seq<char>) -> Seq<u8> {
    encode_utf8(lowercase(lowercase(query)))
}

impl Default for SearchState {
    fn default() -> (r: SearchState)
        ensures
            r@.query == Seq::<char>::empty(),
            r@.matches == Seq::<usize>::empty(),
            r@.current_match == 0,
            !r@.is_regex_search,
    {
        SearchState::new()
    }
}

impl SearchState {
    #[verifier::type_invariant]
    spec fn current_in_range(self) -> bool {
        self.current_match == 0 || self.current_match < self.matches@.len()
    }

    /// The current position is 0 or one of the matches.
    pub(crate) fn current_is_valid(&self) -> (b: bool)
        ensures
            b,
            self@.current_match == 0 || self@.current_match < self@.matches.len(),
    {
        proof {
            use_type_invariant(self);
        }
        true
    }

    /// An empty query with no matches.
    pub fn new() -> (r: Self)
        ensures
            r@.query == Seq::<char>::empty(),
            r@.matches == Seq::<usize>::empty(),
            r@.current_match == 0,
            !r@.is_regex_search,
    {
        SearchState {
            query: String::new(),
            matches: Vec::new(),
            current_match: 0,
            is_regex_search: false,
        }
    }

    pub fn query(&self) -> (r: &str)
        ensures
            r@ == self@.query,
    {
        self.query.as_str()
    }

    /// Appends a character to the query.
    pub fn push_char(&mut self, c: char)
        ensures
            final(self)@ == (SearchView { query: old(self)@.query.push(c), ..old(self)@ }),
    {
        proof {
            use_type_invariant(&*self);
        }
        let mut query = String::new();
        std::mem::swap(&mut query, &mut self.query);
        string_push(&mut query, c);
        self.query = query;
    }

    /// Removes the last character of the query, if there is one.
    pub fn pop_char(&mut self)
        ensures
            old(self)@.query.len() == 0 ==> final(self)@ == old(self)@,
            old(self)@.query.len() > 0 ==> final(self)@ == (SearchView {
                query: old(self)@.query.drop_last(),
                ..old(self)@
            }),
    {
        proof {
            use_type_invariant(&*self);
        }
        let mut query = String::new();
        std::mem::swap(&mut query, &mut self.query);
        string_pop(&mut query);
        self.query = query;
    }

    /// Empties the query and forgets the matches.
    pub fn clear(&mut self)
        ensures
            final(self)@ == (SearchView {
                query: Seq::<char>::empty(),
                matches: Seq::<usize>::empty(),
                current_match: 0,
                ..old(self)@
            }),
    {
        proof {
            use_type_invariant(&*self);
        }
        self.current_match = 0;
        self.query = String::new();
        self.matches = Vec::new();
    }

    /// The lines that matched, in increasing order.
    pub fn matches(&self) -> (r: &[usize])
        ensures
            r@ == self@.matches,
    {
        self.matches.as_slice()
    }

    /// Takes the result of a search; the first match becomes current.
    pub fn set_matches(&mut self, matches: Vec<usize>)
        ensures
            final(self)@ == (SearchView { matches: matches@, current_match: 0, ..old(self)@ }),
    {
        proof {
            use_type_invariant(&*self);
        }
        self.current_match = 0;
        self.matches = matches;
    }

    /// Forgets the matches.
    pub fn clear_matches(&mut self)
        ensures
            final(self)@ == (SearchView {
                matches: Seq::<usize>::empty(),
                current_match: 0,
                ..old(self)@
            }),
    {
        proof {
            use_type_invariant(&*self);
        }
        self.current_match = 0;
        self.matches = Vec::new();
    }

    pub fn has_matches(&self) -> (r: bool)
        ensures
            r == (self@.matches.len() > 0),
    {
        self.matches.len() != 0
    }

    /// The line of the current match.
    pub fn current_match_index(&self) -> (r: Option<usize>)
        ensures
            r == current_match_of(self@),
    {
        if self.current_match < self.matches.len() {
            Some(self.matches[self.current_match])
        } else {
            None
        }
    }

    /// Moves to the next match, from the last back to the first.
    pub fn next_match(&mut self)
        ensures
            old(self)@.matches.len() == 0 ==> final(self)@ == old(self)@,
            old(self)@.matches.len() > 0 ==> final(self)@ == (SearchView {
                current_match: ((old(self)@.current_match + 1) % (old(self)@.matches.len() as int)) as usize,
                ..old(self)@
            }),
    {
        proof {
            use_type_invariant(&*self);
        }
        if self.matches.len() == 0 {
            return;
        }
        self.current_match = (self.current_match + 1) % self.matches.len();
    }

    pub fn is_regex_search(&self) -> (r: bool)
        ensures
            r == self@.is_regex_search,
    {
        self.is_regex_search
    }

    pub fn set_is_regex_search(&mut self, is_regex_search: bool)
        ensures
            final(self)@ == (SearchView { is_regex_search, ..old(self)@ }),
    {
        proof {
            use_type_invariant(&*self);
        }
        self.is_regex_search = is_regex_search;
    }

    /// Starts a search for the query. A query that lower-cases to nothing clears
    /// the matches and starts nothing (`None`); otherwise the result is the
    /// needle to look for in each line, and the bar stays as it is.
    pub fn run_search(&mut self) -> (r: Option<Vec<u8>>)
        ensures
            lowercase(old(self)@.query).len() == 0 ==> r is None && final(self)@ == (SearchView {
                matches: Seq::<usize>::empty(),
                current_match: 0,
                ..old(self)@
            }),
            lowercase(old(self)@.query).len() > 0 ==> final(self)@ == old(self)@ && (r matches Some(
                b) && b@ == search_needle(old(self)@.query)),
            r matches Some(b) ==> b@.len() > 0,
    {
        proof {
            use_type_invariant(&*self);
        }
        let query = to_lowercase(self.query.as_str());
        if query.as_str().is_empty() {
            self.clear_matches();
            return None;
        }
        let needle = to_lowercase(query.as_str());
        proof {
            assert(needle@.len() > 0);
            crate::spans::lemma_encode_utf8_empty(needle@);
        }
        let bytes = slice_to_vec(needle.as_str().as_bytes());
        Some(bytes)
    }
}

} // verus!
