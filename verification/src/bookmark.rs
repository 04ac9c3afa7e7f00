use vstd::prelude::*;

use crate::list_state::ListState;
use crate::text::{index_of, lemma_index_of_is};

verus! {

/// Strictly increasing: sorted, with nothing twice.
pub open spec fn strictly_increasing(s: Seq<usize>) -> bool {
    forall|i: int, j: int| 0 <= i < j < s.len() ==> s[i] < s[j]
}

/// The number of leading entries of `s` below `x`: where `x` goes in a sorted `s`.
pub open spec fn insert_pos(s: Seq<usize>, x: usize) -> int
    decreases s.len(),
{
    if s.len() == 0 || s[0] >= x {
        0
    } else {
        1 + insert_pos(s.drop_first(), x)
    }
}

/// The bookmarks `s` with `x` added in its place, unless it is there already.
pub open spec fn bookmarks_with(s: Seq<usize>, x: usize) -> Seq<usize> {
    if s.contains(x) {
        s
    } else {
        s.insert(insert_pos(s, x), x)
    }
}

/// The bookmarks `s` with (the first) `x` taken out, if it is there.
pub open spec fn bookmarks_without(s: Seq<usize>, x: usize) -> Seq<usize> {
    if s.contains(x) {
        s.remove(index_of(s, x))
    } else {
        s
    }
}

proof fn lemma_insert_pos_is(s: Seq<usize>, x: usize, p: int)
    requires
        0 <= p <= s.len(),
        forall|k: int| 0 <= k < p ==> s[k] < x,
        p == s.len() || s[p] >= x,
    ensures
        insert_pos(s, x) == p,
    decreases p,
{
    if p > 0 {
        let t = s.drop_first();
        assert forall|k: int| 0 <= k < p - 1 implies t[k] < x by {
            assert(t[k] == s[k + 1]);
        }
        if p < s.len() {
            assert(t[p - 1] == s[p]);
        }
        lemma_insert_pos_is(t, x, p - 1);
    }
}

/// A set of line indices kept as a strictly increasing vector.
#[derive(Debug)]
pub struct SortedIndices {
    items: Vec<usize>,
}

impl SortedIndices {
    #[verifier::type_invariant]
    spec fn sorted(self) -> bool {
        strictly_increasing(self.items@)
    }

    pub closed spec fn view_seq(self) -> Seq<usize> {
        self.items@
    }

    pub fn new() -> (r: Self)
        ensures
            r.view_seq() == Seq::<usize>::empty(),
    {
        SortedIndices { items: Vec::new() }
    }

    pub fn as_slice(&self) -> (r: &[usize])
        ensures
            r@ == self.view_seq(),
            strictly_increasing(r@),
    {
        proof {
            use_type_invariant(self);
        }
        self.items.as_slice()
    }

    /// The position of `x` among the stored indices, if it is there.
    pub fn position(&self, x: usize) -> (r: Option<usize>)
        ensures
            r matches Some(p) ==> p < self.view_seq().len() && self.view_seq()[p as int] == x
                && p == index_of(self.view_seq(), x),
            r is None ==> !self.view_seq().contains(x),
    {
        let n = self.items.len();
        let mut i: usize = 0;
        while i < n
            invariant
                n == self.items@.len(),
                i <= n,
                forall|k: int| 0 <= k < i ==> self.items@[k] != x,
            decreases n - i,
        {
            if self.items[i] == x {
                proof {
                    lemma_index_of_is(self.items@, x, i as int);
                }
                return Some(i);
            }
            i = i + 1;
        }
        None
    }

    /// Adds `x` in its place, unless it is there already.
    pub fn insert(&mut self, x: usize)
        ensures
            final(self).view_seq() == bookmarks_with(old(self).view_seq(), x),
            old(self).view_seq().contains(x) ==> final(self).view_seq() == old(self).view_seq(),
            !old(self).view_seq().contains(x) ==> exists|p: int|
                0 <= p <= old(self).view_seq().len() && final(self).view_seq()
                    == old(self).view_seq().insert(p, x),
            forall|e: usize| #[trigger]
                final(self).view_seq().contains(e) <==> (old(self).view_seq().contains(e) || e
                    == x),
            strictly_increasing(final(self).view_seq()),
    {
        proof {
            use_type_invariant(&*self);
        }
        if self.position(x).is_some() {
            return;
        }
        let n = self.items.len();
        let mut p: usize = 0;
        while p < n && self.items[p] < x
            invariant
                n == self.items@.len(),
                p <= n,
                forall|k: int| 0 <= k < p ==> self.items@[k] < x,
            decreases n - p,
        {
            p = p + 1;
        }
        let ghost old_items = self.items@;
        proof {
            lemma_insert_pos_is(old_items, x, p as int);
        }
        let mut items = Vec::new();
        std::mem::swap(&mut items, &mut self.items);
        items.insert(p, x);
        proof {
            let s = items@;
            assert(s == old_items.insert(p as int, x));
            assert forall|i: int, j: int| 0 <= i < j < s.len() implies s[i] < s[j] by {
                if j < p {
                    assert(s[i] == old_items[i] && s[j] == old_items[j]);
                } else if j == p {
                    assert(s[i] == old_items[i]);
                } else if i < p {
                    assert(s[i] == old_items[i] && s[j] == old_items[j - 1]);
                    assert(old_items[p as int] >= x);
                    assert(old_items[p as int] != x);
                    if j - 1 > p {
                        assert(old_items[p as int] < old_items[j - 1]);
                    }
                } else if i == p {
                    assert(s[j] == old_items[j - 1]);
                    assert(old_items[p as int] != x);
                    if j - 1 > p {
                        assert(old_items[p as int] < old_items[j - 1]);
                    }
                } else {
                    assert(s[i] == old_items[i - 1] && s[j] == old_items[j - 1]);
                }
            }
            assert forall|e: usize| #[trigger] s.contains(e) <==> (old_items.contains(e) || e == x) by {
                if s.contains(e) {
                    let k = choose|k: int| 0 <= k < s.len() && s[k] == e;
                    if k < p {
                        assert(old_items[k] == e);
                    } else if k > p {
                        assert(old_items[k - 1] == e);
                    }
                }
                if old_items.contains(e) {
                    let k = choose|k: int| 0 <= k < old_items.len() && old_items[k] == e;
                    if k < p {
                        assert(s[k] == e);
                    } else {
                        assert(s[k + 1] == e);
                    }
                }
                if e == x {
                    assert(s[p as int] == x);
                }
            }
        }
        self.items = items;
    }

    /// Removes `x`, if it is there.
    pub fn remove(&mut self, x: usize)
        ensures
            final(self).view_seq() == bookmarks_without(old(self).view_seq(), x),
            !old(self).view_seq().contains(x) ==> final(self).view_seq() == old(self).view_seq(),
            old(self).view_seq().contains(x) ==> exists|p: int|
                0 <= p < old(self).view_seq().len() && old(self).view_seq()[p] == x
                    && final(self).view_seq() == old(self).view_seq().remove(p),
            forall|e: usize| #[trigger]
                final(self).view_seq().contains(e) <==> (old(self).view_seq().contains(e) && e
                    != x),
            strictly_increasing(final(self).view_seq()),
    {
        proof {
            use_type_invariant(&*self);
        }
        match self.position(x) {
            None => {},
            Some(p) => {
                let ghost old_items = self.items@;
                let mut items = Vec::new();
                std::mem::swap(&mut items, &mut self.items);
                items.remove(p);
                proof {
                    let s = items@;
                    assert(s == old_items.remove(p as int));
                    assert forall|i: int, j: int| 0 <= i < j < s.len() implies s[i] < s[j] by {
                        if j < p {
                            assert(s[i] == old_items[i] && s[j] == old_items[j]);
                        } else if i < p {
                            assert(s[i] == old_items[i] && s[j] == old_items[j + 1]);
                        } else {
                            assert(s[i] == old_items[i + 1] && s[j] == old_items[j + 1]);
                        }
                    }
                    assert forall|e: usize| #[trigger]
                        s.contains(e) <==> (old_items.contains(e) && e != x) by {
                        if s.contains(e) {
                            let k = choose|k: int| 0 <= k < s.len() && s[k] == e;
                            if k < p {
                                assert(old_items[k] == e);
                                assert(old_items[k] < old_items[p as int]);
                            } else {
                                assert(old_items[k + 1] == e);
                                assert(old_items[p as int] < old_items[k + 1]);
                            }
                        }
                        if old_items.contains(e) && e != x {
                            let k = choose|k: int| 0 <= k < old_items.len() && old_items[k] == e;
                            if k < p {
                                assert(s[k] == e);
                            } else {
                                assert(k != p);
                                assert(s[k - 1] == e);
                            }
                        }
                    }
                }
                self.items = items;
            },
        }
    }
}

/// The bookmarked line indices, kept sorted without repeats, and the selection
/// in the bookmark list.
#[derive(Debug)]
pub struct BookMark {
    indices: SortedIndices,
    state: ListState,
}

/// The entry before `i` in a cyclic list of `len` entries.
pub open spec fn cyclic_prev(i: usize, len: usize) -> usize {
    ((i + len - 1) % (len as int)) as usize
}

/// The entry after `i` in a cyclic list of `len` entries.
pub open spec fn cyclic_next(i: usize, len: usize) -> usize {
    ((i + 1) % (len as int)) as usize
}

impl Default for BookMark {
    /// No bookmarks and nothing selected (`new` selects the first entry).
    fn default() -> (r: BookMark)
        ensures
            r.spec_indices() == Seq::<usize>::empty(),
            r.spec_state().selected is None,
            r.spec_state().offset == 0,
    {
        BookMark { indices: SortedIndices::new(), state: ListState::default() }
    }
}

impl BookMark {
    /// The bookmarked line indices, in increasing order.
    pub closed spec fn spec_indices(self) -> Seq<usize> {
        self.indices.view_seq()
    }

    /// The state of the bookmark list.
    pub closed spec fn spec_state(self) -> ListState {
        self.state
    }

    /// No bookmarks; the first entry of the list is selected.
    pub fn new() -> (r: Self)
        ensures
            r.spec_indices() == Seq::<usize>::empty(),
            r.spec_state().selected == Some(0usize),
            r.spec_state().offset == 0,
    {
        let mut state = ListState::default();
        state.select(Some(0));
        BookMark { indices: SortedIndices::new(), state }
    }

    /// The bookmarked line indices, in increasing order.
    pub fn indices(&self) -> (r: &[usize])
        ensures
            r@ == self.spec_indices(),
            strictly_increasing(r@),
    {
        self.indices.as_slice()
    }

    /// The selected entry of the bookmark list.
    pub(crate) fn state_selected(&self) -> (r: Option<usize>)
        ensures
            r == self.spec_state().selected,
    {
        self.state.selected()
    }

    /// The state of the bookmark list, for the caller to change.
    pub fn state(&mut self) -> (r: &mut ListState)
        ensures
            *r == old(self).spec_state(),
            final(self).spec_state() == *final(r),
            final(self).spec_indices() == old(self).spec_indices(),
    {
        &mut self.state
    }

    /// Bookmarks a line; bookmarking it again changes nothing.
    pub fn add_bookmark(&mut self, index: usize)
        ensures
            final(self).spec_indices() == bookmarks_with(old(self).spec_indices(), index),
            old(self).spec_indices().contains(index) ==> final(self).spec_indices()
                == old(self).spec_indices(),
            !old(self).spec_indices().contains(index) ==> exists|p: int|
                0 <= p <= old(self).spec_indices().len() && final(self).spec_indices()
                    == old(self).spec_indices().insert(p, index),
            forall|e: usize| #[trigger]
                final(self).spec_indices().contains(e) <==> (old(self).spec_indices().contains(
                    e,
                ) || e == index),
            strictly_increasing(final(self).spec_indices()),
            final(self).spec_state() == old(self).spec_state(),
    {
        self.indices.insert(index);
    }

    /// Removes the bookmark of a line, if there is one.
    pub fn remove_bookmark(&mut self, index: usize)
        ensures
            final(self).spec_indices() == bookmarks_without(old(self).spec_indices(), index),
            !old(self).spec_indices().contains(index) ==> final(self).spec_indices()
                == old(self).spec_indices(),
            old(self).spec_indices().contains(index) ==> exists|p: int|
                0 <= p < old(self).spec_indices().len() && old(self).spec_indices()[p] == index
                    && final(self).spec_indices() == old(self).spec_indices().remove(p),
            forall|e: usize| #[trigger]
                final(self).spec_indices().contains(e) <==> (old(self).spec_indices().contains(
                    e,
                ) && e != index),
            strictly_increasing(final(self).spec_indices()),
            final(self).spec_state() == old(self).spec_state(),
    {
        self.indices.remove(index);
    }

    /// Moves the selection one entry up the bookmark list, wrapping around
    /// (the list shows bookmarks top-down, so this is the `Up` key).
    pub fn select_next_bookmark(&mut self)
        requires
            old(self).spec_state().selected matches Some(i) ==> i
                + old(self).spec_indices().len() <= usize::MAX,
        ensures
            final(self).spec_indices() == old(self).spec_indices(),
            old(self).spec_indices().len() == 0 ==> final(self).spec_state()
                == old(self).spec_state(),
            old(self).spec_indices().len() > 0 ==> final(self).spec_state().selected == Some(
                match old(self).spec_state().selected {
                    Some(i) => cyclic_prev(i, old(self).spec_indices().len() as usize),
                    None => 0,
                },
            ),
            final(self).spec_state().offset == old(self).spec_state().offset,
    {
        let len = self.indices.as_slice().len();
        if len == 0 {
            return;
        }
        let index = match self.state.selected() {
            Some(i) => (i + len - 1) % len,
            None => 0,
        };
        self.state.select(Some(index));
    }

    /// Moves the selection one entry down the bookmark list, wrapping around.
    pub fn select_previous_bookmark(&mut self)
        requires
            old(self).spec_state().selected matches Some(i) ==> i < usize::MAX,
        ensures
            final(self).spec_indices() == old(self).spec_indices(),
            old(self).spec_indices().len() == 0 ==> final(self).spec_state()
                == old(self).spec_state(),
            old(self).spec_indices().len() > 0 ==> final(self).spec_state().selected == Some(
                match old(self).spec_state().selected {
                    Some(i) => cyclic_next(i, old(self).spec_indices().len() as usize),
                    None => 0,
                },
            ),
            final(self).spec_state().offset == old(self).spec_state().offset,
    {
        let len = self.indices.as_slice().len();
        if len == 0 {
            return;
        }
        let index = match self.state.selected() {
            Some(i) => (i + 1) % len,
            None => 0,
        };
        self.state.select(Some(index));
    }
}

} // verus!
