use vstd::prelude::*;

use crate::text::{string_clear, string_pop, string_push};

verus! {

/// One highlight: a query, whether it is being edited, and whether it applies.
#[derive(Debug)]
pub struct HighlightState {
    query: String,
    is_editing: bool,
    is_active: bool,
}

/// What a highlight holds, as mathematical values.
pub struct HighlightView {
    pub query: Seq<char>,
    pub is_editing: bool,
    pub is_active: bool,
}

impl View for HighlightState {
    type V = HighlightView;

    closed spec fn view(&self) -> HighlightView {
        HighlightView { query: self.query@, is_editing: self.is_editing, is_active: self.is_active }
    }
}

impl Default for HighlightState {
    fn default() -> (r: HighlightState)
        ensures
            r@.query == Seq::<char>::empty(),
            !r@.is_editing,
            !r@.is_active,
    {
        HighlightState::new()
    }
}

impl Clone for HighlightState {
    fn clone(&self) -> (r: HighlightState)
        ensures
            r@ == self@,
    {
        HighlightState {
            query: self.query.clone(),
            is_editing: self.is_editing,
            is_active: self.is_active,
        }
    }
}

impl HighlightState {
    /// An empty, inactive highlight that is not being edited.
    pub fn new() -> (r: Self)
        ensures
            r@.query == Seq::<char>::empty(),
            !r@.is_editing,
            !r@.is_active,
    {
        HighlightState { query: String::new(), is_editing: false, is_active: false }
    }

    pub fn query(&self) -> (r: &str)
        ensures
            r@ == self@.query,
    {
        self.query.as_str()
    }

    pub fn is_active(&self) -> (r: bool)
        ensures
            r == self@.is_active,
    {
        self.is_active
    }

    pub fn set_active(&mut self, is_active: bool)
        ensures
            final(self)@ == (HighlightView { is_active, ..old(self)@ }),
    {
        self.is_active = is_active;
    }

    pub fn is_editing(&self) -> (r: bool)
        ensures
            r == self@.is_editing,
    {
        self.is_editing
    }

    pub fn set_is_editing(&mut self, is_editing: bool)
        ensures
            final(self)@ == (HighlightView { is_editing, ..old(self)@ }),
    {
        self.is_editing = is_editing;
    }

    /// Appends a character to the query.
    pub fn push_char(&mut self, ch: char)
        ensures
            final(self)@ == (HighlightView { query: old(self)@.query.push(ch), ..old(self)@ }),
    {
        string_push(&mut self.query, ch);
    }

    /// Removes the last character of the query, if there is one.
    pub fn pop_char(&mut self)
        ensures
            old(self)@.query.len() == 0 ==> final(self)@ == old(self)@,
            old(self)@.query.len() > 0 ==> final(self)@ == (HighlightView {
                query: old(self)@.query.drop_last(),
                ..old(self)@
            }),
    {
        string_pop(&mut self.query);
    }

    /// Empties the query and deactivates the highlight.
    pub fn clear(&mut self)
        ensures
            final(self)@ == (HighlightView {
                query: Seq::<char>::empty(),
                is_active: false,
                ..old(self)@
            }),
    {
        string_clear(&mut self.query);
        self.is_active = false;
    }
}

} // verus!
