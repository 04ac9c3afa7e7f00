use vstd::prelude::*;

use crate::text::{string_clear, string_pop, string_push};

verus! {

/// How a filter combines with the one after it.
#[derive(Debug, Clone, Copy, PartialEq, Eq, Structural)]
pub enum FilterOp {
    And,
    Or,
}

impl Default for FilterOp {
    fn default() -> (r: FilterOp)
        ensures
            r == FilterOp::And,
    {
        FilterOp::And
    }
}

/// The other operator.
pub open spec fn flipped(op: FilterOp) -> FilterOp {
    match op {
        FilterOp::And => FilterOp::Or,
        FilterOp::Or => FilterOp::And,
    }
}

/// One filter: a query, whether it is being edited, whether it applies, and its operator.
#[derive(Debug)]
pub struct FilterState {
    query: String,
    is_editing: bool,
    is_active: bool,
    op: FilterOp,
}

/// What a filter holds, as mathematical values.
pub struct FilterView {
    pub query: Seq<char>,
    pub is_editing: bool,
    pub is_active: bool,
    pub op: FilterOp,
}

impl View for FilterState {
    type V = FilterView;

    closed spec fn view(&self) -> FilterView {
        FilterView {
            query: self.query@,
            is_editing: self.is_editing,
            is_active: self.is_active,
            op: self.op,
        }
    }
}

impl Default for FilterState {
    fn default() -> (r: FilterState)
        ensures
            r@.query == Seq::<char>::empty(),
            !r@.is_editing,
            !r@.is_active,
            r@.op == FilterOp::And,
    {
        FilterState::new()
    }
}

impl FilterState {
    /// An empty, inactive `And` filter that is not being edited.
    pub fn new() -> (r: Self)
        ensures
            r@.query == Seq::<char>::empty(),
            !r@.is_editing,
            !r@.is_active,
            r@.op == FilterOp::And,
    {
        FilterState { query: String::new(), is_editing: false, is_active: false, op: FilterOp::And }
    }

    pub fn query(&self) -> (r: &str)
        ensures
            r@ == self@.query,
    {
        self.query.as_str()
    }

    pub fn is_active(&self) -> (r: bool)
        ensures
            r == self@.is_active,
    {
        self.is_active
    }

    pub fn set_active(&mut self, is_active: bool)
        ensures
            final(self)@ == (FilterView { is_active, ..old(self)@ }),
    {
        self.is_active = is_active;
    }

    pub fn is_editing(&self) -> (r: bool)
        ensures
            r == self@.is_editing,
    {
        self.is_editing
    }

    pub fn set_is_editing(&mut self, is_editing: bool)
        ensures
            final(self)@ == (FilterView { is_editing, ..old(self)@ }),
    {
        self.is_editing = is_editing;
    }

    pub fn op(&self) -> (r: FilterOp)
        ensures
            r == self@.op,
    {
        self.op
    }

    pub fn set_op(&mut self, op: FilterOp)
        ensures
            final(self)@ == (FilterView { op, ..old(self)@ }),
    {
        self.op = op
    }

    /// Switches `And` to `Or` and back.
    pub fn change_op(&mut self)
        ensures
            final(self)@ == (FilterView { op: flipped(old(self)@.op), ..old(self)@ }),
    {
        let new_op = match self.op {
            FilterOp::And => FilterOp::Or,
            FilterOp::Or => FilterOp::And,
        };
        self.set_op(new_op);
    }

    /// Appends a character to the query.
    pub fn push_char(&mut self, ch: char)
        ensures
            final(self)@ == (FilterView { query: old(self)@.query.push(ch), ..old(self)@ }),
    {
        string_push(&mut self.query, ch);
    }

    /// Removes the last character of the query, if there is one.
    pub fn pop_char(&mut self)
        ensures
            old(self)@.query.len() == 0 ==> final(self)@ == old(self)@,
            old(self)@.query.len() > 0 ==> final(self)@ == (FilterView {
                query: old(self)@.query.drop_last(),
                ..old(self)@
            }),
    {
        string_pop(&mut self.query);
    }

    /// Empties the query and deactivates the filter.
    pub fn clear(&mut self)
        ensures
            final(self)@ == (FilterView {
                query: Seq::<char>::empty(),
                is_active: false,
                ..old(self)@
            }),
    {
        string_clear(&mut self.query);
        self.is_active = false;
    }
}

} // verus!
