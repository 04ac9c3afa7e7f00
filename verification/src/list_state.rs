use vstd::prelude::*;

verus! {

/// The selection and scroll offset of a list on screen: the state that a
/// terminal list widget keeps between frames.
#[derive(Debug, Clone, Copy, PartialEq, Eq, Structural)]
pub struct ListState {
    pub offset: usize,
    pub selected: Option<usize>,
}

impl Default for ListState {
    fn default() -> (r: ListState)
        ensures
            r.offset == 0,
            r.selected is None,
    {
        ListState { offset: 0, selected: None }
    }
}

/// `selected.unwrap_or(0) + amount`, saturating at `usize::MAX`.
pub open spec fn scrolled_down(selected: Option<usize>, amount: u16) -> usize {
    let s = match selected {
        Some(i) => i,
        None => 0,
    };
    if s + amount > usize::MAX {
        usize::MAX
    } else {
        (s + amount) as usize
    }
}

/// `selected.unwrap_or(0) - amount`, saturating at 0.
pub open spec fn scrolled_up(selected: Option<usize>, amount: u16) -> usize {
    let s = match selected {
        Some(i) => i,
        None => 0,
    };
    if s < amount {
        0
    } else {
        (s - amount) as usize
    }
}

impl ListState {
    /// A state with the given offset and selection.
    pub fn from_parts(offset: usize, selected: Option<usize>) -> (r: Self)
        ensures
            r.offset == offset,
            r.selected == selected,
    {
        ListState { offset, selected }
    }

    /// The same state with another offset.
    pub fn with_offset(self, offset: usize) -> (r: Self)
        ensures
            r.offset == offset,
            r.selected == self.selected,
    {
        ListState { offset, ..self }
    }

    /// The same state with another selection.
    pub fn with_selected(self, selected: Option<usize>) -> (r: Self)
        ensures
            r.offset == self.offset,
            r.selected == selected,
    {
        ListState { selected, ..self }
    }

    /// The index of the first item shown.
    pub fn offset(&self) -> (r: usize)
        ensures
            r == self.offset,
    {
        self.offset
    }

    /// The index of the selected item, if any.
    pub fn selected(&self) -> (r: Option<usize>)
        ensures
            r == self.selected,
    {
        self.selected
    }

    /// Selects an item; deselecting also scrolls back to the top.
    pub fn select(&mut self, index: Option<usize>)
        ensures
            final(self).selected == index,
            final(self).offset == (if index is None {
                0
            } else {
                old(self).offset
            }),
    {
        self.selected = index;
        if index.is_none() {
            self.offset = 0;
        }
    }

    /// Moves the selection `amount` items down (from the top where nothing is selected).
    pub fn scroll_down_by(&mut self, amount: u16)
        ensures
            final(self).selected == Some(scrolled_down(old(self).selected, amount)),
            final(self).offset == old(self).offset,
    {
        let selected = match self.selected {
            Some(i) => i,
            None => 0,
        };
        self.select(Some(selected.saturating_add(amount as usize)));
    }

    /// Moves the selection `amount` items up, stopping at the first item.
    pub fn scroll_up_by(&mut self, amount: u16)
        ensures
            final(self).selected == Some(scrolled_up(old(self).selected, amount)),
            final(self).offset == old(self).offset,
    {
        let selected = match self.selected {
            Some(i) => i,
            None => 0,
        };
        self.select(Some(selected.saturating_sub(amount as usize)));
    }
}

} // verus!
