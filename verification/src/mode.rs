use vstd::prelude::*;

verus! {

/// The interaction mode of the viewer: which panel receives the keys.
#[derive(Debug, Clone, Copy, PartialEq, Eq, Structural)]
pub enum Mode {
    Normal,
    Search,
    BookMark,
    Filter,
    Highlight,
}

impl Default for Mode {
    fn default() -> (m: Mode)
        ensures
            m == Mode::Normal,
    {
        Mode::Normal
    }
}

} // verus!
