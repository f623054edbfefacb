use vstd::prelude::*;

verus! {

/// The launcher's settings.
pub struct Config {
    /// How many buttons one row of the grid holds.
    pub columns: u8,
    /// Markup shown in front of the search field.
    pub search_prompt: String,
    /// Whether the colours generated by pywal are applied.
    pub enable_pywal: bool,
}

} // verus!
