use vstd::prelude::*;

verus! {

/// The direction of a split in a saved layout: `H` places the two halves
/// side by side, `V` one above the other.
#[derive(Clone, Copy, Debug, PartialEq, Eq, Structural)]
pub enum SavedSplitDir {
    H,
    V,
}

} // verus!
