use vstd::prelude::*;

verus! {

/// Locates an intrusive field inside its owner: `offset` is the byte offset
/// of the field from the start of the owning value.
pub trait Adapter {
    fn offset() -> usize;
}

} // verus!
