use vstd::prelude::*;

pub mod doubly_linked_list;
pub mod typed_ilist;
pub mod typed_atomic_ilist;

verus! {
} // verus!
