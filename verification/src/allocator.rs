use vstd::prelude::*;

pub mod buddy_system_heap;

verus! {
} // verus!
