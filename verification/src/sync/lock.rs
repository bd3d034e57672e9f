use vstd::prelude::*;
use crate::sync::spinlock::{rt_spin_lock, rt_spin_lock_init, rt_spin_unlock, RawSpin};

verus! {

/// The lock backend for heap locks: a kernel mutex, taken only from a
/// thread.
pub struct HeapLockBackend;

/// The lock backend for spin locks.
pub struct SpinLockBackend;

impl SpinLockBackend {
    /// Sets up the lock state: a free spin lock.
    pub fn init(state: &mut RawSpin)
        ensures
            !final(state).held(),
    {
        rt_spin_lock_init(state);
    }

    /// Takes the spin lock.
    pub fn lock(state: &mut RawSpin)
        requires
            !old(state).held(),
        ensures
            final(state).held(),
    {
        rt_spin_lock(state);
    }

    /// Gives the spin lock back.
    pub fn unlock(state: &mut RawSpin)
        ensures
            !final(state).held(),
    {
        rt_spin_unlock(state);
    }
}

} // verus!
