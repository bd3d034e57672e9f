use vstd::prelude::*;

verus! {

/// A spin lock: whether it is held. Taking a held lock spins until the
/// holder gives it back; here a taker must find it free.
pub struct RawSpin {
    locked: bool,
}

/// The proof that a `RawSpin` was taken with `acquire`.
pub struct RawSpinGuard {
    _private: (),
}

impl RawSpin {
    /// Whether the lock is held.
    pub closed spec fn held(&self) -> bool {
        self.locked
    }

    /// A free lock.
    pub fn new() -> (l: Self)
        ensures
            !l.held(),
    {
        RawSpin { locked: false }
    }

    /// Takes the lock.
    pub fn lock_fast(&mut self)
        requires
            !old(self).held(),
        ensures
            final(self).held(),
    {
        self.locked = true;
    }

    /// Gives the lock back.
    pub fn unlock_fast(&mut self)
        ensures
            !final(self).held(),
    {
        self.locked = false;
    }

    /// Takes the lock, with preemption off for the holder.
    pub fn lock(&mut self)
        requires
            !old(self).held(),
        ensures
            final(self).held(),
    {
        self.lock_fast();
    }

    /// Gives the lock back, with preemption on again.
    pub fn unlock(&mut self)
        ensures
            !final(self).held(),
    {
        self.unlock_fast();
    }

    /// Takes the lock with interrupts off; `level` is the interrupt state
    /// that turning them off returned, handed back to restore later.
    pub fn lock_irqsave(&mut self, level: usize) -> (r: usize)
        requires
            !old(self).held(),
        ensures
            final(self).held(),
            r == level,
    {
        self.lock_fast();
        level
    }

    /// Gives the lock back and returns the interrupt state to restore.
    pub fn unlock_irqrestore(&mut self, level: usize) -> (r: usize)
        ensures
            !final(self).held(),
            r == level,
    {
        self.unlock_fast();
        level
    }

    /// Takes the lock, returning a guard to give it back with.
    pub fn acquire(&mut self) -> (g: RawSpinGuard)
        requires
            !old(self).held(),
        ensures
            final(self).held(),
    {
        self.lock();
        RawSpinGuard { _private: () }
    }

    /// Gives back the lock taken with `acquire`.
    pub fn release(&mut self, _guard: RawSpinGuard)
        ensures
            !final(self).held(),
    {
        self.unlock();
    }
}

/// A value guarded by a spin lock.
pub struct SpinMutex<T> {
    lock: RawSpin,
    data: T,
}

/// The proof that a `SpinMutex` is held, giving access to its value.
pub struct SpinMutexGuard {
    _private: (),
}

impl<T> SpinMutex<T> {
    /// The guarded value.
    pub closed spec fn value(&self) -> T {
        self.data
    }

    /// Whether the lock is held.
    pub closed spec fn held(&self) -> bool {
        self.lock.held()
    }

    /// A free lock guarding `data`.
    pub fn new(data: T) -> (m: Self)
        ensures
            !m.held(),
            m.value() == data,
    {
        SpinMutex { lock: RawSpin::new(), data }
    }

    /// A free lock guarding `data`.
    pub fn from(data: T) -> (m: Self)
        ensures
            !m.held(),
            m.value() == data,
    {
        Self::new(data)
    }

    /// The guarded value, the lock given up.
    pub fn into_inner(self) -> (d: T)
        ensures
            d == self.value(),
    {
        self.data
    }

    /// The value, for a holder of the only reference to the lock.
    pub fn get_mut(&mut self) -> (d: &mut T)
        ensures
            *d == old(self).value(),
            final(self).value() == *final(d),
            final(self).held() == old(self).held(),
    {
        &mut self.data
    }

    /// The value, for the holder of the lock, to change through the
    /// pointer the lock hands out.
    pub fn as_mut_ptr(&mut self) -> (d: &mut T)
        ensures
            *d == old(self).value(),
            final(self).value() == *final(d),
            final(self).held() == old(self).held(),
    {
        &mut self.data
    }

    /// Takes the lock; the guard gives access to the value.
    pub fn lock(&mut self) -> (g: SpinMutexGuard)
        requires
            !old(self).held(),
        ensures
            final(self).held(),
            final(self).value() == old(self).value(),
    {
        self.lock.lock();
        SpinMutexGuard { _private: () }
    }

    /// Gives the lock back, whoever holds it.
    pub fn force_unlock(&mut self)
        ensures
            !final(self).held(),
            final(self).value() == old(self).value(),
    {
        self.lock.unlock();
    }

    /// Reads the value, for the holder of the lock.
    pub fn deref(&self, _guard: &SpinMutexGuard) -> (d: &T)
        ensures
            *d == self.value(),
    {
        &self.data
    }

    /// Changes the value, for the holder of the lock.
    pub fn deref_mut(&mut self, _guard: &SpinMutexGuard) -> (d: &mut T)
        ensures
            *d == old(self).value(),
            final(self).value() == *final(d),
            final(self).held() == old(self).held(),
    {
        &mut self.data
    }

    /// Gives back the lock taken with `lock`.
    pub fn unlock(&mut self, _guard: SpinMutexGuard)
        ensures
            !final(self).held(),
            final(self).value() == old(self).value(),
    {
        self.lock.unlock();
    }

    /// Keeps the lock held for good and gives the value to change.
    pub fn leak(&mut self, _guard: SpinMutexGuard) -> (d: &mut T)
        ensures
            *d == old(self).value(),
            final(self).value() == *final(d),
            final(self).held() == old(self).held(),
    {
        &mut self.data
    }
}

/// Sets up a spin lock: it is free.
pub fn rt_spin_lock_init(spin: &mut RawSpin)
    ensures
        !final(spin).held(),
{
    *spin = RawSpin::new();
}

/// Takes a spin lock.
pub fn rt_spin_lock(spin: &mut RawSpin)
    requires
        !old(spin).held(),
    ensures
        final(spin).held(),
{
    spin.lock();
}

/// Gives a spin lock back.
pub fn rt_spin_unlock(spin: &mut RawSpin)
    ensures
        !final(spin).held(),
{
    spin.unlock();
}

/// Takes a spin lock with interrupts off; `level` is the interrupt state
/// that turning them off returned, handed back to restore later.
pub fn rt_spin_lock_irqsave(spin: &mut RawSpin, level: usize) -> (r: usize)
    requires
        !old(spin).held(),
    ensures
        final(spin).held(),
        r == level,
{
    spin.lock_irqsave(level)
}

/// Gives a spin lock back and returns the interrupt state to restore.
pub fn rt_spin_unlock_irqrestore(spin: &mut RawSpin, level: usize) -> (r: usize)
    ensures
        !final(spin).held(),
        r == level,
{
    spin.unlock_irqrestore(level)
}

} // verus!
