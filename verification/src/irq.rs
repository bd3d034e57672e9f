use vstd::prelude::*;

verus! {

/// A lock that works by turning interrupts off: taking it records the
/// interrupt state that turning them off returned, and releasing it hands
/// that state back, to be restored.
#[derive(Clone, Debug)]
pub struct IrqLockRaw {
    saved: usize,
}

/// The proof that an `IrqLockRaw` is held, with the state to restore.
pub struct IrqLockRawGuard {
    saved: usize,
}

impl IrqLockRaw {
    /// The interrupt state recorded last.
    pub closed spec fn saved_spec(&self) -> usize {
        self.saved
    }

    pub fn new() -> (l: Self)
        ensures
            l.saved_spec() == 0,
    {
        IrqLockRaw { saved: 0 }
    }

    /// Takes the lock; `level` is the interrupt state that turning
    /// interrupts off returned.
    pub fn lock(&mut self, level: usize) -> (g: IrqLockRawGuard)
        ensures
            final(self).saved_spec() == level,
            g.level() == level,
    {
        self.saved = level;
        IrqLockRawGuard { saved: level }
    }
}

impl IrqLockRawGuard {
    /// The interrupt state to restore on release.
    pub closed spec fn level(&self) -> usize {
        self.saved
    }

    /// Releases the lock and returns the interrupt state to restore.
    pub fn unlock(self) -> (level: usize)
        ensures
            level == self.level(),
    {
        self.saved
    }
}

/// A value guarded by turning interrupts off.
pub struct IrqLock<T> {
    lock: IrqLockRaw,
    inner: T,
}

/// Access to the value of a held `IrqLock`, to read and to change, with
/// the interrupt state to restore.
pub struct IrqGuard<'a, T> {
    pub lock: &'a mut IrqLock<T>,
    pub saved: usize,
}

impl<T> IrqLock<T> {
    /// The guarded value.
    pub closed spec fn value(&self) -> T {
        self.inner
    }

    pub fn new(element: T) -> (l: Self)
        ensures
            l.value() == element,
    {
        IrqLock { lock: IrqLockRaw::new(), inner: element }
    }

    /// Takes the lock; `level` is the interrupt state that turning
    /// interrupts off returned. The guard gives access to the value.
    pub fn lock(&mut self, level: usize) -> (g: IrqGuard<'_, T>)
        ensures
            g.value() == old(self).value(),
            g.level() == level,
            *final(self) == *final(g.lock),
    {
        self.lock.lock(level);
        IrqGuard { lock: self, saved: level }
    }

    /// The value, to be changed by the holder of the lock.
    pub fn get_mut(&mut self) -> (r: &mut T)
        ensures
            *r == old(self).value(),
            final(self).value() == *final(r),
    {
        &mut self.inner
    }
}

impl<'a, T> IrqGuard<'a, T> {
    /// The value behind the guard.
    pub open spec fn value(&self) -> T {
        self.lock.value()
    }

    /// The interrupt state to restore on release.
    pub open spec fn level(&self) -> usize {
        self.saved
    }

    /// Reads the value.
    pub fn get(&self) -> (r: &T)
        ensures
            *r == self.value(),
    {
        &self.lock.inner
    }

    /// Changes the value: what is written through the reference is the
    /// lock's value once the guard is done with it.
    pub fn get_mut(&mut self) -> (r: &mut T)
        ensures
            *r == old(self).value(),
            final(self).value() == *final(r),
            final(self).level() == old(self).level(),
            *final(final(self).lock) == *final(old(self).lock),
    {
        &mut self.lock.inner
    }

    /// Releases the lock and returns the interrupt state to restore; the
    /// value stays as the guard left it.
    pub fn unlock(self) -> (level: usize)
        ensures
            level == self.level(),
            *final(self.lock) == *old(self.lock),
    {
        self.saved
    }
}

} // verus!
