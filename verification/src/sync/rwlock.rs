use vstd::prelude::*;
use crate::error::code;

verus! {

/// What the caller of a locking step of `RtRwLock` does next (it holds the
/// lock's mutex around each step).
#[derive(Clone, Copy, Debug, PartialEq, Eq, Structural)]
pub enum RwStep {
    /// The lock is taken.
    Acquired,
    /// The caller waits on the readers' condition variable (for a reader)
    /// or the writers' one (for a writer), then calls `read_woken` or
    /// `write_woken` with the result of the wait.
    Wait,
}

/// What the caller of `RtRwLock::unlock` notifies.
#[derive(Clone, Copy, Debug, PartialEq, Eq, Structural)]
pub enum RwNotify {
    /// Nobody.
    Nobody,
    /// One waiting writer.
    OneWriter,
    /// Every waiting reader.
    AllReaders,
}

/// The bookkeeping of a kernel reader-writer lock: how many readers hold
/// it (or -1 for a writer), and how many readers and writers wait.
pub struct RtRwLock {
    rw_count: i32,
    reader_waiting: u32,
    writer_waiting: u32,
}

impl RtRwLock {
    /// Readers holding the lock, or -1 while a writer holds it.
    pub closed spec fn count(&self) -> i32 {
        self.rw_count
    }

    pub closed spec fn readers_waiting(&self) -> u32 {
        self.reader_waiting
    }

    pub closed spec fn writers_waiting(&self) -> u32 {
        self.writer_waiting
    }

    /// A free lock with no waiters.
    pub fn new() -> (l: Self)
        ensures
            l.count() == 0 && l.readers_waiting() == 0 && l.writers_waiting() == 0,
    {
        RtRwLock { rw_count: 0, reader_waiting: 0, writer_waiting: 0 }
    }

    /// Sets the lock up afresh, free with no waiters.
    pub fn init_internal(&mut self)
        ensures
            final(self).count() == 0 && final(self).readers_waiting() == 0 && final(self).writers_waiting() == 0,
    {
        self.rw_count = 0;
        self.reader_waiting = 0;
        self.writer_waiting = 0;
    }

    /// Whether the lock may be removed: `EBUSY` while it is held or waited
    /// for, `EOK` otherwise.
    pub fn detach(&self) -> (r: i32)
        ensures
            r == (if self.count() != 0 || self.readers_waiting() != 0 || self.writers_waiting() != 0 {
                code::EBUSY
            } else {
                code::EOK
            }),
    {
        if self.rw_count != 0 || self.reader_waiting != 0 || self.writer_waiting != 0 {
            code::EBUSY
        } else {
            code::EOK
        }
    }

    /// Takes a read hold unless a writer holds the lock or waits for it
    /// (`EBUSY`, nothing changed).
    pub fn try_lock_read(&mut self) -> (r: i32)
        requires
            old(self).count() < i32::MAX,
        ensures
            old(self).count() < 0 || old(self).writers_waiting() > 0 ==> r == code::EBUSY && *final(self) == *old(self),
            !(old(self).count() < 0 || old(self).writers_waiting() > 0) ==> r == code::EOK
                && final(self).count() == old(self).count() + 1
                && final(self).readers_waiting() == old(self).readers_waiting()
                && final(self).writers_waiting() == old(self).writers_waiting(),
    {
        if self.rw_count < 0 || self.writer_waiting > 0 {
            code::EBUSY
        } else {
            self.rw_count = self.rw_count + 1;
            code::EOK
        }
    }

    /// Takes the write hold unless the lock is held (`EBUSY`, nothing
    /// changed).
    pub fn try_lock_write(&mut self) -> (r: i32)
        ensures
            old(self).count() != 0 ==> r == code::EBUSY && *final(self) == *old(self),
            old(self).count() == 0 ==> r == code::EOK && final(self).count() == -1
                && final(self).readers_waiting() == old(self).readers_waiting()
                && final(self).writers_waiting() == old(self).writers_waiting(),
    {
        if self.rw_count != 0 {
            code::EBUSY
        } else {
            self.rw_count = -1;
            code::EOK
        }
    }

    /// One step of taking a read hold: taken when no writer holds or waits
    /// for the lock; otherwise the reader is counted as waiting and waits.
    pub fn read_step(&mut self) -> (r: RwStep)
        requires
            old(self).count() < i32::MAX,
            old(self).readers_waiting() < u32::MAX,
        ensures
            final(self).writers_waiting() == old(self).writers_waiting(),
            old(self).count() < 0 || old(self).writers_waiting() > 0 ==> r == RwStep::Wait
                && final(self).count() == old(self).count()
                && final(self).readers_waiting() == old(self).readers_waiting() + 1,
            !(old(self).count() < 0 || old(self).writers_waiting() > 0) ==> r == RwStep::Acquired
                && final(self).count() == old(self).count() + 1
                && final(self).readers_waiting() == old(self).readers_waiting(),
    {
        if self.rw_count < 0 || self.writer_waiting > 0 {
            self.reader_waiting = self.reader_waiting + 1;
            RwStep::Wait
        } else {
            self.rw_count = self.rw_count + 1;
            RwStep::Acquired
        }
    }

    /// A waiting reader was woken with `result`: it is no longer counted
    /// as waiting; on an error the attempt ends with it, otherwise the
    /// reader steps again (`None`).
    pub fn read_woken(&mut self, result: i32) -> (r: Option<i32>)
        requires
            old(self).readers_waiting() > 0,
        ensures
            final(self).readers_waiting() == old(self).readers_waiting() - 1,
            final(self).count() == old(self).count(),
            final(self).writers_waiting() == old(self).writers_waiting(),
            r == (if result != code::EOK { Some(result) } else { None::<i32> }),
    {
        self.reader_waiting = self.reader_waiting - 1;
        if result != code::EOK { Some(result) } else { None }
    }

    /// One step of taking the write hold: taken when the lock is free;
    /// otherwise the writer is counted as waiting and waits.
    pub fn write_step(&mut self) -> (r: RwStep)
        requires
            old(self).writers_waiting() < u32::MAX,
        ensures
            final(self).readers_waiting() == old(self).readers_waiting(),
            old(self).count() != 0 ==> r == RwStep::Wait && final(self).count() == old(self).count()
                && final(self).writers_waiting() == old(self).writers_waiting() + 1,
            old(self).count() == 0 ==> r == RwStep::Acquired && final(self).count() == -1
                && final(self).writers_waiting() == old(self).writers_waiting(),
    {
        if self.rw_count != 0 {
            self.writer_waiting = self.writer_waiting + 1;
            RwStep::Wait
        } else {
            self.rw_count = -1;
            RwStep::Acquired
        }
    }

    /// A waiting writer was woken with `result`: it is no longer counted
    /// as waiting; on an error the attempt ends with it, otherwise the
    /// writer steps again (`None`).
    pub fn write_woken(&mut self, result: i32) -> (r: Option<i32>)
        requires
            old(self).writers_waiting() > 0,
        ensures
            final(self).writers_waiting() == old(self).writers_waiting() - 1,
            final(self).count() == old(self).count(),
            final(self).readers_waiting() == old(self).readers_waiting(),
            r == (if result != code::EOK { Some(result) } else { None::<i32> }),
    {
        self.writer_waiting = self.writer_waiting - 1;
        if result != code::EOK { Some(result) } else { None }
    }

    /// Gives a hold back: a reader's lowers the count, the writer's frees
    /// the lock. Then a waiting writer is notified if the lock is free,
    /// or, with no writer waiting, all waiting readers are.
    pub fn unlock(&mut self) -> (n: RwNotify)
        ensures
            final(self).count() == (if old(self).count() > 0 {
                old(self).count() - 1
            } else if old(self).count() == -1 {
                0
            } else {
                old(self).count() as int
            }),
            final(self).readers_waiting() == old(self).readers_waiting(),
            final(self).writers_waiting() == old(self).writers_waiting(),
            n == (if old(self).writers_waiting() > 0 {
                if final(self).count() == 0 { RwNotify::OneWriter } else { RwNotify::Nobody }
            } else if old(self).readers_waiting() > 0 {
                RwNotify::AllReaders
            } else {
                RwNotify::Nobody
            }),
    {
        if self.rw_count > 0 {
            self.rw_count = self.rw_count - 1;
        } else if self.rw_count == -1 {
            self.rw_count = 0;
        }
        if self.writer_waiting > 0 {
            if self.rw_count == 0 { RwNotify::OneWriter } else { RwNotify::Nobody }
        } else if self.reader_waiting > 0 {
            RwNotify::AllReaders
        } else {
            RwNotify::Nobody
        }
    }
}

/// A writer excludes readers and other writers: once the write hold is
/// taken no read or write attempt succeeds until it is given back, and
/// giving it back frees the lock.
pub proof fn lemma_rw_writer_excludes(count: i32, writers_waiting: u32)
    requires
        count == -1,
    ensures
        count < 0 || writers_waiting > 0,
        count != 0,
        (if count > 0 { count - 1 } else if count == -1 { 0 } else { count as int }) == 0,
{
}

} // verus!
