use vstd::prelude::*;
use core::marker::PhantomData;
use crate::intrusive::Adapter;

verus! {

/// One reader in the lock word.
pub const READER: usize = 4;
/// The upgradeable-reader bit.
pub const UPGRADED: usize = 2;
/// The writer bit.
pub const WRITER: usize = 1;
/// The cap on readers past which acquiring a reader panics.
pub const MAX_READERS: usize = usize::MAX / READER / 2;

/// The largest lock word from which a reader may still be acquired.
pub open spec fn reader_cap() -> int {
    MAX_READERS * READER
}

/// The number of readers a lock word records (upgradeable reader excluded).
pub open spec fn readers_of(w: usize) -> int {
    w as int / 4
}

/// Whether a lock word has the upgradeable bit set.
pub open spec fn upgraded_of(w: usize) -> bool {
    (w as int / 2) % 2 == 1
}

/// Whether a lock word has the writer bit set.
pub open spec fn writer_of(w: usize) -> bool {
    w as int % 2 == 1
}

/// Whether a writer or an upgradeable reader holds the lock, which turns
/// new readers away.
pub open spec fn busy_of(w: usize) -> bool {
    w as int % 4 != 0
}

/// The lock word after a successful or failed `try_read`: a reader is
/// added when the lock is not busy, and the word is unchanged otherwise.
pub open spec fn after_try_read(w: usize) -> usize {
    if busy_of(w) { w } else { (w + READER) as usize }
}

/// The lock word after a reader is released.
pub open spec fn after_release_read(w: usize) -> usize {
    (w - READER) as usize
}

/// The lock word after `try_upgradeable_read`: the upgradeable bit is set
/// whether or not the attempt succeeds.
pub open spec fn after_try_upgradeable(w: usize) -> usize {
    if upgraded_of(w) { w } else { (w + UPGRADED) as usize }
}

/// The lock word after a writer is released: both the writer and the
/// upgradeable bits are cleared, the readers are kept.
pub open spec fn after_release_write(w: usize) -> usize {
    (w - w % 4) as usize
}

/// A guard for shared read access. Release it with `RwLock::release_read`.
pub struct RwLockReadGuard {
    _private: (),
    id: Ghost<nat>,
}

/// A guard for exclusive write access. Release it with
/// `RwLock::release_write`.
pub struct RwLockWriteGuard {
    _private: (),
    id: Ghost<nat>,
}

/// A guard for read access that can be upgraded to write access. Release it
/// with `RwLock::release_upgradeable`.
pub struct RwLockUpgradableGuard {
    _private: (),
    id: Ghost<nat>,
}

impl RwLockReadGuard {
    /// The number the lock gave this guard when it handed it out.
    pub closed spec fn id(&self) -> nat {
        self.id@
    }
}

impl RwLockWriteGuard {
    /// The number the lock gave this guard when it handed it out.
    pub closed spec fn id(&self) -> nat {
        self.id@
    }
}

impl RwLockUpgradableGuard {
    /// The number the lock gave this guard when it handed it out.
    pub closed spec fn id(&self) -> nat {
        self.id@
    }
}

/// A reader-writer lock over a value: either one writer, or any number of
/// readers plus at most one upgradeable reader. The lock word counts the
/// readers in units of `READER`, with the `UPGRADED` and `WRITER` bits below.
/// Beside the word the lock keeps, as ghost state, the guards it handed out
/// that were not given back yet (held or forgotten), each by its number.
pub struct RwLock<T> {
    lock: usize,
    data: T,
    reads: Ghost<Set<nat>>,
    ups: Ghost<Set<nat>>,
    writes: Ghost<Set<nat>>,
    serial: Ghost<nat>,
}

impl<T> RwLock<T> {
    /// The lock word.
    pub closed spec fn lock_word(self) -> usize {
        self.lock
    }

    /// The protected value.
    pub closed spec fn value(self) -> T {
        self.data
    }

    /// The read guards handed out and not given back.
    pub closed spec fn read_guards(self) -> Set<nat> {
        self.reads@
    }

    /// The upgradeable guards handed out and not given back.
    pub closed spec fn upgradeable_guards(self) -> Set<nat> {
        self.ups@
    }

    /// The write guards handed out and not given back.
    pub closed spec fn write_guards(self) -> Set<nat> {
        self.writes@
    }

    /// The lock word agrees with the guards that are out: one reader per
    /// read guard, the writer bit for a write guard, which excludes all
    /// others, and, with no writer, the upgradeable bit for an upgradeable
    /// guard. (While a writer holds the lock a refused upgradeable reader
    /// may leave the upgradeable bit set; the writer's release clears it.)
    pub closed spec fn wf(self) -> bool {
        &&& self.reads@.finite() && self.ups@.finite() && self.writes@.finite()
        &&& readers_of(self.lock) == self.reads@.len()
        &&& writer_of(self.lock) == (self.writes@.len() == 1)
        &&& self.writes@.len() <= 1 && self.ups@.len() <= 1
        &&& self.writes@.len() == 1 ==> self.reads@.len() == 0 && self.ups@.len() == 0
        &&& self.writes@.len() == 0 ==> upgraded_of(self.lock) == (self.ups@.len() == 1)
        &&& forall|i: nat| #[trigger] self.reads@.contains(i) ==> i < self.serial@
        &&& forall|i: nat| #[trigger] self.ups@.contains(i) ==> i < self.serial@
        &&& forall|i: nat| #[trigger] self.writes@.contains(i) ==> i < self.serial@
    }

    /// The guards that are out are what the lock word counts: as many
    /// readers as read guards; the writer bit exactly while a write guard
    /// is out, and then no other guard; with no write guard, the
    /// upgradeable bit exactly while an upgradeable guard is out; and the
    /// word is 0 exactly when no guard at all is out.
    pub proof fn lemma_guards_counted(self)
        requires
            self.wf(),
        ensures
            readers_of(self.lock_word()) == self.read_guards().len(),
            writer_of(self.lock_word()) <==> self.write_guards().len() == 1,
            self.write_guards().len() <= 1,
            self.write_guards().len() == 1 ==> self.read_guards().len() == 0 && self.upgradeable_guards().len() == 0,
            self.write_guards().len() == 0 ==> (upgraded_of(self.lock_word()) <==> self.upgradeable_guards().len() == 1),
            self.lock_word() == 0 <==> self.read_guards().len() == 0 && self.upgradeable_guards().len() == 0
                && self.write_guards().len() == 0,
    {
        let w = self.lock;
        assert(w == 4 * (w as int / 4) + 2 * ((w as int / 2) % 2) + w as int % 2);
    }

    /// Creates an unlocked lock around `data`, with no guard out.
    pub fn new(data: T) -> (l: Self)
        ensures
            l.wf(),
            l.lock_word() == 0,
            l.value() == data,
            l.read_guards().len() == 0,
            l.upgradeable_guards().len() == 0,
            l.write_guards().len() == 0,
    {
        RwLock { lock: 0, data, reads: Ghost(Set::empty()), ups: Ghost(Set::empty()),
            writes: Ghost(Set::empty()), serial: Ghost(0) }
    }

    /// Consumes the lock and gives back the value.
    pub fn into_inner(self) -> (d: T)
        ensures
            d == self.value(),
    {
        self.data
    }

    /// Mutable access to the value; the exclusive borrow of the lock makes
    /// locking unnecessary.
    pub fn get_mut(&mut self) -> (d: &mut T)
        ensures
            *d == old(self).value(),
            final(self).value() == *final(d),
            final(self).lock_word() == old(self).lock_word(),
            final(self).wf() == old(self).wf(),
            final(self).read_guards() == old(self).read_guards(),
            final(self).upgradeable_guards() == old(self).upgradeable_guards(),
            final(self).write_guards() == old(self).write_guards(),
    {
        &mut self.data
    }

    /// Mutable access to the value, as through a pointer to it; the
    /// exclusive borrow of the lock makes locking unnecessary.
    pub fn as_mut_ptr(&mut self) -> (d: &mut T)
        ensures
            *d == old(self).value(),
            final(self).value() == *final(d),
            final(self).lock_word() == old(self).lock_word(),
            final(self).wf() == old(self).wf(),
            final(self).read_guards() == old(self).read_guards(),
            final(self).upgradeable_guards() == old(self).upgradeable_guards(),
            final(self).write_guards() == old(self).write_guards(),
    {
        &mut self.data
    }

    /// Shared access to the value under a read guard.
    pub fn read_data(&self, guard: &RwLockReadGuard) -> (d: &T)
        ensures
            *d == self.value(),
    {
        &self.data
    }

    /// Shared access to the value under an upgradeable guard.
    pub fn upgradeable_data(&self, guard: &RwLockUpgradableGuard) -> (d: &T)
        ensures
            *d == self.value(),
    {
        &self.data
    }

    /// Mutable access to the value under a write guard.
    pub fn write_data(&mut self, guard: &RwLockWriteGuard) -> (d: &mut T)
        ensures
            *d == old(self).value(),
            final(self).value() == *final(d),
            final(self).lock_word() == old(self).lock_word(),
            final(self).wf() == old(self).wf(),
            final(self).read_guards() == old(self).read_guards(),
            final(self).upgradeable_guards() == old(self).upgradeable_guards(),
            final(self).write_guards() == old(self).write_guards(),
    {
        &mut self.data
    }

    /// Adds a reader to the lock word and returns the word it had before.
    /// Panics past the reader cap, so that is excluded.
    fn acquire_reader(&mut self) -> (v: usize)
        requires
            old(self).lock_word() <= reader_cap(),
        ensures
            v == old(self).lock_word(),
            final(self).lock == old(self).lock + READER,
            final(self).data == old(self).data,
            final(self).reads == old(self).reads,
            final(self).ups == old(self).ups,
            final(self).writes == old(self).writes,
            final(self).serial == old(self).serial,
    {
        let value = self.lock;
        self.lock = value + READER;
        value
    }

    /// A new guard number, fresh for this lock.
    fn fresh_id(&mut self) -> (id: Ghost<nat>)
        requires
            old(self).wf(),
        ensures
            final(self).wf(),
            id@ == old(self).serial@,
            final(self).serial@ == old(self).serial@ + 1,
            !old(self).reads@.contains(id@) && !old(self).ups@.contains(id@) && !old(self).writes@.contains(id@),
            final(self).lock == old(self).lock,
            final(self).data == old(self).data,
            final(self).reads == old(self).reads,
            final(self).ups == old(self).ups,
            final(self).writes == old(self).writes,
    {
        let id = Ghost(self.serial@);
        proof {
            self.serial@ = self.serial@ + 1;
        }
        id
    }

    /// Tries to take shared read access. Fails, leaving the word as it was,
    /// while a writer or an upgradeable reader holds the lock.
    pub fn try_read(&mut self) -> (g: Option<RwLockReadGuard>)
        requires
            old(self).wf(),
            old(self).lock_word() <= reader_cap(),
        ensures
            final(self).wf(),
            g is Some <==> !busy_of(old(self).lock_word()),
            final(self).lock_word() == after_try_read(old(self).lock_word()),
            final(self).value() == old(self).value(),
            g matches Some(x) ==> !old(self).read_guards().contains(x.id())
                && final(self).read_guards() == old(self).read_guards().insert(x.id()),
            g is None ==> final(self).read_guards() == old(self).read_guards(),
            final(self).upgradeable_guards() == old(self).upgradeable_guards(),
            final(self).write_guards() == old(self).write_guards(),
    {
        let id = self.fresh_id();
        let value = self.acquire_reader();
        let busy = value & (WRITER | UPGRADED) != 0;
        assert(busy == (value % 4 != 0)) by (bit_vector)
            requires
                busy == (value & (1usize | 2usize) != 0),
        ;
        if busy {
            self.lock = self.lock - READER;
            None
        } else {
            proof {
                self.reads@ = self.reads@.insert(id@);
            }
            Some(RwLockReadGuard { _private: (), id })
        }
    }

    /// Takes shared read access. The lock must not be held by a writer or an
    /// upgradeable reader: with nobody else to release it, the wait would not
    /// end.
    pub fn read(&mut self) -> (g: RwLockReadGuard)
        requires
            old(self).wf(),
            old(self).lock_word() <= reader_cap(),
            !busy_of(old(self).lock_word()),
        ensures
            final(self).wf(),
            final(self).lock_word() == old(self).lock_word() + READER,
            final(self).value() == old(self).value(),
            !old(self).read_guards().contains(g.id()),
            final(self).read_guards() == old(self).read_guards().insert(g.id()),
            final(self).upgradeable_guards() == old(self).upgradeable_guards(),
            final(self).write_guards() == old(self).write_guards(),
    {
        match self.try_read() {
            Some(guard) => guard,
            None => RwLockReadGuard { _private: (), id: Ghost(0) },
        }
    }

    /// Tries to take exclusive write access: succeeds exactly when the lock
    /// word is 0, that is when no guard is out.
    pub fn try_write(&mut self) -> (g: Option<RwLockWriteGuard>)
        requires
            old(self).wf(),
        ensures
            final(self).wf(),
            g is Some <==> old(self).lock_word() == 0,
            g is Some <==> old(self).read_guards().len() == 0 && old(self).upgradeable_guards().len() == 0
                && old(self).write_guards().len() == 0,
            final(self).lock_word() == (if old(self).lock_word() == 0 {
                WRITER
            } else {
                old(self).lock_word()
            }),
            final(self).value() == old(self).value(),
            g matches Some(x) ==> final(self).write_guards() == set![x.id()],
            g is None ==> final(self).write_guards() == old(self).write_guards(),
            final(self).read_guards() == old(self).read_guards(),
            final(self).upgradeable_guards() == old(self).upgradeable_guards(),
    {
        proof {
            self.lemma_guards_counted();
        }
        if self.lock == 0 {
            let id = self.fresh_id();
            self.lock = WRITER;
            proof {
                assert(self.writes@ =~= Set::<nat>::empty());
                self.writes@ = set![id@];
            }
            Some(RwLockWriteGuard { _private: (), id })
        } else {
            None
        }
    }

    /// Takes exclusive write access. The lock must be free: with nobody else
    /// to release it, the wait would not end.
    pub fn write(&mut self) -> (g: RwLockWriteGuard)
        requires
            old(self).wf(),
            old(self).lock_word() == 0,
        ensures
            final(self).wf(),
            final(self).lock_word() == WRITER,
            final(self).value() == old(self).value(),
            final(self).write_guards() == set![g.id()],
            final(self).read_guards() == old(self).read_guards(),
            final(self).upgradeable_guards() == old(self).upgradeable_guards(),
    {
        match self.try_write() {
            Some(guard) => guard,
            None => RwLockWriteGuard { _private: (), id: Ghost(0) },
        }
    }

    /// Tries to take an upgradeable read guard. The upgradeable bit is set
    /// in any case; on failure the holder that is in the way clears it.
    pub fn try_upgradeable_read(&mut self) -> (g: Option<RwLockUpgradableGuard>)
        requires
            old(self).wf(),
        ensures
            final(self).wf(),
            g is Some <==> !busy_of(old(self).lock_word()),
            final(self).lock_word() == after_try_upgradeable(old(self).lock_word()),
            final(self).value() == old(self).value(),
            g matches Some(x) ==> final(self).upgradeable_guards() == set![x.id()],
            g is None ==> final(self).upgradeable_guards() == old(self).upgradeable_guards(),
            final(self).read_guards() == old(self).read_guards(),
            final(self).write_guards() == old(self).write_guards(),
    {
        let id = self.fresh_id();
        let value = self.lock;
        let newv = value | UPGRADED;
        let busy = value & (WRITER | UPGRADED) != 0;
        assert(busy == (value % 4 != 0) && newv == (if (value / 2) % 2 == 1 {
            value as int
        } else {
            value + 2
        })) by (bit_vector)
            requires
                busy == (value & (1usize | 2usize) != 0),
                newv == value | 2usize,
        ;
        self.lock = newv;
        if !busy {
            proof {
                assert(self.ups@ =~= Set::<nat>::empty());
                self.ups@ = set![id@];
            }
            Some(RwLockUpgradableGuard { _private: (), id })
        } else {
            None
        }
    }

    /// Takes an upgradeable read guard. No writer or upgradeable reader may
    /// hold the lock: the wait would not end.
    pub fn upgradeable_read(&mut self) -> (g: RwLockUpgradableGuard)
        requires
            old(self).wf(),
            !busy_of(old(self).lock_word()),
        ensures
            final(self).wf(),
            final(self).lock_word() == old(self).lock_word() + UPGRADED,
            final(self).value() == old(self).value(),
            final(self).upgradeable_guards() == set![g.id()],
            final(self).read_guards() == old(self).read_guards(),
            final(self).write_guards() == old(self).write_guards(),
    {
        match self.try_upgradeable_read() {
            Some(guard) => guard,
            None => RwLockUpgradableGuard { _private: (), id: Ghost(0) },
        }
    }

    /// The number of readers, the upgradeable reader included. While no
    /// write guard is out it is the number of read and upgradeable guards
    /// out.
    pub fn reader_count(&self) -> (n: usize)
        requires
            self.wf(),
        ensures
            n == readers_of(self.lock_word()) + (if upgraded_of(self.lock_word()) { 1int } else { 0 }),
            self.write_guards().len() == 0 ==> n == self.read_guards().len() + self.upgradeable_guards().len(),
    {
        let state = self.lock;
        let up = (state & UPGRADED) / UPGRADED;
        assert(up == (state / 2) % 2) by (bit_vector)
            requires
                up == (state & 2usize) / 2usize,
        ;
        state / READER + up
    }

    /// The number of writers: 0 or 1, the number of write guards out.
    pub fn writer_count(&self) -> (n: usize)
        requires
            self.wf(),
        ensures
            n == (if writer_of(self.lock_word()) { 1int } else { 0 }),
            n == self.write_guards().len(),
    {
        let state = self.lock;
        let w = (state & WRITER) / WRITER;
        assert(w == state % 2) by (bit_vector)
            requires
                w == (state & 1usize) / 1usize,
        ;
        w
    }

    /// Takes one reader off the lock word without a guard, for a read guard
    /// that was forgotten: some read guard must be out, and one of them is
    /// given up.
    pub fn force_read_decrement(&mut self)
        requires
            old(self).wf(),
            old(self).read_guards().len() > 0,
        ensures
            final(self).wf(),
            final(self).lock_word() == old(self).lock_word() - READER,
            final(self).value() == old(self).value(),
            final(self).read_guards().len() == old(self).read_guards().len() - 1,
            final(self).read_guards().subset_of(old(self).read_guards()),
            final(self).upgradeable_guards() == old(self).upgradeable_guards(),
            final(self).write_guards() == old(self).write_guards(),
    {
        let ghost gone = self.reads@.choose();
        proof {
            assert(self.reads@.contains(gone));
            self.reads@ = self.reads@.remove(gone);
        }
        self.lock = self.lock - READER;
    }

    /// Clears the writer and upgradeable bits without a guard, for a write
    /// or upgradeable guard that was forgotten: no reader may be recorded.
    /// Those guards are given up.
    pub fn force_write_unlock(&mut self)
        requires
            old(self).wf(),
            old(self).lock_word() < READER,
        ensures
            final(self).wf(),
            final(self).lock_word() == 0,
            final(self).value() == old(self).value(),
            final(self).read_guards() == old(self).read_guards(),
            final(self).upgradeable_guards().len() == 0,
            final(self).write_guards().len() == 0,
    {
        let v = self.lock;
        assert(v < 4 ==> v & !(1usize | 2usize) == 0) by (bit_vector);
        self.lock = v & !(WRITER | UPGRADED);
        proof {
            self.ups@ = Set::empty();
            self.writes@ = Set::empty();
        }
    }

    /// Releases a read guard of this lock.
    pub fn release_read(&mut self, guard: RwLockReadGuard)
        requires
            old(self).wf(),
            old(self).read_guards().contains(guard.id()),
        ensures
            final(self).wf(),
            readers_of(old(self).lock_word()) > 0,
            final(self).lock_word() == after_release_read(old(self).lock_word()),
            final(self).value() == old(self).value(),
            final(self).read_guards() == old(self).read_guards().remove(guard.id()),
            final(self).upgradeable_guards() == old(self).upgradeable_guards(),
            final(self).write_guards() == old(self).write_guards(),
    {
        proof {
            self.reads@ = self.reads@.remove(guard.id@);
        }
        self.lock = self.lock - READER;
    }

    /// Releases an upgradeable guard of this lock: the upgradeable bit is
    /// taken off.
    pub fn release_upgradeable(&mut self, guard: RwLockUpgradableGuard)
        requires
            old(self).wf(),
            old(self).upgradeable_guards().contains(guard.id()),
        ensures
            final(self).wf(),
            upgraded_of(old(self).lock_word()) && !writer_of(old(self).lock_word()),
            final(self).lock_word() == old(self).lock_word() - UPGRADED,
            final(self).value() == old(self).value(),
            final(self).upgradeable_guards().len() == 0,
            final(self).read_guards() == old(self).read_guards(),
            final(self).write_guards() == old(self).write_guards(),
    {
        proof {
            self.ups@ = Set::empty();
        }
        self.lock = self.lock - UPGRADED;
    }

    /// Releases a write guard of this lock: the writer and upgradeable bits
    /// are cleared.
    pub fn release_write(&mut self, guard: RwLockWriteGuard)
        requires
            old(self).wf(),
            old(self).write_guards().contains(guard.id()),
        ensures
            final(self).wf(),
            writer_of(old(self).lock_word()),
            final(self).lock_word() == after_release_write(old(self).lock_word()),
            final(self).lock_word() == 0,
            final(self).value() == old(self).value(),
            final(self).write_guards().len() == 0,
            final(self).read_guards() == old(self).read_guards(),
            final(self).upgradeable_guards() == old(self).upgradeable_guards(),
    {
        let v = self.lock;
        let r = v & !(WRITER | UPGRADED);
        assert(r == v - v % 4) by (bit_vector)
            requires
                r == v & !(1usize | 2usize),
        ;
        self.lock = r;
        proof {
            self.writes@ = Set::empty();
        }
    }
}

impl RwLockUpgradableGuard {
    /// Tries to turn this upgradeable guard of `lock` into a write guard:
    /// succeeds when the upgradeable bit is all the lock word holds, and
    /// hands the guard back otherwise.
    pub fn try_upgrade<T>(self, lock: &mut RwLock<T>) -> (r: Result<RwLockWriteGuard, RwLockUpgradableGuard>)
        requires
            old(lock).wf(),
            old(lock).upgradeable_guards().contains(self.id()),
        ensures
            final(lock).wf(),
            r is Ok <==> old(lock).lock_word() == UPGRADED,
            r is Ok <==> old(lock).read_guards().len() == 0,
            final(lock).lock_word() == (if old(lock).lock_word() == UPGRADED {
                WRITER
            } else {
                old(lock).lock_word()
            }),
            final(lock).value() == old(lock).value(),
            final(lock).read_guards() == old(lock).read_guards(),
            r matches Ok(w) ==> final(lock).write_guards() == set![w.id()]
                && final(lock).upgradeable_guards().len() == 0,
            r matches Err(u) ==> u.id() == self.id() && *final(lock) == *old(lock),
    {
        proof {
            lock.lemma_guards_counted();
            let w = lock.lock;
            assert(w == 4 * (w as int / 4) + 2 * ((w as int / 2) % 2) + w as int % 2);
        }
        if lock.lock == UPGRADED {
            let id = lock.fresh_id();
            lock.lock = WRITER;
            proof {
                lock.ups@ = Set::empty();
                lock.writes@ = set![id@];
            }
            Ok(RwLockWriteGuard { _private: (), id })
        } else {
            Err(self)
        }
    }

    /// Turns this upgradeable guard of `lock` into a write guard. Only the
    /// upgradeable bit may be held: readers would never leave otherwise.
    pub fn upgrade<T>(self, lock: &mut RwLock<T>) -> (g: RwLockWriteGuard)
        requires
            old(lock).wf(),
            old(lock).upgradeable_guards().contains(self.id()),
            old(lock).lock_word() == UPGRADED,
        ensures
            final(lock).wf(),
            final(lock).lock_word() == WRITER,
            final(lock).value() == old(lock).value(),
            final(lock).write_guards() == set![g.id()],
            final(lock).upgradeable_guards().len() == 0,
            final(lock).read_guards() == old(lock).read_guards(),
    {
        match self.try_upgrade(lock) {
            Ok(w) => w,
            Err(_) => RwLockWriteGuard { _private: (), id: Ghost(0) },
        }
    }

    /// Turns this upgradeable guard of `lock` into a read guard: a reader
    /// is added, then the upgradeable bit is dropped.
    pub fn downgrade<T>(self, lock: &mut RwLock<T>) -> (g: RwLockReadGuard)
        requires
            old(lock).wf(),
            old(lock).upgradeable_guards().contains(self.id()),
            old(lock).lock_word() <= reader_cap(),
        ensures
            final(lock).wf(),
            upgraded_of(old(lock).lock_word()) && !writer_of(old(lock).lock_word()),
            final(lock).lock_word() == old(lock).lock_word() + READER - UPGRADED,
            final(lock).value() == old(lock).value(),
            !old(lock).read_guards().contains(g.id()),
            final(lock).read_guards() == old(lock).read_guards().insert(g.id()),
            final(lock).upgradeable_guards().len() == 0,
            final(lock).write_guards() == old(lock).write_guards(),
    {
        let id = lock.fresh_id();
        lock.acquire_reader();
        lock.lock = lock.lock - UPGRADED;
        proof {
            lock.ups@ = Set::empty();
            lock.reads@ = lock.reads@.insert(id@);
        }
        RwLockReadGuard { _private: (), id }
    }
}

impl RwLockWriteGuard {
    /// Turns this write guard of `lock` into a read guard: a reader is
    /// added, then the writer and upgradeable bits are cleared.
    pub fn downgrade<T>(self, lock: &mut RwLock<T>) -> (g: RwLockReadGuard)
        requires
            old(lock).wf(),
            old(lock).write_guards().contains(self.id()),
            old(lock).lock_word() <= reader_cap(),
        ensures
            final(lock).wf(),
            writer_of(old(lock).lock_word()),
            final(lock).lock_word() == after_release_write((old(lock).lock_word() + READER) as usize),
            final(lock).lock_word() == READER,
            final(lock).value() == old(lock).value(),
            final(lock).read_guards() == set![g.id()],
            final(lock).upgradeable_guards() == old(lock).upgradeable_guards(),
            final(lock).write_guards().len() == 0,
    {
        let id = lock.fresh_id();
        lock.acquire_reader();
        let v = lock.lock;
        let r = v & !(WRITER | UPGRADED);
        assert(r == v - v % 4) by (bit_vector)
            requires
                r == v & !(1usize | 2usize),
        ;
        lock.lock = r;
        proof {
            lock.writes@ = Set::empty();
            assert(lock.reads@ =~= Set::<nat>::empty());
            lock.reads@ = set![id@];
        }
        RwLockReadGuard { _private: (), id }
    }

    /// Turns this write guard of `lock` into an upgradeable guard: the lock
    /// word becomes the upgradeable bit alone.
    pub fn downgrade_to_upgradeable<T>(self, lock: &mut RwLock<T>) -> (g: RwLockUpgradableGuard)
        requires
            old(lock).wf(),
            old(lock).write_guards().contains(self.id()),
            old(lock).lock_word() % 4 == WRITER,
        ensures
            final(lock).wf(),
            final(lock).lock_word() == UPGRADED,
            final(lock).value() == old(lock).value(),
            final(lock).upgradeable_guards() == set![g.id()],
            final(lock).read_guards() == old(lock).read_guards(),
            final(lock).write_guards().len() == 0,
    {
        let id = lock.fresh_id();
        lock.lock = UPGRADED;
        proof {
            lock.writes@ = Set::empty();
            lock.ups@ = set![id@];
        }
        RwLockUpgradableGuard { _private: (), id }
    }
}

/// A new reader is refused exactly while the writer or upgradeable bit is
/// set, and a successful `try_read` undone by `release_read` leaves the lock
/// word as it was.
pub proof fn lemma_read_release_restores(w: usize)
    requires
        w <= reader_cap(),
    ensures
        busy_of(w) ==> after_try_read(w) == w,
        !busy_of(w) ==> readers_of(after_try_read(w)) > 0
            && after_release_read(after_try_read(w)) == w,
{
}

/// A writer excludes everybody: while the writer bit is set, readers,
/// upgradeable readers and other writers are all refused, and releasing the
/// write guard taken from a free lock frees it again.
pub proof fn lemma_writer_excludes(w: usize)
    requires
        writer_of(w),
    ensures
        busy_of(w),
        w != 0,
        w != UPGRADED,
        after_release_write(WRITER) == 0,
{
}

/// Any number of readers may share the lock: with no writer or upgradeable
/// bit, every `try_read` succeeds and keeps the lock free of those bits.
pub proof fn lemma_readers_share(w: usize)
    requires
        !busy_of(w),
        w <= reader_cap(),
    ensures
        !busy_of(after_try_read(w)),
        readers_of(after_try_read(w)) == readers_of(w) + 1,
{
}

/// The lock word after `k` readers in a row tried to take the lock, from
/// the word `w`.
pub open spec fn after_reads(w: usize, k: nat) -> usize
    decreases k,
{
    if k == 0 {
        w
    } else {
        after_try_read(after_reads(w, (k - 1) as nat))
    }
}

/// The lock word after `k` read guards in a row were released, from the
/// word `w`.
pub open spec fn after_releases(w: usize, k: nat) -> usize
    decreases k,
{
    if k == 0 {
        w
    } else {
        after_release_read(after_releases(w, (k - 1) as nat))
    }
}

/// Releasing `k` readers takes `k` readers off the word.
proof fn lemma_after_releases(w: usize, k: nat)
    requires
        w >= k * READER,
    ensures
        after_releases(w, k) == w - k * READER,
    decreases k,
{
    if k > 0 {
        lemma_after_releases(w, (k - 1) as nat);
    }
}

/// Read guards are counted by the lock word: from a word with no writer
/// and no upgradeable reader, `k` readers in a row all get in; the word
/// then counts `k` readers more (what `reader_count` gives) and no writer
/// (`writer_count` gives 0); `try_write` is refused while any reader is in;
/// and releasing the `k` read guards gives the word back.
pub proof fn lemma_read_guards_counted(w: usize, k: nat)
    requires
        !busy_of(w),
        w + k * READER <= reader_cap(),
    ensures
        after_reads(w, k) == w + k * READER,
        forall|j: nat| j < k ==> !busy_of(#[trigger] after_reads(w, j)),
        readers_of(after_reads(w, k)) == readers_of(w) + k,
        !upgraded_of(after_reads(w, k)),
        !writer_of(after_reads(w, k)),
        after_reads(w, k) == 0 <==> w == 0 && k == 0,
        after_releases(after_reads(w, k), k) == w,
    decreases k,
{
    if k > 0 {
        lemma_read_guards_counted(w, (k - 1) as nat);
        let prev = after_reads(w, (k - 1) as nat);
        assert(!busy_of(prev));
        assert forall|j: nat| j < k implies !busy_of(#[trigger] after_reads(w, j)) by {
            if j < k - 1 {
            } else {
                assert(j == k - 1);
            }
        }
    }
    lemma_after_releases(after_reads(w, k), k);
}

/// A write guard is counted by the lock word: taken from a free lock, the
/// word counts one writer (what `writer_count` gives) and no reader
/// (`reader_count` gives 0); readers, upgradeable readers and writers are
/// refused while it is held; releasing it frees the lock.
pub proof fn lemma_write_guard_counted()
    ensures
        writer_of(WRITER),
        readers_of(WRITER) == 0,
        !upgraded_of(WRITER),
        busy_of(WRITER),
        after_try_read(WRITER) == WRITER,
        after_try_upgradeable(WRITER) == WRITER + UPGRADED,
        WRITER != 0,
        after_release_write(WRITER) == 0,
{
}

/// A lock made of a unit `RwLock` that sits inside a value of type `T`, at
/// the offset that `A` gives; its guards stand for access to that value.
pub struct IRwLock<T, A: Adapter> {
    rwlock: RwLock<()>,
    _t: PhantomData<T>,
    _a: PhantomData<A>,
}

impl<T, A: Adapter> IRwLock<T, A> {
    /// The lock word of the inner lock.
    pub closed spec fn lock_word(self) -> usize {
        self.rwlock.lock_word()
    }

    /// The inner lock agrees with its guards.
    pub closed spec fn wf(self) -> bool {
        self.rwlock.wf()
    }

    /// The read guards of the inner lock that are out.
    pub closed spec fn read_guards(self) -> Set<nat> {
        self.rwlock.read_guards()
    }

    /// The write guards of the inner lock that are out.
    pub closed spec fn write_guards(self) -> Set<nat> {
        self.rwlock.write_guards()
    }

    pub fn const_new() -> (l: Self)
        ensures
            l.wf(),
            l.lock_word() == 0,
            l.read_guards().len() == 0,
            l.write_guards().len() == 0,
    {
        IRwLock { rwlock: RwLock::new(()), _t: PhantomData, _a: PhantomData }
    }

    pub fn new() -> (l: Self)
        ensures
            l.wf(),
            l.lock_word() == 0,
            l.read_guards().len() == 0,
            l.write_guards().len() == 0,
    {
        Self::const_new()
    }

    pub fn read(&mut self) -> (g: RwLockReadGuard)
        requires
            old(self).wf(),
            old(self).lock_word() <= reader_cap(),
            !busy_of(old(self).lock_word()),
        ensures
            final(self).wf(),
            final(self).lock_word() == old(self).lock_word() + READER,
            final(self).read_guards() == old(self).read_guards().insert(g.id()),
            final(self).write_guards() == old(self).write_guards(),
    {
        self.rwlock.read()
    }

    pub fn try_read(&mut self) -> (g: Option<RwLockReadGuard>)
        requires
            old(self).wf(),
            old(self).lock_word() <= reader_cap(),
        ensures
            final(self).wf(),
            g is Some <==> !busy_of(old(self).lock_word()),
            final(self).lock_word() == after_try_read(old(self).lock_word()),
            g matches Some(x) ==> final(self).read_guards() == old(self).read_guards().insert(x.id()),
            g is None ==> final(self).read_guards() == old(self).read_guards(),
            final(self).write_guards() == old(self).write_guards(),
    {
        self.rwlock.try_read()
    }

    pub fn write(&mut self) -> (g: RwLockWriteGuard)
        requires
            old(self).wf(),
            old(self).lock_word() == 0,
        ensures
            final(self).wf(),
            final(self).lock_word() == WRITER,
            final(self).write_guards() == set![g.id()],
            final(self).read_guards() == old(self).read_guards(),
    {
        self.rwlock.write()
    }

    pub fn try_write(&mut self) -> (g: Option<RwLockWriteGuard>)
        requires
            old(self).wf(),
        ensures
            final(self).wf(),
            g is Some <==> old(self).lock_word() == 0,
            final(self).lock_word() == (if old(self).lock_word() == 0 {
                WRITER
            } else {
                old(self).lock_word()
            }),
            g matches Some(x) ==> final(self).write_guards() == set![x.id()],
            g is None ==> final(self).write_guards() == old(self).write_guards(),
            final(self).read_guards() == old(self).read_guards(),
    {
        self.rwlock.try_write()
    }

    pub fn release_read(&mut self, guard: RwLockReadGuard)
        requires
            old(self).wf(),
            old(self).read_guards().contains(guard.id()),
        ensures
            final(self).wf(),
            final(self).lock_word() == after_release_read(old(self).lock_word()),
            final(self).read_guards() == old(self).read_guards().remove(guard.id()),
            final(self).write_guards() == old(self).write_guards(),
    {
        self.rwlock.release_read(guard)
    }

    pub fn release_write(&mut self, guard: RwLockWriteGuard)
        requires
            old(self).wf(),
            old(self).write_guards().contains(guard.id()),
        ensures
            final(self).wf(),
            final(self).lock_word() == after_release_write(old(self).lock_word()),
            final(self).write_guards().len() == 0,
            final(self).read_guards() == old(self).read_guards(),
    {
        self.rwlock.release_write(guard)
    }
}

} // verus!
