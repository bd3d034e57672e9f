use vstd::prelude::*;
use crate::error::code;
use crate::thread::{ThreadState, SuspendFlag};
use crate::sync::ipc_common::{RtSysQueue, RtWaitQueue, Waiter, IPC_SYS_QUEUE_STUB, IPC_WAIT_MODE_PRIO,
    wait_ok, state_after_wait, queued, all_tids, remove_tid, first_tid, after_wake,
    prio_sorted, prio_insert_index, lemma_queued_keeps_order, lemma_remove_tid_keeps_sorted};

verus! {

/// How many times one thread may hold a mutex at once.
pub const MUTEX_HOLD_MAX: usize = 255;
/// The priority that means "none": no waiter, no ceiling.
pub const PRIORITY_NONE: u8 = 0xff;
/// The number of thread priorities.
pub const THREAD_PRIORITY_MAX: u32 = 256;
/// The timeout that never waits.
pub const WAITING_NO: i32 = 0;
/// The timeout that waits for ever.
pub const WAITING_FOREVER: i32 = -1;

/// The smaller of two priorities (the smaller number is the higher one).
pub open spec fn min_prio(a: u8, b: u8) -> u8 {
    if a < b { a } else { b }
}

/// The priority a thread of initial priority `initial` is owed while it
/// holds the mutexes whose (waiter priority, ceiling) pairs are `held`:
/// the highest of its initial priority and of each mutex's waiter
/// priority and ceiling.
pub open spec fn mutex_priority_spec(initial: u8, held: Seq<(u8, u8)>) -> u8
    decreases held.len(),
{
    if held.len() == 0 {
        initial
    } else {
        let m = held.last();
        min_prio(mutex_priority_spec(initial, held.drop_last()), min_prio(m.0, m.1))
    }
}

/// The priority a thread is owed is the highest (smallest number) of its
/// initial priority and of every held mutex's waiter priority and ceiling:
/// it is at least as high as each of them and equal to one of them.
pub proof fn lemma_mutex_priority_is_highest(initial: u8, held: Seq<(u8, u8)>)
    ensures
        mutex_priority_spec(initial, held) <= initial,
        forall|k: int| 0 <= k < held.len() ==> mutex_priority_spec(initial, held) <= (#[trigger] held[k]).0
            && mutex_priority_spec(initial, held) <= held[k].1,
        mutex_priority_spec(initial, held) == initial || exists|k: int| 0 <= k < held.len()
            && (mutex_priority_spec(initial, held) == (#[trigger] held[k]).0
                || mutex_priority_spec(initial, held) == held[k].1),
    decreases held.len(),
{
    if held.len() > 0 {
        let rest = held.drop_last();
        lemma_mutex_priority_is_highest(initial, rest);
        assert forall|k: int| 0 <= k < held.len() implies mutex_priority_spec(initial, held) <= (#[trigger] held[k]).0
            && mutex_priority_spec(initial, held) <= held[k].1 by {
            if k < held.len() - 1 {
                assert(held[k] == rest[k]);
            }
        }
        let p = mutex_priority_spec(initial, held);
        if p != initial {
            if p == mutex_priority_spec(initial, rest) {
                let k = choose|k: int| 0 <= k < rest.len()
                    && (mutex_priority_spec(initial, rest) == (#[trigger] rest[k]).0
                        || mutex_priority_spec(initial, rest) == rest[k].1);
                assert(held[k] == rest[k]);
            } else {
                let k = held.len() - 1;
                assert(held[k] == held.last());
            }
        }
    }
}

/// Computes `mutex_priority_spec`.
pub fn mutex_priority(initial: u8, held: &Vec<(u8, u8)>) -> (r: u8)
    ensures
        r == mutex_priority_spec(initial, held@),
{
    let mut p = initial;
    let mut i: usize = 0;
    while i < held.len()
        invariant
            i <= held.len(),
            p == mutex_priority_spec(initial, held@.subrange(0, i as int)),
        decreases held.len() - i,
    {
        let (mp, ceiling) = held[i];
        let m = if mp < ceiling { mp } else { ceiling };
        if p > m {
            p = m;
        }
        assert(held@.subrange(0, i + 1).drop_last() =~= held@.subrange(0, i as int));
        i = i + 1;
    }
    assert(held@.subrange(0, held@.len() as int) =~= held@);
    p
}

/// The mutexes each thread holds: for the thread `t`, the identifiers of
/// the mutexes it owns, the one taken last first. The priority a thread is
/// owed is computed over this list (see `get_mutex_priority`).
pub struct TakenLists {
    lists: Vec<Vec<usize>>,
}

impl View for TakenLists {
    type V = Seq<Seq<usize>>;

    /// The list of each thread.
    closed spec fn view(&self) -> Seq<Seq<usize>> {
        self.lists@.map_values(|l: Vec<usize>| l@)
    }
}

/// The lists after the thread `t` took the mutex `id`: it goes first on
/// the thread's list.
pub open spec fn taken_after_lock(v: Seq<Seq<usize>>, t: usize, id: usize) -> Seq<Seq<usize>> {
    v.update(t as int, seq![id] + v[t as int])
}

/// The lists after the thread `t` released the mutex `id` for the last
/// time, handing it to `next` if there is a next owner.
pub open spec fn taken_after_unlock(v: Seq<Seq<usize>>, t: usize, id: usize, next: Option<usize>) -> Seq<Seq<usize>> {
    let v1 = v.update(t as int, v[t as int].remove_value(id));
    match next {
        Some(n) => taken_after_lock(v1, n, id),
        None => v1,
    }
}

/// Taking a free mutex and giving it back with nobody waiting leaves every
/// thread's list of held mutexes as it was.
pub proof fn lemma_lock_unlock_restores_taken(v: Seq<Seq<usize>>, t: usize, id: usize)
    requires
        t < v.len(),
    ensures
        taken_after_unlock(taken_after_lock(v, t, id), t, id, None) == v,
{
    let l = seq![id] + v[t as int];
    assert(l[0] == id);
    l.index_of_first_ensures(id);
    assert(l.index_of_first(id) == Some(0int));
    assert(l.remove(0) =~= v[t as int]);
    assert(taken_after_unlock(taken_after_lock(v, t, id), t, id, None) =~= v);
}

impl TakenLists {
    /// `n` threads holding no mutex.
    pub fn new(n: usize) -> (t: Self)
        ensures
            t@.len() == n,
            forall|i: int| 0 <= i < n ==> (#[trigger] t@[i]).len() == 0,
    {
        let mut lists: Vec<Vec<usize>> = Vec::new();
        let mut i: usize = 0;
        while i < n
            invariant
                i <= n,
                lists@.len() == i,
                forall|k: int| 0 <= k < i ==> (#[trigger] lists@[k])@.len() == 0,
            decreases n - i,
        {
            lists.push(Vec::new());
            i = i + 1;
        }
        let t = TakenLists { lists };
        assert forall|k: int| 0 <= k < n implies (#[trigger] t@[k]).len() == 0 by {
            assert(t@[k] == lists@[k]@);
        }
        t
    }

    /// The number of threads the lists are kept for.
    pub fn len(&self) -> (r: usize)
        ensures
            r == self@.len(),
    {
        self.lists.len()
    }

    /// The mutexes the thread `tid` holds, the one taken last first.
    pub fn taken(&self, tid: usize) -> (r: &Vec<usize>)
        requires
            tid < self@.len(),
        ensures
            r@ == self@[tid as int],
    {
        &self.lists[tid]
    }

    /// Puts the mutex `id` first on the list of the thread `tid`.
    fn push_front(&mut self, tid: usize, id: usize)
        requires
            tid < old(self)@.len(),
        ensures
            final(self)@ == taken_after_lock(old(self)@, tid, id),
    {
        let mut l: Vec<usize> = Vec::new();
        std::mem::swap(&mut l, &mut self.lists[tid]);
        proof {
            assert(l@ == old(self)@[tid as int]);
        }
        l.insert(0, id);
        let ghost lv = l@;
        self.lists.set(tid, l);
        assert(self@ =~= taken_after_lock(old(self)@, tid, id)) by {
            assert(lv =~= seq![id] + old(self)@[tid as int]);
        }
    }

    /// Takes the mutex `id` off the list of the thread `tid` (its first
    /// occurrence), if it is there.
    fn remove(&mut self, tid: usize, id: usize)
        requires
            tid < old(self)@.len(),
        ensures
            final(self)@ == old(self)@.update(tid as int, old(self)@[tid as int].remove_value(id)),
    {
        let mut l: Vec<usize> = Vec::new();
        std::mem::swap(&mut l, &mut self.lists[tid]);
        let ghost before = l@;
        proof {
            assert(before == old(self)@[tid as int]);
        }
        let mut i: usize = 0;
        while i < l.len()
            invariant
                l@ == before,
                i <= l@.len(),
                forall|j: int| 0 <= j < i ==> l@[j] != id,
            ensures
                i <= l@.len(),
                forall|j: int| 0 <= j < i ==> l@[j] != id,
                i < l@.len() ==> l@[i as int] == id,
            decreases l@.len() - i,
        {
            if l[i] == id {
                break;
            }
            i = i + 1;
        }
        proof {
            before.index_of_first_ensures(id);
        }
        if i < l.len() {
            proof {
                assert(before.contains(before[i as int]));
                assert(before.index_of_first(id) == Some(i as int));
            }
            l.remove(i);
        } else {
            proof {
                assert(!before.contains(id));
            }
        }
        let ghost lv = l@;
        self.lists.set(tid, l);
        assert(self@ =~= old(self)@.update(tid as int, old(self)@[tid as int].remove_value(id))) by {
            assert(lv == before.remove_value(id));
        }
    }
}

/// The (waiter priority, ceiling) pair of each mutex named in `ids`.
pub open spec fn held_pairs(ids: Seq<usize>, mutexes: Seq<RtMutex>) -> Seq<(u8, u8)> {
    ids.map_values(|id: usize| (mutexes[id as int].priority_spec(), mutexes[id as int].ceiling()))
}

/// The priority owed to a thread of initial priority `initial` that holds
/// the mutexes `taken` (identifiers, places in `mutexes`): the highest of
/// its initial priority and of each held mutex's waiter priority and
/// ceiling.
pub fn get_mutex_priority(initial: u8, taken: &Vec<usize>, mutexes: &Vec<RtMutex>) -> (r: u8)
    requires
        forall|k: int| 0 <= k < taken@.len() ==> (#[trigger] taken@[k]) < mutexes@.len(),
    ensures
        r == mutex_priority_spec(initial, held_pairs(taken@, mutexes@)),
{
    let mut pairs: Vec<(u8, u8)> = Vec::new();
    let mut i: usize = 0;
    while i < taken.len()
        invariant
            i <= taken@.len(),
            forall|k: int| 0 <= k < taken@.len() ==> (#[trigger] taken@[k]) < mutexes@.len(),
            pairs@ == held_pairs(taken@.subrange(0, i as int), mutexes@),
        decreases taken@.len() - i,
    {
        let m = &mutexes[taken[i]];
        pairs.push((m.priority, m.ceiling_priority));
        i = i + 1;
        assert(pairs@ =~= held_pairs(taken@.subrange(0, i as int), mutexes@));
    }
    assert(taken@.subrange(0, taken@.len() as int) =~= taken@);
    mutex_priority(initial, &pairs)
}

/// What the caller of `lock_step` does next.
pub enum MutexLock {
    /// The lock is held. When `raise` names a thread and a priority, the
    /// caller raises that thread to that priority.
    Locked { raise: Option<(usize, u8)> },
    /// The call is over with this error code.
    Failed(i32),
    /// The calling thread was suspended and queued: the caller raises the
    /// thread named by `raise`, if any (the owner), starts the timer if
    /// there is a timeout and yields. Woken with no error, the thread owns
    /// the mutex; woken with an error, it calls `lock_abort`.
    Blocked { raise: Option<(usize, u8)> },
}

/// What the caller of `unlock` does next.
pub enum MutexUnlock {
    /// The mutex was released once. With `restore`, the caller sets its
    /// own priority back to what it is owed (`mutex_priority`) for the
    /// mutexes it still holds; `next_owner` names the waiting thread that
    /// now owns the mutex, which the caller resumes.
    Released { restore: bool, next_owner: Option<usize> },
    /// The call is over with this error code.
    Failed(i32),
}

/// A mutex with priority inheritance: its owner and how many times the
/// owner holds it, the threads waiting for it by priority, the priority of
/// the first of them, and a priority ceiling.
pub struct RtMutex {
    ceiling_priority: u8,
    priority: u8,
    owner: Option<usize>,
    inner_queue: RtSysQueue<()>,
}

/// The priority of the first waiter of `ws`, or none.
pub open spec fn head_prio(ws: Seq<Waiter>) -> u8 {
    if ws.len() == 0 { PRIORITY_NONE } else { ws[0].prio }
}

/// The priority a mutex records for its waiters (`head_prio`, as
/// `update_priority`, `lock_abort`, `unlock` and `drop_thread` record it)
/// is the highest waiting priority: the waiters are kept by priority, no
/// waiter has a smaller priority number, and one has it; with no waiter it
/// is `PRIORITY_NONE`.
pub proof fn lemma_recorded_priority_is_highest(m: RtMutex)
    requires
        m.wf(),
    ensures
        prio_sorted(m.waiters()),
        forall|k: int| 0 <= k < m.waiters().len() ==> head_prio(m.waiters()) <= (#[trigger] m.waiters()[k]).prio,
        m.waiters().len() > 0 ==> exists|k: int| 0 <= k < m.waiters().len()
            && (#[trigger] m.waiters()[k]).prio == head_prio(m.waiters()),
        m.waiters().len() == 0 ==> head_prio(m.waiters()) == PRIORITY_NONE,
{
    let ws = m.waiters();
    if ws.len() > 0 {
        assert(ws[0].prio == head_prio(ws));
        assert forall|k: int| 0 <= k < ws.len() implies head_prio(ws) <= (#[trigger] ws[k]).prio by {
            if k > 0 {
                assert(ws[0].prio <= ws[k].prio);
            }
        }
    }
}

/// Blocking keeps the recorded priority that of the first waiter: when a
/// thread joins waiters kept by priority, the priority `lock_step` records
/// (the smaller of the recorded one and the thread's) is that of the new
/// first waiter, as `update_priority` would record it.
pub proof fn lemma_blocking_records_first_waiter(ws: Seq<Waiter>, w: Waiter)
    requires
        prio_sorted(ws),
    ensures
        min_prio(head_prio(ws), w.prio) == head_prio(queued(ws, IPC_WAIT_MODE_PRIO, w)),
{
    lemma_queued_keeps_order(ws, w);
    let q = queued(ws, IPC_WAIT_MODE_PRIO, w);
    if ws.len() == 0 {
        assert(q[0] == w);
    } else if w.prio < ws[0].prio {
        assert(q[0] == w);
    } else {
        let idx = prio_insert_index(ws, w.prio, 0);
        assert(ws[0].prio <= w.prio);
        assert(0 < idx);
        assert(q == ws.insert(idx, w));
        ws.insert_ensures(idx, w);
        assert(q[0] == ws[0]);
    }
}

impl RtMutex {
    /// The thread that holds the mutex.
    pub closed spec fn owner_spec(&self) -> Option<usize> {
        self.owner
    }

    /// How many times the owner holds the mutex.
    pub closed spec fn hold(&self) -> usize {
        self.inner_queue.count_spec()
    }

    /// The priority of the highest waiting thread, as last recorded.
    pub closed spec fn priority_spec(&self) -> u8 {
        self.priority
    }

    /// The priority ceiling.
    pub closed spec fn ceiling(&self) -> u8 {
        self.ceiling_priority
    }

    /// The threads waiting, by priority.
    pub closed spec fn waiters(&self) -> Seq<Waiter> {
        self.inner_queue.enqueue_spec()@
    }

    /// The mutex has an owner exactly when it is held, and its waiters are
    /// kept by priority.
    pub closed spec fn wf(&self) -> bool {
        &&& self.inner_queue.wf()
        &&& self.inner_queue.mode_spec() == IPC_SYS_QUEUE_STUB
        &&& self.inner_queue.enqueue_spec().mode() == IPC_WAIT_MODE_PRIO
        &&& prio_sorted(self.inner_queue.enqueue_spec()@)
        &&& (self.owner is Some <==> self.inner_queue.count_spec() > 0)
    }

    /// A free mutex with no waiters and no ceiling. Waiters are always
    /// kept by priority, whatever `_waiting_mode` says.
    pub fn new(_waiting_mode: u8) -> (m: Self)
        ensures
            m.wf(),
            m.owner_spec() is None,
            m.hold() == 0,
            m.priority_spec() == PRIORITY_NONE,
            m.ceiling() == PRIORITY_NONE,
            m.waiters() == Seq::<Waiter>::empty(),
    {
        RtMutex {
            ceiling_priority: PRIORITY_NONE,
            priority: PRIORITY_NONE,
            owner: None,
            inner_queue: RtSysQueue::new(4, 1, IPC_SYS_QUEUE_STUB, IPC_WAIT_MODE_PRIO),
        }
    }

    /// Sets the mutex up afresh, as `new` does.
    pub fn init_internal(&mut self)
        ensures
            final(self).wf(),
            final(self).owner_spec() is None,
            final(self).hold() == 0,
            final(self).priority_spec() == PRIORITY_NONE,
            final(self).ceiling() == PRIORITY_NONE,
            final(self).waiters() == Seq::<Waiter>::empty(),
    {
        self.owner = None;
        self.priority = PRIORITY_NONE;
        self.ceiling_priority = PRIORITY_NONE;
        self.inner_queue = RtSysQueue::new(4, 1, IPC_SYS_QUEUE_STUB, IPC_WAIT_MODE_PRIO);
    }

    /// Takes every waiting thread off the mutex and returns them in order;
    /// the caller resumes each with an error. The owner keeps it.
    pub fn detach(&mut self) -> (woken: Vec<usize>)
        requires
            old(self).wf(),
        ensures
            final(self).wf(),
            woken@ == all_tids(old(self).waiters()),
            final(self).waiters() == Seq::<Waiter>::empty(),
            final(self).owner_spec() == old(self).owner_spec(),
            final(self).hold() == old(self).hold(),
            final(self).priority_spec() == old(self).priority_spec(),
            final(self).ceiling() == old(self).ceiling(),
    {
        self.inner_queue.enqueue_waiter_mut().wake_all()
    }

    /// One step of locking, for the thread `me` whose current priority is
    /// `me.prio`, in state `stat`; `owner_prio` is the current priority of
    /// the owner, if there is one.
    ///
    /// The owner locks again, up to `MUTEX_HOLD_MAX` times (`EFULL` past
    /// it). A free mutex is taken, and when it has a ceiling above the
    /// thread's priority the thread is to be raised to it. A mutex held by
    /// another thread fails with `ETIMEOUT` for a timeout of 0; otherwise
    /// the thread is suspended with `pending_mode` and queued by priority
    /// (`ERROR` when it can be neither), the mutex records its priority if
    /// it is the highest waiting, and the owner is to be raised to it when
    /// it is above the owner's.
    pub fn lock_step(&mut self, me: Waiter, owner_prio: u8, timeout: i32, stat: &mut ThreadState,
        pending_mode: SuspendFlag, error: &mut i32, taken: &mut TakenLists, mutex_id: usize) -> (r: MutexLock)
        requires
            old(self).wf(),
            me.tid < old(taken)@.len(),
        ensures
            final(self).wf(),
            final(self).ceiling() == old(self).ceiling(),
            *final(error) == (if old(self).owner_spec() is Some && old(self).owner_spec().unwrap() != me.tid
                && timeout == 0 {
                code::ETIMEOUT
            } else {
                code::EOK
            }),
            final(taken)@ == (if old(self).owner_spec() is None {
                taken_after_lock(old(taken)@, me.tid, mutex_id)
            } else {
                old(taken)@
            }),
            old(self).owner_spec() == Some(me.tid) ==> {
                &&& *final(stat) == *old(stat)
                &&& old(self).hold() < MUTEX_HOLD_MAX ==> r == MutexLock::Locked { raise: None }
                    && final(self).hold() == old(self).hold() + 1
                    && final(self).owner_spec() == old(self).owner_spec()
                    && final(self).waiters() == old(self).waiters()
                    && final(self).priority_spec() == old(self).priority_spec()
                &&& old(self).hold() >= MUTEX_HOLD_MAX ==> r == MutexLock::Failed(code::EFULL)
                    && *final(self) == *old(self)
            },
            old(self).owner_spec() is None ==> {
                &&& r == MutexLock::Locked {
                    raise: if old(self).ceiling() != PRIORITY_NONE && old(self).ceiling() < me.prio {
                        Some((me.tid, old(self).ceiling()))
                    } else {
                        None
                    },
                }
                &&& final(self).owner_spec() == Some(me.tid)
                &&& final(self).hold() == 1
                &&& final(self).priority_spec() == PRIORITY_NONE
                &&& final(self).waiters() == old(self).waiters()
                &&& *final(stat) == *old(stat)
            },
            old(self).owner_spec() is Some && old(self).owner_spec().unwrap() != me.tid ==> {
                &&& final(self).owner_spec() == old(self).owner_spec()
                &&& final(self).hold() == old(self).hold()
                &&& timeout == 0 ==> r == MutexLock::Failed(code::ETIMEOUT) && *final(self) == *old(self)
                    && *final(stat) == *old(stat)
                &&& timeout != 0 && !wait_ok(old(stat).0) ==> r == MutexLock::Failed(code::ERROR)
                    && *final(self) == *old(self) && *final(stat) == *old(stat)
                &&& timeout != 0 && wait_ok(old(stat).0) ==> {
                    &&& final(self).waiters() == queued(old(self).waiters(), IPC_WAIT_MODE_PRIO, me)
                    &&& final(stat).0 == state_after_wait(old(stat).0, pending_mode)
                    &&& final(self).priority_spec() == min_prio(old(self).priority_spec(), me.prio)
                    &&& r == MutexLock::Blocked {
                        raise: if me.prio < old(self).priority_spec() && me.prio < owner_prio {
                            Some((old(self).owner_spec().unwrap(), me.prio))
                        } else {
                            None
                        },
                    }
                }
            },
    {
        *error = code::EOK;
        match self.owner {
            Some(o) => {
                if o == me.tid {
                    if self.inner_queue.count() < MUTEX_HOLD_MAX {
                        self.inner_queue.force_push_stub();
                        return MutexLock::Locked { raise: None };
                    }
                    return MutexLock::Failed(code::EFULL);
                }
                if timeout == 0 {
                    *error = code::ETIMEOUT;
                    return MutexLock::Failed(code::ETIMEOUT);
                }
                proof {
                    lemma_queued_keeps_order(self.waiters(), me);
                }
                let ret = self.inner_queue.enqueue_waiter_mut().wait(stat, me, pending_mode);
                if ret != code::EOK {
                    return MutexLock::Failed(ret);
                }
                let mut raise: Option<(usize, u8)> = None;
                if me.prio < self.priority {
                    self.priority = me.prio;
                    if me.prio < owner_prio {
                        raise = Some((o, me.prio));
                    }
                }
                MutexLock::Blocked { raise }
            },
            None => {
                self.owner = Some(me.tid);
                self.priority = PRIORITY_NONE;
                self.inner_queue.reset_stub(1);
                taken.push_front(me.tid, mutex_id);
                let raise = if self.ceiling_priority != PRIORITY_NONE && self.ceiling_priority < me.prio {
                    Some((me.tid, self.ceiling_priority))
                } else {
                    None
                };
                MutexLock::Locked { raise }
            },
        }
    }

    /// Locks without waiting: as `lock_step` with a timeout of 0.
    pub fn try_lock(&mut self, me: Waiter, error: &mut i32, taken: &mut TakenLists, mutex_id: usize) -> (r: MutexLock)
        requires
            old(self).wf(),
            me.tid < old(taken)@.len(),
        ensures
            final(self).wf(),
            *final(error) == (if old(self).owner_spec() is Some && old(self).owner_spec().unwrap() != me.tid {
                code::ETIMEOUT
            } else {
                code::EOK
            }),
            final(taken)@ == (if old(self).owner_spec() is None {
                taken_after_lock(old(taken)@, me.tid, mutex_id)
            } else {
                old(taken)@
            }),
            final(self).ceiling() == old(self).ceiling(),
            final(self).waiters() == old(self).waiters(),
            old(self).owner_spec() == Some(me.tid) ==> {
                &&& old(self).hold() < MUTEX_HOLD_MAX ==> r == MutexLock::Locked { raise: None }
                    && final(self).hold() == old(self).hold() + 1
                    && final(self).owner_spec() == old(self).owner_spec()
                &&& old(self).hold() >= MUTEX_HOLD_MAX ==> r == MutexLock::Failed(code::EFULL)
                    && *final(self) == *old(self)
            },
            old(self).owner_spec() is None ==> {
                &&& r == MutexLock::Locked {
                    raise: if old(self).ceiling() != PRIORITY_NONE && old(self).ceiling() < me.prio {
                        Some((me.tid, old(self).ceiling()))
                    } else {
                        None
                    },
                }
                &&& final(self).owner_spec() == Some(me.tid)
                &&& final(self).hold() == 1
            },
            old(self).owner_spec() is Some && old(self).owner_spec().unwrap() != me.tid ==>
                r == MutexLock::Failed(code::ETIMEOUT) && *final(self) == *old(self),
    {
        let mut stat = ThreadState::new(0);
        self.lock_step(me, PRIORITY_NONE, WAITING_NO, &mut stat, SuspendFlag::Uninterruptible, error, taken, mutex_id)
    }

    /// What a thread `me` (its current priority in `me.prio`) that waited
    /// for the mutex and was woken with the error `error` does: it leaves
    /// the waiters if it is still among them, the mutex records the
    /// priority of its first waiter, and when the owner's current priority
    /// `owner_prio` is the thread's, the owner is named so that the caller
    /// sets it to what it is owed (`mutex_priority`) if that differs. The
    /// error is returned, negated when it is positive.
    pub fn lock_abort(&mut self, me: Waiter, owner_prio: u8, error: i32) -> (r: (i32, Option<usize>))
        requires
            old(self).wf(),
            error != i32::MIN,
        ensures
            final(self).wf(),
            final(self).waiters() == remove_tid(old(self).waiters(), me.tid),
            final(self).priority_spec() == head_prio(final(self).waiters()),
            final(self).owner_spec() == old(self).owner_spec(),
            final(self).hold() == old(self).hold(),
            final(self).ceiling() == old(self).ceiling(),
            r.0 == (if error > 0 { -error } else { error as int }),
            r.1 == (if old(self).owner_spec() is Some && owner_prio == me.prio {
                old(self).owner_spec()
            } else {
                None
            }),
    {
        proof {
            lemma_remove_tid_keeps_sorted(self.waiters(), me.tid);
        }
        self.inner_queue.enqueue_waiter_mut().cancel(me.tid);
        let need_update = self.owner.is_some() && owner_prio == me.prio;
        self.update_priority();
        let ret = if error > 0 { -error } else { error };
        if need_update { (ret, self.owner) } else { (ret, None) }
    }

    /// Records the priority of the first waiter (none when there is none)
    /// and returns it.
    pub fn update_priority(&mut self) -> (p: u8)
        requires
            old(self).wf(),
        ensures
            final(self).wf(),
            p == head_prio(old(self).waiters()),
            forall|k: int| 0 <= k < old(self).waiters().len() ==> p <= (#[trigger] old(self).waiters()[k]).prio,
            old(self).waiters().len() > 0 ==> exists|k: int| 0 <= k < old(self).waiters().len()
                && (#[trigger] old(self).waiters()[k]).prio == p,
            final(self).priority_spec() == p,
            final(self).waiters() == old(self).waiters(),
            final(self).owner_spec() == old(self).owner_spec(),
            final(self).hold() == old(self).hold(),
            final(self).ceiling() == old(self).ceiling(),
    {
        proof {
            lemma_recorded_priority_is_highest(*self);
        }
        self.priority = match self.inner_queue.enqueue_waiter().head() {
            Some(w) => w.prio,
            None => PRIORITY_NONE,
        };
        self.priority
    }

    /// Releases the mutex once, for the thread `me_tid` of current priority
    /// `my_prio`. Only the owner may: another thread fails with `ERROR`.
    /// When the last hold goes, the owner is to get back the priority it is
    /// owed if the mutex has a ceiling or its priority is the mutex's; the
    /// first waiter, if any, becomes the owner (holding it once) and is to
    /// be resumed, and the mutex records the priority of the next waiter;
    /// with no waiter the mutex is free.
    pub fn unlock(&mut self, me_tid: usize, my_prio: u8, error: &mut i32, taken: &mut TakenLists,
        mutex_id: usize) -> (r: MutexUnlock)
        requires
            old(self).wf(),
            me_tid < old(taken)@.len(),
            forall|k: int| 0 <= k < old(self).waiters().len() ==> (#[trigger] old(self).waiters()[k]).tid
                < old(taken)@.len(),
        ensures
            final(self).wf(),
            final(self).ceiling() == old(self).ceiling(),
            old(self).owner_spec() != Some(me_tid) ==> r == MutexUnlock::Failed(code::ERROR)
                && *final(self) == *old(self) && *final(error) == code::ERROR
                && final(taken)@ == old(taken)@,
            old(self).owner_spec() == Some(me_tid) ==> *final(error) == *old(error),
            old(self).owner_spec() == Some(me_tid) && old(self).hold() > 1 ==> final(taken)@ == old(taken)@,
            old(self).owner_spec() == Some(me_tid) && old(self).hold() == 1 ==> final(taken)@
                == taken_after_unlock(old(taken)@, me_tid, mutex_id, first_tid(old(self).waiters())),
            old(self).owner_spec() == Some(me_tid) && old(self).hold() > 1 ==> {
                &&& r == MutexUnlock::Released { restore: false, next_owner: None }
                &&& final(self).hold() == old(self).hold() - 1
                &&& final(self).owner_spec() == old(self).owner_spec()
                &&& final(self).waiters() == old(self).waiters()
                &&& final(self).priority_spec() == old(self).priority_spec()
            },
            old(self).owner_spec() == Some(me_tid) && old(self).hold() == 1 ==> {
                &&& r == MutexUnlock::Released {
                    restore: old(self).ceiling() != PRIORITY_NONE || my_prio == old(self).priority_spec(),
                    next_owner: first_tid(old(self).waiters()),
                }
                &&& final(self).owner_spec() == first_tid(old(self).waiters())
                &&& final(self).hold() == (if old(self).waiters().len() > 0 { 1usize } else { 0usize })
                &&& final(self).waiters() == after_wake(old(self).waiters())
                &&& final(self).priority_spec() == head_prio(after_wake(old(self).waiters()))
            },
    {
        if self.owner != Some(me_tid) {
            *error = code::ERROR;
            return MutexUnlock::Failed(code::ERROR);
        }
        self.inner_queue.pop_stub();
        if !self.inner_queue.is_empty() {
            return MutexUnlock::Released { restore: false, next_owner: None };
        }
        taken.remove(me_tid, mutex_id);
        let restore = self.ceiling_priority != PRIORITY_NONE || my_prio == self.priority;
        let ghost ws = self.waiters();
        let next = self.inner_queue.enqueue_waiter_mut().wake();
        match next {
            Some(t) => {
                proof {
                    assert(ws[0].tid == t);
                }
                self.owner = Some(t);
                self.inner_queue.reset_stub(1);
                taken.push_front(t, mutex_id);
            },
            None => {
                self.owner = None;
            },
        }
        self.update_priority();
        MutexUnlock::Released { restore, next_owner: next }
    }

    /// Takes the thread `tid` (of current priority `thread_prio`) off the
    /// waiters, as when it is removed while it waits. When the mutex has an
    /// owner, it records the priority of its first waiter, and the owner is
    /// named when its current priority `owner_prio` is the thread's, so
    /// that the caller sets it to what it is owed if that differs.
    pub fn drop_thread(&mut self, tid: usize, thread_prio: u8, owner_prio: u8) -> (r: Option<usize>)
        requires
            old(self).wf(),
        ensures
            final(self).wf(),
            final(self).waiters() == remove_tid(old(self).waiters(), tid),
            final(self).owner_spec() == old(self).owner_spec(),
            final(self).hold() == old(self).hold(),
            final(self).ceiling() == old(self).ceiling(),
            old(self).owner_spec() is None ==> r is None && final(self).priority_spec() == old(self).priority_spec(),
            old(self).owner_spec() is Some ==> {
                &&& final(self).priority_spec() == head_prio(final(self).waiters())
                &&& r == (if owner_prio == thread_prio { old(self).owner_spec() } else { None })
            },
    {
        proof {
            lemma_remove_tid_keeps_sorted(self.waiters(), tid);
        }
        self.inner_queue.enqueue_waiter_mut().cancel(tid);
        if self.owner.is_none() {
            return None;
        }
        let need_update = owner_prio == thread_prio;
        self.update_priority();
        if need_update { self.owner } else { None }
    }

    /// Sets the priority ceiling to `priority` when it is a valid priority
    /// and returns the previous ceiling, naming the owner, if any, so that
    /// the caller sets it to what it is owed if that differs; an invalid
    /// priority changes nothing and gives `PRIORITY_NONE`.
    pub fn set_prio_ceiling(&mut self, priority: u8) -> (r: (u8, Option<usize>))
        requires
            old(self).wf(),
        ensures
            final(self).wf(),
            (priority as u32) < THREAD_PRIORITY_MAX ==> r == (old(self).ceiling(), old(self).owner_spec())
                && final(self).ceiling() == priority,
            (priority as u32) >= THREAD_PRIORITY_MAX ==> r == (PRIORITY_NONE, None::<usize>)
                && *final(self) == *old(self),
            final(self).waiters() == old(self).waiters(),
            final(self).owner_spec() == old(self).owner_spec(),
            final(self).hold() == old(self).hold(),
            final(self).priority_spec() == old(self).priority_spec(),
    {
        if (priority as u32) < THREAD_PRIORITY_MAX {
            let prev = self.ceiling_priority;
            self.ceiling_priority = priority;
            (prev, self.owner)
        } else {
            (PRIORITY_NONE, None)
        }
    }

    /// The thread that holds the mutex, if any.
    pub fn owner(&self) -> (o: Option<usize>)
        ensures
            o == self.owner_spec(),
    {
        self.owner
    }

    /// The priority ceiling.
    pub fn get_prio_ceiling(&self) -> (p: u8)
        ensures
            p == self.ceiling(),
    {
        self.ceiling_priority
    }
}

} // verus!
