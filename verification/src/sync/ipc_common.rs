use vstd::prelude::*;
use crate::thread::{ThreadState, SuspendFlag, base_state_of, suspended_bit, STATE_READY, STATE_RUNNING,
    STATE_SUSPENDED, suspend_flag_code};
use crate::error::code;

verus! {

/// Waiters are served in the order they came.
pub const IPC_WAIT_MODE_FIFO: u32 = 0;
/// Waiters are served by priority (smaller number first), in the order they
/// came among equal priorities.
pub const IPC_WAIT_MODE_PRIO: u32 = 1;

/// A thread waiting on a queue: its id, its current priority, and the
/// event flags it waits for with their option bits (read by events only).
#[derive(Clone, Copy, Debug, PartialEq, Eq, Structural)]
pub struct Waiter {
    pub tid: usize,
    pub prio: u8,
    pub event_set: u32,
    pub event_info: u8,
}

/// Where a waiter of priority `p` goes in `ws` under the priority mode:
/// before the first waiter of a larger priority number, at the end if none.
pub open spec fn prio_insert_index(ws: Seq<Waiter>, p: u8, i: int) -> int
    decreases ws.len() - i,
{
    if i >= ws.len() || i < 0 {
        ws.len() as int
    } else if p < ws[i].prio {
        i
    } else {
        prio_insert_index(ws, p, i + 1)
    }
}

/// Whether a thread in state `s` may be suspended: it must be ready or
/// running.
pub open spec fn can_suspend(s: u8) -> bool {
    base_state_of(s) == STATE_READY || base_state_of(s) == STATE_RUNNING
}

/// Whether a thread in state `s` can be put on a wait queue: it is
/// suspended already, or it can be.
pub open spec fn wait_ok(s: u8) -> bool {
    suspended_bit(s) || can_suspend(s)
}

/// The state of a thread once it waits with `flag`: unchanged if it was
/// suspended already, suspended with `flag` otherwise.
pub open spec fn state_after_wait(s: u8, flag: SuspendFlag) -> u8 {
    if suspended_bit(s) { s } else { (STATE_SUSPENDED + suspend_flag_code(flag)) as u8 }
}

/// The waiters `ws` once `w` joins them in waiting mode `mode`: at the end
/// in the FIFO mode, by priority in the priority mode; not at all in any
/// other mode.
pub open spec fn queued(ws: Seq<Waiter>, mode: u32, w: Waiter) -> Seq<Waiter> {
    if mode == IPC_WAIT_MODE_FIFO {
        ws.push(w)
    } else if mode == IPC_WAIT_MODE_PRIO {
        ws.insert(prio_insert_index(ws, w.prio, 0), w)
    } else {
        ws
    }
}

/// The waiters are in priority order: no waiter has a larger priority
/// number than one behind it.
pub open spec fn prio_sorted(ws: Seq<Waiter>) -> bool {
    forall|i: int, j: int| 0 <= i < j < ws.len() ==> ws[i].prio <= ws[j].prio
}

proof fn lemma_prio_insert_index(ws: Seq<Waiter>, p: u8, i: int)
    requires
        0 <= i <= ws.len(),
        prio_sorted(ws),
        forall|k: int| 0 <= k < i ==> ws[k].prio <= p,
    ensures
        i <= prio_insert_index(ws, p, i) <= ws.len(),
        forall|k: int| 0 <= k < prio_insert_index(ws, p, i) ==> ws[k].prio <= p,
        forall|k: int| prio_insert_index(ws, p, i) <= k < ws.len() ==> p < ws[k].prio,
    decreases ws.len() - i,
{
    if i < ws.len() && !(p < ws[i].prio) {
        lemma_prio_insert_index(ws, p, i + 1);
    }
}

/// Waiting in the priority mode keeps a queue in priority order, and the
/// new waiter goes behind every waiter of its own priority (first come,
/// first served among equals); waiting in the FIFO mode puts it last.
pub proof fn lemma_queued_keeps_order(ws: Seq<Waiter>, w: Waiter)
    requires
        prio_sorted(ws),
    ensures
        prio_sorted(queued(ws, IPC_WAIT_MODE_PRIO, w)),
        queued(ws, IPC_WAIT_MODE_PRIO, w) == ws.insert(prio_insert_index(ws, w.prio, 0), w),
        0 <= prio_insert_index(ws, w.prio, 0) <= ws.len(),
        forall|k: int| 0 <= k < ws.len() && ws[k].prio <= w.prio ==> k < prio_insert_index(ws, w.prio, 0),
        queued(ws, IPC_WAIT_MODE_FIFO, w) == ws.push(w),
        queued(ws, IPC_WAIT_MODE_PRIO, w).len() == ws.len() + 1,
{
    lemma_prio_insert_index(ws, w.prio, 0);
    let idx = prio_insert_index(ws, w.prio, 0);
    let q = ws.insert(idx, w);
    assert forall|i: int, j: int| 0 <= i < j < q.len() implies q[i].prio <= q[j].prio by {
        if j < idx {
        } else if j == idx {
        } else if i < idx {
        } else if i == idx {
        } else {
        }
    }
}

/// The thread that waking `ws` resumes: the first, if any.
pub open spec fn first_tid(ws: Seq<Waiter>) -> Option<usize> {
    if ws.len() == 0 { None } else { Some(ws[0].tid) }
}

/// The waiters `ws` once the first, if any, is woken.
pub open spec fn after_wake(ws: Seq<Waiter>) -> Seq<Waiter> {
    if ws.len() == 0 { ws } else { ws.drop_first() }
}

/// The threads that waking all of `ws` resumes, in order.
pub open spec fn all_tids(ws: Seq<Waiter>) -> Seq<usize> {
    ws.map_values(|w: Waiter| w.tid)
}

/// The waiters `ws` without the first place of the thread `tid`, if it
/// has one.
pub open spec fn remove_tid(ws: Seq<Waiter>, tid: usize) -> Seq<Waiter>
    decreases ws.len(),
{
    if ws.len() == 0 {
        ws
    } else if ws[0].tid == tid {
        ws.drop_first()
    } else {
        seq![ws[0]] + remove_tid(ws.drop_first(), tid)
    }
}

/// Taking a thread off a queue kept by priority leaves it by priority, and
/// every waiter left has a priority number no smaller than the first one's.
pub proof fn lemma_remove_tid_keeps_sorted(ws: Seq<Waiter>, tid: usize)
    requires
        prio_sorted(ws),
    ensures
        prio_sorted(remove_tid(ws, tid)),
        forall|k: int| 0 <= k < remove_tid(ws, tid).len() ==> ws[0].prio <= #[trigger] remove_tid(ws, tid)[k].prio,
        remove_tid(ws, tid).len() <= ws.len(),
    decreases ws.len(),
{
    if ws.len() > 0 {
        let rest = ws.drop_first();
        assert(prio_sorted(rest)) by {
            assert forall|i: int, j: int| 0 <= i < j < rest.len() implies rest[i].prio <= rest[j].prio by {
                assert(rest[i] == ws[i + 1] && rest[j] == ws[j + 1]);
            }
        }
        lemma_remove_tid_keeps_sorted(rest, tid);
        let r = remove_tid(rest, tid);
        if ws[0].tid == tid {
            assert forall|k: int| 0 <= k < rest.len() implies ws[0].prio <= #[trigger] rest[k].prio by {
                assert(rest[k] == ws[k + 1]);
            }
        } else {
            let q = seq![ws[0]] + r;
            assert(remove_tid(ws, tid) == q);
            if rest.len() > 0 {
                assert(rest[0] == ws[1]);
            }
            assert forall|k: int| 0 <= k < q.len() implies ws[0].prio <= #[trigger] q[k].prio by {
                if k > 0 {
                    assert(q[k] == r[k - 1]);
                }
            }
            assert forall|i: int, j: int| 0 <= i < j < q.len() implies q[i].prio <= q[j].prio by {
                assert(q[j] == r[j - 1]);
                if i > 0 {
                    assert(q[i] == r[i - 1]);
                }
            }
        }
    }
}

proof fn lemma_remove_tid(ws: Seq<Waiter>, tid: usize, i: int)
    requires
        0 <= i < ws.len(),
        ws[i].tid == tid,
        forall|k: int| 0 <= k < i ==> ws[k].tid != tid,
    ensures
        remove_tid(ws, tid) == ws.remove(i),
    decreases i,
{
    if i > 0 {
        lemma_remove_tid(ws.drop_first(), tid, i - 1);
        assert(ws.remove(i) =~= seq![ws[0]] + ws.drop_first().remove(i - 1));
    } else {
        assert(ws.remove(0) =~= ws.drop_first());
    }
}

proof fn lemma_remove_tid_absent(ws: Seq<Waiter>, tid: usize)
    requires
        forall|k: int| 0 <= k < ws.len() ==> ws[k].tid != tid,
    ensures
        remove_tid(ws, tid) == ws,
    decreases ws.len(),
{
    if ws.len() > 0 {
        assert(ws[0].tid != tid);
        assert forall|k: int| 0 <= k < ws.drop_first().len() implies ws.drop_first()[k].tid != tid by {
            assert(ws.drop_first()[k] == ws[k + 1]);
        }
        lemma_remove_tid_absent(ws.drop_first(), tid);
        assert(ws =~= seq![ws[0]] + ws.drop_first());
    }
}

/// What the caller of a blocking IPC call does after one step of it.
pub enum IpcStep<T> {
    /// The call is over and gives `value`; `wake` names a thread taken off
    /// a waiter queue, which the caller resumes with no error.
    Done { value: T, wake: Option<usize> },
    /// The call is over with this error code.
    Failed(i32),
    /// The calling thread was suspended and queued: it starts its timer if
    /// it has a timeout, yields, and when it runs again hands its error
    /// code to `wait_outcome`.
    Blocked,
}

/// What a thread that was woken from a wait learns: the error it was woken
/// with (`EOK` when an IPC call handed it what it waited for, `ETIMEDOUT`
/// from its timer, another code when the object was reset or removed).
pub fn wait_outcome(error: i32) -> (r: Result<(), i32>)
    ensures
        error == code::EOK ==> r == Ok::<(), i32>(()),
        error != code::EOK ==> r == Err::<(), i32>(error),
{
    if error == code::EOK { Ok(()) } else { Err(error) }
}

/// The timeout left after `elapsed` ticks of waiting: a negative timeout
/// (waiting forever) and 0 stay as they are, a positive one goes down to
/// no less than 0.
pub fn remaining_timeout(timeout: i32, elapsed: u32) -> (r: i32)
    ensures
        timeout <= 0 ==> r == timeout,
        timeout > 0 ==> r == (if timeout - elapsed < 0 { 0 } else { timeout - elapsed }),
{
    if timeout > 0 {
        if elapsed >= timeout as u32 {
            0
        } else {
            timeout - elapsed as i32
        }
    } else {
        timeout
    }
}

/// The threads waiting on one side of an IPC object.
pub struct RtWaitQueue {
    waiters: Vec<Waiter>,
    waiting_mode: u32,
}

impl RtWaitQueue {
    /// The waiters, the next to be woken first.
    pub closed spec fn view(&self) -> Seq<Waiter> {
        self.waiters@
    }

    pub closed spec fn mode(&self) -> u32 {
        self.waiting_mode
    }

    /// An empty queue with the given waiting mode.
    pub fn new(waiting_mode: u32) -> (q: Self)
        ensures
            q@ == Seq::<Waiter>::empty(),
            q.mode() == waiting_mode,
    {
        RtWaitQueue { waiters: Vec::new(), waiting_mode }
    }

    /// Empties the queue and sets its waiting mode.
    pub fn init(&mut self, waiting_mode: u32)
        ensures
            final(self)@ == Seq::<Waiter>::empty(),
            final(self).mode() == waiting_mode,
    {
        self.waiters = Vec::new();
        self.waiting_mode = waiting_mode;
    }

    pub fn waiting_mode(&self) -> (m: u32)
        ensures
            m == self.mode(),
    {
        self.waiting_mode
    }

    pub fn is_empty(&self) -> (b: bool)
        ensures
            b <==> self@.len() == 0,
    {
        self.waiters.len() == 0
    }

    /// The number of waiters.
    pub fn count(&self) -> (n: usize)
        ensures
            n == self@.len(),
    {
        self.waiters.len()
    }

    /// The `i`-th waiter, counting from the next to be woken.
    pub fn get(&self, i: usize) -> (w: Waiter)
        requires
            i < self@.len(),
        ensures
            w == self@[i as int],
    {
        self.waiters[i]
    }

    /// Where the thread `tid` is in the queue, if it is.
    pub fn position(&self, tid: usize) -> (r: Option<usize>)
        ensures
            r matches Some(i) ==> i < self@.len() && self@[i as int].tid == tid
                && forall|k: int| 0 <= k < i ==> self@[k].tid != tid,
            r is None ==> forall|k: int| 0 <= k < self@.len() ==> self@[k].tid != tid,
    {
        let mut i: usize = 0;
        while i < self.waiters.len()
            invariant
                i <= self.waiters.len(),
                forall|k: int| 0 <= k < i ==> self@[k].tid != tid,
            decreases self.waiters.len() - i,
        {
            if self.waiters[i].tid == tid {
                return Some(i);
            }
            i = i + 1;
        }
        None
    }

    /// Takes the thread `tid` off the queue if it is on it (its first
    /// place); says whether it was.
    pub fn cancel(&mut self, tid: usize) -> (b: bool)
        ensures
            b <==> has_waiter(old(self)@, tid),
            final(self)@ == remove_tid(old(self)@, tid),
            final(self).mode() == old(self).mode(),
    {
        match self.position(tid) {
            Some(i) => {
                self.waiters.remove(i);
                proof {
                    lemma_remove_tid(old(self)@, tid, i as int);
                }
                true
            },
            None => {
                proof {
                    lemma_remove_tid_absent(old(self)@, tid);
                }
                false
            },
        }
    }

    /// Takes the `i`-th waiter off the queue.
    pub fn remove(&mut self, i: usize) -> (w: Waiter)
        requires
            i < old(self)@.len(),
        ensures
            w == old(self)@[i as int],
            final(self)@ == old(self)@.remove(i as int),
            final(self).mode() == old(self).mode(),
    {
        self.waiters.remove(i)
    }

    /// The waiter to be woken next.
    pub fn head(&self) -> (r: Option<Waiter>)
        ensures
            r == (if self@.len() == 0 { None::<Waiter> } else { Some(self@[0]) }),
    {
        if self.waiters.len() == 0 {
            None
        } else {
            Some(self.waiters[0])
        }
    }

    /// The waiter to be woken last.
    pub fn tail(&self) -> (r: Option<Waiter>)
        ensures
            r == (if self@.len() == 0 { None::<Waiter> } else { Some(self@.last()) }),
    {
        if self.waiters.len() == 0 {
            None
        } else {
            Some(self.waiters[self.waiters.len() - 1])
        }
    }

    /// Puts the thread `w` on the queue. A thread not yet suspended is
    /// suspended first with `pending_mode`, which fails, leaving all as it
    /// was, unless it is ready or running. In the FIFO mode it joins at the
    /// end, in the priority mode before the first waiter of a larger
    /// priority number; in any other mode it is not queued.
    pub fn wait(&mut self, stat: &mut ThreadState, w: Waiter, pending_mode: SuspendFlag) -> (r: i32)
        ensures
            !wait_ok(old(stat).0) ==> {
                &&& r == code::ERROR
                &&& *final(stat) == *old(stat)
                &&& *final(self) == *old(self)
            },
            wait_ok(old(stat).0) ==> {
                &&& r == code::EOK
                &&& final(stat).0 == state_after_wait(old(stat).0, pending_mode)
                &&& final(self)@ == queued(old(self)@, old(self).mode(), w)
            },
            final(self).mode() == old(self).mode(),
    {
        if !stat.is_suspended() {
            if stat.is_ready() || stat.is_running() {
                stat.set_suspended(pending_mode);
            } else {
                return code::ERROR;
            }
        }
        if self.waiting_mode == IPC_WAIT_MODE_FIFO {
            self.waiters.push(w);
        } else if self.waiting_mode == IPC_WAIT_MODE_PRIO {
            let mut i: usize = 0;
            while i < self.waiters.len() && !(w.prio < self.waiters[i].prio)
                invariant
                    i <= self.waiters.len(),
                    self.waiters@ == old(self).waiters@,
                    prio_insert_index(self@, w.prio, 0) == prio_insert_index(self@, w.prio, i as int),
                decreases self.waiters.len() - i,
            {
                i = i + 1;
            }
            self.waiters.insert(i, w);
        }
        code::EOK
    }

    /// Takes the next waiter off the queue and returns its thread id; the
    /// caller resumes that thread with no error.
    pub fn wake(&mut self) -> (r: Option<usize>)
        ensures
            r == first_tid(old(self)@),
            final(self)@ == after_wake(old(self)@),
            final(self).mode() == old(self).mode(),
    {
        if self.waiters.len() == 0 {
            None
        } else {
            let w = self.waiters.remove(0);
            assert(old(self)@.remove(0) =~= old(self)@.drop_first());
            Some(w.tid)
        }
    }

    /// Takes every waiter off the queue and returns their thread ids in
    /// waking order; the caller resumes each with an error.
    pub fn wake_all(&mut self) -> (r: Vec<usize>)
        ensures
            final(self)@ == Seq::<Waiter>::empty(),
            r@ == all_tids(old(self)@),
            final(self).mode() == old(self).mode(),
    {
        let mut out: Vec<usize> = Vec::new();
        let mut i: usize = 0;
        while i < self.waiters.len()
            invariant
                i <= self.waiters.len(),
                self.waiters@ == old(self).waiters@,
                out@ == old(self)@.subrange(0, i as int).map_values(|w: Waiter| w.tid),
            decreases self.waiters.len() - i,
        {
            out.push(self.waiters[i].tid);
            i = i + 1;
            assert(out@ =~= old(self)@.subrange(0, i as int).map_values(|w: Waiter| w.tid));
        }
        assert(old(self)@.subrange(0, old(self)@.len() as int) =~= old(self)@);
        self.waiters = Vec::new();
        out
    }
}

/// The control command that resets an IPC object.
pub const IPC_CMD_RESET: i32 = 1;

/// The number of items an IPC object counts or holds (a semaphore's value,
/// the entries of a mailbox or message queue) is capped here.
pub const IPC_ENTRY_MAX: usize = 65535;

/// A system queue that keeps its items in a ring, first in first out.
pub const IPC_SYS_QUEUE_FIFO: u32 = 0;
/// A system queue that keeps its items by priority.
pub const IPC_SYS_QUEUE_PRIO: u32 = 1;
/// A system queue that only counts.
pub const IPC_SYS_QUEUE_STUB: u32 = 2;
/// The alignment of an item's storage in a priority queue.
pub const IPC_ALIGN_SIZE: usize = 8;

/// `x` rounded up to a multiple of `a`.
pub open spec fn align_up_spec(x: int, a: int) -> int {
    if x % a == 0 { x } else { x + (a - x % a) }
}

/// The bytes of storage a queue needs for `max` items of `size` bytes: in
/// the ring each item takes its size; by priority each takes its aligned
/// size and a header of `header` bytes; a counting queue needs none.
pub open spec fn storage_size(size: int, max: int, mode: u32, header: int) -> int {
    if size == 0 || max == 0 || mode == IPC_SYS_QUEUE_STUB {
        0
    } else if mode == IPC_SYS_QUEUE_FIFO {
        size * max
    } else if mode == IPC_SYS_QUEUE_PRIO {
        (align_up_spec(size, IPC_ALIGN_SIZE as int) + header) * max
    } else {
        0
    }
}

/// The size of the header that each item of a priority queue carries: a
/// link, a length and a priority, laid out on words.
pub open spec fn prio_header_size() -> int {
    3 * (usize::BITS / 8) as int
}

/// Where an item of priority `p` goes among `items` kept by priority:
/// before the first item of a lower priority, at the end if none.
pub open spec fn prio_item_index<T>(items: Seq<PrioItem<T>>, p: i32, i: int) -> int
    decreases items.len() - i,
{
    if i >= items.len() || i < 0 {
        items.len() as int
    } else if items[i].prio < p {
        i
    } else {
        prio_item_index(items, p, i + 1)
    }
}

/// An item of a priority queue with its priority.
pub struct PrioItem<T> {
    pub prio: i32,
    pub item: T,
}

/// The queue that an IPC object is built on: its items (held in a ring,
/// by priority, or only counted), how many it may hold, and the threads
/// waiting to put items in and to take them out.
pub struct RtSysQueue<T> {
    item_size: usize,
    item_max_count: usize,
    item_in_queue: usize,
    queue_buf_size: usize,
    working_mode: u32,
    ring: FifoQueue<T>,
    prio_items: Vec<PrioItem<T>>,
    enqueue_waiter: RtWaitQueue,
    dequeue_waiter: RtWaitQueue,
}

impl<T> RtSysQueue<T> {
    /// The threads waiting for room.
    pub closed spec fn enqueue_spec(&self) -> RtWaitQueue {
        self.enqueue_waiter
    }

    /// The threads waiting for an item.
    pub closed spec fn dequeue_spec(&self) -> RtWaitQueue {
        self.dequeue_waiter
    }

    /// Everything but the waiters is the same in `self` and `other`.
    pub open spec fn same_items(&self, other: &Self) -> bool {
        &&& self.count_spec() == other.count_spec()
        &&& self.max_spec() == other.max_spec()
        &&& self.item_size_spec() == other.item_size_spec()
        &&& self.mode_spec() == other.mode_spec()
        &&& self.buf_size_spec() == other.buf_size_spec()
        &&& self.fifo_view() == other.fifo_view()
        &&& self.ring_spec() == other.ring_spec()
        &&& self.fifo_pending() == other.fifo_pending()
        &&& self.fifo_synced() == other.fifo_synced()
        &&& self.fifo_capacity() == other.fifo_capacity()
        &&& self.prio_view() == other.prio_view()
        &&& (self.wf() <==> other.wf())
    }

    /// The ring holds no more items than it has room for.
    pub proof fn lemma_fifo_bounded(&self)
        requires
            self.wf(),
        ensures
            self.fifo_view().len() <= self.fifo_capacity(),
            self.fifo_capacity() == 0 || self.fifo_capacity() == self.max_spec(),
            self.mode_spec() == IPC_SYS_QUEUE_FIFO ==> self.count_spec() == self.fifo_view().len(),
            self.mode_spec() == IPC_SYS_QUEUE_PRIO ==> self.count_spec() == self.prio_view().len(),
    {
    }

    /// The threads waiting for room, to be read.
    pub fn enqueue_waiter(&self) -> (w: &RtWaitQueue)
        ensures
            *w == self.enqueue_spec(),
    {
        &self.enqueue_waiter
    }

    /// The threads waiting for an item, to be read.
    pub fn dequeue_waiter(&self) -> (w: &RtWaitQueue)
        ensures
            *w == self.dequeue_spec(),
    {
        &self.dequeue_waiter
    }

    /// The threads waiting for room, to be changed.
    pub fn enqueue_waiter_mut(&mut self) -> (w: &mut RtWaitQueue)
        ensures
            *w == old(self).enqueue_spec(),
            final(self).enqueue_spec() == *final(w),
            final(self).dequeue_spec() == old(self).dequeue_spec(),
            final(self).same_items(old(self)),
            *final(w) == *w ==> *final(self) == *old(self),
    {
        &mut self.enqueue_waiter
    }

    /// The threads waiting for an item, to be changed.
    pub fn dequeue_waiter_mut(&mut self) -> (w: &mut RtWaitQueue)
        ensures
            *w == old(self).dequeue_spec(),
            final(self).dequeue_spec() == *final(w),
            final(self).enqueue_spec() == old(self).enqueue_spec(),
            final(self).same_items(old(self)),
            *final(w) == *w ==> *final(self) == *old(self),
    {
        &mut self.dequeue_waiter
    }

    pub closed spec fn count_spec(&self) -> usize {
        self.item_in_queue
    }

    pub closed spec fn max_spec(&self) -> usize {
        self.item_max_count
    }

    pub closed spec fn item_size_spec(&self) -> usize {
        self.item_size
    }

    pub closed spec fn mode_spec(&self) -> u32 {
        self.working_mode
    }

    pub closed spec fn buf_size_spec(&self) -> usize {
        self.queue_buf_size
    }

    /// The items of the ring, the next to be read first.
    pub closed spec fn fifo_view(&self) -> Seq<T> {
        self.ring@
    }

    /// The ring itself, slots and positions.
    pub closed spec fn ring_spec(&self) -> FifoQueue<T> {
        self.ring
    }

    /// Whether the ring's write position follows its items directly (see
    /// `FifoQueue::synced`).
    pub open spec fn fifo_synced(&self) -> bool {
        self.ring_spec().synced()
    }

    /// The first `n` values of the ring from its read position on, once
    /// `item` is written at its write position.
    pub open spec fn fifo_written(&self, item: T, n: nat) -> Seq<T> {
        self.ring_spec().written(item, n)
    }

    /// The values written in the ring from its read position on, up to its
    /// write position: the items first (see `FifoQueue::pending`).
    pub open spec fn fifo_pending(&self) -> Seq<T> {
        self.ring_spec().pending()
    }

    /// The items are the first of the values written.
    pub proof fn lemma_fifo_items_pending(&self)
        requires
            self.wf(),
        ensures
            self.fifo_view().len() <= self.fifo_pending().len(),
            forall|i: int| 0 <= i < self.fifo_view().len() ==> #[trigger] self.fifo_view()[i] == self.fifo_pending()[i],
    {
        self.ring.lemma_items_pending();
    }

    /// With the write position right after the items, a counted write
    /// appends the item and an uncounted one leaves the items.
    pub proof fn lemma_fifo_synced_write(&self, item: T)
        requires
            self.wf(),
            self.fifo_synced(),
            self.fifo_view().len() < self.fifo_capacity(),
        ensures
            self.fifo_written(item, (self.fifo_view().len() + 1) as nat) == self.fifo_view().push(item),
            self.fifo_written(item, self.fifo_view().len()) == self.fifo_view(),
    {
        self.ring.lemma_synced_write(item);
    }

    /// How many items the ring has room for (none when no storage was set up).
    pub closed spec fn fifo_capacity(&self) -> nat {
        self.ring.capacity()
    }

    /// The items kept by priority, the next to be read first.
    pub closed spec fn prio_view(&self) -> Seq<PrioItem<T>> {
        self.prio_items@
    }

    /// The ring is well formed, holds at most `max` items and, in the ring
    /// mode, exactly the counted ones; by priority the list holds exactly
    /// the counted ones.
    pub closed spec fn wf(&self) -> bool {
        &&& self.ring.wf()
        &&& self.ring.capacity() == 0 || self.ring.capacity() == self.item_max_count
        &&& self.working_mode == IPC_SYS_QUEUE_FIFO ==> self.item_in_queue == self.ring@.len()
        &&& self.working_mode == IPC_SYS_QUEUE_PRIO ==> self.item_in_queue == self.prio_items@.len()
        &&& self.working_mode == IPC_SYS_QUEUE_PRIO ==> self.prio_items@.len() <= self.item_max_count
    }

    /// In the ring mode the count is the number of items in the ring.
    pub proof fn lemma_fifo_count(&self)
        requires
            self.wf(),
            self.mode_spec() == IPC_SYS_QUEUE_FIFO,
        ensures
            self.count_spec() == self.fifo_view().len(),
    {
    }

    /// Sets up storage for the current size, count and mode, dropping what
    /// was held: nothing is set up (and 0 returned) for items of size 0, a
    /// cap of 0 or a counting queue; otherwise a ring with room for the cap
    /// (read by message queues in either storing mode) and an empty
    /// priority list, and the storage size in bytes is returned.
    fn init_storage_internal(&mut self) -> (r: usize)
        requires
            old(self).ring.wf(),
            storage_size(old(self).item_size as int, old(self).item_max_count as int,
                old(self).working_mode, prio_header_size()) <= usize::MAX,
            old(self).working_mode == IPC_SYS_QUEUE_PRIO ==> old(self).item_size as int + IPC_ALIGN_SIZE <= usize::MAX,
        ensures
            r == storage_size(old(self).item_size as int, old(self).item_max_count as int,
                old(self).working_mode, prio_header_size()),
            final(self).ring.wf(),
            r > 0 ==> final(self).ring@ == Seq::<T>::empty() && final(self).ring.capacity() == old(self).item_max_count
                && final(self).ring.synced() && final(self).ring.pending() == Seq::<T>::empty()
                && final(self).prio_items@ == Seq::<PrioItem<T>>::empty() && final(self).queue_buf_size == r,
            r == 0 ==> final(self).ring == old(self).ring && final(self).prio_items == old(self).prio_items
                && final(self).queue_buf_size == old(self).queue_buf_size,
            final(self).item_size == old(self).item_size,
            final(self).item_max_count == old(self).item_max_count,
            final(self).item_in_queue == old(self).item_in_queue,
            final(self).working_mode == old(self).working_mode,
            final(self).enqueue_spec() == old(self).enqueue_spec(),
            final(self).dequeue_spec() == old(self).dequeue_spec(),
    {
        if self.item_size == 0 || self.item_max_count == 0 || self.working_mode == IPC_SYS_QUEUE_STUB {
            return 0;
        }
        let size: usize;
        let max = self.item_max_count;
        if self.working_mode == IPC_SYS_QUEUE_FIFO {
            let item = self.item_size;
            assert(item * max > 0) by (nonlinear_arith)
                requires item > 0, max > 0;
            size = item * max;
        } else if self.working_mode == IPC_SYS_QUEUE_PRIO {
            let aligned = align_up_size(self.item_size, IPC_ALIGN_SIZE);
            let header = 3 * core::mem::size_of::<usize>();
            proof {
                broadcast use vstd::layout::layout_of_primitives;
                assert(header == prio_header_size());
            }
            let ghost per: int = aligned + header;
            assert(per <= per * max && per * max > 0) by (nonlinear_arith)
                requires per > 0, max > 0;
            size = (aligned + header) * max;
        } else {
            return 0;
        }
        self.queue_buf_size = size;
        self.ring = FifoQueue::new(self.item_max_count);
        self.prio_items = Vec::new();
        size
    }

    /// A queue of `item_max_count` items of `item_size` bytes in the given
    /// storing and waiting modes, with its storage set up.
    pub fn new(item_size: usize, item_max_count: usize, working_mode: u32, waiting_mode: u32) -> (q: Self)
        requires
            storage_size(item_size as int, item_max_count as int, working_mode, prio_header_size()) <= usize::MAX,
            working_mode == IPC_SYS_QUEUE_PRIO ==> item_size as int + IPC_ALIGN_SIZE <= usize::MAX,
        ensures
            q.wf(),
            q.count_spec() == 0,
            q.max_spec() == item_max_count,
            q.item_size_spec() == item_size,
            q.mode_spec() == working_mode,
            q.buf_size_spec() == storage_size(item_size as int, item_max_count as int, working_mode, prio_header_size()),
            q.fifo_view() == Seq::<T>::empty(),
            q.fifo_synced(),
            q.fifo_pending() == Seq::<T>::empty(),
            q.prio_view() == Seq::<PrioItem<T>>::empty(),
            q.buf_size_spec() > 0 ==> q.fifo_capacity() == item_max_count,
            q.buf_size_spec() == 0 ==> q.fifo_capacity() == 0,
            q.enqueue_spec()@ == Seq::<Waiter>::empty() && q.enqueue_spec().mode() == waiting_mode,
            q.dequeue_spec()@ == Seq::<Waiter>::empty() && q.dequeue_spec().mode() == waiting_mode,
    {
        let mut q = RtSysQueue {
            item_size,
            item_max_count,
            item_in_queue: 0,
            queue_buf_size: 0,
            working_mode,
            ring: FifoQueue::new(0),
            prio_items: Vec::new(),
            enqueue_waiter: RtWaitQueue::new(waiting_mode),
            dequeue_waiter: RtWaitQueue::new(waiting_mode),
        };
        q.init_storage_internal();
        q
    }

    /// Sets the queue up afresh, empty, for `item_max_count` items of
    /// `item_size` bytes, with empty waiter queues; `ENOMEM` when no
    /// storage could be set up (see `init_storage_internal`), `EOK`
    /// otherwise.
    pub fn init(&mut self, item_size: usize, item_max_count: usize, working_mode: u32, waiting_mode: u32) -> (r: i32)
        requires
            storage_size(item_size as int, item_max_count as int, working_mode, prio_header_size()) <= usize::MAX,
            working_mode == IPC_SYS_QUEUE_PRIO ==> item_size as int + IPC_ALIGN_SIZE <= usize::MAX,
        ensures
            final(self).wf(),
            r == (if storage_size(item_size as int, item_max_count as int, working_mode, prio_header_size()) > 0 {
                code::EOK
            } else {
                code::ENOMEM
            }),
            final(self).count_spec() == 0,
            final(self).max_spec() == item_max_count,
            final(self).item_size_spec() == item_size,
            final(self).mode_spec() == working_mode,
            final(self).fifo_view() == Seq::<T>::empty(),
            final(self).fifo_synced(),
            final(self).fifo_pending() == Seq::<T>::empty(),
            final(self).prio_view() == Seq::<PrioItem<T>>::empty(),
            r == code::EOK ==> final(self).fifo_capacity() == item_max_count,
            r != code::EOK ==> final(self).fifo_capacity() == 0,
            final(self).enqueue_spec()@ == Seq::<Waiter>::empty() && final(self).enqueue_spec().mode() == waiting_mode,
            final(self).dequeue_spec()@ == Seq::<Waiter>::empty() && final(self).dequeue_spec().mode() == waiting_mode,
    {
        self.item_size = item_size;
        self.item_max_count = item_max_count;
        self.item_in_queue = 0;
        self.working_mode = working_mode;
        self.ring = FifoQueue::new(0);
        self.prio_items = Vec::new();
        let buf_size = self.init_storage_internal();
        self.enqueue_waiter.init(waiting_mode);
        self.dequeue_waiter.init(waiting_mode);
        if buf_size > 0 {
            code::EOK
        } else {
            code::ENOMEM
        }
    }

    pub fn is_full(&self) -> (b: bool)
        ensures
            b <==> self.count_spec() == self.max_spec(),
    {
        self.item_max_count == self.item_in_queue
    }

    pub fn is_empty(&self) -> (b: bool)
        ensures
            b <==> self.count_spec() == 0,
    {
        self.item_in_queue == 0
    }

    pub fn count(&self) -> (n: usize)
        ensures
            n == self.count_spec(),
    {
        self.item_in_queue
    }

    /// Counts one more item unless the count is at its largest value; says
    /// whether it did. The cap is not checked.
    pub fn force_push_stub(&mut self) -> (b: bool)
        requires
            old(self).wf(),
            old(self).mode_spec() == IPC_SYS_QUEUE_STUB,
        ensures
            final(self).wf(),
            b <==> old(self).count_spec() < usize::MAX,
            final(self).count_spec() == (if b { old(self).count_spec() + 1 } else { old(self).count_spec() as int }),
            final(self).max_spec() == old(self).max_spec(),
            final(self).mode_spec() == old(self).mode_spec(),
            final(self).enqueue_spec() == old(self).enqueue_spec(),
            final(self).dequeue_spec() == old(self).dequeue_spec(),
    {
        if self.item_in_queue < usize::MAX {
            self.item_in_queue = self.item_in_queue + 1;
            return true;
        }
        false
    }

    /// Counts one more item unless the queue is full; says whether it did.
    pub fn push_stub(&mut self) -> (b: bool)
        requires
            old(self).wf(),
            old(self).mode_spec() == IPC_SYS_QUEUE_STUB,
        ensures
            final(self).wf(),
            b <==> (old(self).count_spec() != old(self).max_spec() && old(self).count_spec() < usize::MAX),
            final(self).count_spec() == (if b { old(self).count_spec() + 1 } else { old(self).count_spec() as int }),
            final(self).max_spec() == old(self).max_spec(),
            final(self).mode_spec() == old(self).mode_spec(),
            final(self).enqueue_spec() == old(self).enqueue_spec(),
            final(self).dequeue_spec() == old(self).dequeue_spec(),
    {
        if self.is_full() {
            return false;
        }
        self.force_push_stub()
    }

    /// Counts one item less unless the queue is empty; says whether it did.
    pub fn pop_stub(&mut self) -> (b: bool)
        requires
            old(self).wf(),
            old(self).mode_spec() == IPC_SYS_QUEUE_STUB,
        ensures
            final(self).wf(),
            b <==> old(self).count_spec() > 0,
            !b ==> *final(self) == *old(self),
            final(self).count_spec() == (if b { old(self).count_spec() - 1 } else { old(self).count_spec() as int }),
            final(self).max_spec() == old(self).max_spec(),
            final(self).mode_spec() == old(self).mode_spec(),
            final(self).enqueue_spec() == old(self).enqueue_spec(),
            final(self).dequeue_spec() == old(self).dequeue_spec(),
    {
        if self.is_empty() {
            return false;
        }
        self.item_in_queue = self.item_in_queue - 1;
        true
    }

    /// Sets the count; the cap is raised to it when it is below.
    pub fn reset_stub(&mut self, item_in_queue: usize)
        requires
            old(self).wf(),
            old(self).mode_spec() == IPC_SYS_QUEUE_STUB,
        ensures
            final(self).wf(),
            final(self).count_spec() == item_in_queue,
            final(self).max_spec() == (if item_in_queue > old(self).max_spec() {
                item_in_queue
            } else {
                old(self).max_spec()
            }),
            final(self).mode_spec() == old(self).mode_spec(),
            final(self).enqueue_spec() == old(self).enqueue_spec(),
            final(self).dequeue_spec() == old(self).dequeue_spec(),
    {
        self.item_in_queue = item_in_queue;
        if self.item_in_queue > self.item_max_count {
            self.item_max_count = self.item_in_queue;
            if self.ring.capacity_exec() != 0 {
                self.ring = FifoQueue::new(0);
            }
        }
    }

    /// Empties the ring or the priority list and the count, keeping the
    /// storage and the waiters.
    pub fn clear_items(&mut self)
        requires
            old(self).wf(),
        ensures
            final(self).wf(),
            final(self).count_spec() == 0,
            final(self).fifo_view() == Seq::<T>::empty(),
            final(self).fifo_synced(),
            final(self).fifo_pending() == Seq::<T>::empty(),
            final(self).prio_view() == Seq::<PrioItem<T>>::empty(),
            final(self).fifo_capacity() == old(self).fifo_capacity(),
            final(self).max_spec() == old(self).max_spec(),
            final(self).item_size_spec() == old(self).item_size_spec(),
            final(self).mode_spec() == old(self).mode_spec(),
            final(self).enqueue_spec() == old(self).enqueue_spec(),
            final(self).dequeue_spec() == old(self).dequeue_spec(),
    {
        self.ring.reset();
        self.prio_items = Vec::new();
        self.item_in_queue = 0;
    }

    /// Adds an item at the back of the ring. Fails, changing nothing, when
    /// no storage was set up. When the count is at `IPC_ENTRY_MAX` the item
    /// is still written at the write position, which moves on, but it is
    /// not counted, and the push fails. The caller sees to it that the queue
    /// is not full.
    pub fn push_fifo(&mut self, item: T) -> (ok: bool)
        requires
            old(self).wf(),
            old(self).mode_spec() == IPC_SYS_QUEUE_FIFO,
            old(self).count_spec() < old(self).max_spec(),
        ensures
            final(self).wf(),
            ok <==> old(self).fifo_capacity() > 0 && old(self).count_spec() < IPC_ENTRY_MAX,
            old(self).fifo_capacity() == 0 ==> *final(self) == *old(self),
            ok ==> final(self).fifo_view() == old(self).fifo_written(item, (old(self).fifo_view().len() + 1) as nat)
                && final(self).fifo_view().len() == old(self).fifo_view().len() + 1
                && final(self).count_spec() == old(self).count_spec() + 1
                && final(self).fifo_synced() == old(self).fifo_synced(),
            !ok && old(self).fifo_capacity() > 0 ==> final(self).fifo_view()
                == old(self).fifo_written(item, old(self).fifo_view().len())
                && final(self).fifo_view().len() == old(self).fifo_view().len()
                && final(self).count_spec() == old(self).count_spec()
                && !final(self).fifo_synced(),
            forall|x: T| #[trigger] final(self).fifo_pending().contains(x) ==> x == item
                || old(self).fifo_pending().contains(x),
            final(self).fifo_capacity() == old(self).fifo_capacity(),
            final(self).max_spec() == old(self).max_spec(),
            final(self).item_size_spec() == old(self).item_size_spec(),
            final(self).mode_spec() == old(self).mode_spec(),
            final(self).enqueue_spec() == old(self).enqueue_spec(),
            final(self).dequeue_spec() == old(self).dequeue_spec(),
    {
        if self.ring.capacity_exec() == 0 {
            return false;
        }
        if self.item_in_queue >= IPC_ENTRY_MAX {
            self.ring.write_uncounted(item);
            return false;
        }
        self.ring.push_fifo(item);
        self.item_in_queue = self.item_in_queue + 1;
        true
    }

    /// Puts an item at the front of the ring, to be read next. Fails,
    /// changing nothing, when no storage was set up; the caller sees to it
    /// that the queue is not full.
    pub fn urgent_fifo(&mut self, item: T) -> (ok: bool)
        requires
            old(self).wf(),
            old(self).mode_spec() == IPC_SYS_QUEUE_FIFO,
            old(self).count_spec() < old(self).max_spec(),
        ensures
            final(self).wf(),
            ok <==> old(self).fifo_capacity() > 0,
            !ok ==> *final(self) == *old(self),
            ok ==> final(self).fifo_view() == seq![item] + old(self).fifo_view()
                && final(self).count_spec() == old(self).count_spec() + 1
                && final(self).fifo_synced() == old(self).fifo_synced(),
            forall|x: T| #[trigger] final(self).fifo_pending().contains(x) ==> x == item
                || old(self).fifo_pending().contains(x),
            !ok ==> final(self).fifo_view() == old(self).fifo_view()
                && final(self).count_spec() == old(self).count_spec(),
            final(self).fifo_capacity() == old(self).fifo_capacity(),
            final(self).max_spec() == old(self).max_spec(),
            final(self).item_size_spec() == old(self).item_size_spec(),
            final(self).mode_spec() == old(self).mode_spec(),
            final(self).enqueue_spec() == old(self).enqueue_spec(),
            final(self).dequeue_spec() == old(self).dequeue_spec(),
    {
        if self.ring.capacity_exec() == 0 {
            return false;
        }
        self.ring.urgent_fifo(item);
        self.item_in_queue = self.item_in_queue + 1;
        true
    }

    /// Adds an item of priority `prio` before the first item of a lower
    /// priority (after those of the same priority). The queue must have
    /// room. The item is kept even when the count is at `IPC_ENTRY_MAX`,
    /// which is then not raised and `EFULL` is returned; `EOK` otherwise.
    pub fn push_prio(&mut self, item: T, prio: i32) -> (r: i32)
        requires
            old(self).wf(),
            old(self).mode_spec() == IPC_SYS_QUEUE_PRIO,
            old(self).count_spec() < old(self).max_spec(),
        ensures
            final(self).wf() || old(self).count_spec() >= IPC_ENTRY_MAX,
            final(self).prio_view() == old(self).prio_view().insert(
                prio_item_index(old(self).prio_view(), prio, 0), PrioItem { prio, item }),
            r == (if old(self).count_spec() < IPC_ENTRY_MAX { code::EOK } else { code::EFULL }),
            final(self).count_spec() == (if old(self).count_spec() < IPC_ENTRY_MAX {
                old(self).count_spec() + 1
            } else {
                old(self).count_spec() as int
            }),
            final(self).max_spec() == old(self).max_spec(),
            final(self).mode_spec() == old(self).mode_spec(),
            final(self).enqueue_spec() == old(self).enqueue_spec(),
            final(self).dequeue_spec() == old(self).dequeue_spec(),
    {
        let mut i: usize = 0;
        while i < self.prio_items.len() && !(self.prio_items[i].prio < prio)
            invariant
                i <= self.prio_items.len(),
                self.prio_items@ == old(self).prio_items@,
                prio_item_index(self.prio_items@, prio, 0) == prio_item_index(self.prio_items@, prio, i as int),
            decreases self.prio_items.len() - i,
        {
            i = i + 1;
        }
        self.prio_items.insert(i, PrioItem { prio, item });
        if self.item_in_queue < IPC_ENTRY_MAX {
            self.item_in_queue = self.item_in_queue + 1;
            code::EOK
        } else {
            code::EFULL
        }
    }

    /// Puts an item at the front of the priority list, to be read next,
    /// with priority 0. Fails with `EFULL`, changing nothing, when the
    /// queue has no room; when the count is at `IPC_ENTRY_MAX` the item is
    /// kept, the count not raised, and `EFULL` returned; `EOK` otherwise.
    pub fn urgent_prio(&mut self, item: T) -> (r: i32)
        requires
            old(self).wf(),
            old(self).mode_spec() == IPC_SYS_QUEUE_PRIO,
        ensures
            final(self).wf() || old(self).count_spec() >= IPC_ENTRY_MAX,
            old(self).count_spec() >= old(self).max_spec() ==> r == code::EFULL
                && final(self).prio_view() == old(self).prio_view()
                && final(self).count_spec() == old(self).count_spec(),
            old(self).count_spec() < old(self).max_spec() ==> {
                &&& final(self).prio_view() == seq![PrioItem { prio: 0i32, item }] + old(self).prio_view()
                &&& r == (if old(self).count_spec() < IPC_ENTRY_MAX { code::EOK } else { code::EFULL })
                &&& final(self).count_spec() == (if old(self).count_spec() < IPC_ENTRY_MAX {
                    old(self).count_spec() + 1
                } else {
                    old(self).count_spec() as int
                })
            },
            final(self).max_spec() == old(self).max_spec(),
            final(self).mode_spec() == old(self).mode_spec(),
            final(self).enqueue_spec() == old(self).enqueue_spec(),
            final(self).dequeue_spec() == old(self).dequeue_spec(),
    {
        if self.item_in_queue >= self.item_max_count {
            return code::EFULL;
        }
        self.prio_items.insert(0, PrioItem { prio: 0, item });
        assert(self.prio_items@ =~= seq![PrioItem { prio: 0i32, item }] + old(self).prio_items@);
        if self.item_in_queue < IPC_ENTRY_MAX {
            self.item_in_queue = self.item_in_queue + 1;
            code::EOK
        } else {
            code::EFULL
        }
    }

    /// Takes the item at the front of the priority list, with its
    /// priority. The queue must not be empty.
    pub fn pop_prio(&mut self) -> (r: (T, i32))
        requires
            old(self).wf(),
            old(self).mode_spec() == IPC_SYS_QUEUE_PRIO,
            old(self).count_spec() > 0,
        ensures
            final(self).wf(),
            r.0 == old(self).prio_view()[0].item,
            r.1 == old(self).prio_view()[0].prio,
            final(self).prio_view() == old(self).prio_view().drop_first(),
            final(self).count_spec() == old(self).count_spec() - 1,
            final(self).max_spec() == old(self).max_spec(),
            final(self).mode_spec() == old(self).mode_spec(),
            final(self).enqueue_spec() == old(self).enqueue_spec(),
            final(self).dequeue_spec() == old(self).dequeue_spec(),
    {
        let it = self.prio_items.remove(0);
        assert(old(self).prio_items@.remove(0) =~= old(self).prio_items@.drop_first());
        self.item_in_queue = self.item_in_queue - 1;
        (it.item, it.prio)
    }
}

/// `x` rounded up to a multiple of `align`, which must be a power of two.
pub fn align_up_size(x: usize, align: usize) -> (r: usize)
    requires
        align == IPC_ALIGN_SIZE,
        x + align <= usize::MAX,
    ensures
        r == align_up_spec(x as int, align as int),
{
    let rem = x % align;
    if rem == 0 { x } else { x + (align - rem) }
}

impl<T: Clone> RtSysQueue<T> {
    /// Reads the item at the front of the ring, a clone of it, and moves
    /// past it. The queue must not be empty.
    pub fn pop_fifo(&mut self) -> (item: T)
        requires
            old(self).wf(),
            old(self).mode_spec() == IPC_SYS_QUEUE_FIFO,
            old(self).count_spec() > 0,
        ensures
            final(self).wf(),
            cloned(old(self).fifo_view()[0], item),
            final(self).fifo_view() == old(self).fifo_view().drop_first(),
            final(self).fifo_synced() == old(self).fifo_synced(),
            forall|x: T| #[trigger] final(self).fifo_pending().contains(x) ==> old(self).fifo_pending().contains(x),
            final(self).count_spec() == old(self).count_spec() - 1,
            final(self).fifo_capacity() == old(self).fifo_capacity(),
            final(self).max_spec() == old(self).max_spec(),
            final(self).item_size_spec() == old(self).item_size_spec(),
            final(self).mode_spec() == old(self).mode_spec(),
            final(self).enqueue_spec() == old(self).enqueue_spec(),
            final(self).dequeue_spec() == old(self).dequeue_spec(),
    {
        let item = self.ring.pop_fifo();
        self.item_in_queue = self.item_in_queue - 1;
        item
    }
}

/// The slot `i` places after `read` in a ring of `cap` slots.
pub open spec fn ring_index(read: int, i: int, cap: int) -> int {
    if read + i < cap { read + i } else { read + i - cap }
}

/// Whether the thread `tid` is among the waiters `ws`.
pub open spec fn has_waiter(ws: Seq<Waiter>, tid: usize) -> bool {
    exists|k: int| 0 <= k < ws.len() && ws[k].tid == tid
}

/// A first-in first-out queue of items in a ring of slots: items are added
/// at the write position and read at the read position, both wrapping
/// round; urgent items go in just before the read position. Reading an
/// item leaves it in its slot, as a byte ring leaves the bytes. A write
/// that is not counted (see `write_uncounted`) moves the write position
/// ahead of the items, so that the slots after the items hold values
/// written but not counted; `span` is how far the write position is from
/// the read position, counted from the read position on.
pub struct FifoQueue<T> {
    slots: Vec<Option<T>>,
    read_pos: usize,
    write_pos: usize,
    item_in_queue: usize,
    span: Ghost<nat>,
}

impl<T> FifoQueue<T> {
    /// The number of slots.
    pub closed spec fn capacity(&self) -> nat {
        self.slots@.len()
    }

    /// The items, the next to be read first.
    pub closed spec fn view(&self) -> Seq<T> {
        Seq::new(self.item_in_queue as nat, |i: int|
            self.slots@[ring_index(self.read_pos as int, i, self.slots@.len() as int)].unwrap())
    }

    /// The values written from the read position on, up to the write
    /// position (all slots when it went round): the items first.
    pub closed spec fn pending(&self) -> Seq<T> {
        let cap = self.slots@.len() as int;
        let n = if self.span@ < cap { self.span@ as int } else { cap };
        Seq::new(n as nat, |i: int| self.slots@[ring_index(self.read_pos as int, i, cap)].unwrap())
    }

    /// The items are the first of the values written.
    pub proof fn lemma_items_pending(&self)
        requires
            self.wf(),
        ensures
            self.view().len() <= self.pending().len(),
            forall|i: int| 0 <= i < self.view().len() ==> #[trigger] self.view()[i] == self.pending()[i],
    {
    }

    /// Whether the write position follows the items directly.
    pub closed spec fn synced(&self) -> bool {
        self.span@ == self.item_in_queue
    }

    /// The first `n` values from the read position on, once `item` is
    /// written at the write position.
    pub closed spec fn written(&self, item: T, n: nat) -> Seq<T> {
        let slots = self.slots@.update(self.write_pos as int, Some(item));
        Seq::new(n, |i: int| slots[ring_index(self.read_pos as int, i, self.slots@.len() as int)].unwrap())
    }

    /// The positions are in the ring; the write position is `span` slots on
    /// from the read position; the items are no more than that; and every
    /// slot within `span` of the read position has been written.
    pub closed spec fn wf(&self) -> bool {
        let cap = self.slots@.len() as int;
        &&& self.item_in_queue <= cap
        &&& self.item_in_queue <= self.span@
        &&& (cap > 0 ==> self.read_pos < cap && self.write_pos < cap)
        &&& (cap == 0 ==> self.read_pos == 0 && self.write_pos == 0 && self.span@ == 0)
        &&& cap > 0 ==> self.write_pos == ring_index(self.read_pos as int, self.span@ as int % cap, cap)
        &&& forall|i: int| 0 <= i < self.span@ && i < cap
            ==> (#[trigger] self.slots@[ring_index(self.read_pos as int, i, cap)]) is Some
    }

    /// With the write position right after the items, writing `item` and
    /// counting it appends it to the items, and writing it without counting
    /// leaves the items as they are.
    pub proof fn lemma_synced_write(&self, item: T)
        requires
            self.wf(),
            self.synced(),
            self.view().len() < self.capacity(),
        ensures
            self.written(item, (self.view().len() + 1) as nat) == self.view().push(item),
            self.written(item, self.view().len()) == self.view(),
    {
        let cap = self.slots@.len() as int;
        let n = self.item_in_queue as int;
        let r = self.read_pos as int;
        assert(self.span@ as int % cap == n) by {
            vstd::arithmetic::div_mod::lemma_small_mod(n as nat, cap as nat);
        }
        assert forall|i: int| 0 <= i < n implies ring_index(r, i, cap) != self.write_pos by {}
        assert(self.written(item, (n + 1) as nat) =~= self.view().push(item));
        assert(self.written(item, n as nat) =~= self.view());
    }

    /// An empty queue of `cap` slots.
    pub fn new(cap: usize) -> (q: Self)
        ensures
            q.wf(),
            q.synced(),
            q@ == Seq::<T>::empty(),
            q.pending() == Seq::<T>::empty(),
            q.capacity() == cap,
    {
        let mut slots: Vec<Option<T>> = Vec::new();
        let mut i: usize = 0;
        while i < cap
            invariant
                i <= cap,
                slots@.len() == i,
            decreases cap - i,
        {
            slots.push(None);
            i = i + 1;
        }
        let q = FifoQueue { slots, read_pos: 0, write_pos: 0, item_in_queue: 0, span: Ghost(0) };
        assert(q@ =~= Seq::<T>::empty());
        assert(q.pending() =~= Seq::<T>::empty());
        q
    }

    /// The number of slots.
    pub fn capacity_exec(&self) -> (n: usize)
        ensures
            n == self.capacity(),
    {
        self.slots.len()
    }

    pub fn is_full(&self) -> (b: bool)
        requires
            self.wf(),
        ensures
            b <==> self@.len() == self.capacity(),
    {
        self.item_in_queue == self.slots.len()
    }

    pub fn is_empty(&self) -> (b: bool)
        ensures
            b <==> self@.len() == 0,
    {
        self.item_in_queue == 0
    }

    pub fn count(&self) -> (n: usize)
        ensures
            n == self@.len(),
    {
        self.item_in_queue
    }

    /// Writes `item` at the write position and moves it on; `counted` says
    /// whether the item joins the items.
    fn write(&mut self, item: T, counted: bool)
        requires
            old(self).wf(),
            old(self).capacity() > 0,
            counted ==> old(self)@.len() < old(self).capacity(),
        ensures
            final(self).wf(),
            final(self)@ == old(self).written(item, (old(self)@.len() + if counted { 1nat } else { 0nat }) as nat),
            final(self).capacity() == old(self).capacity(),
            final(self).synced() == (old(self).synced() && counted),
            forall|x: T| #[trigger] final(self).pending().contains(x) ==> x == item || old(self).pending().contains(x),
    {
        let cap = self.slots.len();
        let w = self.write_pos;
        let ghost r = self.read_pos as int;
        let ghost sp = self.span@ as int;
        self.slots.set(w, Some(item));
        self.write_pos = if w + 1 >= cap { 0 } else { w + 1 };
        if counted {
            self.item_in_queue = self.item_in_queue + 1;
        }
        proof {
            self.span@ = self.span@ + 1;
            let c = cap as int;
            assert((sp + 1) % c == if sp % c + 1 < c { sp % c + 1 } else { 0 }) by {
                vstd::arithmetic::div_mod::lemma_mod_bound(sp, c);
                vstd::arithmetic::div_mod::lemma_fundamental_div_mod(sp, c);
                vstd::arithmetic::div_mod::lemma_fundamental_div_mod(sp + 1, c);
                if sp % c + 1 < c {
                    vstd::arithmetic::div_mod::lemma_mod_add_multiples_vanish(sp % c + 1, c);
                    assert((sp + 1) % c == sp % c + 1) by {
                        vstd::arithmetic::div_mod::lemma_add_mod_noop(sp, 1, c);
                        vstd::arithmetic::div_mod::lemma_mod_twice(sp, c);
                        vstd::arithmetic::div_mod::lemma_small_mod((sp % c + 1) as nat, c as nat);
                        if c > 1 { vstd::arithmetic::div_mod::lemma_small_mod(1, c as nat); }
                    }
                } else {
                    assert((sp + 1) % c == 0) by {
                        vstd::arithmetic::div_mod::lemma_add_mod_noop(sp, 1, c);
                        vstd::arithmetic::div_mod::lemma_mod_twice(sp, c);
                        if c > 1 { vstd::arithmetic::div_mod::lemma_small_mod(1, c as nat); }
                        vstd::arithmetic::div_mod::lemma_mod_self_0(c);
                    }
                }
            }
            assert forall|i: int| 0 <= i < self.span@ && i < c
                implies (#[trigger] self.slots@[ring_index(r, i, c)]) is Some by {
                if i < sp && i < c {
                    assert(old(self).slots@[ring_index(r, i, c)] is Some);
                } else {
                    assert(i == sp);
                    vstd::arithmetic::div_mod::lemma_small_mod(sp as nat, c as nat);
                }
            }
            let n = (old(self)@.len() + if counted { 1nat } else { 0nat }) as nat;
            assert(self@ =~= old(self).written(item, n));
            assert forall|x: T| #[trigger] self.pending().contains(x) implies x == item || old(self).pending().contains(x) by {
                let k = choose|k: int| 0 <= k < self.pending().len() && self.pending()[k] == x;
                if ring_index(r, k, c) != w as int {
                    assert(k < sp) by {
                        if k >= sp {
                            assert(k == sp);
                            vstd::arithmetic::div_mod::lemma_small_mod(sp as nat, c as nat);
                        }
                    }
                    assert(old(self).pending()[k] == x);
                }
            }
        }
    }

    /// Adds an item at the back. The queue must not be full.
    pub fn push_fifo(&mut self, item: T)
        requires
            old(self).wf(),
            old(self)@.len() < old(self).capacity(),
        ensures
            final(self).wf(),
            final(self)@ == old(self).written(item, (old(self)@.len() + 1) as nat),
            final(self).synced() == old(self).synced(),
            final(self).capacity() == old(self).capacity(),
            forall|x: T| #[trigger] final(self).pending().contains(x) ==> x == item || old(self).pending().contains(x),
    {
        self.write(item, true);
    }

    /// Writes an item at the write position and moves it on without counting
    /// the item.
    pub fn write_uncounted(&mut self, item: T)
        requires
            old(self).wf(),
            old(self).capacity() > 0,
        ensures
            final(self).wf(),
            final(self)@ == old(self).written(item, old(self)@.len()),
            !final(self).synced(),
            final(self).capacity() == old(self).capacity(),
            forall|x: T| #[trigger] final(self).pending().contains(x) ==> x == item || old(self).pending().contains(x),
    {
        self.write(item, false);
    }

    /// Moves the read position past the front item, which stays in its
    /// slot. The queue must not be empty.
    fn advance(&mut self)
        requires
            old(self).wf(),
            old(self)@.len() > 0,
        ensures
            final(self).wf(),
            final(self)@ == old(self)@.drop_first(),
            final(self).synced() == old(self).synced(),
            final(self).capacity() == old(self).capacity(),
            forall|x: T| #[trigger] final(self).pending().contains(x) ==> old(self).pending().contains(x),
    {
        let cap = self.slots.len();
        let r = self.read_pos;
        let ghost old_view = self@;
        let ghost sp = self.span@ as int;
        self.read_pos = if r + 1 >= cap { 0 } else { r + 1 };
        self.item_in_queue = self.item_in_queue - 1;
        proof {
            self.span@ = (self.span@ - 1) as nat;
            let c = cap as int;
            let n = old(self).item_in_queue as int;
            assert forall|i: int| 0 <= i < c - 1 implies
                ring_index(self.read_pos as int, i, c) == ring_index(r as int, i + 1, c) by {}
            assert(ring_index(self.read_pos as int, c - 1, c) == r);
            assert((sp - 1) % c == if sp % c == 0 { c - 1 } else { sp % c - 1 }) by {
                vstd::arithmetic::div_mod::lemma_mod_bound(sp, c);
                vstd::arithmetic::div_mod::lemma_sub_mod_noop(sp, 1, c);
                vstd::arithmetic::div_mod::lemma_mod_twice(sp, c);
                if c > 1 { vstd::arithmetic::div_mod::lemma_small_mod(1, c as nat); }
                if sp % c == 0 {
                    vstd::arithmetic::div_mod::lemma_mod_sub_multiples_vanish(-1, c);
                    vstd::arithmetic::div_mod::lemma_fundamental_div_mod(-1 + c, c);
                    vstd::arithmetic::div_mod::lemma_small_mod((c - 1) as nat, c as nat);
                    vstd::arithmetic::div_mod::lemma_mod_add_multiples_vanish(-1, c);
                } else {
                    vstd::arithmetic::div_mod::lemma_small_mod((sp % c - 1) as nat, c as nat);
                }
            }
            assert forall|i: int| 0 <= i < self.span@ && i < c
                implies (#[trigger] self.slots@[ring_index(self.read_pos as int, i, c)]) is Some by {
                if i + 1 < c {
                    assert(old(self).slots@[ring_index(r as int, i + 1, c)] is Some);
                } else {
                    assert(old(self).slots@[ring_index(r as int, 0, c)] is Some);
                }
            }
            assert(self@ =~= old_view.drop_first());
            assert forall|x: T| #[trigger] self.pending().contains(x) implies old(self).pending().contains(x) by {
                let k = choose|k: int| 0 <= k < self.pending().len() && self.pending()[k] == x;
                if k + 1 < c {
                    assert(old(self).pending()[k + 1] == x);
                } else {
                    assert(old(self).pending()[0] == x);
                }
            }
        }
    }

    /// Puts an item at the front, just before the read position. The queue
    /// must not be full.
    pub fn urgent_fifo(&mut self, item: T)
        requires
            old(self).wf(),
            old(self)@.len() < old(self).capacity(),
        ensures
            final(self).wf(),
            final(self)@ == seq![item] + old(self)@,
            final(self).synced() == old(self).synced(),
            final(self).capacity() == old(self).capacity(),
            forall|x: T| #[trigger] final(self).pending().contains(x) ==> x == item || old(self).pending().contains(x),
    {
        let cap = self.slots.len();
        let r = self.read_pos;
        let ghost old_view = self@;
        let ghost sp = self.span@ as int;
        let nr = if r > 0 { r - 1 } else { cap - 1 };
        self.slots.set(nr, Some(item));
        self.read_pos = nr;
        self.item_in_queue = self.item_in_queue + 1;
        proof {
            self.span@ = self.span@ + 1;
            let c = cap as int;
            let n = old(self).item_in_queue as int;
            assert forall|i: int| 1 <= i < c implies
                ring_index(nr as int, i, c) == ring_index(r as int, i - 1, c) by {}
            assert forall|i: int| 0 <= i < n implies ring_index(r as int, i, c) != nr by {}
            assert((sp + 1) % c == if sp % c + 1 < c { sp % c + 1 } else { 0 }) by {
                vstd::arithmetic::div_mod::lemma_mod_bound(sp, c);
                vstd::arithmetic::div_mod::lemma_add_mod_noop(sp, 1, c);
                vstd::arithmetic::div_mod::lemma_mod_twice(sp, c);
                if c > 1 { vstd::arithmetic::div_mod::lemma_small_mod(1, c as nat); }
                if sp % c + 1 < c {
                    vstd::arithmetic::div_mod::lemma_small_mod((sp % c + 1) as nat, c as nat);
                } else {
                    vstd::arithmetic::div_mod::lemma_mod_self_0(c);
                }
            }
            assert forall|i: int| 0 <= i < self.span@ && i < c
                implies (#[trigger] self.slots@[ring_index(nr as int, i, c)]) is Some by {
                if i > 0 {
                    assert(old(self).slots@[ring_index(r as int, i - 1, c)] is Some);
                }
            }
            assert(self@ =~= seq![item] + old_view);
            assert forall|x: T| #[trigger] self.pending().contains(x) implies x == item || old(self).pending().contains(x) by {
                let k = choose|k: int| 0 <= k < self.pending().len() && self.pending()[k] == x;
                if k > 0 {
                    assert(old(self).pending()[k - 1] == x);
                }
            }
        }
    }

    /// Empties the queue and moves both positions to the first slot; the
    /// slots keep what they hold.
    pub fn reset(&mut self)
        requires
            old(self).wf(),
        ensures
            final(self).wf(),
            final(self).synced(),
            final(self)@ == Seq::<T>::empty(),
            final(self).pending() == Seq::<T>::empty(),
            final(self).capacity() == old(self).capacity(),
    {
        self.item_in_queue = 0;
        self.read_pos = 0;
        self.write_pos = 0;
        proof {
            self.span@ = 0;
        }
        assert(self@ =~= Seq::<T>::empty());
        assert(self.pending() =~= Seq::<T>::empty());
    }
}

impl<T: Clone> FifoQueue<T> {
    /// Reads the item at the front, a clone of it, and moves past it. The
    /// queue must not be empty.
    pub fn pop_fifo(&mut self) -> (item: T)
        requires
            old(self).wf(),
            old(self)@.len() > 0,
        ensures
            final(self).wf(),
            cloned(old(self)@[0], item),
            final(self)@ == old(self)@.drop_first(),
            final(self).synced() == old(self).synced(),
            final(self).capacity() == old(self).capacity(),
            forall|x: T| #[trigger] final(self).pending().contains(x) ==> old(self).pending().contains(x),
    {
        let r = self.read_pos;
        proof {
            assert(self.slots@[ring_index(r as int, 0, self.slots@.len() as int)] is Some);
        }
        let item = self.slots[r].as_ref().unwrap().clone();
        self.advance();
        item
    }
}

/// The first `NAME_MAX` bytes of `char_ptr`, as an object name.
pub fn char_ptr_to_array(char_ptr: &[u8]) -> (name: Vec<u8>)
    requires
        char_ptr@.len() >= crate::object::NAME_MAX,
    ensures
        name@ == char_ptr@.subrange(0, crate::object::NAME_MAX as int),
{
    let mut name: Vec<u8> = Vec::new();
    let mut i: usize = 0;
    while i < crate::object::NAME_MAX
        invariant
            i <= crate::object::NAME_MAX,
            char_ptr@.len() >= crate::object::NAME_MAX,
            name@ == char_ptr@.subrange(0, i as int),
        decreases crate::object::NAME_MAX - i,
    {
        name.push(char_ptr[i]);
        i = i + 1;
        assert(name@ =~= char_ptr@.subrange(0, i as int));
    }
    name
}

} // verus!
