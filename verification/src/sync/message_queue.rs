use vstd::prelude::*;
use crate::error::code;
use crate::thread::{ThreadState, SuspendFlag};
use crate::sync::ipc_common::{has_waiter, remove_tid, RtSysQueue, RtWaitQueue, Waiter, IpcStep, IPC_SYS_QUEUE_FIFO,
    IPC_SYS_QUEUE_PRIO, IPC_WAIT_MODE_FIFO, IPC_WAIT_MODE_PRIO, IPC_ALIGN_SIZE, wait_ok,
    state_after_wait, queued, first_tid, after_wake, all_tids, align_up_spec, align_up_size,
    prio_header_size, storage_size, IPC_ENTRY_MAX};

verus! {

/// A clone of a message holds the same bytes.
proof fn lemma_cloned_bytes(a: Vec<u8>, b: Vec<u8>)
    requires
        cloned(a, b),
    ensures
        b@ == a@,
{
    if a != b {
        assert(b.len() == a.len());
        assert forall|i: int| 0 <= i < a.len() implies b@[i] == a@[i] by {
            assert(cloned::<u8>(a[i], b[i]));
        }
        assert(a@ =~= b@);
    }
}

/// How many messages of `item_size` bytes a buffer of `buffer_size` bytes
/// holds in storing mode `mode`: in the ring each takes its size, by
/// priority its aligned size and a header.
pub open spec fn buffer_count(item_size: int, buffer_size: int, mode: u8) -> int {
    if mode == IPC_SYS_QUEUE_FIFO {
        buffer_size / item_size
    } else {
        buffer_size / (align_up_spec(item_size, IPC_ALIGN_SIZE as int) + prio_header_size())
    }
}

/// A message queue: a bounded queue of messages of a fixed size, kept in a
/// ring first in first out (in either storing mode: the priority mode only
/// sizes the storage differently), with the threads waiting to send (when
/// it is full) and to receive (when it is empty).
pub struct MessageQueue {
    msg_size: usize,
    working_mode: u8,
    inner_queue: RtSysQueue<Vec<u8>>,
}

impl MessageQueue {
    /// The messages held, the next to be received first.
    pub closed spec fn items(&self) -> Seq<Vec<u8>> {
        self.inner_queue.fifo_view()
    }

    /// How many messages the queue holds at most.
    pub closed spec fn capacity(&self) -> usize {
        self.inner_queue.max_spec()
    }

    /// Whether storage for the messages was set up.
    pub closed spec fn has_storage(&self) -> bool {
        self.inner_queue.fifo_capacity() > 0
    }

    /// The size of a message in bytes.
    pub closed spec fn msg_size_spec(&self) -> usize {
        self.msg_size
    }

    /// The threads waiting to send, the next to be woken first.
    pub closed spec fn senders(&self) -> Seq<Waiter> {
        self.inner_queue.enqueue_spec()@
    }

    /// The threads waiting to receive, the next to be woken first.
    pub closed spec fn receivers(&self) -> Seq<Waiter> {
        self.inner_queue.dequeue_spec()@
    }

    /// How the waiting senders are ordered.
    pub closed spec fn send_mode(&self) -> u32 {
        self.inner_queue.enqueue_spec().mode()
    }

    /// How the waiting receivers are ordered.
    pub closed spec fn receive_mode(&self) -> u32 {
        self.inner_queue.dequeue_spec().mode()
    }

    /// The queue is well formed, holds no more than its capacity, and
    /// every message written to it has the message size.
    pub closed spec fn wf(&self) -> bool {
        &&& self.inner_queue.wf()
        &&& self.inner_queue.mode_spec() == IPC_SYS_QUEUE_FIFO
        &&& self.inner_queue.fifo_view().len() <= self.inner_queue.max_spec()
        &&& forall|i: int| 0 <= i < self.inner_queue.fifo_view().len()
            ==> (#[trigger] self.inner_queue.fifo_view()[i])@.len() == self.msg_size
        &&& forall|m: Vec<u8>| #[trigger] self.inner_queue.fifo_pending().contains(m) ==> m@.len() == self.msg_size
    }

    /// Whether the next message sent goes right after the messages held.
    /// It stops being so once a message is sent at the entry limit: that
    /// message is written after the others but not counted, and the next
    /// one is written after it.
    pub closed spec fn in_order(&self) -> bool {
        self.inner_queue.fifo_synced()
    }

    /// The first `n` messages from the front once `data` is written at the
    /// place the next message sent goes to.
    pub closed spec fn items_after_write(&self, data: Vec<u8>, n: nat) -> Seq<Vec<u8>> {
        self.inner_queue.fifo_written(data, n)
    }

    /// While the queue is in order, a message sent that is counted joins
    /// the back, and one that is not counted leaves the messages as they
    /// are.
    pub proof fn lemma_in_order_write(&self, data: Vec<u8>)
        requires
            self.wf(),
            self.in_order(),
            self.has_storage(),
            self.items().len() < self.capacity(),
        ensures
            self.items_after_write(data, (self.items().len() + 1) as nat) == self.items().push(data),
            self.items_after_write(data, self.items().len()) == self.items(),
    {
        self.inner_queue.lemma_fifo_bounded();
        self.inner_queue.lemma_fifo_synced_write(data);
    }

    /// An empty queue for `max_msgs` messages of `msg_size` bytes, in
    /// storing mode `working_mode`; storage is set up for either storing
    /// mode when both sizes are above 0. Waiting threads are ordered by
    /// `waiting_mode`, FIFO or by priority.
    pub fn new(msg_size: u16, max_msgs: u16, working_mode: u8, waiting_mode: u8) -> (q: Self)
        requires
            waiting_mode == IPC_WAIT_MODE_FIFO || waiting_mode == IPC_WAIT_MODE_PRIO,
        ensures
            q.wf(),
            q.items() == Seq::<Vec<u8>>::empty(),
            q.in_order(),
            q.capacity() == max_msgs,
            q.msg_size_spec() == msg_size,
            q.has_storage() <==> (msg_size > 0 && max_msgs > 0
                && (working_mode == IPC_SYS_QUEUE_FIFO || working_mode == IPC_SYS_QUEUE_PRIO)),
            q.senders() == Seq::<Waiter>::empty(),
            q.receivers() == Seq::<Waiter>::empty(),
            q.send_mode() == waiting_mode && q.receive_mode() == waiting_mode,
    {
        let ring_size: usize = if working_mode == IPC_SYS_QUEUE_FIFO as u8 || working_mode == IPC_SYS_QUEUE_PRIO as u8 {
            msg_size as usize
        } else {
            0
        };
        let m: usize = max_msgs as usize;
        assert(ring_size * m <= 65535 * 65535) by (nonlinear_arith)
            requires ring_size <= 65535, m <= 65535;
        assert(ring_size > 0 && m > 0 ==> ring_size * m > 0) by (nonlinear_arith);
        MessageQueue {
            msg_size: msg_size as usize,
            working_mode,
            inner_queue: RtSysQueue::new(ring_size, m, IPC_SYS_QUEUE_FIFO, waiting_mode as u32),
        }
    }

    /// Sets the queue up afresh for messages of `item_size` bytes in a
    /// buffer of `buffer_size` bytes, as many as it holds in storing mode
    /// `working_mode` (see `buffer_count`). Fails with `EINVAL`, changing
    /// nothing, when a size is 0, the mode is neither FIFO nor by priority,
    /// or the buffer holds no message; `EOK` otherwise.
    pub fn init(&mut self, item_size: usize, buffer_size: usize, working_mode: u8, waiting_mode: u8) -> (r: i32)
        requires
            waiting_mode == IPC_WAIT_MODE_FIFO || waiting_mode == IPC_WAIT_MODE_PRIO,
            working_mode == IPC_SYS_QUEUE_PRIO ==> item_size + IPC_ALIGN_SIZE + prio_header_size() <= usize::MAX,
        ensures
            r == code::EOK || r == code::EINVAL,
            r == code::EINVAL <==> (item_size == 0 || buffer_size == 0
                || !(working_mode == IPC_SYS_QUEUE_FIFO || working_mode == IPC_SYS_QUEUE_PRIO)
                || buffer_count(item_size as int, buffer_size as int, working_mode) == 0),
            r == code::EINVAL ==> *final(self) == *old(self),
            r == code::EOK ==> {
                &&& final(self).wf()
                &&& final(self).items() == Seq::<Vec<u8>>::empty()
                &&& final(self).in_order()
                &&& final(self).capacity() == buffer_count(item_size as int, buffer_size as int, working_mode)
                &&& final(self).has_storage()
                &&& final(self).msg_size_spec() == item_size
                &&& final(self).senders() == Seq::<Waiter>::empty()
                &&& final(self).receivers() == Seq::<Waiter>::empty()
                &&& final(self).send_mode() == waiting_mode && final(self).receive_mode() == waiting_mode
            },
    {
        if item_size == 0 || buffer_size == 0 {
            return code::EINVAL;
        }
        let max_count: usize;
        let ghost per: int;
        if working_mode == IPC_SYS_QUEUE_FIFO as u8 {
            max_count = buffer_size / item_size;
            proof { per = item_size as int; }
        } else if working_mode == IPC_SYS_QUEUE_PRIO as u8 {
            let aligned = align_up_size(item_size, IPC_ALIGN_SIZE);
            let header = 3 * core::mem::size_of::<usize>();
            proof {
                broadcast use vstd::layout::layout_of_primitives;
                assert(header == prio_header_size());
                per = aligned + header;
            }
            max_count = buffer_size / (aligned + header);
        } else {
            return code::EINVAL;
        }
        if max_count == 0 {
            return code::EINVAL;
        }
        assert(item_size * max_count <= buffer_size) by (nonlinear_arith)
            requires 0 < item_size <= per, max_count == (buffer_size as int) / per;
        assert(item_size * max_count > 0) by (nonlinear_arith)
            requires item_size > 0, max_count > 0;
        self.msg_size = item_size;
        self.working_mode = working_mode;
        self.inner_queue.init(item_size, max_count, IPC_SYS_QUEUE_FIFO, waiting_mode as u32);
        code::EOK
    }

    /// The queue holds no more messages than its capacity.
    pub proof fn lemma_bounded(&self)
        requires
            self.wf(),
        ensures
            self.items().len() <= self.capacity(),
    {
        self.lemma_count();
    }

    proof fn lemma_count(&self)
        requires
            self.wf(),
        ensures
            self.items().len() <= self.capacity(),
            self.inner_queue.count_spec() == self.items().len(),
    {
        self.inner_queue.lemma_fifo_bounded();
    }

    /// Every message held was written to the queue, so it has the message
    /// size when every message written has it.
    proof fn lemma_pending_sizes(&self)
        requires
            self.inner_queue.wf(),
            forall|m: Vec<u8>| #[trigger] self.inner_queue.fifo_pending().contains(m) ==> m@.len() == self.msg_size,
        ensures
            forall|i: int| 0 <= i < self.inner_queue.fifo_view().len()
                ==> (#[trigger] self.inner_queue.fifo_view()[i])@.len() == self.msg_size,
    {
        self.inner_queue.lemma_fifo_items_pending();
        assert forall|i: int| 0 <= i < self.inner_queue.fifo_view().len()
            implies (#[trigger] self.inner_queue.fifo_view()[i])@.len() == self.msg_size by {
            assert(self.inner_queue.fifo_pending().contains(self.inner_queue.fifo_view()[i]));
        }
    }

    /// The size of a message in bytes.
    pub fn msg_size(&self) -> (r: usize)
        ensures
            r == self.msg_size_spec(),
    {
        self.msg_size
    }

    /// Whether the queue holds as many messages as it can.
    pub fn is_full(&self) -> (b: bool)
        requires
            self.wf(),
        ensures
            b <==> self.items().len() == self.capacity(),
    {
        proof {
            self.inner_queue.lemma_fifo_count();
        }
        self.inner_queue.is_full()
    }

    /// Whether the queue holds no message.
    pub fn is_empty(&self) -> (b: bool)
        requires
            self.wf(),
        ensures
            b <==> self.items().len() == 0,
    {
        proof {
            self.inner_queue.lemma_fifo_count();
        }
        self.inner_queue.is_empty()
    }

    /// Takes every waiting thread off the queue, receivers first, and
    /// returns them in order; the caller resumes each with an error. The
    /// messages stay.
    pub fn detach(&mut self) -> (woken: Vec<usize>)
        requires
            old(self).wf(),
        ensures
            final(self).wf(),
            woken@ == all_tids(old(self).receivers()) + all_tids(old(self).senders()),
            final(self).senders() == Seq::<Waiter>::empty(),
            final(self).receivers() == Seq::<Waiter>::empty(),
            final(self).items() == old(self).items(),
            final(self).capacity() == old(self).capacity(),
            final(self).has_storage() == old(self).has_storage(),
            final(self).msg_size_spec() == old(self).msg_size_spec(),
            final(self).send_mode() == old(self).send_mode(),
            final(self).receive_mode() == old(self).receive_mode(),
    {
        let mut woken = self.inner_queue.dequeue_waiter_mut().wake_all();
        let mut more = self.inner_queue.enqueue_waiter_mut().wake_all();
        woken.append(&mut more);
        woken
    }

    /// One step of sending the message `data`, for the thread `me` in
    /// state `stat`. A message longer than the message size fails with
    /// `ERROR`. With room, the message is written where the next message
    /// goes and counted (while the queue is in order it joins the back; see
    /// `in_order`), and the first waiting receiver, if any, is to be
    /// resumed. With no storage set up the message is dropped; at the count
    /// `IPC_ENTRY_MAX` it is written but not counted, and the queue is no
    /// longer in order. When the
    /// queue is full: with a timeout of 0 the send fails with `ENOSPC`;
    /// with another the thread is suspended with `suspend_flag` and queued
    /// as a sender (`Blocked`; it steps again once woken), or the send
    /// fails with `ERROR` when the thread can be neither. The message must
    /// not be empty, and must have the message size when it is stored.
    pub fn send_step(&mut self, data: Vec<u8>, timeout: i32, stat: &mut ThreadState, me: Waiter,
        suspend_flag: SuspendFlag) -> (r: IpcStep<()>)
        requires
            old(self).wf(),
            data@.len() != 0,
            data@.len() <= old(self).msg_size_spec() && old(self).items().len() < old(self).capacity()
                ==> data@.len() == old(self).msg_size_spec(),
        ensures
            final(self).wf(),
            final(self).capacity() == old(self).capacity(),
            final(self).has_storage() == old(self).has_storage(),
            final(self).msg_size_spec() == old(self).msg_size_spec(),
            final(self).send_mode() == old(self).send_mode(),
            final(self).receive_mode() == old(self).receive_mode(),
            data@.len() > old(self).msg_size_spec() ==> r == IpcStep::<()>::Failed(code::ERROR)
                && *final(self) == *old(self) && *final(stat) == *old(stat),
            data@.len() <= old(self).msg_size_spec() && old(self).items().len() < old(self).capacity() ==> {
                &&& r == IpcStep::<()>::Done { value: (), wake: first_tid(old(self).receivers()) }
                &&& !old(self).has_storage() ==> final(self).items() == old(self).items()
                    && final(self).in_order() == old(self).in_order()
                &&& old(self).has_storage() && old(self).items().len() < IPC_ENTRY_MAX ==> final(self).items()
                    == old(self).items_after_write(data, (old(self).items().len() + 1) as nat)
                    && final(self).in_order() == old(self).in_order()
                    && (old(self).in_order() ==> final(self).items() == old(self).items().push(data))
                &&& old(self).has_storage() && old(self).items().len() >= IPC_ENTRY_MAX ==> final(self).items()
                    == old(self).items_after_write(data, old(self).items().len())
                    && !final(self).in_order()
                    && (old(self).in_order() ==> final(self).items() == old(self).items())
                &&& final(self).receivers() == after_wake(old(self).receivers())
                &&& final(self).senders() == old(self).senders()
                &&& *final(stat) == *old(stat)
            },
            data@.len() <= old(self).msg_size_spec() && old(self).items().len() == old(self).capacity()
                && timeout == 0 ==> {
                &&& r == IpcStep::<()>::Failed(code::ENOSPC)
                &&& *final(self) == *old(self)
                &&& *final(stat) == *old(stat)
            },
            data@.len() <= old(self).msg_size_spec() && old(self).items().len() == old(self).capacity()
                && timeout != 0 ==> {
                &&& final(self).items() == old(self).items()
                &&& final(self).receivers() == old(self).receivers()
                &&& !wait_ok(old(stat).0) ==> r == IpcStep::<()>::Failed(code::ERROR)
                    && final(self).senders() == old(self).senders() && *final(stat) == *old(stat)
                &&& wait_ok(old(stat).0) ==> r == IpcStep::<()>::Blocked
                    && final(self).senders() == queued(old(self).senders(), old(self).send_mode(), me)
                    && final(stat).0 == state_after_wait(old(stat).0, suspend_flag)
            },
    {
        proof {
            self.lemma_count();
        }
        if data.len() > self.msg_size {
            return IpcStep::Failed(code::ERROR);
        }
        if self.inner_queue.is_full() {
            if timeout == 0 {
                return IpcStep::Failed(code::ENOSPC);
            }
            let ret = self.inner_queue.enqueue_waiter_mut().wait(stat, me, suspend_flag);
            if ret != code::EOK {
                return IpcStep::Failed(ret);
            }
            return IpcStep::Blocked;
        }
        let ghost d = data;
        proof {
            if self.in_order() && self.has_storage() {
                self.lemma_in_order_write(data);
            }
        }
        let ok = self.inner_queue.push_fifo(data);
        proof {
            self.lemma_pending_sizes();
        }
        let wake = self.inner_queue.dequeue_waiter_mut().wake();
        IpcStep::Done { value: (), wake }
    }

    /// Puts the message `data` at the front, to be received next: `EOK`,
    /// or `ERROR` when no storage was set up; a message longer than the
    /// message size fails with `ERROR`. No waiting receiver is woken. The
    /// message must not be empty, must have the message size when it is
    /// not longer, and the queue must not be full.
    pub fn urgent(&mut self, data: Vec<u8>) -> (r: i32)
        requires
            old(self).wf(),
            data@.len() != 0,
            data@.len() <= old(self).msg_size_spec() ==> data@.len() == old(self).msg_size_spec()
                && old(self).items().len() < old(self).capacity(),
        ensures
            final(self).wf(),
            final(self).capacity() == old(self).capacity(),
            final(self).has_storage() == old(self).has_storage(),
            final(self).msg_size_spec() == old(self).msg_size_spec(),
            final(self).senders() == old(self).senders(),
            final(self).receivers() == old(self).receivers(),
            final(self).send_mode() == old(self).send_mode(),
            final(self).receive_mode() == old(self).receive_mode(),
            data@.len() > old(self).msg_size_spec() ==> r == code::ERROR && *final(self) == *old(self),
            data@.len() <= old(self).msg_size_spec() && old(self).has_storage() ==> r == code::EOK
                && final(self).items() == seq![data] + old(self).items()
                && final(self).in_order() == old(self).in_order(),
            data@.len() <= old(self).msg_size_spec() && !old(self).has_storage() ==> r == code::ERROR
                && *final(self) == *old(self),
    {
        proof {
            self.lemma_count();
        }
        if data.len() > self.msg_size {
            return code::ERROR;
        }
        let ghost d = data;
        let ghost before = self.items();
        if self.inner_queue.urgent_fifo(data) {
            proof {
                self.lemma_pending_sizes();
            }
            code::EOK
        } else {
            code::ERROR
        }
    }

    /// One step of receiving a message into a buffer of `size` bytes, for
    /// the thread `me` in state `stat`. The message at the front is taken
    /// when there is one (the call then gives `size`), and the first
    /// waiting sender, if any, is to be resumed. When the queue is empty:
    /// with a timeout of 0 the receive fails with `ETIMEDOUT`; with another
    /// the thread is suspended with `suspend_flag` and queued as a receiver
    /// (`Blocked`; it steps again once woken), or the receive fails with
    /// `ERROR` when the thread can be neither. `size` must not be 0, and
    /// must be the message size when a message is taken.
    pub fn receive_step(&mut self, size: usize, timeout: i32, stat: &mut ThreadState, me: Waiter,
        suspend_flag: SuspendFlag) -> (r: IpcStep<Vec<u8>>)
        requires
            old(self).wf(),
            size != 0,
            old(self).items().len() > 0 ==> size == old(self).msg_size_spec(),
        ensures
            final(self).wf(),
            final(self).capacity() == old(self).capacity(),
            final(self).has_storage() == old(self).has_storage(),
            final(self).msg_size_spec() == old(self).msg_size_spec(),
            final(self).send_mode() == old(self).send_mode(),
            final(self).receive_mode() == old(self).receive_mode(),
            old(self).items().len() > 0 ==> {
                &&& r matches IpcStep::<Vec<u8>>::Done { value, wake }
                    && value@ == old(self).items()[0]@ && wake == first_tid(old(self).senders())
                &&& final(self).items() == old(self).items().drop_first()
                &&& final(self).in_order() == old(self).in_order()
                &&& final(self).senders() == after_wake(old(self).senders())
                &&& final(self).receivers() == old(self).receivers()
                &&& *final(stat) == *old(stat)
            },
            old(self).items().len() == 0 && timeout == 0 ==> {
                &&& r == IpcStep::<Vec<u8>>::Failed(code::ETIMEDOUT)
                &&& *final(self) == *old(self)
                &&& *final(stat) == *old(stat)
            },
            old(self).items().len() == 0 && timeout != 0 ==> {
                &&& final(self).items() == old(self).items()
                &&& final(self).senders() == old(self).senders()
                &&& !wait_ok(old(stat).0) ==> r == IpcStep::<Vec<u8>>::Failed(code::ERROR)
                    && final(self).receivers() == old(self).receivers() && *final(stat) == *old(stat)
                &&& wait_ok(old(stat).0) ==> r == IpcStep::<Vec<u8>>::Blocked
                    && final(self).receivers() == queued(old(self).receivers(), old(self).receive_mode(), me)
                    && final(stat).0 == state_after_wait(old(stat).0, suspend_flag)
            },
    {
        proof {
            self.lemma_count();
        }
        if self.inner_queue.is_empty() {
            if timeout == 0 {
                return IpcStep::Failed(code::ETIMEDOUT);
            }
            let ret = self.inner_queue.dequeue_waiter_mut().wait(stat, me, suspend_flag);
            if ret != code::EOK {
                return IpcStep::Failed(ret);
            }
            return IpcStep::Blocked;
        }
        let ghost before = self.items();
        let value = self.inner_queue.pop_fifo();
        proof {
            lemma_cloned_bytes(before[0], value);
            self.lemma_pending_sizes();
        }
        let wake = self.inner_queue.enqueue_waiter_mut().wake();
        IpcStep::Done { value, wake }
    }

    /// Wakes every waiting thread (receivers first; returned in order,
    /// each to be resumed with an error) and drops every message. The
    /// result code is `EOK`.
    pub fn reset(&mut self) -> (woken: Vec<usize>)
        requires
            old(self).wf(),
        ensures
            final(self).wf(),
            woken@ == all_tids(old(self).receivers()) + all_tids(old(self).senders()),
            final(self).items() == Seq::<Vec<u8>>::empty(),
            final(self).in_order(),
            final(self).senders() == Seq::<Waiter>::empty(),
            final(self).receivers() == Seq::<Waiter>::empty(),
            final(self).capacity() == old(self).capacity(),
            final(self).has_storage() == old(self).has_storage(),
            final(self).msg_size_spec() == old(self).msg_size_spec(),
            final(self).send_mode() == old(self).send_mode(),
            final(self).receive_mode() == old(self).receive_mode(),
    {
        let woken = self.detach();
        self.inner_queue.clear_items();
        woken
    }

    /// Takes the thread `tid` off the waiting receivers and senders, as
    /// when its wait times out; says whether it was waiting.
    pub fn cancel_wait(&mut self, tid: usize) -> (b: bool)
        requires
            old(self).wf(),
        ensures
            final(self).wf(),
            b <==> has_waiter(old(self).receivers(), tid) || has_waiter(old(self).senders(), tid),
            final(self).receivers() == remove_tid(old(self).receivers(), tid),
            final(self).senders() == remove_tid(old(self).senders(), tid),
            final(self).items() == old(self).items(),
            final(self).capacity() == old(self).capacity(),
            final(self).has_storage() == old(self).has_storage(),
            final(self).msg_size_spec() == old(self).msg_size_spec(),
            final(self).send_mode() == old(self).send_mode(),
            final(self).receive_mode() == old(self).receive_mode(),
    {
        let ghost ss = self.senders();
        let a = self.inner_queue.dequeue_waiter_mut().cancel(tid);
        assert(self.senders() == ss);
        let b = self.inner_queue.enqueue_waiter_mut().cancel(tid);
        a || b
    }
}

} // verus!
