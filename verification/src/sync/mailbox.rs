use vstd::prelude::*;
use crate::error::code;
use crate::thread::{ThreadState, SuspendFlag};
use crate::sync::ipc_common::{has_waiter, remove_tid, RtSysQueue, RtWaitQueue, Waiter, IpcStep, IPC_SYS_QUEUE_FIFO,
    IPC_WAIT_MODE_FIFO, IPC_WAIT_MODE_PRIO, IPC_ENTRY_MAX, IPC_CMD_RESET, wait_ok, state_after_wait,
    queued, first_tid, after_wake, all_tids, storage_size, prio_header_size};

verus! {

/// A mailbox: a bounded queue of word-sized values, first in first out,
/// with the threads waiting to send (when it is full) and to receive
/// (when it is empty).
pub struct Mailbox {
    inner_queue: RtSysQueue<usize>,
}

/// The bytes of a word.
pub open spec fn word_bytes() -> int {
    (usize::BITS / 8) as int
}

impl Mailbox {
    /// The values held, the next to be received first.
    pub closed spec fn items(&self) -> Seq<usize> {
        self.inner_queue.fifo_view()
    }

    /// How many values the mailbox holds at most.
    pub closed spec fn capacity(&self) -> usize {
        self.inner_queue.max_spec()
    }

    /// The threads waiting to send, the next to be woken first.
    pub closed spec fn senders(&self) -> Seq<Waiter> {
        self.inner_queue.enqueue_spec()@
    }

    /// The threads waiting to receive, the next to be woken first.
    pub closed spec fn receivers(&self) -> Seq<Waiter> {
        self.inner_queue.dequeue_spec()@
    }

    /// How the waiting senders are ordered.
    pub closed spec fn send_mode(&self) -> u32 {
        self.inner_queue.enqueue_spec().mode()
    }

    /// How the waiting receivers are ordered.
    pub closed spec fn receive_mode(&self) -> u32 {
        self.inner_queue.dequeue_spec().mode()
    }

    /// Whether the next value sent goes right after the values held. It
    /// stops being so once a value is sent at the entry limit: that value
    /// is written after the values but not counted, and the next one is
    /// written after it.
    pub closed spec fn in_order(&self) -> bool {
        self.inner_queue.fifo_synced()
    }

    /// The first `n` values from the front once `value` is written at the
    /// place the next value sent goes to.
    pub closed spec fn items_after_write(&self, value: usize, n: nat) -> Seq<usize> {
        self.inner_queue.fifo_written(value, n)
    }

    /// While the mailbox is in order, a value sent that is counted joins
    /// the back, and one that is not counted leaves the values as they are.
    pub proof fn lemma_in_order_write(&self, value: usize)
        requires
            self.wf(),
            self.in_order(),
            self.items().len() < self.capacity(),
        ensures
            self.items_after_write(value, (self.items().len() + 1) as nat) == self.items().push(value),
            self.items_after_write(value, self.items().len()) == self.items(),
    {
        self.inner_queue.lemma_fifo_synced_write(value);
    }

    /// The mailbox holds no more values than its capacity.
    pub proof fn lemma_bounded(&self)
        requires
            self.wf(),
        ensures
            self.items().len() <= self.capacity(),
    {
        self.inner_queue.lemma_fifo_bounded();
    }

    pub closed spec fn wf(&self) -> bool {
        &&& self.inner_queue.wf()
        &&& self.inner_queue.mode_spec() == IPC_SYS_QUEUE_FIFO
        &&& self.inner_queue.fifo_capacity() == self.inner_queue.max_spec()
        &&& self.inner_queue.fifo_view().len() == self.inner_queue.count_spec()
    }

    /// An empty mailbox for `size` values; waiting threads are ordered by
    /// `flag`, FIFO or by priority.
    pub fn new(size: usize, flag: u8) -> (m: Self)
        requires
            flag == IPC_WAIT_MODE_FIFO || flag == IPC_WAIT_MODE_PRIO,
            word_bytes() * size <= usize::MAX,
        ensures
            m.wf(),
            m.items() == Seq::<usize>::empty(),
            m.in_order(),
            m.capacity() == size,
            m.senders() == Seq::<Waiter>::empty(),
            m.receivers() == Seq::<Waiter>::empty(),
            m.send_mode() == flag && m.receive_mode() == flag,
    {
        let word = core::mem::size_of::<usize>();
        proof {
            broadcast use vstd::layout::layout_of_primitives;
            assert(word == word_bytes());
            assert(size > 0 ==> word * size > 0) by (nonlinear_arith)
                requires word > 0;
        }
        Mailbox { inner_queue: RtSysQueue::new(word, size, IPC_SYS_QUEUE_FIFO, flag as u32) }
    }

    /// Sets the mailbox up afresh, as `new` does.
    pub fn init(&mut self, size: usize, flag: u8)
        requires
            flag == IPC_WAIT_MODE_FIFO || flag == IPC_WAIT_MODE_PRIO,
            word_bytes() * size <= usize::MAX,
        ensures
            final(self).wf(),
            final(self).items() == Seq::<usize>::empty(),
            final(self).in_order(),
            final(self).capacity() == size,
            final(self).senders() == Seq::<Waiter>::empty(),
            final(self).receivers() == Seq::<Waiter>::empty(),
            final(self).send_mode() == flag && final(self).receive_mode() == flag,
    {
        let word = core::mem::size_of::<usize>();
        proof {
            broadcast use vstd::layout::layout_of_primitives;
            assert(word == word_bytes());
            assert(size > 0 ==> word * size > 0) by (nonlinear_arith)
                requires word > 0;
        }
        self.inner_queue.init(word, size, IPC_SYS_QUEUE_FIFO, flag as u32);
    }

    /// Takes every waiting thread off the mailbox, receivers first, and
    /// returns them in order; the caller resumes each with an error. The
    /// values stay.
    pub fn detach(&mut self) -> (woken: Vec<usize>)
        requires
            old(self).wf(),
        ensures
            final(self).wf(),
            woken@ == all_tids(old(self).receivers()) + all_tids(old(self).senders()),
            final(self).senders() == Seq::<Waiter>::empty(),
            final(self).receivers() == Seq::<Waiter>::empty(),
            final(self).items() == old(self).items(),
            final(self).capacity() == old(self).capacity(),
            final(self).send_mode() == old(self).send_mode(),
            final(self).receive_mode() == old(self).receive_mode(),
    {
        let mut woken = self.inner_queue.dequeue_waiter_mut().wake_all();
        let mut more = self.inner_queue.enqueue_waiter_mut().wake_all();
        woken.append(&mut more);
        woken
    }

    /// One step of sending `value`, for the thread `me` in state `stat`.
    /// With room, the value joins the back and the first waiting receiver,
    /// if any, is to be resumed (while the mailbox is in order the value
    /// joins the back; see `in_order`). At the count `IPC_ENTRY_MAX` the
    /// value is written but not counted, the mailbox is no longer in order,
    /// and the send fails with `ENOSPC`. When the mailbox is full: with a
    /// timeout of 0 the send fails with `ENOSPC`; with another the thread
    /// is suspended with `suspend_flag` and queued as a sender
    /// (`Blocked`; it steps again once woken), or the send fails with
    /// `ERROR` when the thread can be neither.
    pub fn send_step(&mut self, value: usize, timeout: i32, stat: &mut ThreadState, me: Waiter,
        suspend_flag: SuspendFlag) -> (r: IpcStep<()>)
        requires
            old(self).wf(),
        ensures
            final(self).wf(),
            final(self).capacity() == old(self).capacity(),
            final(self).send_mode() == old(self).send_mode(),
            final(self).receive_mode() == old(self).receive_mode(),
            old(self).items().len() < old(self).capacity() && old(self).items().len() < IPC_ENTRY_MAX ==> {
                &&& r == IpcStep::<()>::Done { value: (), wake: first_tid(old(self).receivers()) }
                &&& final(self).items() == old(self).items_after_write(value, (old(self).items().len() + 1) as nat)
                &&& old(self).in_order() ==> final(self).items() == old(self).items().push(value)
                &&& final(self).in_order() == old(self).in_order()
                &&& final(self).receivers() == after_wake(old(self).receivers())
                &&& final(self).senders() == old(self).senders()
                &&& *final(stat) == *old(stat)
            },
            old(self).items().len() < old(self).capacity() && old(self).items().len() >= IPC_ENTRY_MAX ==> {
                &&& r == IpcStep::<()>::Failed(code::ENOSPC)
                &&& final(self).items() == old(self).items_after_write(value, old(self).items().len())
                &&& old(self).in_order() ==> final(self).items() == old(self).items()
                &&& !final(self).in_order()
                &&& final(self).receivers() == old(self).receivers()
                &&& final(self).senders() == old(self).senders()
                &&& *final(stat) == *old(stat)
            },
            old(self).items().len() == old(self).capacity() && timeout == 0 ==> {
                &&& r == IpcStep::<()>::Failed(code::ENOSPC)
                &&& *final(self) == *old(self)
                &&& *final(stat) == *old(stat)
            },
            old(self).items().len() == old(self).capacity() && timeout != 0 ==> {
                &&& final(self).items() == old(self).items()
                &&& final(self).receivers() == old(self).receivers()
                &&& !wait_ok(old(stat).0) ==> r == IpcStep::<()>::Failed(code::ERROR)
                    && final(self).senders() == old(self).senders() && *final(stat) == *old(stat)
                &&& wait_ok(old(stat).0) ==> r == IpcStep::<()>::Blocked
                    && final(self).senders() == queued(old(self).senders(), old(self).send_mode(), me)
                    && final(stat).0 == state_after_wait(old(stat).0, suspend_flag)
            },
    {
        proof {
            self.lemma_bounded();
        }
        if self.inner_queue.is_full() {
            if timeout == 0 {
                return IpcStep::Failed(code::ENOSPC);
            }
            let ret = self.inner_queue.enqueue_waiter_mut().wait(stat, me, suspend_flag);
            if ret != code::EOK {
                return IpcStep::Failed(ret);
            }
            return IpcStep::Blocked;
        }
        proof {
            if self.in_order() {
                self.lemma_in_order_write(value);
            }
        }
        if !self.inner_queue.push_fifo(value) {
            return IpcStep::Failed(code::ENOSPC);
        }
        let wake = self.inner_queue.dequeue_waiter_mut().wake();
        IpcStep::Done { value: (), wake }
    }

    /// Sends `value` without waiting: as `send_step` with a timeout of 0.
    pub fn send(&mut self, value: usize) -> (r: IpcStep<()>)
        requires
            old(self).wf(),
        ensures
            final(self).wf(),
            final(self).capacity() == old(self).capacity(),
            final(self).senders() == old(self).senders(),
            old(self).items().len() < old(self).capacity() && old(self).items().len() < IPC_ENTRY_MAX ==> {
                &&& r == IpcStep::<()>::Done { value: (), wake: first_tid(old(self).receivers()) }
                &&& final(self).items() == old(self).items_after_write(value, (old(self).items().len() + 1) as nat)
                &&& old(self).in_order() ==> final(self).items() == old(self).items().push(value)
                &&& final(self).in_order() == old(self).in_order()
                &&& final(self).receivers() == after_wake(old(self).receivers())
            },
            old(self).items().len() < old(self).capacity() && old(self).items().len() >= IPC_ENTRY_MAX ==> {
                &&& r == IpcStep::<()>::Failed(code::ENOSPC)
                &&& final(self).items() == old(self).items_after_write(value, old(self).items().len())
                &&& old(self).in_order() ==> final(self).items() == old(self).items()
                &&& !final(self).in_order()
                &&& final(self).receivers() == old(self).receivers()
            },
            old(self).items().len() >= old(self).capacity() ==> {
                &&& r == IpcStep::<()>::Failed(code::ENOSPC)
                &&& *final(self) == *old(self)
            },
    {
        proof {
            self.lemma_bounded();
        }
        let mut stat = ThreadState::new(0);
        self.send_step(value, 0, &mut stat, Waiter { tid: 0, prio: 0, event_set: 0, event_info: 0 }, SuspendFlag::Uninterruptible)
    }

    /// Puts `value` at the front, to be received next, and marks the first
    /// waiting receiver, if any, to be resumed; fails with `ENOSPC` when
    /// the mailbox is full.
    pub fn urgent(&mut self, value: usize) -> (r: IpcStep<()>)
        requires
            old(self).wf(),
        ensures
            final(self).wf(),
            final(self).capacity() == old(self).capacity(),
            final(self).senders() == old(self).senders(),
            old(self).items().len() < old(self).capacity() ==> {
                &&& r == IpcStep::<()>::Done { value: (), wake: first_tid(old(self).receivers()) }
                &&& final(self).items() == seq![value] + old(self).items()
                &&& final(self).in_order() == old(self).in_order()
                &&& final(self).receivers() == after_wake(old(self).receivers())
            },
            old(self).items().len() == old(self).capacity() ==> {
                &&& r == IpcStep::<()>::Failed(code::ENOSPC)
                &&& *final(self) == *old(self)
            },
    {
        proof {
            self.lemma_bounded();
        }
        if self.inner_queue.is_full() {
            return IpcStep::Failed(code::ENOSPC);
        }
        self.inner_queue.urgent_fifo(value);
        let wake = self.inner_queue.dequeue_waiter_mut().wake();
        IpcStep::Done { value: (), wake }
    }

    /// One step of receiving, for the thread `me` in state `stat`. A value
    /// is taken from the front when there is one, and the first waiting
    /// sender, if any, is to be resumed. When the mailbox is empty: with a
    /// timeout of 0 the receive fails with `ETIMEDOUT`; with another the
    /// thread is suspended with `suspend_flag` and queued as a receiver
    /// (`Blocked`; it steps again once woken), or the receive fails with
    /// `ERROR` when the thread can be neither.
    pub fn receive_step(&mut self, timeout: i32, stat: &mut ThreadState, me: Waiter,
        suspend_flag: SuspendFlag) -> (r: IpcStep<usize>)
        requires
            old(self).wf(),
        ensures
            final(self).wf(),
            final(self).capacity() == old(self).capacity(),
            final(self).send_mode() == old(self).send_mode(),
            final(self).receive_mode() == old(self).receive_mode(),
            old(self).items().len() > 0 ==> {
                &&& r == IpcStep::<usize>::Done { value: old(self).items()[0], wake: first_tid(old(self).senders()) }
                &&& final(self).items() == old(self).items().drop_first()
                &&& final(self).in_order() == old(self).in_order()
                &&& final(self).senders() == after_wake(old(self).senders())
                &&& final(self).receivers() == old(self).receivers()
                &&& *final(stat) == *old(stat)
            },
            old(self).items().len() == 0 && timeout == 0 ==> {
                &&& r == IpcStep::<usize>::Failed(code::ETIMEDOUT)
                &&& *final(self) == *old(self)
                &&& *final(stat) == *old(stat)
            },
            old(self).items().len() == 0 && timeout != 0 ==> {
                &&& final(self).items() == old(self).items()
                &&& final(self).senders() == old(self).senders()
                &&& !wait_ok(old(stat).0) ==> r == IpcStep::<usize>::Failed(code::ERROR)
                    && final(self).receivers() == old(self).receivers() && *final(stat) == *old(stat)
                &&& wait_ok(old(stat).0) ==> r == IpcStep::<usize>::Blocked
                    && final(self).receivers() == queued(old(self).receivers(), old(self).receive_mode(), me)
                    && final(stat).0 == state_after_wait(old(stat).0, suspend_flag)
            },
    {
        if self.inner_queue.is_empty() {
            if timeout == 0 {
                return IpcStep::Failed(code::ETIMEDOUT);
            }
            let ret = self.inner_queue.dequeue_waiter_mut().wait(stat, me, suspend_flag);
            if ret != code::EOK {
                return IpcStep::Failed(ret);
            }
            return IpcStep::Blocked;
        }
        let value = self.inner_queue.pop_fifo();
        let wake = self.inner_queue.enqueue_waiter_mut().wake();
        IpcStep::Done { value, wake }
    }

    /// Carries out a control command: `IPC_CMD_RESET` wakes every waiting
    /// thread (receivers first; returned in order, each to be resumed with
    /// an error) and empties the mailbox; other commands do nothing. The
    /// result code is `EOK` either way.
    pub fn control(&mut self, cmd: i32) -> (r: (i32, Vec<usize>))
        requires
            old(self).wf(),
        ensures
            final(self).wf(),
            r.0 == code::EOK,
            final(self).capacity() == old(self).capacity(),
            final(self).send_mode() == old(self).send_mode(),
            final(self).receive_mode() == old(self).receive_mode(),
            cmd == IPC_CMD_RESET ==> {
                &&& r.1@ == all_tids(old(self).receivers()) + all_tids(old(self).senders())
                &&& final(self).items() == Seq::<usize>::empty()
                &&& final(self).in_order()
                &&& final(self).senders() == Seq::<Waiter>::empty()
                &&& final(self).receivers() == Seq::<Waiter>::empty()
            },
            cmd != IPC_CMD_RESET ==> r.1@ == Seq::<usize>::empty() && *final(self) == *old(self),
    {
        if cmd == IPC_CMD_RESET {
            let woken = self.detach();
            self.inner_queue.clear_items();
            return (code::EOK, woken);
        }
        (code::EOK, Vec::new())
    }

    /// Takes the thread `tid` off the waiting receivers and senders, as
    /// when its wait times out; says whether it was waiting.
    pub fn cancel_wait(&mut self, tid: usize) -> (b: bool)
        requires
            old(self).wf(),
        ensures
            final(self).wf(),
            b <==> has_waiter(old(self).receivers(), tid) || has_waiter(old(self).senders(), tid),
            final(self).receivers() == remove_tid(old(self).receivers(), tid),
            final(self).senders() == remove_tid(old(self).senders(), tid),
            final(self).items() == old(self).items(),
            final(self).capacity() == old(self).capacity(),
            final(self).send_mode() == old(self).send_mode(),
            final(self).receive_mode() == old(self).receive_mode(),
    {
        let ghost ss = self.senders();
        let a = self.inner_queue.dequeue_waiter_mut().cancel(tid);
        assert(self.senders() == ss);
        let b = self.inner_queue.enqueue_waiter_mut().cancel(tid);
        a || b
    }
}

} // verus!
