use vstd::prelude::*;
use crate::error::code;
use crate::thread::{ThreadState, SuspendFlag};
use crate::sync::ipc_common::{has_waiter, remove_tid, RtSysQueue, RtWaitQueue, Waiter, IpcStep, IPC_SYS_QUEUE_STUB,
    IPC_WAIT_MODE_FIFO, IPC_WAIT_MODE_PRIO, wait_ok, state_after_wait, queued, first_tid, after_wake,
    all_tids};

verus! {

/// A condition variable: the threads waiting on it, and a count of
/// notifications that found nobody waiting.
pub struct CondVar {
    inner_queue: RtSysQueue<()>,
}

impl CondVar {
    /// The notifications not yet taken.
    pub closed spec fn pending(&self) -> usize {
        self.inner_queue.count_spec()
    }

    /// The threads waiting, the next to be woken first.
    pub closed spec fn waiters(&self) -> Seq<Waiter> {
        self.inner_queue.dequeue_spec()@
    }

    /// How waiting threads are ordered.
    pub closed spec fn waiting_mode(&self) -> u32 {
        self.inner_queue.dequeue_spec().mode()
    }

    pub closed spec fn wf(&self) -> bool {
        &&& self.inner_queue.wf()
        &&& self.inner_queue.mode_spec() == IPC_SYS_QUEUE_STUB
    }

    /// A condition variable with no waiter and no pending notification;
    /// waiting threads are ordered by `waiting_mode`, FIFO or by priority.
    pub fn new(waiting_mode: u8) -> (c: Self)
        requires
            waiting_mode == IPC_WAIT_MODE_FIFO || waiting_mode == IPC_WAIT_MODE_PRIO,
        ensures
            c.wf(),
            c.pending() == 0,
            c.waiters() == Seq::<Waiter>::empty(),
            c.waiting_mode() == waiting_mode,
    {
        CondVar { inner_queue: RtSysQueue::new(4, 0, IPC_SYS_QUEUE_STUB, waiting_mode as u32) }
    }

    /// Sets the condition variable up afresh, as `new` does.
    pub fn init(&mut self, waiting_mode: u8)
        requires
            waiting_mode == IPC_WAIT_MODE_FIFO || waiting_mode == IPC_WAIT_MODE_PRIO,
        ensures
            final(self).wf(),
            final(self).pending() == 0,
            final(self).waiters() == Seq::<Waiter>::empty(),
            final(self).waiting_mode() == waiting_mode,
    {
        self.inner_queue.init(4, 0, IPC_SYS_QUEUE_STUB, waiting_mode as u32);
    }

    /// Takes every waiting thread off and returns them in order; the caller
    /// resumes each with an error.
    pub fn detach(&mut self) -> (woken: Vec<usize>)
        requires
            old(self).wf(),
        ensures
            final(self).wf(),
            woken@ == all_tids(old(self).waiters()),
            final(self).waiters() == Seq::<Waiter>::empty(),
            final(self).pending() == old(self).pending(),
            final(self).waiting_mode() == old(self).waiting_mode(),
    {
        self.inner_queue.dequeue_waiter_mut().wake_all()
    }

    /// One step of waiting, for the thread `me` in state `stat`, which
    /// must own the mutex (`owns_mutex`; `ERROR` otherwise). A pending
    /// notification is taken at once; the caller keeps the mutex. With
    /// none: a timeout of 0 gives `ETIMEDOUT` (the caller releases the
    /// mutex and does not take it again); another timeout suspends the
    /// thread with `pending_mode` and queues it (`Blocked`: the caller
    /// releases the mutex, starts the timer if there is a timeout, yields,
    /// and takes the mutex again once woken), or fails with `ERROR` when the
    /// thread can be neither.
    pub fn wait_step(&mut self, owns_mutex: bool, timeout: i32, stat: &mut ThreadState, me: Waiter,
        pending_mode: SuspendFlag) -> (r: IpcStep<()>)
        requires
            old(self).wf(),
        ensures
            final(self).wf(),
            final(self).waiting_mode() == old(self).waiting_mode(),
            !owns_mutex ==> r == IpcStep::<()>::Failed(code::ERROR) && *final(self) == *old(self)
                && *final(stat) == *old(stat),
            owns_mutex && old(self).pending() > 0 ==> {
                &&& r == IpcStep::<()>::Done { value: (), wake: None }
                &&& final(self).pending() == old(self).pending() - 1
                &&& final(self).waiters() == old(self).waiters()
                &&& *final(stat) == *old(stat)
            },
            owns_mutex && old(self).pending() == 0 && timeout == 0 ==> r == IpcStep::<()>::Failed(code::ETIMEDOUT)
                && *final(self) == *old(self) && *final(stat) == *old(stat),
            owns_mutex && old(self).pending() == 0 && timeout != 0 ==> {
                &&& final(self).pending() == 0
                &&& !wait_ok(old(stat).0) ==> r == IpcStep::<()>::Failed(code::ERROR)
                    && final(self).waiters() == old(self).waiters() && *final(stat) == *old(stat)
                &&& wait_ok(old(stat).0) ==> r == IpcStep::<()>::Blocked
                    && final(self).waiters() == queued(old(self).waiters(), old(self).waiting_mode(), me)
                    && final(stat).0 == state_after_wait(old(stat).0, pending_mode)
            },
    {
        if !owns_mutex {
            return IpcStep::Failed(code::ERROR);
        }
        if self.inner_queue.pop_stub() {
            return IpcStep::Done { value: (), wake: None };
        }
        if timeout == 0 {
            return IpcStep::Failed(code::ETIMEDOUT);
        }
        let ret = self.inner_queue.dequeue_waiter_mut().wait(stat, me, pending_mode);
        if ret != code::EOK {
            return IpcStep::Failed(ret);
        }
        IpcStep::Blocked
    }

    /// Takes a pending notification if there is one (`EOK`); `ERROR`
    /// otherwise. Never waits.
    pub fn try_wait(&mut self) -> (r: i32)
        requires
            old(self).wf(),
        ensures
            final(self).wf(),
            old(self).pending() > 0 ==> r == code::EOK && final(self).pending() == old(self).pending() - 1,
            old(self).pending() == 0 ==> r == code::ERROR && *final(self) == *old(self),
            final(self).waiters() == old(self).waiters(),
            final(self).waiting_mode() == old(self).waiting_mode(),
    {
        if self.inner_queue.pop_stub() { code::EOK } else { code::ERROR }
    }

    /// Wakes the first waiting thread (returned; the caller resumes it with
    /// no error), or, with nobody waiting, records a pending notification
    /// unless that count is at its largest value.
    pub fn notify(&mut self) -> (r: Option<usize>)
        requires
            old(self).wf(),
        ensures
            final(self).wf(),
            final(self).waiting_mode() == old(self).waiting_mode(),
            r == first_tid(old(self).waiters()),
            final(self).waiters() == after_wake(old(self).waiters()),
            old(self).waiters().len() > 0 ==> final(self).pending() == old(self).pending(),
            old(self).waiters().len() == 0 ==> final(self).pending() == (if old(self).pending() < usize::MAX {
                old(self).pending() + 1
            } else {
                old(self).pending() as int
            }),
    {
        let w = self.inner_queue.dequeue_waiter_mut().wake();
        if w.is_none() {
            self.inner_queue.force_push_stub();
        }
        w
    }

    /// Wakes every waiting thread (returned in order; the caller resumes
    /// each with no error). A pending notification is used up instead when
    /// there is one: then nobody is woken.
    pub fn notify_all(&mut self) -> (woken: Vec<usize>)
        requires
            old(self).wf(),
        ensures
            final(self).wf(),
            final(self).waiting_mode() == old(self).waiting_mode(),
            old(self).pending() > 0 ==> woken@ == Seq::<usize>::empty()
                && final(self).pending() == old(self).pending() - 1
                && final(self).waiters() == old(self).waiters(),
            old(self).pending() == 0 ==> woken@ == all_tids(old(self).waiters())
                && final(self).pending() == 0
                && final(self).waiters() == Seq::<Waiter>::empty(),
    {
        if self.inner_queue.pop_stub() {
            return Vec::new();
        }
        self.inner_queue.dequeue_waiter_mut().wake_all()
    }

    /// Takes the thread `tid` off the waiters, as when its wait times out;
    /// says whether it was waiting.
    pub fn cancel_wait(&mut self, tid: usize) -> (b: bool)
        requires
            old(self).wf(),
        ensures
            final(self).wf(),
            b <==> has_waiter(old(self).waiters(), tid),
            final(self).waiters() == remove_tid(old(self).waiters(), tid),
            final(self).pending() == old(self).pending(),
            final(self).waiting_mode() == old(self).waiting_mode(),
    {
        self.inner_queue.dequeue_waiter_mut().cancel(tid)
    }
}

} // verus!
