use vstd::prelude::*;
use crate::error::code;
use crate::thread::{ThreadState, SuspendFlag};
use crate::sync::ipc_common::{has_waiter, remove_tid, RtSysQueue, RtWaitQueue, Waiter, IpcStep, IPC_SYS_QUEUE_STUB,
    IPC_WAIT_MODE_FIFO, IPC_WAIT_MODE_PRIO, IPC_ENTRY_MAX, wait_ok, state_after_wait, queued,
    first_tid, after_wake, all_tids};

verus! {

/// A counting semaphore: a value, and the threads waiting for it to be
/// above 0.
pub struct Semaphore {
    inner_queue: RtSysQueue<()>,
}

impl Semaphore {
    /// The value.
    pub closed spec fn value(&self) -> usize {
        self.inner_queue.count_spec()
    }

    /// The threads waiting to take the semaphore, the next to get it first.
    pub closed spec fn waiters(&self) -> Seq<Waiter> {
        self.inner_queue.dequeue_spec()@
    }

    /// How waiting threads are ordered.
    pub closed spec fn waiting_mode(&self) -> u32 {
        self.inner_queue.dequeue_spec().mode()
    }

    pub closed spec fn wf(&self) -> bool {
        &&& self.inner_queue.wf()
        &&& self.inner_queue.mode_spec() == IPC_SYS_QUEUE_STUB
    }

    /// A semaphore of value `value` with no waiters; waiting threads are
    /// ordered by `waiting_mode`, which is FIFO or by priority.
    pub fn new(value: u16, waiting_mode: u8) -> (s: Self)
        requires
            waiting_mode == IPC_WAIT_MODE_FIFO || waiting_mode == IPC_WAIT_MODE_PRIO,
        ensures
            s.wf(),
            s.value() == value,
            s.waiters() == Seq::<Waiter>::empty(),
            s.waiting_mode() == waiting_mode,
    {
        let mut q = RtSysQueue::new(4, value as usize, IPC_SYS_QUEUE_STUB, waiting_mode as u32);
        q.reset_stub(value as usize);
        Semaphore { inner_queue: q }
    }

    /// Sets the semaphore up afresh, as `new` does.
    pub fn init(&mut self, value: u16, waiting_mode: u8)
        requires
            waiting_mode == IPC_WAIT_MODE_FIFO || waiting_mode == IPC_WAIT_MODE_PRIO,
        ensures
            final(self).wf(),
            final(self).value() == value,
            final(self).waiters() == Seq::<Waiter>::empty(),
            final(self).waiting_mode() == waiting_mode,
    {
        self.init_internal(value, waiting_mode);
    }

    /// Sets the value and the waiting mode, with no waiters.
    pub fn init_internal(&mut self, value: u16, waiting_mode: u8)
        requires
            waiting_mode == IPC_WAIT_MODE_FIFO || waiting_mode == IPC_WAIT_MODE_PRIO,
        ensures
            final(self).wf(),
            final(self).value() == value,
            final(self).waiters() == Seq::<Waiter>::empty(),
            final(self).waiting_mode() == waiting_mode,
    {
        self.inner_queue.init(4, value as usize, IPC_SYS_QUEUE_STUB, waiting_mode as u32);
        self.inner_queue.reset_stub(value as usize);
    }

    /// Takes every waiting thread off the semaphore and returns them in
    /// order; the caller resumes each with an error. The value stays.
    pub fn detach(&mut self) -> (woken: Vec<usize>)
        requires
            old(self).wf(),
        ensures
            final(self).wf(),
            woken@ == all_tids(old(self).waiters()),
            final(self).waiters() == Seq::<Waiter>::empty(),
            final(self).value() == old(self).value(),
            final(self).waiting_mode() == old(self).waiting_mode(),
    {
        self.inner_queue.dequeue_waiter_mut().wake_all()
    }

    pub fn count(&self) -> (n: usize)
        ensures
            n == self.value(),
    {
        self.inner_queue.count()
    }

    /// One step of taking the semaphore, for the thread `me` in state
    /// `stat`. A value above 0 is taken at once. Otherwise, with a timeout
    /// of 0 the call fails with `ETIMEDOUT`; with another timeout the
    /// thread is suspended with `pending_mode` and queued (`Blocked`), or
    /// the call fails with `ERROR` when the thread can be neither. A
    /// queued thread is handed the semaphore by `release` (woken with no
    /// error) and then holds it.
    pub fn take_step(&mut self, timeout: i32, stat: &mut ThreadState, me: Waiter,
        pending_mode: SuspendFlag) -> (r: IpcStep<()>)
        requires
            old(self).wf(),
        ensures
            final(self).wf(),
            final(self).waiting_mode() == old(self).waiting_mode(),
            old(self).value() > 0 ==> {
                &&& r == IpcStep::<()>::Done { value: (), wake: None }
                &&& final(self).value() == old(self).value() - 1
                &&& final(self).waiters() == old(self).waiters()
                &&& *final(stat) == *old(stat)
            },
            old(self).value() == 0 && timeout == 0 ==> {
                &&& r == IpcStep::<()>::Failed(code::ETIMEDOUT)
                &&& *final(self) == *old(self)
                &&& *final(stat) == *old(stat)
            },
            old(self).value() == 0 && timeout != 0 && !wait_ok(old(stat).0) ==> {
                &&& r == IpcStep::<()>::Failed(code::ERROR)
                &&& final(self).value() == old(self).value()
                &&& final(self).waiters() == old(self).waiters()
                &&& *final(stat) == *old(stat)
            },
            old(self).value() == 0 && timeout != 0 && wait_ok(old(stat).0) ==> {
                &&& r == IpcStep::<()>::Blocked
                &&& final(self).value() == 0
                &&& final(self).waiters() == queued(old(self).waiters(), old(self).waiting_mode(), me)
                &&& final(stat).0 == state_after_wait(old(stat).0, pending_mode)
            },
    {
        if self.inner_queue.pop_stub() {
            return IpcStep::Done { value: (), wake: None };
        }
        if timeout == 0 {
            return IpcStep::Failed(code::ETIMEDOUT);
        }
        let ret = self.inner_queue.dequeue_waiter_mut().wait(stat, me, pending_mode);
        if ret != code::EOK {
            return IpcStep::Failed(ret);
        }
        IpcStep::Blocked
    }

    /// Takes the semaphore if its value is above 0 (`EOK`), and fails with
    /// `ETIMEDOUT` otherwise, never waiting.
    pub fn try_take(&mut self) -> (r: i32)
        requires
            old(self).wf(),
        ensures
            final(self).wf(),
            old(self).value() > 0 ==> r == code::EOK && final(self).value() == old(self).value() - 1,
            old(self).value() == 0 ==> r == code::ETIMEDOUT && final(self).value() == 0,
            final(self).waiters() == old(self).waiters(),
            final(self).waiting_mode() == old(self).waiting_mode(),
    {
        if self.inner_queue.pop_stub() {
            code::EOK
        } else {
            code::ETIMEDOUT
        }
    }

    /// Gives the semaphore back: to the first waiting thread if there is
    /// one (which the caller resumes with no error), by raising the value
    /// otherwise; fails with `ENOSPC` when the value is at `IPC_ENTRY_MAX`.
    pub fn release(&mut self) -> (r: IpcStep<()>)
        requires
            old(self).wf(),
        ensures
            final(self).wf(),
            final(self).waiting_mode() == old(self).waiting_mode(),
            old(self).waiters().len() > 0 ==> {
                &&& r == IpcStep::<()>::Done { value: (), wake: first_tid(old(self).waiters()) }
                &&& final(self).waiters() == after_wake(old(self).waiters())
                &&& final(self).value() == old(self).value()
            },
            old(self).waiters().len() == 0 && old(self).value() < IPC_ENTRY_MAX ==> {
                &&& r == IpcStep::<()>::Done { value: (), wake: None }
                &&& final(self).value() == old(self).value() + 1
                &&& final(self).waiters() == old(self).waiters()
            },
            old(self).waiters().len() == 0 && old(self).value() >= IPC_ENTRY_MAX ==> {
                &&& r == IpcStep::<()>::Failed(code::ENOSPC)
                &&& *final(self) == *old(self)
            },
    {
        if !self.inner_queue.dequeue_waiter().is_empty() {
            let tid = self.inner_queue.dequeue_waiter_mut().wake();
            return IpcStep::Done { value: (), wake: tid };
        }
        if self.inner_queue.count() < IPC_ENTRY_MAX {
            self.inner_queue.force_push_stub();
            IpcStep::Done { value: (), wake: None }
        } else {
            IpcStep::Failed(code::ENOSPC)
        }
    }

    /// Wakes every waiting thread (returned in order; the caller resumes
    /// each with an error) and sets the value to `value`.
    pub fn reset(&mut self, value: u32) -> (woken: Vec<usize>)
        requires
            old(self).wf(),
        ensures
            final(self).wf(),
            woken@ == all_tids(old(self).waiters()),
            final(self).waiters() == Seq::<Waiter>::empty(),
            final(self).value() == value,
            final(self).waiting_mode() == old(self).waiting_mode(),
    {
        let woken = self.inner_queue.dequeue_waiter_mut().wake_all();
        self.inner_queue.reset_stub(value as usize);
        woken
    }

    /// Takes the thread `tid` off the waiters, as when its wait times out;
    /// says whether it was waiting.
    pub fn cancel_wait(&mut self, tid: usize) -> (b: bool)
        requires
            old(self).wf(),
        ensures
            final(self).wf(),
            b <==> has_waiter(old(self).waiters(), tid),
            final(self).waiters() == remove_tid(old(self).waiters(), tid),
            final(self).value() == old(self).value(),
            final(self).waiting_mode() == old(self).waiting_mode(),
    {
        self.inner_queue.dequeue_waiter_mut().cancel(tid)
    }
}

} // verus!
