use blueos::sync::spinlock::{rt_spin_lock, rt_spin_lock_init, rt_spin_lock_irqsave, rt_spin_unlock, rt_spin_unlock_irqrestore};
use blueos::sync::lock::SpinLockBackend;
use blueos::sync::spinlock::{RawSpin, SpinMutex};
use blueos::error::code;
use blueos::sync::event::{RtEvent, EVENT_AND, EVENT_CLEAR, EVENT_OR};
use blueos::sync::ipc_common::{
    remaining_timeout, wait_outcome, IpcStep, RtSysQueue, RtWaitQueue, Waiter, IPC_CMD_RESET,
    IPC_SYS_QUEUE_FIFO, IPC_SYS_QUEUE_PRIO, IPC_SYS_QUEUE_STUB, IPC_WAIT_MODE_FIFO,
    IPC_WAIT_MODE_PRIO,
};
use blueos::sync::mailbox::Mailbox;
use blueos::sync::message_queue::MessageQueue;
use blueos::sync::mutex::{get_mutex_priority, mutex_priority, MutexLock, MutexUnlock, RtMutex, TakenLists, PRIORITY_NONE};
use blueos::sync::semaphore::Semaphore;
use blueos::thread::{SuspendFlag, ThreadState, STATE_READY, STATE_RUNNING, STATE_SUSPENDED};

const FIFO8: u8 = 0;
const PRIO8: u8 = 1;

fn waiter(tid: usize, prio: u8) -> Waiter {
    Waiter { tid, prio, event_set: 0, event_info: 0 }
}

fn running() -> ThreadState {
    ThreadState::new(STATE_RUNNING)
}

#[test]
fn wait_queue_orders_by_priority() {
    let mut q = RtWaitQueue::new(IPC_WAIT_MODE_PRIO);
    let mut s = running();
    assert_eq!(q.wait(&mut s, waiter(1, 10), SuspendFlag::Uninterruptible), code::EOK);
    assert!(s.is_suspended());
    let mut s = ThreadState::new(STATE_READY);
    q.wait(&mut s, waiter(2, 5), SuspendFlag::Uninterruptible);
    let mut s = running();
    q.wait(&mut s, waiter(3, 10), SuspendFlag::Uninterruptible);
    assert_eq!(q.count(), 3);
    assert_eq!(q.head().unwrap().tid, 2);
    assert_eq!(q.tail().unwrap().tid, 3);
    assert_eq!(q.wake(), Some(2));
    assert_eq!(q.wake_all(), vec![1, 3]);
    assert!(q.is_empty());
    assert_eq!(q.wake(), None);
}

#[test]
fn wait_queue_fifo_and_refusal() {
    let mut q = RtWaitQueue::new(IPC_WAIT_MODE_FIFO);
    let mut s = running();
    q.wait(&mut s, waiter(1, 10), SuspendFlag::Interruptible);
    let mut s = running();
    q.wait(&mut s, waiter(2, 1), SuspendFlag::Interruptible);
    assert_eq!(q.head().unwrap().tid, 1);
    let mut closed = ThreadState::new(1);
    assert_eq!(q.wait(&mut closed, waiter(3, 0), SuspendFlag::Interruptible), code::ERROR);
    assert_eq!(q.count(), 2);
    assert!(q.cancel(1));
    assert!(!q.cancel(1));
    assert_eq!(q.head().unwrap().tid, 2);
    assert_eq!(q.waiting_mode(), IPC_WAIT_MODE_FIFO);
}

#[test]
fn timeouts_and_outcomes() {
    assert_eq!(remaining_timeout(10, 3), 7);
    assert_eq!(remaining_timeout(10, 30), 0);
    assert_eq!(remaining_timeout(-1, 30), -1);
    assert_eq!(remaining_timeout(0, 3), 0);
    assert_eq!(wait_outcome(code::EOK), Ok(()));
    assert_eq!(wait_outcome(code::ETIMEDOUT), Err(code::ETIMEDOUT));
}

#[test]
fn sys_queue_modes() {
    let mut q: RtSysQueue<u8> = RtSysQueue::new(1, 2, IPC_SYS_QUEUE_FIFO, IPC_WAIT_MODE_FIFO);
    assert!(q.push_fifo(1));
    assert!(q.urgent_fifo(0));
    assert!(q.is_full());
    assert_eq!(q.pop_fifo(), 0);
    assert_eq!(q.pop_fifo(), 1);
    assert!(q.is_empty());

    let mut p: RtSysQueue<u8> = RtSysQueue::new(4, 3, IPC_SYS_QUEUE_PRIO, IPC_WAIT_MODE_PRIO);
    assert_eq!(p.push_prio(10, 1), code::EOK);
    assert_eq!(p.push_prio(20, 5), code::EOK);
    assert_eq!(p.push_prio(30, 5), code::EOK);
    assert_eq!(p.count(), 3);
    assert_eq!(p.urgent_prio(40), code::EFULL);
    assert_eq!(p.pop_prio(), (20, 5));
    assert_eq!(p.pop_prio(), (30, 5));
    assert_eq!(p.urgent_prio(40), code::EOK);
    assert_eq!(p.pop_prio(), (40, 0));
    assert_eq!(p.pop_prio(), (10, 1));

    let mut s: RtSysQueue<()> = RtSysQueue::new(4, 1, IPC_SYS_QUEUE_STUB, IPC_WAIT_MODE_FIFO);
    assert!(s.push_stub());
    assert!(!s.push_stub());
    assert!(s.force_push_stub());
    assert_eq!(s.count(), 2);
    assert!(s.pop_stub());
    s.reset_stub(5);
    assert_eq!(s.count(), 5);
    assert_eq!(s.init(0, 3, IPC_SYS_QUEUE_FIFO, IPC_WAIT_MODE_FIFO), code::ENOMEM);
    assert_eq!(s.init(2, 3, IPC_SYS_QUEUE_FIFO, IPC_WAIT_MODE_FIFO), code::EOK);
}

#[test]
fn semaphore_take_and_release() {
    let mut sem = Semaphore::new(1, PRIO8);
    let mut s = running();
    assert!(matches!(sem.take_step(0, &mut s, waiter(1, 5), SuspendFlag::Uninterruptible),
        IpcStep::Done { value: (), wake: None }));
    assert_eq!(sem.count(), 0);
    assert_eq!(sem.try_take(), code::ETIMEDOUT);
    assert!(matches!(sem.take_step(0, &mut s, waiter(1, 5), SuspendFlag::Uninterruptible),
        IpcStep::Failed(code::ETIMEDOUT)));
    assert!(matches!(sem.take_step(-1, &mut s, waiter(1, 5), SuspendFlag::Uninterruptible),
        IpcStep::Blocked));
    assert!(s.is_suspended());
    let mut s2 = running();
    assert!(matches!(sem.take_step(10, &mut s2, waiter(2, 3), SuspendFlag::Uninterruptible),
        IpcStep::Blocked));
    assert!(matches!(sem.release(), IpcStep::Done { value: (), wake: Some(2) }));
    assert_eq!(sem.count(), 0);
    assert!(matches!(sem.release(), IpcStep::Done { value: (), wake: Some(1) }));
    assert!(matches!(sem.release(), IpcStep::Done { value: (), wake: None }));
    assert_eq!(sem.count(), 1);
    assert_eq!(sem.try_take(), code::EOK);
    let mut s3 = running();
    sem.take_step(5, &mut s3, waiter(3, 1), SuspendFlag::Killable);
    let mut s4 = running();
    sem.try_take();
    sem.take_step(5, &mut s4, waiter(4, 1), SuspendFlag::Killable);
    // a timed-out waiter leaves the queue; cancelling it again finds nothing
    assert!(sem.cancel_wait(4));
    assert!(!sem.cancel_wait(4));
    assert_eq!(sem.reset(4), vec![3]);
    assert_eq!(sem.count(), 4);
    let mut full = Semaphore::new(65535, FIFO8);
    assert!(matches!(full.release(), IpcStep::Failed(code::ENOSPC)));
    assert_eq!(full.detach(), Vec::<usize>::new());
}

#[test]
fn mailbox_fifo_order_and_waiters() {
    let mut mb = Mailbox::new(2, FIFO8);
    let mut s = running();
    assert!(matches!(mb.receive_step(0, &mut s, waiter(9, 1), SuspendFlag::Uninterruptible),
        IpcStep::Failed(code::ETIMEDOUT)));
    assert!(matches!(mb.receive_step(-1, &mut s, waiter(9, 1), SuspendFlag::Uninterruptible),
        IpcStep::Blocked));
    assert!(matches!(mb.send(11), IpcStep::Done { value: (), wake: Some(9) }));
    assert!(matches!(mb.send(12), IpcStep::Done { value: (), wake: None }));
    assert!(matches!(mb.send(13), IpcStep::Failed(code::ENOSPC)));
    let mut t = running();
    assert!(matches!(mb.send_step(13, 5, &mut t, waiter(4, 2), SuspendFlag::Uninterruptible),
        IpcStep::Blocked));
    let mut r = running();
    assert!(matches!(mb.receive_step(0, &mut r, waiter(5, 1), SuspendFlag::Uninterruptible),
        IpcStep::Done { value: 11, wake: Some(4) }));
    assert!(matches!(mb.urgent(10), IpcStep::Done { value: (), wake: None }));
    assert!(matches!(mb.receive_step(0, &mut r, waiter(5, 1), SuspendFlag::Uninterruptible),
        IpcStep::Done { value: 10, wake: None }));
    assert!(matches!(mb.receive_step(0, &mut r, waiter(5, 1), SuspendFlag::Uninterruptible),
        IpcStep::Done { value: 12, wake: None }));
    let mut u = running();
    mb.receive_step(7, &mut u, waiter(6, 1), SuspendFlag::Uninterruptible);
    let (rc, woken) = mb.control(IPC_CMD_RESET);
    assert_eq!(rc, code::EOK);
    assert_eq!(woken, vec![6]);
    assert_eq!(mb.control(99).0, code::EOK);
}

#[test]
fn event_and_or_clear() {
    let mut ev = RtEvent::new(FIFO8);
    let mut s = running();
    assert!(matches!(ev.receive_step(0, EVENT_OR, 0, &mut s, waiter(1, 1), SuspendFlag::Uninterruptible),
        IpcStep::Failed(code::ERROR)));
    assert!(matches!(ev.receive_step(0b11, EVENT_AND, 0, &mut s, waiter(1, 1), SuspendFlag::Uninterruptible),
        IpcStep::Failed(code::ETIMEDOUT)));
    assert!(matches!(ev.receive_step(0b11, EVENT_AND | EVENT_CLEAR, -1, &mut s, waiter(1, 1),
        SuspendFlag::Uninterruptible), IpcStep::Blocked));
    let mut s2 = running();
    assert!(matches!(ev.receive_step(0b100, EVENT_OR, -1, &mut s2, waiter(2, 1),
        SuspendFlag::Uninterruptible), IpcStep::Blocked));
    let (rc, woken) = ev.send(0b01);
    assert_eq!(rc, code::EOK);
    assert!(woken.is_empty());
    let (rc, woken) = ev.send(0b110);
    assert_eq!(rc, code::EOK);
    assert_eq!(woken, vec![(1, 0b11), (2, 0b100)]);
    assert_eq!(ev.send(0).0, code::ERROR);
    let mut s3 = running();
    assert!(matches!(ev.receive_step(0b110, EVENT_OR | EVENT_CLEAR, 0, &mut s3, waiter(3, 1),
        SuspendFlag::Uninterruptible), IpcStep::Done { value: 0b100, wake: None }));
    assert!(matches!(ev.receive_step(0b100, EVENT_OR, 0, &mut s3, waiter(3, 1),
        SuspendFlag::Uninterruptible), IpcStep::Failed(code::ETIMEDOUT)));
    let (rc, woken) = ev.control(IPC_CMD_RESET);
    assert_eq!(rc, code::EOK);
    assert!(woken.is_empty());
    assert_eq!(ev.control(0).0, code::ERROR);
}

#[test]
fn message_queue_send_receive() {
    let mut mq = MessageQueue::new(4, 2, 0, PRIO8);
    assert_eq!(mq.msg_size(), 4);
    assert!(mq.is_empty() && !mq.is_full());
    let mut s = running();
    assert!(matches!(mq.send_step(vec![1, 2, 3, 4, 5], 0, &mut s, waiter(1, 1),
        SuspendFlag::Uninterruptible), IpcStep::Failed(code::ERROR)));
    assert!(matches!(mq.send_step(vec![1, 2, 3, 4], 0, &mut s, waiter(1, 1),
        SuspendFlag::Uninterruptible), IpcStep::Done { value: (), wake: None }));
    assert!(!mq.is_empty() && !mq.is_full());
    assert_eq!(mq.urgent(vec![9, 9, 9, 9]), code::EOK);
    assert!(mq.is_full());
    assert!(matches!(mq.send_step(vec![5, 6, 7, 8], 0, &mut s, waiter(1, 1),
        SuspendFlag::Uninterruptible), IpcStep::Failed(code::ENOSPC)));
    match mq.receive_step(4, 0, &mut s, waiter(1, 1), SuspendFlag::Uninterruptible) {
        IpcStep::Done { value, wake } => {
            assert_eq!(value, vec![9, 9, 9, 9]);
            assert_eq!(wake, None);
        }
        _ => panic!("a message was there"),
    }
    assert_eq!(mq.reset(), Vec::<usize>::new());
    assert!(matches!(mq.receive_step(4, 0, &mut s, waiter(1, 1), SuspendFlag::Uninterruptible),
        IpcStep::Failed(code::ETIMEDOUT)));
    assert_eq!(mq.init(0, 16, 0, FIFO8), code::EINVAL);
    assert_eq!(mq.init(4, 3, 0, FIFO8), code::EINVAL);
    assert_eq!(mq.init(4, 3, 7, FIFO8), code::EINVAL);
    assert_eq!(mq.init(4, 16, 0, FIFO8), code::EOK);
    for i in 0..4u8 {
        assert!(matches!(mq.send_step(vec![i; 4], 0, &mut s, waiter(1, 1),
            SuspendFlag::Uninterruptible), IpcStep::Done { .. }));
    }
    assert!(matches!(mq.send_step(vec![0; 4], 0, &mut s, waiter(1, 1),
        SuspendFlag::Uninterruptible), IpcStep::Failed(code::ENOSPC)));
    assert_eq!(mq.detach(), Vec::<usize>::new());
}

#[test]
fn mutex_nesting_and_handoff() {
    let mut m = RtMutex::new(0);
    let mut taken = TakenLists::new(8);
    let mut err: i32 = 99;
    let mut s = running();
    assert!(matches!(m.lock_step(waiter(1, 10), PRIORITY_NONE, -1, &mut s, SuspendFlag::Uninterruptible,
        &mut err, &mut taken, 0), MutexLock::Locked { raise: None }));
    assert_eq!(err, code::EOK);
    assert_eq!(taken.taken(1), &vec![0usize]);
    assert_eq!(m.owner(), Some(1));
    assert!(matches!(m.try_lock(waiter(1, 10), &mut err, &mut taken, 0), MutexLock::Locked { raise: None }));
    assert_eq!(taken.taken(1), &vec![0usize]);
    assert!(matches!(m.try_lock(waiter(2, 5), &mut err, &mut taken, 0), MutexLock::Failed(code::ETIMEOUT)));
    assert_eq!(err, code::ETIMEOUT);
    let mut s2 = running();
    assert!(matches!(m.lock_step(waiter(2, 5), 10, -1, &mut s2, SuspendFlag::Uninterruptible,
        &mut err, &mut taken, 0), MutexLock::Blocked { raise: Some((1, 5)) }));
    assert_eq!(err, code::EOK);
    assert!(taken.taken(2).is_empty());
    assert_eq!(m.update_priority(), 5);
    assert!(matches!(m.unlock(2, 5, &mut err, &mut taken, 0), MutexUnlock::Failed(code::ERROR)));
    assert_eq!(err, code::ERROR);
    err = code::EOK;
    assert!(matches!(m.unlock(1, 5, &mut err, &mut taken, 0),
        MutexUnlock::Released { restore: false, next_owner: None }));
    assert_eq!(taken.taken(1), &vec![0usize]);
    assert!(matches!(m.unlock(1, 5, &mut err, &mut taken, 0),
        MutexUnlock::Released { restore: true, next_owner: Some(2) }));
    assert_eq!(err, code::EOK);
    assert!(taken.taken(1).is_empty());
    assert_eq!(taken.taken(2), &vec![0usize]);
    assert!(matches!(m.unlock(2, 5, &mut err, &mut taken, 0),
        MutexUnlock::Released { restore: false, next_owner: None }));
    assert!(taken.taken(2).is_empty());
    assert_eq!(m.set_prio_ceiling(3), (PRIORITY_NONE, None));
    assert_eq!(m.get_prio_ceiling(), 3);
    assert!(matches!(m.try_lock(waiter(4, 8), &mut err, &mut taken, 0), MutexLock::Locked { raise: Some((4, 3)) }));
}

#[test]
fn mutex_abort_and_drop() {
    let mut m = RtMutex::new(0);
    let mut taken = TakenLists::new(8);
    let mut err: i32 = 0;
    m.try_lock(waiter(1, 10), &mut err, &mut taken, 0);
    let mut s = running();
    m.lock_step(waiter(2, 4), 10, 5, &mut s, SuspendFlag::Uninterruptible, &mut err, &mut taken, 0);
    let mut s3 = running();
    m.lock_step(waiter(3, 6), 4, 5, &mut s3, SuspendFlag::Uninterruptible, &mut err, &mut taken, 0);
    assert_eq!(m.lock_abort(waiter(2, 4), 4, code::ETIMEDOUT), (code::ETIMEDOUT, Some(1)));
    assert_eq!(m.update_priority(), 6);
    assert_eq!(m.lock_abort(waiter(3, 6), 4, 4), (-4, None));
    assert_eq!(m.update_priority(), PRIORITY_NONE);
    let mut s4 = running();
    m.lock_step(waiter(4, 2), 10, -1, &mut s4, SuspendFlag::Uninterruptible, &mut err, &mut taken, 0);
    assert_eq!(m.drop_thread(4, 2, 2), Some(1));
    assert_eq!(m.detach(), Vec::<usize>::new());
    assert_eq!(mutex_priority(20, &vec![(PRIORITY_NONE, 12), (7, PRIORITY_NONE)]), 7);
    assert_eq!(mutex_priority(5, &vec![(9, 8)]), 5);
    let _ = STATE_SUSPENDED;
}

#[test]
fn mutex_owed_priority_follows_held_list() {
    // Thread 1 (initial priority 20) takes mutex 0 and mutex 1; thread 2
    // (priority 7) waits on mutex 1, thread 3 (priority 12) on mutex 0.
    let mut ms = vec![RtMutex::new(0), RtMutex::new(0)];
    let mut taken = TakenLists::new(4);
    assert_eq!(taken.len(), 4);
    let mut err: i32 = 0;
    ms[0].try_lock(waiter(1, 20), &mut err, &mut taken, 0);
    ms[1].try_lock(waiter(1, 20), &mut err, &mut taken, 1);
    assert_eq!(taken.taken(1), &vec![1usize, 0]);
    let mut s2 = running();
    ms[1].lock_step(waiter(2, 7), 20, -1, &mut s2, SuspendFlag::Uninterruptible, &mut err, &mut taken, 1);
    let mut s3 = running();
    ms[0].lock_step(waiter(3, 12), 7, -1, &mut s3, SuspendFlag::Uninterruptible, &mut err, &mut taken, 0);
    assert_eq!(get_mutex_priority(20, taken.taken(1), &ms), 7);
    // Handing mutex 1 to thread 2 leaves thread 1 owed priority 12 only.
    assert!(matches!(ms[1].unlock(1, 7, &mut err, &mut taken, 1),
        MutexUnlock::Released { restore: true, next_owner: Some(2) }));
    assert_eq!(taken.taken(1), &vec![0usize]);
    assert_eq!(taken.taken(2), &vec![1usize]);
    assert_eq!(get_mutex_priority(20, taken.taken(1), &ms), 12);
    assert_eq!(get_mutex_priority(7, taken.taken(2), &ms), 7);
    assert_eq!(get_mutex_priority(30, taken.taken(3), &ms), 30);
}

use blueos::sync::condvar::CondVar;
use blueos::sync::rwlock::{RtRwLock, RwNotify, RwStep};

#[test]
fn condvar_wait_notify() {
    let mut cv = CondVar::new(FIFO8);
    let mut s = running();
    assert!(matches!(cv.wait_step(false, -1, &mut s, waiter(1, 1), SuspendFlag::Uninterruptible),
        IpcStep::Failed(code::ERROR)));
    assert!(matches!(cv.wait_step(true, 0, &mut s, waiter(1, 1), SuspendFlag::Uninterruptible),
        IpcStep::Failed(code::ETIMEDOUT)));
    assert_eq!(cv.try_wait(), code::ERROR);
    assert_eq!(cv.notify(), None);
    assert!(matches!(cv.wait_step(true, 0, &mut s, waiter(1, 1), SuspendFlag::Uninterruptible),
        IpcStep::Done { value: (), wake: None }));
    assert!(matches!(cv.wait_step(true, -1, &mut s, waiter(1, 1), SuspendFlag::Uninterruptible),
        IpcStep::Blocked));
    let mut s2 = running();
    cv.wait_step(true, 3, &mut s2, waiter(2, 1), SuspendFlag::Uninterruptible);
    assert_eq!(cv.notify(), Some(1));
    assert_eq!(cv.notify_all(), vec![2]);
    assert!(cv.notify_all().is_empty());
    assert_eq!(cv.try_wait(), code::ERROR);
    assert_eq!(cv.notify(), None);
    assert!(cv.notify_all().is_empty());
    assert_eq!(cv.try_wait(), code::ERROR);
    assert_eq!(cv.detach(), Vec::<usize>::new());
    cv.init(PRIO8);
}

#[test]
fn rwlock_counts_and_notifications() {
    let mut l = RtRwLock::new();
    assert_eq!(l.read_step(), RwStep::Acquired);
    assert_eq!(l.try_lock_read(), code::EOK);
    assert_eq!(l.try_lock_write(), code::EBUSY);
    assert_eq!(l.write_step(), RwStep::Wait);
    assert_eq!(l.try_lock_read(), code::EBUSY);
    assert_eq!(l.read_step(), RwStep::Wait);
    assert_eq!(l.detach(), code::EBUSY);
    assert_eq!(l.unlock(), RwNotify::Nobody);
    assert_eq!(l.unlock(), RwNotify::OneWriter);
    assert_eq!(l.write_woken(code::EOK), None);
    assert_eq!(l.write_step(), RwStep::Acquired);
    assert_eq!(l.unlock(), RwNotify::AllReaders);
    assert_eq!(l.read_woken(code::ETIMEDOUT), Some(code::ETIMEDOUT));
    assert_eq!(l.detach(), code::EOK);
    l.init_internal();
    assert_eq!(l.try_lock_write(), code::EOK);
}

#[test]
fn spin_mutex_guards_its_value() {
    let mut m = SpinMutex::new(0u32);
    let g = m.lock();
    *m.deref_mut(&g) += 1;
    assert_eq!(*m.deref(&g), 1);
    m.unlock(g);
    let g = m.lock();
    let d = m.leak(g);
    *d = 58;
    m.force_unlock();
    let g = m.lock();
    assert_eq!(*m.deref(&g), 58);
    m.unlock(g);
    *m.get_mut() = 7;
    assert_eq!(SpinMutex::from(3u8).into_inner(), 3);
    assert_eq!(m.into_inner(), 7);
}

#[test]
fn raw_spin_hands_back_the_interrupt_level() {
    let mut s = RawSpin::new();
    let level = s.lock_irqsave(0x5a);
    assert_eq!(s.unlock_irqrestore(level), 0x5a);
    let g = s.acquire();
    s.release(g);
    s.lock();
    s.unlock();
    s.lock_fast();
    s.unlock_fast();
}

#[test]
fn spin_lock_entry_points() {
    let mut s = RawSpin::new();
    rt_spin_lock_init(&mut s);
    rt_spin_lock(&mut s);
    rt_spin_unlock(&mut s);
    let level = rt_spin_lock_irqsave(&mut s, 3);
    assert_eq!(rt_spin_unlock_irqrestore(&mut s, level), 3);
    SpinLockBackend::init(&mut s);
    SpinLockBackend::lock(&mut s);
    SpinLockBackend::unlock(&mut s);
}

#[test]
fn mailbox_send_at_entry_limit_writes_without_counting() {
    // room for more values than the entry limit of 65535
    let mut mb = Mailbox::new(70000, FIFO8);
    for v in 0..65535usize {
        assert!(matches!(mb.send(v), IpcStep::Done { .. }));
    }
    // at the limit the value is written after the others but not counted
    assert!(matches!(mb.send(999_999), IpcStep::Failed(code::ENOSPC)));
    let mut s = running();
    match mb.receive_step(0, &mut s, waiter(1, 1), SuspendFlag::Uninterruptible) {
        IpcStep::Done { value, .. } => assert_eq!(value, 0),
        _ => panic!("a value was there"),
    }
    // the next value sent goes after the uncounted one, which is now counted in its place
    assert!(matches!(mb.send(777), IpcStep::Done { .. }));
    let mut last = 0;
    for _ in 0..65535 {
        match mb.receive_step(0, &mut s, waiter(1, 1), SuspendFlag::Uninterruptible) {
            IpcStep::Done { value, .. } => last = value,
            _ => panic!("a value was there"),
        }
    }
    assert_eq!(last, 999_999);
    assert!(matches!(mb.receive_step(0, &mut s, waiter(1, 1), SuspendFlag::Uninterruptible),
        IpcStep::Failed(code::ETIMEDOUT)));
}
