use blueos::zombie::ZombieManager;
use blueos::thread::{RtThread, Tid, MAX_THREAD_SIZE, THREAD_CLASS, THREAD_TIMER_FLAGS};
use blueos::process::{get_objects_by_type, size as object_count, Kprocess};
use blueos::object::OBJECT_CLASS_STATIC;
use blueos::cpu::{rt_interrupt_enter, rt_interrupt_get_nest, rt_interrupt_leave, rt_tick_get, rt_tick_set, Cpu, Cpus};
use blueos::kconfig::get_cpus_nr;
use blueos::allocator::buddy_system_heap::{prev_power_of_two, Heap};
use blueos::error::{code, get_errno, name, set_errno, strerror, Error};
use blueos::clock::rt_tick_increase;
use blueos::header::{ExitArgs, SpawnArgs, NR};
use blueos::irq::{IrqLock, IrqLockRaw};
use blueos::kconfig::Feature;
use blueos::object::{Memheap, Mempool, ObjectClassType, NAME_MAX};
use blueos::rt_list::{rt_list_node, rt_slist_node};
use blueos::static_init::{StaticInit, UnsafeStaticInit};
use blueos::thread::{
    StackAlignedField, SuspendFlag, ThreadPriority, ThreadState, STATE_INIT, STATE_READY,
    STATE_RUNNING, STATE_SUSPENDED,
};

#[test]
fn error_names() {
    assert_eq!(Error::from_errno(-12).to_errno(), -12);
    // the table is keyed by the errno constants, which are negative
    assert_eq!(name(code_error(code::ENOMEM)), "ENOMEM  ");
    assert_eq!(name(Error(0)), "OK      ");
    assert_eq!(name(Error(-255)), "ERROR   ");
    assert_eq!(name(Error(255)), "EUNKNOW ");
    assert_eq!(name(Error(999)), "EUNKNOW ");
    // `Error::name` and `strerror` negate before the lookup
    assert_eq!(Error(116).name(), "ETIMOUT ");
    assert_eq!(Error(-116).name(), "EUNKNOW ");
    assert_eq!(Error(0).name(), "OK      ");
    assert_eq!(strerror(22), "EINVAL  ");
    assert_eq!(strerror(-22), "EUNKNOW ");
    assert_eq!(strerror(0), "OK      ");
}

#[test]
fn thread_state_bits() {
    let mut s = ThreadState::new(STATE_READY);
    assert!(s.is_ready());
    assert!(!s.is_suspended());
    s.add_yield();
    assert!(s.is_yield());
    assert!(s.is_ready());
    s.clear_yield();
    assert!(!s.is_yield());
    s.set_suspended(SuspendFlag::Killable);
    assert!(s.is_suspended());
    assert_eq!(s.get_suspend_flag(), SuspendFlag::Killable);
    assert_eq!(s.0, STATE_SUSPENDED + 1);
    s.set_base_state(ThreadState::new(STATE_RUNNING));
    assert!(s.is_running());
    assert!(ThreadState::new(STATE_INIT).is_init());
    assert!(ThreadState::new(1).is_close());
    assert_eq!(SuspendFlag::from_u8(2), SuspendFlag::Uninterruptible);
    assert_eq!(SuspendFlag::from_u8(9), SuspendFlag::Interruptible);
    assert_eq!(SuspendFlag::Killable.to_u8(), 1);
}

#[test]
fn thread_priority_masks() {
    let mut p = ThreadPriority::new(19);
    assert_eq!(p.get_current(), 19);
    assert_eq!(p.get_initial(), 19);
    assert_eq!(p.get_number(), 2);
    assert_eq!(p.get_high_mask(), 1 << 3);
    assert_eq!(p.get_number_mask(), 1 << 2);
    p.update(200);
    assert_eq!(p.get_current(), 200);
    assert_eq!(p.get_initial(), 19);
    assert_eq!(p.get_number(), 25);
    assert_eq!(p.get_high_mask(), 1);
    assert_eq!(p.get_number_mask(), 1 << 25);
}

#[test]
fn stack_field() {
    let st: StackAlignedField<64> = StackAlignedField::new();
    assert_eq!(st.size(), 64);
    assert_eq!(st.get_buf_ptr().len(), 64);
    assert!(st.get_buf_ptr().iter().all(|b| *b == 0));
}

#[test]
fn buddy_heap_split_and_merge() {
    assert_eq!(prev_power_of_two(1), 1);
    assert_eq!(prev_power_of_two(100), 64);
    assert_eq!(prev_power_of_two(4096), 4096);
    let mut h: Heap<32> = Heap::new();
    h.init(0x1000, 0x1000);
    assert_eq!(h.stats_total_bytes(), 0x1000);
    // a block of 128 bytes at 0x1000; the payload follows its 16-byte header
    let a = h.allocate(128, 8).unwrap();
    assert_eq!(a, 0x1010);
    assert_eq!(h.stats_alloc_actual(), 128);
    // aligned to 64: the payload starts at the first multiple of 64 after the header
    let b = h.allocate(0x800, 64).unwrap();
    assert_eq!(b, 0x1840);
    assert_eq!(h.allocate(0x800, 8), None);
    h.deallocate(a, 128, 8);
    h.deallocate(b, 0x800, 64);
    assert_eq!(h.stats_alloc_actual(), 0);
    assert_eq!(h.stats_alloc_max(), 128 + 0x800);
    assert_eq!(h.allocate(0x1000, 8), Some(0x1010));
    let mut e: Heap<32> = Heap::empty();
    assert_eq!(e.allocate(32, 8), None);
}

#[test]
fn objects_and_config() {
    assert_eq!(ObjectClassType::ObjectClassUninit.to_u8(), 0);
    assert_eq!(ObjectClassType::ObjectClassMailBox.to_u8(), 8);
    assert_eq!(ObjectClassType::ObjectClassUnknown.to_u8(), 15);
    assert_eq!(NAME_MAX, 8);
    let _pool = Mempool;
    let _heap = Memheap;
    assert_eq!(Feature::MessageQueue.to_string(), "messagequeue");
    assert_eq!(Feature::ThreadPriorityMax.to_string(), "thread_priority_max");
    let mut switches = [false; 15];
    switches[9] = true;
    assert!(Feature::Mailbox.is_enabled(&switches, 8));
    assert!(!Feature::Smp.is_enabled(&switches, 8));
    assert!(Feature::ThreadPriorityMax.is_enabled(&switches, 32));
    assert!(!Feature::ThreadPriorityMax.is_enabled(&switches, 8));
    let nr = NR::Write;
    assert_eq!(nr as usize, 10);
    assert_eq!(NR::LastNR as usize, 55);
    let s = SpawnArgs { spawn_hook: None, entry: 0x100, arg: 7, stack_start: 0x2000, stack_size: 512 };
    assert_eq!(s.stack_size, 512);
    let e = ExitArgs { exit_hook: Some(0x40), tid: 3, stack_start: 0x2000 };
    assert_eq!(e.tid, 3);
}

#[test]
fn static_init_once() {
    let mut u = UnsafeStaticInit::new(5u32);
    assert!(!u.is_inited());
    u.init_once();
    assert!(u.is_inited());
    assert_eq!(*u.get(), 5);
    let mut s = StaticInit::new(String::from("x"));
    assert_eq!(s.get(), "x");
    assert_eq!(s.get(), "x");
}

#[test]
fn irq_lock_levels() {
    let mut raw = IrqLockRaw::new();
    let g = raw.lock(0x80);
    assert_eq!(g.unlock(), 0x80);
    let mut l = IrqLock::new(3u8);
    {
        let g = l.lock(1);
        assert_eq!(*g.get(), 3);
        assert_eq!(g.unlock(), 1);
    }
    *l.get_mut() = 4;
    {
        let mut g = l.lock(2);
        assert_eq!(*g.get(), 4);
        *g.get_mut() += 5;
        assert_eq!(g.unlock(), 2);
    }
    let g = l.lock(3);
    assert_eq!(*g.get(), 9);
}

#[test]
fn rt_list_nodes() {
    let n = rt_list_node::new();
    assert!(n.next.is_none() && n.prev.is_none());
    assert!(!n.is_empty(0x10));
    let head = rt_list_node { next: Some(0x10), prev: Some(0x10) };
    assert!(head.is_empty(0x10));
    let s = rt_slist_node::new();
    assert!(s.isempty());
    assert_eq!(s.first(), None);
    let t = rt_slist_node { next: Some(0x20) };
    assert!(!t.isempty());
    assert_eq!(t.next(), Some(0x20));
}

use blueos::clock::{rt_tick_from_millisecond, rt_tick_get_millisecond, WAITING_FOREVER_TICKS};
use blueos::timer::{
    TimerWheel, TIMER_CTRL_GET_REMAIN_TIME, TIMER_CTRL_GET_STATE, TIMER_CTRL_GET_TIME,
    TIMER_CTRL_SET_ONESHOT, TIMER_CTRL_SET_PERIODIC, TIMER_CTRL_SET_TIME, TIMER_FLAG_ACTIVATED,
    TIMER_FLAG_PERIODIC, RT_TICK_MAX,
};

#[test]
fn clock_conversions() {
    assert_eq!(rt_tick_from_millisecond(-1, 1000), WAITING_FOREVER_TICKS);
    assert_eq!(rt_tick_from_millisecond(1500, 100), 150);
    assert_eq!(rt_tick_from_millisecond(1, 100), 1);
    assert_eq!(rt_tick_from_millisecond(0, 100), 0);
    assert_eq!(rt_tick_from_millisecond(2001, 1000), 2001);
    assert_eq!(rt_tick_get_millisecond(15, 100), 150);
    assert_eq!(rt_tick_get_millisecond(7, 1000), 7);
}

#[test]
fn timer_wheel_orders_and_fires() {
    let mut w = TimerWheel::new();
    let a = w.create(32, 0);
    let b = w.create(64, TIMER_FLAG_PERIODIC | TIMER_FLAG_ACTIVATED);
    let c = w.create(0, 0);
    assert_eq!(w.timer_control(b, TIMER_CTRL_GET_STATE, 0), 0);
    w.timer_start(b, 100);
    w.timer_start(a, 100);
    assert_eq!(w.timer_control(a, TIMER_CTRL_GET_REMAIN_TIME, 0), 132);
    assert_eq!(w.timer_control(b, TIMER_CTRL_GET_STATE, 0), 1);
    assert_eq!(w.next_timeout_tick(), 132);
    assert_eq!(w.next_expired(131), None);
    assert_eq!(w.next_expired(132), Some(a));
    assert!(!w.restart_after_fire(a, 132));
    assert_eq!(w.timer_control(a, TIMER_CTRL_GET_STATE, 0), 0);
    assert_eq!(w.next_expired(200), Some(b));
    assert!(w.restart_after_fire(b, 200));
    assert_eq!(w.timer_control(b, TIMER_CTRL_GET_REMAIN_TIME, 0), 264);
    assert!(w.start(c, 5));
    assert_eq!(w.timer_control(c, TIMER_CTRL_GET_STATE, 0), 0);
    assert!(w.stop(b));
    assert!(!w.stop(b));
    assert_eq!(w.next_timeout_tick(), RT_TICK_MAX);
    w.timer_control(a, TIMER_CTRL_SET_TIME, 5);
    assert_eq!(w.timer_control(a, TIMER_CTRL_GET_TIME, 0), 5);
    w.timer_control(a, TIMER_CTRL_SET_PERIODIC, 0);
    assert!(!w.start(a, 10));
    // queued to fire its period after the tick it was started at
    assert_eq!(w.timer_control(a, TIMER_CTRL_GET_REMAIN_TIME, 0), 15);
    assert_eq!(w.timer_control(a, TIMER_CTRL_GET_STATE, 0), 1);
    assert_eq!(w.get_time(a), 5);
    w.timer_control(a, TIMER_CTRL_SET_ONESHOT, 0);
    for _ in 0..5 {
        w.advance_cursor();
    }
    assert_eq!(w.next_expired(15), Some(a));
    assert!(!w.restart_after_fire(a, 15));
    w.timer_stop(a);
    w.timer_remove(a);
}

/// A thread set up at address `me`, with a stack of 0x100 bytes at
/// 0x8000 whose prepared stack pointer is 0x80c0.
fn thread_at(process: &mut Kprocess, tids: &mut Tid, me: usize, priority: u8, tick: u32) -> RtThread {
    RtThread::new(process, tids, me, b"worker\0", false, 0x8000, 0x100, 0x80c0, priority, tick)
}

#[test]
fn thread_ids_come_from_the_counter_then_the_first_free() {
    let mut process = Kprocess::new();
    let mut tids = Tid::new();
    assert_eq!(RtThread::new_tid(&mut tids), 0);
    assert_eq!(RtThread::new_tid(&mut tids), 1);
    // nothing was marked in use, so the counter's proposals stand
    let a = thread_at(&mut process, &mut tids, 0x4000, 10, 5);
    assert_eq!(a.get_tid(), 2);
    assert!(tids.is_used(2));
    assert_eq!(tids.get(2), Some(0x4000));
    // identifier 3 is taken: the least free one is chosen and the counter restarts
    tids.set(3, Some(0x10));
    tids.set(0, Some(0x20));
    assert_eq!(RtThread::new_tid(&mut tids), 1);
    assert_eq!(RtThread::new_tid(&mut tids), 1);
    for i in 0..MAX_THREAD_SIZE {
        tids.set(i, Some(0x1000 + i));
    }
    tids.set(700, None);
    assert_eq!(RtThread::new_tid(&mut tids), 700);
}

#[test]
fn thread_time_slice_runs_out_and_yields() {
    let mut process = Kprocess::new();
    let mut tids = Tid::new();
    let mut t = thread_at(&mut process, &mut tids, 0x4000, 3, 2);
    assert!(!t.stat.is_yield());
    assert!(!t.handle_tick_increase());
    assert_eq!(t.remaining_ticks(), 1);
    assert!(t.handle_tick_increase());
    assert_eq!(t.remaining_ticks(), 2);
    assert!(t.stat.is_yield());
    assert!(t.stat.is_init());
    t.stat.clear_yield();
    t.reset_to_yield();
    assert!(t.stat.is_yield());
    assert_eq!(t.priority.get_current(), 3);
}

#[test]
fn cpu_counters_wrap_like_atomics() {
    let mut c = Cpu::new();
    assert_eq!(c.tick_inc(), 0);
    assert_eq!(c.tick_load(), 1);
    c.tick_store(u32::MAX);
    assert_eq!(c.tick_inc(), u32::MAX);
    assert_eq!(c.tick_load(), 0);
    assert!(!c.is_in_interrupt());
    assert_eq!(c.interrupt_nest_inc(), 0);
    assert!(c.is_in_interrupt());
    assert_eq!(c.interrupt_nest_dec(), 1);
    assert_eq!(c.interrupt_nest_dec(), 0);
    assert_eq!(c.interrupt_nest_load(), u32::MAX);
}

#[test]
fn cpus_lock_is_taken_at_the_outermost_level() {
    let mut cpus = Cpus::new(2);
    cpus.lock_cpus(1);
    assert!(cpus.cpu_lock);
    cpus.lock_cpus(1);
    assert_eq!(cpus.inner[1].cpu_lock_nest_load(), 2);
    cpus.unlock_cpus(1);
    assert!(cpus.cpu_lock);
    cpus.unlock_cpus(1);
    assert!(!cpus.cpu_lock);
    assert_eq!(cpus.inner[1].cpu_lock_nest_load(), 0);
    rt_tick_set(&mut cpus, 42);
    assert_eq!(rt_tick_get(&cpus), 42);
    rt_interrupt_enter(&mut cpus, 0);
    rt_interrupt_enter(&mut cpus, 0);
    assert_eq!(rt_interrupt_get_nest(&cpus, 0), 2);
    rt_interrupt_leave(&mut cpus, 0);
    assert_eq!(rt_interrupt_get_nest(&cpus, 0), 1);
    assert_eq!(rt_interrupt_get_nest(&cpus, 1), 0);
}

#[test]
fn cpus_number_follows_the_smp_switch() {
    assert_eq!(get_cpus_nr(false, 4), 1);
    assert_eq!(get_cpus_nr(true, 4), 4);
}

#[test]
fn thread_state_changes_of_its_own() {
    let mut process = Kprocess::new();
    let mut tids = Tid::new();
    let mut t = thread_at(&mut process, &mut tids, 0x4000, 20, 4);
    // a thread in its first state cannot be suspended
    assert!(!t.suspend(SuspendFlag::Interruptible));
    assert!(t.stat.is_init());
    t.start();
    assert!(t.stat.is_suspended());
    assert_eq!(t.stat.get_suspend_flag(), SuspendFlag::Uninterruptible);
    t.stat.set_base_state(ThreadState::new(STATE_READY));
    assert!(t.change_priority(9));
    assert!(t.stat.is_init());
    assert_eq!(t.priority.get_current(), 9);
    assert_eq!(t.priority.get_initial(), 20);
    assert!(!t.change_priority(7));
    t.stat.set_base_state(ThreadState::new(STATE_RUNNING));
    assert!(t.suspend(SuspendFlag::Killable));
    assert_eq!(t.stat.get_suspend_flag(), SuspendFlag::Killable);
    t.handle_timeout();
    assert_eq!(t.error, code::ETIMEDOUT);
    assert_eq!(t.close(), (true, true));
    assert!(t.stat.is_close());
    assert_eq!(t.close(), (false, false));
    let mut fresh = thread_at(&mut process, &mut tids, 0x5000, 1, 1);
    assert_eq!(fresh.close(), (false, true));
}

#[test]
fn zombies_are_taken_last_in_first_out() {
    let mut z = ZombieManager::new();
    assert_eq!(z.zombie_dequeue(), None);
    z.zombie_enqueue(4);
    z.zombie_enqueue(9);
    z.zombie_enqueue(2);
    assert_eq!(z.zombie_dequeue(), Some(2));
    z.zombie_enqueue(7);
    assert_eq!(z.reclaim(), vec![7, 9, 4]);
    assert_eq!(z.zombie_dequeue(), None);
}

#[test]
fn buddy_heap_reallocate_grows_or_keeps() {
    let mut h: Heap<32> = Heap::new();
    h.init(0x1000, 0x1000);
    let a = h.allocate(128, 8).unwrap();
    assert_eq!(a, 0x1010);
    // the header and 100 bytes still fit the block of 128 bytes
    assert_eq!(h.reallocate(a, 128, 8, 100, 128), Some(a));
    assert_eq!(h.stats_alloc_actual(), 128);
    // 300 bytes need a new block of 512 (at 0x1200); the old one goes back
    let b = h.reallocate(a, 128, 8, 300, 320).unwrap();
    assert_eq!(b, 0x1210);
    assert_eq!(h.stats_alloc_actual(), 512);
    // nothing of 0x2000 bytes is free: the old allocation stays
    assert_eq!(h.reallocate(b, 512, 8, 0x1000, 0x1020), None);
    assert_eq!(h.stats_alloc_actual(), 512);
    // an offset plus size that overflows is refused
    assert_eq!(h.reallocate(b, 512, 8, usize::MAX, 0x1020), None);
    h.deallocate(b, 512, 8);
    assert_eq!(h.allocate(0x1000, 8), Some(0x1010));
}

fn code_error(e: i32) -> Error {
    Error::from_errno(e)
}

#[test]
fn slist_operations() {
    // node 0 heads the list; nodes 1..=4 go on it
    let mut nodes = vec![rt_slist_node::new(); 5];
    assert_eq!(rt_slist_node::len(&nodes, 0), 0);
    assert_eq!(rt_slist_node::tail(&nodes, 0), 0);
    rt_slist_node::append(&mut nodes, 0, 1);
    rt_slist_node::append(&mut nodes, 0, 2);
    rt_slist_node::insert(&mut nodes, 0, 3);
    rt_slist_node::append(&mut nodes, 0, 4);
    // 3, 1, 2, 4
    assert_eq!(rt_slist_node::len(&nodes, 0), 4);
    assert_eq!(rt_slist_node::tail(&nodes, 0), 4);
    assert_eq!(nodes[0].first(), Some(3));
    assert_eq!(nodes[3].next(), Some(1));
    assert!(nodes[4].isempty());
    // the walk takes two steps at a time: 2 (third) is found, 1 (second) is not
    assert_eq!(rt_slist_node::remove(&mut nodes, 0, 2), 0);
    assert_eq!(rt_slist_node::len(&nodes, 0), 3);
    assert_eq!(nodes[1].next(), Some(4));
    // 3, 1, 4: the first is found
    rt_slist_node::remove(&mut nodes, 0, 3);
    assert_eq!(nodes[0].first(), Some(1));
    assert_eq!(rt_slist_node::len(&nodes, 0), 2);
    // 1, 4: 4 is second, so nothing is taken off
    rt_slist_node::remove(&mut nodes, 0, 4);
    assert_eq!(rt_slist_node::len(&nodes, 0), 2);
    assert_eq!(rt_slist_node::tail(&nodes, 0), 4);
}

#[test]
fn list_ring_length() {
    // a ring 0 -> 1 -> 2 -> 0 of three nodes: the head has two after it
    let nodes = vec![
        rt_list_node { next: Some(1), prev: Some(2) },
        rt_list_node { next: Some(2), prev: Some(0) },
        rt_list_node { next: Some(0), prev: Some(1) },
    ];
    assert_eq!(rt_list_node::len(&nodes, 0), 2);
    assert_eq!(rt_list_node::len(&nodes, 1), 2);
    let alone = vec![rt_list_node { next: Some(0), prev: Some(0) }];
    assert_eq!(rt_list_node::len(&alone, 0), 0);
    assert!(alone[0].is_empty(0));
}

#[test]
fn thread_setup_registers_and_prepares_the_thread() {
    let mut process = Kprocess::new();
    let mut tids = Tid::new();
    let t = RtThread::new(&mut process, &mut tids, 0x4000, b"idle\0", true, 0x8000, 0x200, 0x81c0, 31, 10);
    assert_eq!(t.parent.type_, THREAD_CLASS | OBJECT_CLASS_STATIC);
    assert_eq!(t.parent.name(), b"idle\0\0\0\0");
    let mut found = [0usize; 4];
    assert_eq!(get_objects_by_type(&process, THREAD_CLASS, &mut found), 1);
    assert_eq!(found[0], 0x4000);
    assert_eq!((t.stack.bottom, t.stack.size, t.stack.sp), (0x8000, 0x200, 0x81c0));
    assert_eq!(t.thread_timer.flag, THREAD_TIMER_FLAGS);
    assert_eq!(t.thread_timer.init_tick, 0);
    assert!(t.thread_timer.row.is_none());
    assert_eq!(t.error, 0);
    assert!(t.mutex_info.pending_to.is_none());
    assert_eq!((t.event_info.set, t.event_info.info), (0, 0));
    assert_eq!(tids.get(t.get_tid()), Some(0x4000));
    let u = RtThread::new(&mut process, &mut tids, 0x6000, b"w\0", false, 0x9000, 0x100, 0x90c0, 5, 1);
    assert_eq!(u.parent.type_, THREAD_CLASS);
    assert_eq!(object_count(&process, THREAD_CLASS), 2);
    assert_ne!(u.get_tid(), t.get_tid());
}

#[test]
fn errno_goes_to_the_running_thread_or_the_kernel() {
    let mut process = Kprocess::new();
    let mut tids = Tid::new();
    let mut t = thread_at(&mut process, &mut tids, 0x4000, 3, 2);
    let mut global = 0;
    // in a thread, outside interrupts: the thread's error
    set_errno(0, Some(&mut t), &mut global, code::ENOMEM);
    assert_eq!(t.error, code::ENOMEM);
    assert_eq!(global, 0);
    assert_eq!(get_errno(0, Some(&t), global), code::ENOMEM);
    // in an interrupt handler: the kernel's own
    set_errno(1, Some(&mut t), &mut global, code::EIO);
    assert_eq!(t.error, code::ENOMEM);
    assert_eq!(get_errno(1, Some(&t), global), code::EIO);
    // no thread running: the kernel's own
    set_errno(0, None, &mut global, code::EBUSY);
    assert_eq!(get_errno(0, None, global), code::EBUSY);
}

#[test]
fn tick_increase_counts_and_serves_the_time_slice() {
    let mut process = Kprocess::new();
    let mut tids = Tid::new();
    let mut t = thread_at(&mut process, &mut tids, 0x4000, 3, 2);
    let mut cpus = Cpus::new(1);
    rt_interrupt_enter(&mut cpus, 0);
    assert!(!rt_tick_increase(&mut cpus, 0, &mut t));
    assert_eq!(rt_tick_get(&cpus), 1);
    assert_eq!(t.remaining_ticks(), 1);
    assert!(rt_tick_increase(&mut cpus, 0, &mut t));
    assert_eq!(rt_tick_get(&cpus), 2);
    assert_eq!(t.remaining_ticks(), 2);
    assert!(t.stat.is_yield());
}
