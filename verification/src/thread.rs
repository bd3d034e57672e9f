use vstd::prelude::*;
use crate::klibc::is_cstr;
use crate::object::{class_of, named, KObjectBase, NAME_MAX, OBJECT_CLASS_STATIC};
use crate::process::Kprocess;
use crate::sync::spinlock::RawSpin;
use crate::timer::{TimerInfo, TIMER_FLAG_THREAD_TIMER};

verus! {

/// How a suspended thread may be woken early.
#[derive(Debug, Clone, Copy, PartialEq, Eq, Structural)]
pub enum SuspendFlag {
    Interruptible,
    Killable,
    Uninterruptible,
}

/// The numeric code of a suspend flag (its position in the enum).
pub open spec fn suspend_flag_code(f: SuspendFlag) -> u8 {
    match f {
        SuspendFlag::Interruptible => 0,
        SuspendFlag::Killable => 1,
        SuspendFlag::Uninterruptible => 2,
    }
}

/// The flag that a code denotes; codes past the last flag read as
/// `Interruptible`.
pub open spec fn suspend_flag_of(value: u8) -> SuspendFlag {
    if value == 1 {
        SuspendFlag::Killable
    } else if value == 2 {
        SuspendFlag::Uninterruptible
    } else {
        SuspendFlag::Interruptible
    }
}

impl SuspendFlag {
    pub fn from_u8(value: u8) -> (f: Self)
        ensures
            f == suspend_flag_of(value),
    {
        match value {
            0 => SuspendFlag::Interruptible,
            1 => SuspendFlag::Killable,
            2 => SuspendFlag::Uninterruptible,
            _ => SuspendFlag::Interruptible,
        }
    }

    /// The numeric code of the flag.
    pub fn to_u8(self) -> (v: u8)
        ensures
            v == suspend_flag_code(self),
    {
        match self {
            SuspendFlag::Interruptible => 0,
            SuspendFlag::Killable => 1,
            SuspendFlag::Uninterruptible => 2,
        }
    }
}

/// Base state `INIT` (low three bits).
pub const STATE_INIT: u8 = 0;
/// Base state `CLOSE`.
pub const STATE_CLOSE: u8 = 1;
/// Base state `READY`.
pub const STATE_READY: u8 = 2;
/// Base state `RUNNING`.
pub const STATE_RUNNING: u8 = 3;
/// The suspended bit; the two bits below it hold the suspend flag.
pub const STATE_SUSPENDED: u8 = 4;
/// Mask of the base state.
pub const STATE_MASK: u8 = 7;
/// The yield bit.
pub const STATE_YIELD: u8 = 8;

/// The state word of a thread: a base state in bits 0..3 (with bit 2 the
/// suspended bit and bits 0..2 the suspend flag while suspended) and the
/// yield request in bit 3.
#[derive(Debug, Clone, Copy, PartialEq, Eq, Structural)]
pub struct ThreadState(pub u8);

/// The base state of a state word: its low three bits.
pub open spec fn base_state_of(s: u8) -> u8 {
    (s % 8) as u8
}

/// Whether the suspended bit is set.
pub open spec fn suspended_bit(s: u8) -> bool {
    (s / 4) % 2 == 1
}

/// Whether the yield bit is set.
pub open spec fn yield_bit(s: u8) -> bool {
    (s / 8) % 2 == 1
}

impl ThreadState {
    /// A state word with the given bits.
    pub fn new(bits: u8) -> (s: Self)
        ensures
            s.0 == bits,
    {
        ThreadState(bits)
    }

    fn base_state(self) -> (s: u8)
        ensures
            s == base_state_of(self.0),
    {
        let v = self.0;
        assert(v & 7 == v % 8) by (bit_vector);
        v & STATE_MASK
    }

    pub fn is_init(self) -> (b: bool)
        ensures
            b <==> base_state_of(self.0) == STATE_INIT,
    {
        self.base_state() == STATE_INIT
    }

    pub fn is_close(self) -> (b: bool)
        ensures
            b <==> base_state_of(self.0) == STATE_CLOSE,
    {
        self.base_state() == STATE_CLOSE
    }

    pub fn is_ready(self) -> (b: bool)
        ensures
            b <==> base_state_of(self.0) == STATE_READY,
    {
        self.base_state() == STATE_READY
    }

    pub fn is_running(self) -> (b: bool)
        ensures
            b <==> base_state_of(self.0) == STATE_RUNNING,
    {
        self.base_state() == STATE_RUNNING
    }

    pub fn is_suspended(self) -> (b: bool)
        ensures
            b <==> suspended_bit(self.0),
    {
        let v = self.0;
        assert((v & 4 != 0) == ((v / 4) % 2 == 1)) by (bit_vector);
        (v & STATE_SUSPENDED) != 0
    }

    /// The suspend flag held in the two lowest bits.
    pub fn get_suspend_flag(self) -> (f: SuspendFlag)
        ensures
            f == suspend_flag_of((self.0 % 4) as u8),
    {
        let v = self.0;
        assert(v & 3 == v % 4) by (bit_vector);
        SuspendFlag::from_u8(v & 3)
    }

    pub fn is_yield(self) -> (b: bool)
        ensures
            b <==> yield_bit(self.0),
    {
        let v = self.0;
        assert((v & 8 != 0) == ((v / 8) % 2 == 1)) by (bit_vector);
        (v & STATE_YIELD) != 0
    }

    /// Replaces the whole state word (the yield bit included) by `state`.
    pub fn set_base_state(&mut self, state: Self)
        ensures
            final(self).0 == state.0,
    {
        self.0 = state.0;
    }

    /// Marks the thread suspended with the given flag; the yield bit is
    /// cleared.
    pub fn set_suspended(&mut self, flag: SuspendFlag)
        ensures
            final(self).0 == STATE_SUSPENDED + suspend_flag_code(flag),
            suspended_bit(final(self).0),
            !yield_bit(final(self).0),
            suspend_flag_of((final(self).0 % 4) as u8) == flag,
    {
        let f = flag.to_u8();
        assert(f <= 2 ==> 4u8 | f == 4 + f) by (bit_vector);
        self.0 = STATE_SUSPENDED | f;
    }

    /// Sets the yield bit; the base state is kept.
    pub fn add_yield(&mut self)
        ensures
            yield_bit(final(self).0),
            base_state_of(final(self).0) == base_state_of(old(self).0),
            suspended_bit(final(self).0) == suspended_bit(old(self).0),
            final(self).0 % 8 == old(self).0 % 8,
            final(self).0 / 16 == old(self).0 / 16,
    {
        let v = self.0;
        assert((v | 8) % 8 == v % 8 && ((v | 8) / 8) % 2 == 1 && (v | 8) / 16 == v / 16)
            by (bit_vector);
        self.0 = v | STATE_YIELD;
    }

    /// Clears the yield bit; the base state is kept.
    pub fn clear_yield(&mut self)
        ensures
            !yield_bit(final(self).0),
            final(self).0 % 8 == old(self).0 % 8,
            final(self).0 / 16 == old(self).0 / 16,
    {
        let v = self.0;
        assert((v & !8u8) % 8 == v % 8 && ((v & !8u8) / 8) % 2 == 0 && (v & !8u8) / 16 == v / 16)
            by (bit_vector);
        self.0 = v & !STATE_YIELD;
    }
}

/// The priority bookkeeping of a thread: its current and initial priority,
/// the group number (priority / 8), the bit of the priority within its
/// group and the bit of the group.
#[derive(Debug, Clone, Copy)]
pub struct ThreadPriority {
    current: u8,
    initial: u8,
    number: u8,
    high_mask: u8,
    number_mask: u32,
}

impl ThreadPriority {
    /// The masks follow the current priority.
    pub open spec fn masks_match(self) -> bool {
        &&& self.number_spec() == self.current_spec() / 8
        &&& self.high_mask_spec() as nat == vstd::arithmetic::power2::pow2((self.current_spec() % 8) as nat)
        &&& self.number_mask_spec() as nat == vstd::arithmetic::power2::pow2((self.current_spec() / 8) as nat)
    }

    pub closed spec fn current_spec(self) -> u8 {
        self.current
    }

    pub closed spec fn initial_spec(self) -> u8 {
        self.initial
    }

    pub closed spec fn number_spec(self) -> u8 {
        self.number
    }

    pub closed spec fn high_mask_spec(self) -> u8 {
        self.high_mask
    }

    pub closed spec fn number_mask_spec(self) -> u32 {
        self.number_mask
    }

    pub fn new(priority: u8) -> (p: Self)
        ensures
            p.current_spec() == priority,
            p.initial_spec() == priority,
            p.masks_match(),
    {
        let number = priority >> 3;
        assert(number == priority / 8) by (bit_vector)
            requires
                number == priority >> 3,
        ;
        let (high_mask, number_mask) = Self::masks(priority);
        ThreadPriority { current: priority, initial: priority, number, high_mask, number_mask }
    }

    fn masks(priority: u8) -> (r: (u8, u32))
        ensures
            r.0 as nat == vstd::arithmetic::power2::pow2((priority % 8) as nat),
            r.1 as nat == vstd::arithmetic::power2::pow2((priority / 8) as nat),
    {
        let number = priority >> 3;
        let low = priority & 0x07;
        assert(number == priority / 8 && low == priority % 8 && number < 32 && low < 8)
            by (bit_vector)
            requires
                number == priority >> 3,
                low == priority & 0x07,
        ;
        proof {
            vstd::arithmetic::power2::lemma2_to64();
            vstd::arithmetic::power2::lemma_pow2_strictly_increases(low as nat, 8);
            vstd::arithmetic::power2::lemma_pow2_strictly_increases(number as nat, 32);
            vstd::bits::lemma_u8_shl_is_mul(1, low);
            vstd::bits::lemma_u32_shl_is_mul(1, number as u32);
        }
        ((1u8 << low), (1u32 << (number as u32)))
    }

    /// Changes the current priority; the initial one is kept.
    pub fn update(&mut self, new_priority: u8)
        ensures
            final(self).current_spec() == new_priority,
            final(self).initial_spec() == old(self).initial_spec(),
            final(self).masks_match(),
    {
        self.current = new_priority;
        let number = new_priority >> 3;
        assert(number == new_priority / 8) by (bit_vector)
            requires
                number == new_priority >> 3,
        ;
        self.number = number;
        let (h, n) = Self::masks(new_priority);
        self.high_mask = h;
        self.number_mask = n;
    }

    pub fn get_current(&self) -> (r: u8)
        ensures
            r == self.current_spec(),
    {
        self.current
    }

    pub fn get_initial(&self) -> (r: u8)
        ensures
            r == self.initial_spec(),
    {
        self.initial
    }

    pub fn get_number(&self) -> (r: u8)
        ensures
            r == self.number_spec(),
    {
        self.number
    }

    pub fn get_high_mask(&self) -> (r: u8)
        ensures
            r == self.high_mask_spec(),
    {
        self.high_mask
    }

    /// The bit of the priority group.
    pub fn get_number_mask(&self) -> (r: u32)
        ensures
            r == self.number_mask_spec(),
    {
        self.number_mask
    }
}

/// The stack memory of a thread, `STACK_SIZE` bytes, zeroed at first.
pub struct StackAlignedField<const STACK_SIZE: usize> {
    buf: Vec<u8>,
}

impl<const STACK_SIZE: usize> StackAlignedField<STACK_SIZE> {
    /// The bytes of the stack.
    pub closed spec fn bytes(&self) -> Seq<u8> {
        self.buf@
    }

    /// A zeroed stack.
    pub fn new() -> (s: Self)
        ensures
            s.bytes().len() == STACK_SIZE,
            forall|i: int| 0 <= i < STACK_SIZE ==> s.bytes()[i] == 0,
    {
        let mut buf: Vec<u8> = Vec::new();
        let mut i: usize = 0;
        while i < STACK_SIZE
            invariant
                i <= STACK_SIZE,
                buf@.len() == i,
                forall|k: int| 0 <= k < i ==> buf@[k] == 0,
            decreases STACK_SIZE - i,
        {
            buf.push(0);
            i = i + 1;
        }
        StackAlignedField { buf }
    }

    /// The stack's size in bytes.
    pub fn size(&self) -> (n: usize)
        ensures
            n == STACK_SIZE,
    {
        STACK_SIZE
    }

    /// The stack's memory.
    pub fn get_buf_ptr(&self) -> (b: &[u8])
        ensures
            b@ == self.bytes(),
    {
        self.buf.as_slice()
    }
}

/// The most threads that can hold an identifier at once.
pub const MAX_THREAD_SIZE: usize = 1024;

/// The table of thread identifiers: for each, the address of the thread
/// that holds it, none when it is free; and the counter that proposes the
/// next identifier.
pub struct Tid {
    id: Vec<Option<usize>>,
    next: usize,
}

/// The least identifier not in use, given that there is one.
pub open spec fn first_free(used: Seq<bool>, i: int) -> bool {
    0 <= i < used.len() && !used[i] && forall|j: int| 0 <= j < i ==> used[j]
}

impl Tid {
    /// The thread registered under each identifier.
    pub closed spec fn entries(&self) -> Seq<Option<usize>> {
        self.id@
    }

    /// Which identifiers are in use.
    pub open spec fn used(&self) -> Seq<bool> {
        self.entries().map_values(|e: Option<usize>| e is Some)
    }

    /// The identifier the counter proposes next.
    pub closed spec fn counter(&self) -> usize {
        self.next
    }

    /// One place per identifier.
    pub open spec fn wf(&self) -> bool {
        self.entries().len() == MAX_THREAD_SIZE
    }

    /// No identifier in use, the counter at 0.
    pub fn new() -> (t: Self)
        ensures
            t.wf(),
            t.counter() == 0,
            forall|i: int| 0 <= i < MAX_THREAD_SIZE ==> t.entries()[i] is None,
            forall|i: int| 0 <= i < MAX_THREAD_SIZE ==> !t.used()[i],
    {
        let mut id: Vec<Option<usize>> = Vec::new();
        let mut i: usize = 0;
        while i < MAX_THREAD_SIZE
            invariant
                i <= MAX_THREAD_SIZE,
                id@.len() == i,
                forall|k: int| 0 <= k < i ==> id@[k] is None,
            decreases MAX_THREAD_SIZE - i,
        {
            id.push(None);
            i = i + 1;
        }
        Tid { id, next: 0 }
    }

    /// Whether the identifier `tid` is in use.
    pub fn is_used(&self, tid: usize) -> (b: bool)
        requires
            self.wf(),
            tid < MAX_THREAD_SIZE,
        ensures
            b == self.used()[tid as int],
    {
        self.id[tid].is_some()
    }

    /// The thread registered under `tid`, if any.
    pub fn get(&self, tid: usize) -> (r: Option<usize>)
        requires
            self.wf(),
            tid < MAX_THREAD_SIZE,
        ensures
            r == self.entries()[tid as int],
    {
        self.id[tid]
    }

    /// Registers the thread at address `thread` under `tid`, or frees the
    /// identifier when `thread` is none.
    pub fn set(&mut self, tid: usize, thread: Option<usize>)
        requires
            old(self).wf(),
            tid < MAX_THREAD_SIZE,
        ensures
            final(self).wf(),
            final(self).entries() == old(self).entries().update(tid as int, thread),
            final(self).used() == old(self).used().update(tid as int, thread is Some),
            final(self).counter() == old(self).counter(),
    {
        self.id.set(tid, thread);
        assert(self.used() =~= old(self).used().update(tid as int, thread is Some));
    }
}

/// The time a thread runs before it yields: its length in ticks and the
/// ticks left of it.
#[derive(Debug, Clone, Copy)]
pub struct TimeSlice {
    pub init: u32,
    pub remaining: u32,
}

/// A thread's stack: where it starts, its size, and the saved stack
/// pointer.
#[derive(Debug, Clone, Copy)]
pub struct Stack {
    pub bottom: usize,
    pub size: usize,
    pub sp: usize,
}

/// What a thread keeps for the mutexes: the mutex it waits for, if any.
/// (The mutexes it holds are kept in `sync::mutex::TakenLists`.)
#[derive(Debug, Clone, Copy)]
pub struct MutexInfo {
    pub pending_to: Option<usize>,
}

/// What a thread keeps for the events it waits for: the set and the
/// option of the wait.
#[derive(Debug, Clone, Copy)]
pub struct EventInfo {
    pub set: u32,
    pub info: u8,
}

/// The object class of threads.
pub const THREAD_CLASS: u8 = 2;

/// The flags of a thread's own timer: one shot, marked as a thread timer.
pub const THREAD_TIMER_FLAGS: u8 = TIMER_FLAG_THREAD_TIMER;

/// The bookkeeping a thread keeps of itself: its kernel object, state
/// word, priorities, stack, timer, lock, last error, identifier, time
/// slice, and what it keeps for mutexes and events.
pub struct RtThread {
    pub parent: KObjectBase,
    pub stat: ThreadState,
    pub priority: ThreadPriority,
    pub stack: Stack,
    pub thread_timer: TimerInfo,
    pub spinlock: RawSpin,
    pub error: i32,
    pub tid: usize,
    pub time_slice: TimeSlice,
    pub mutex_info: MutexInfo,
    pub event_info: EventInfo,
}

impl RtThread {
    /// The thread's identifier.
    pub open spec fn tid_spec(&self) -> usize {
        self.tid
    }

    /// The thread's time slice.
    pub open spec fn slice(&self) -> TimeSlice {
        self.time_slice
    }

    /// A new identifier: the one the counter proposes, which moves on, if
    /// it is below the limit and free; else the least free one, and the
    /// counter starts again at 0. Some identifier must be free.
    pub fn new_tid(tids: &mut Tid) -> (id: usize)
        requires
            old(tids).wf(),
            exists|i: int| 0 <= i < MAX_THREAD_SIZE && !old(tids).used()[i],
        ensures
            final(tids).wf(),
            final(tids).entries() == old(tids).entries(),
            final(tids).used() == old(tids).used(),
            id < MAX_THREAD_SIZE,
            !old(tids).used()[id as int],
            ({
                let c = old(tids).counter();
                if c < MAX_THREAD_SIZE && !old(tids).used()[c as int] {
                    id == c && final(tids).counter() == c + 1
                } else {
                    first_free(old(tids).used(), id as int) && final(tids).counter() == 0
                }
            }),
    {
        let id = tids.next;
        tids.next = id.wrapping_add(1);
        if id >= MAX_THREAD_SIZE || tids.id[id].is_some() {
            let mut i: usize = 0;
            while i < MAX_THREAD_SIZE
                invariant
                    tids.wf(),
                    tids.entries() == old(tids).entries(),
                    tids.used() == old(tids).used(),
                    id == old(tids).counter(),
                    id >= MAX_THREAD_SIZE || old(tids).used()[id as int],
                    i <= MAX_THREAD_SIZE,
                    forall|j: int| 0 <= j < i ==> tids.used()[j],
                    exists|k: int| 0 <= k < MAX_THREAD_SIZE && !tids.used()[k],
                decreases MAX_THREAD_SIZE - i,
            {
                if tids.id[i].is_none() {
                    tids.next = 0;
                    return i;
                }
                i = i + 1;
            }
            proof {
                let k = choose|k: int| 0 <= k < MAX_THREAD_SIZE && !tids.used()[k];
                assert(tids.used()[k]);
            }
            return 0;
        }
        id
    }

    /// Sets up the thread that lives at the address `me`: its kernel
    /// object of the thread class, named `name` and put on the process's
    /// thread list (marked static when `is_static`); its first state; the
    /// priority `priority`; the stack of `stack_size` bytes at
    /// `stack_start`, with the stack pointer `sp` that the architecture
    /// prepared on it for the thread's entry; its own timer, stopped, one
    /// shot, with no period; a free lock; no error; a new identifier under
    /// which the thread is registered; a time slice of `tick` ticks; no
    /// mutex waited for and no event set. Some identifier must be free.
    pub fn new(process: &mut Kprocess, tids: &mut Tid, me: usize, name: &[u8], is_static: bool,
        stack_start: usize, stack_size: usize, sp: usize, priority: u8, tick: u32) -> (t: Self)
        requires
            old(tids).wf(),
            exists|i: int| 0 <= i < MAX_THREAD_SIZE && !old(tids).used()[i],
            old(process).wf(),
            is_cstr(name@),
            !old(process).listed(me),
        ensures
            t.parent.wf(),
            t.parent.type_ == (if is_static { THREAD_CLASS | OBJECT_CLASS_STATIC } else { THREAD_CLASS }),
            t.parent.name@ == named(Seq::new(NAME_MAX as nat, |i: int| 0u8), name@),
            final(process).wf(),
            final(process)@ == old(process).inserted(THREAD_CLASS, me),
            t.stat.0 == STATE_INIT,
            t.priority.current_spec() == priority,
            t.priority.initial_spec() == priority,
            t.priority.masks_match(),
            t.stack.bottom == stack_start && t.stack.size == stack_size && t.stack.sp == sp,
            t.thread_timer == (TimerInfo { init_tick: 0, timeout_tick: 0, flag: THREAD_TIMER_FLAGS, row: None }),
            !t.spinlock.held(),
            t.error == 0,
            t.slice().init == tick && t.slice().remaining == tick,
            t.mutex_info.pending_to is None,
            t.event_info.set == 0 && t.event_info.info == 0,
            final(tids).wf(),
            t.tid_spec() < MAX_THREAD_SIZE,
            !old(tids).used()[t.tid_spec() as int],
            final(tids).entries() == old(tids).entries().update(t.tid_spec() as int, Some(me)),
    {
        let mut zeros: Vec<u8> = Vec::new();
        let mut i: usize = 0;
        while i < NAME_MAX
            invariant
                i <= NAME_MAX,
                zeros@ == Seq::new(i as nat, |k: int| 0u8),
            decreases NAME_MAX - i,
        {
            zeros.push(0);
            i = i + 1;
            assert(zeros@ =~= Seq::new(i as nat, |k: int| 0u8));
        }
        let mut parent = KObjectBase::new(0, zeros);
        proof {
            assert(class_of(THREAD_CLASS | OBJECT_CLASS_STATIC) == THREAD_CLASS) by (bit_vector);
            assert(class_of(THREAD_CLASS) == THREAD_CLASS) by (bit_vector);
        }
        if is_static {
            parent.init(process, me, THREAD_CLASS, name);
        } else {
            parent.init_dyn(process, me, THREAD_CLASS, name);
        }
        let tid = Self::new_tid(tids);
        tids.set(tid, Some(me));
        RtThread {
            parent,
            stat: ThreadState(STATE_INIT),
            priority: ThreadPriority::new(priority),
            stack: Stack { bottom: stack_start, size: stack_size, sp },
            thread_timer: TimerInfo { init_tick: 0, timeout_tick: 0, flag: THREAD_TIMER_FLAGS, row: None },
            spinlock: RawSpin::new(),
            error: 0,
            tid,
            time_slice: TimeSlice { init: tick, remaining: tick },
            mutex_info: MutexInfo { pending_to: None },
            event_info: EventInfo { set: 0, info: 0 },
        }
    }

    /// The thread's identifier.
    pub fn get_tid(&self) -> (r: usize)
        ensures
            r == self.tid_spec(),
    {
        self.tid
    }

    /// The ticks left of the time slice.
    pub fn remaining_ticks(&self) -> (r: u32)
        ensures
            r == self.slice().remaining,
    {
        self.time_slice.remaining
    }

    /// Gives the thread a whole time slice again and asks it to yield.
    pub fn reset_to_yield(&mut self)
        ensures
            final(self).slice().remaining == old(self).slice().init,
            final(self).slice().init == old(self).slice().init,
            yield_bit(final(self).stat.0),
            final(self).stat.0 % 8 == old(self).stat.0 % 8,
            final(self).stat.0 / 16 == old(self).stat.0 / 16,
            final(self).priority == old(self).priority,
            final(self).error == old(self).error,
            final(self).tid_spec() == old(self).tid_spec(),
    {
        self.time_slice.remaining = self.time_slice.init;
        self.stat.add_yield();
    }

    /// Suspends the thread with `suspend_flag` if it is ready or running,
    /// and says whether it did; the caller then takes the thread off the
    /// scheduler and stops its timer. Otherwise nothing changes.
    pub fn suspend(&mut self, suspend_flag: SuspendFlag) -> (b: bool)
        ensures
            b <==> base_state_of(old(self).stat.0) == STATE_READY
                || base_state_of(old(self).stat.0) == STATE_RUNNING,
            b ==> final(self).stat.0 == STATE_SUSPENDED + suspend_flag_code(suspend_flag),
            !b ==> final(self).stat == old(self).stat,
            final(self).priority == old(self).priority,
            final(self).slice() == old(self).slice(),
            final(self).tid_spec() == old(self).tid_spec(),
            final(self).error == old(self).error,
    {
        if !self.stat.is_ready() && !self.stat.is_running() {
            return false;
        }
        self.stat.set_suspended(suspend_flag);
        true
    }

    /// Closes the thread unless it is closed already. Returns whether the
    /// caller must take it off the scheduler (it had been started) and
    /// detach its timer (it was not closed yet), in that order.
    pub fn close(&mut self) -> (r: (bool, bool))
        ensures
            r.1 <==> base_state_of(old(self).stat.0) != STATE_CLOSE,
            r.0 <==> r.1 && base_state_of(old(self).stat.0) != STATE_INIT,
            r.1 ==> final(self).stat.0 == STATE_CLOSE,
            !r.1 ==> final(self).stat == old(self).stat,
            final(self).priority == old(self).priority,
            final(self).slice() == old(self).slice(),
            final(self).tid_spec() == old(self).tid_spec(),
    {
        if self.stat.is_close() {
            return (false, false);
        }
        let remove = !self.stat.is_init();
        self.stat.set_base_state(ThreadState(STATE_CLOSE));
        (remove, true)
    }

    /// Gives the thread the priority `priority`. A ready thread is left in
    /// its first state, and the answer is true: the caller takes it off the
    /// scheduler before and puts it back after.
    pub fn change_priority(&mut self, priority: u8) -> (b: bool)
        ensures
            b <==> base_state_of(old(self).stat.0) == STATE_READY,
            final(self).priority.current_spec() == priority,
            final(self).priority.initial_spec() == old(self).priority.initial_spec(),
            final(self).priority.masks_match(),
            b ==> final(self).stat.0 == STATE_INIT,
            !b ==> final(self).stat == old(self).stat,
            final(self).slice() == old(self).slice(),
            final(self).tid_spec() == old(self).tid_spec(),
    {
        if self.stat.is_ready() {
            self.priority.update(priority);
            self.stat.set_base_state(ThreadState(STATE_INIT));
            true
        } else {
            self.priority.update(priority);
            false
        }
    }

    /// Makes the thread ready to be started: its priority bookkeeping is
    /// set again from its current priority and it is marked suspended
    /// without interruption, for the scheduler to take in.
    pub fn start(&mut self)
        ensures
            final(self).priority.current_spec() == old(self).priority.current_spec(),
            final(self).priority.initial_spec() == old(self).priority.initial_spec(),
            final(self).priority.masks_match(),
            final(self).stat.0 == STATE_SUSPENDED + suspend_flag_code(SuspendFlag::Uninterruptible),
            final(self).slice() == old(self).slice(),
            final(self).tid_spec() == old(self).tid_spec(),
    {
        let p = self.priority.get_current();
        self.priority.update(p);
        self.stat.set_suspended(SuspendFlag::Uninterruptible);
    }

    /// What the end of a wait that timed out does to the thread: its error
    /// becomes `ETIMEDOUT`; the caller takes it off the list it waits on
    /// and gives it back to the scheduler.
    pub fn handle_timeout(&mut self)
        ensures
            final(self).error == crate::error::code::ETIMEDOUT,
            final(self).stat == old(self).stat,
            final(self).priority == old(self).priority,
            final(self).slice() == old(self).slice(),
            final(self).tid_spec() == old(self).tid_spec(),
    {
        self.error = crate::error::code::ETIMEDOUT;
    }

    /// Counts one tick of the running thread's time slice. When the slice
    /// is used up the thread gets a whole slice again and is asked to
    /// yield, and the answer is true.
    pub fn handle_tick_increase(&mut self) -> (b: bool)
        requires
            old(self).slice().remaining > 0,
        ensures
            b <==> old(self).slice().remaining == 1,
            final(self).slice().init == old(self).slice().init,
            b ==> final(self).slice().remaining == old(self).slice().init && yield_bit(final(self).stat.0)
                && final(self).stat.0 % 8 == old(self).stat.0 % 8,
            !b ==> final(self).slice().remaining == old(self).slice().remaining - 1
                && final(self).stat == old(self).stat,
            final(self).priority == old(self).priority,
            final(self).tid_spec() == old(self).tid_spec(),
    {
        self.time_slice.remaining = self.time_slice.remaining - 1;
        if self.time_slice.remaining == 0 {
            self.reset_to_yield();
            return true;
        }
        false
    }
}

} // verus!
