use vstd::prelude::*;
use crate::cpu::{wrap_inc, Cpu, Cpus};
use crate::thread::{yield_bit, RtThread};

verus! {

/// The tick count that means "wait for ever".
pub const WAITING_FOREVER_TICKS: u32 = 0xffff_ffff;

/// The ticks `ms` milliseconds last at `tick_per_second` ticks a second,
/// rounded up to a whole tick; a negative time means for ever.
pub open spec fn ticks_of_ms(ms: i32, tick_per_second: u32) -> int {
    if ms < 0 {
        WAITING_FOREVER_TICKS as int
    } else {
        tick_per_second * (ms / 1000) + (tick_per_second * (ms % 1000) + 999) / 1000
    }
}

/// The ticks that `ms` milliseconds last (see `ticks_of_ms`). The result
/// must fit in a tick count.
pub fn rt_tick_from_millisecond(ms: i32, tick_per_second: u32) -> (t: u32)
    requires
        ms >= 0 ==> tick_per_second * (ms / 1000) + (tick_per_second * (ms % 1000) + 999) / 1000 <= u32::MAX,
        ms >= 0 ==> tick_per_second * (ms % 1000) + 999 <= u32::MAX,
    ensures
        t == ticks_of_ms(ms, tick_per_second),
{
    if ms < 0 {
        WAITING_FOREVER_TICKS
    } else {
        let m = ms as u32;
        let secs = m / 1000;
        let rest = m % 1000;
        assert(tick_per_second * secs <= tick_per_second * (ms / 1000) + (tick_per_second * (ms % 1000) + 999) / 1000)
            by (nonlinear_arith)
            requires secs == ms / 1000, rest == ms % 1000, ms >= 0;
        let tick = tick_per_second * secs;
        tick + (tick_per_second * rest + 999) / 1000
    }
}

/// The milliseconds that `tick` ticks last at `tick_per_second` ticks a
/// second, which must divide 1000; the product wraps as a tick count does.
pub fn rt_tick_get_millisecond(tick: u32, tick_per_second: u32) -> (ms: u32)
    requires
        tick_per_second > 0,
        1000u32 % tick_per_second == 0,
    ensures
        ms == (tick * (1000u32 / tick_per_second)) % 0x1_0000_0000,
{
    let per = 1000 / tick_per_second;
    tick.wrapping_mul(per)
}

/// One tick on processor `cpu`, in an interrupt handler: its tick count
/// goes one on (wrapping), then the running thread `current` uses up a tick
/// of its time slice (see `RtThread::handle_tick_increase`); the result
/// says whether the thread is to yield. The timers are checked next, by the
/// caller, at the new tick.
pub fn rt_tick_increase(cpus: &mut Cpus, cpu: usize, current: &mut RtThread) -> (yield_now: bool)
    requires
        cpu < old(cpus).inner@.len(),
        old(cpus).inner@[cpu as int].interrupt_nest > 0,
        old(current).slice().remaining > 0,
    ensures
        final(cpus).cpu_lock == old(cpus).cpu_lock,
        final(cpus).inner@ == old(cpus).inner@.update(cpu as int,
            (Cpu { tick: wrap_inc(old(cpus).inner@[cpu as int].tick), ..old(cpus).inner@[cpu as int] })),
        yield_now <==> old(current).slice().remaining == 1,
        final(current).slice().init == old(current).slice().init,
        yield_now ==> final(current).slice().remaining == old(current).slice().init
            && yield_bit(final(current).stat.0) && final(current).stat.0 % 8 == old(current).stat.0 % 8,
        !yield_now ==> final(current).slice().remaining == old(current).slice().remaining - 1
            && final(current).stat == old(current).stat,
        final(current).priority == old(current).priority,
        final(current).tid_spec() == old(current).tid_spec(),
{
    let mut c = cpus.inner[cpu];
    c.tick_inc();
    cpus.inner.set(cpu, c);
    current.handle_tick_increase()
}

} // verus!
