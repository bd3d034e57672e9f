use vstd::prelude::*;

verus! {

/// The counters of one processor: the ticks since start, how deep in
/// interrupt handlers it is, and how deep in the lock of all processors.
/// They count as the hardware's atomic counters do, wrapping around.
#[derive(Debug, Clone, Copy, PartialEq, Eq, Structural)]
pub struct Cpu {
    pub tick: u32,
    pub interrupt_nest: u32,
    pub cpu_lock_nest: u32,
}

/// One more, wrapping around.
pub open spec fn wrap_inc(x: u32) -> u32 {
    if x == u32::MAX { 0 } else { (x + 1) as u32 }
}

/// One less, wrapping around.
pub open spec fn wrap_dec(x: u32) -> u32 {
    if x == 0 { u32::MAX } else { (x - 1) as u32 }
}

impl Cpu {
    /// A processor with every counter at 0.
    pub fn new() -> (c: Self)
        ensures
            c.tick == 0 && c.interrupt_nest == 0 && c.cpu_lock_nest == 0,
    {
        Cpu { tick: 0, interrupt_nest: 0, cpu_lock_nest: 0 }
    }

    /// Sets the tick count.
    pub fn tick_store(&mut self, tick: u32)
        ensures
            *final(self) == (Cpu { tick, ..*old(self) }),
    {
        self.tick = tick;
    }

    /// The tick count.
    pub fn tick_load(&self) -> (r: u32)
        ensures
            r == self.tick,
    {
        self.tick
    }

    /// Counts one tick; returns the count before.
    pub fn tick_inc(&mut self) -> (r: u32)
        ensures
            r == old(self).tick,
            *final(self) == (Cpu { tick: wrap_inc(old(self).tick), ..*old(self) }),
    {
        let old_tick = self.tick;
        self.tick = old_tick.wrapping_add(1);
        old_tick
    }

    /// Whether the processor is in an interrupt handler.
    pub fn is_in_interrupt(&self) -> (b: bool)
        ensures
            b <==> self.interrupt_nest > 0,
    {
        self.interrupt_nest > 0
    }

    /// Enters one interrupt level more; returns the depth before.
    pub fn interrupt_nest_inc(&mut self) -> (r: u32)
        ensures
            r == old(self).interrupt_nest,
            *final(self) == (Cpu { interrupt_nest: wrap_inc(old(self).interrupt_nest), ..*old(self) }),
    {
        let n = self.interrupt_nest;
        self.interrupt_nest = n.wrapping_add(1);
        n
    }

    /// Leaves one interrupt level; returns the depth before.
    pub fn interrupt_nest_dec(&mut self) -> (r: u32)
        ensures
            r == old(self).interrupt_nest,
            *final(self) == (Cpu { interrupt_nest: wrap_dec(old(self).interrupt_nest), ..*old(self) }),
    {
        let n = self.interrupt_nest;
        self.interrupt_nest = n.wrapping_sub(1);
        n
    }

    /// The interrupt depth.
    pub fn interrupt_nest_load(&self) -> (r: u32)
        ensures
            r == self.interrupt_nest,
    {
        self.interrupt_nest
    }

    /// Takes one level more of the lock of all processors; returns the
    /// depth before.
    pub fn cpu_lock_nest_inc(&mut self) -> (r: u32)
        ensures
            r == old(self).cpu_lock_nest,
            *final(self) == (Cpu { cpu_lock_nest: wrap_inc(old(self).cpu_lock_nest), ..*old(self) }),
    {
        let n = self.cpu_lock_nest;
        self.cpu_lock_nest = n.wrapping_add(1);
        n
    }

    /// Gives back one level of the lock of all processors; returns the
    /// depth before.
    pub fn cpu_lock_nest_dec(&mut self) -> (r: u32)
        ensures
            r == old(self).cpu_lock_nest,
            *final(self) == (Cpu { cpu_lock_nest: wrap_dec(old(self).cpu_lock_nest), ..*old(self) }),
    {
        let n = self.cpu_lock_nest;
        self.cpu_lock_nest = n.wrapping_sub(1);
        n
    }

    /// The depth in the lock of all processors.
    pub fn cpu_lock_nest_load(&self) -> (r: u32)
        ensures
            r == self.cpu_lock_nest,
    {
        self.cpu_lock_nest
    }
}

/// The processors, and whether the lock of all processors is held.
pub struct Cpus {
    pub cpu_lock: bool,
    pub inner: Vec<Cpu>,
}

/// The processors after processor `c` took one level of the lock of all
/// processors: the lock itself is taken at the outermost level.
pub open spec fn after_lock(lock: bool, cpus: Seq<Cpu>, c: int) -> (bool, Seq<Cpu>) {
    let me = cpus[c];
    (
        if me.cpu_lock_nest == 0 { true } else { lock },
        cpus.update(c, Cpu { cpu_lock_nest: wrap_inc(me.cpu_lock_nest), ..me }),
    )
}

/// The processors after processor `c` gave back one level of the lock of
/// all processors: the lock itself is given back at the outermost level.
pub open spec fn after_unlock(lock: bool, cpus: Seq<Cpu>, c: int) -> (bool, Seq<Cpu>) {
    let me = cpus[c];
    (
        if me.cpu_lock_nest == 1 { false } else { lock },
        cpus.update(c, Cpu { cpu_lock_nest: wrap_dec(me.cpu_lock_nest), ..me }),
    )
}

impl Cpus {
    /// `n` processors with every counter at 0, the lock free.
    pub fn new(n: usize) -> (c: Self)
        ensures
            !c.cpu_lock,
            c.inner@.len() == n,
            forall|i: int| 0 <= i < n ==> #[trigger] c.inner@[i] == (Cpu { tick: 0, interrupt_nest: 0, cpu_lock_nest: 0 }),
    {
        let mut inner: Vec<Cpu> = Vec::new();
        let mut i: usize = 0;
        while i < n
            invariant
                i <= n,
                inner@.len() == i,
                forall|k: int| 0 <= k < i ==> #[trigger] inner@[k] == (Cpu { tick: 0, interrupt_nest: 0, cpu_lock_nest: 0 }),
            decreases n - i,
        {
            inner.push(Cpu::new());
            i = i + 1;
        }
        Cpus { cpu_lock: false, inner }
    }

    /// Processor `cpu` takes one level of the lock of all processors,
    /// taking the lock itself at the outermost level, when it must be free.
    pub fn lock_cpus(&mut self, cpu: usize)
        requires
            cpu < old(self).inner@.len(),
            old(self).inner@[cpu as int].cpu_lock_nest == 0 ==> !old(self).cpu_lock,
        ensures
            (final(self).cpu_lock, final(self).inner@) == after_lock(old(self).cpu_lock, old(self).inner@, cpu as int),
    {
        let mut me = self.inner[cpu];
        if me.cpu_lock_nest_inc() == 0 {
            self.cpu_lock = true;
        }
        self.inner.set(cpu, me);
    }

    /// Processor `cpu` gives back one level of the lock of all
    /// processors, giving back the lock itself at the outermost level.
    pub fn unlock_cpus(&mut self, cpu: usize)
        requires
            cpu < old(self).inner@.len(),
        ensures
            (final(self).cpu_lock, final(self).inner@) == after_unlock(old(self).cpu_lock, old(self).inner@, cpu as int),
    {
        let mut me = self.inner[cpu];
        if me.cpu_lock_nest_dec() == 1 {
            self.cpu_lock = false;
        }
        self.inner.set(cpu, me);
    }
}

/// Taking one level of the lock of all processors and giving it back
/// leaves the processors as they were, below the deepest level.
pub proof fn lemma_lock_unlock_restores(lock: bool, cpus: Seq<Cpu>, c: int)
    requires
        0 <= c < cpus.len(),
        cpus[c].cpu_lock_nest < u32::MAX,
        cpus[c].cpu_lock_nest > 0 || !lock,
    ensures
        ({
            let (l1, s1) = after_lock(lock, cpus, c);
            after_unlock(l1, s1, c) == (lock, cpus)
        }),
{
    let (l1, s1) = after_lock(lock, cpus, c);
    assert(s1.update(c, Cpu { cpu_lock_nest: wrap_dec(s1[c].cpu_lock_nest), ..s1[c] }) =~= cpus);
}

/// The tick count, kept by the first processor.
pub fn rt_tick_get(cpus: &Cpus) -> (r: u32)
    requires
        cpus.inner@.len() > 0,
    ensures
        r == cpus.inner@[0].tick,
{
    cpus.inner[0].tick_load()
}

/// Sets the tick count, kept by the first processor.
pub fn rt_tick_set(cpus: &mut Cpus, tick: u32)
    requires
        old(cpus).inner@.len() > 0,
    ensures
        final(cpus).cpu_lock == old(cpus).cpu_lock,
        final(cpus).inner@ == old(cpus).inner@.update(0, (Cpu { tick, ..old(cpus).inner@[0] })),
{
    let mut first = cpus.inner[0];
    first.tick_store(tick);
    cpus.inner.set(0, first);
}

/// Processor `cpu` enters an interrupt handler.
pub fn rt_interrupt_enter(cpus: &mut Cpus, cpu: usize)
    requires
        cpu < old(cpus).inner@.len(),
    ensures
        final(cpus).cpu_lock == old(cpus).cpu_lock,
        final(cpus).inner@ == old(cpus).inner@.update(cpu as int,
            (Cpu { interrupt_nest: wrap_inc(old(cpus).inner@[cpu as int].interrupt_nest), ..old(cpus).inner@[cpu as int] })),
{
    let mut me = cpus.inner[cpu];
    me.interrupt_nest_inc();
    cpus.inner.set(cpu, me);
}

/// Processor `cpu` leaves an interrupt handler.
pub fn rt_interrupt_leave(cpus: &mut Cpus, cpu: usize)
    requires
        cpu < old(cpus).inner@.len(),
    ensures
        final(cpus).cpu_lock == old(cpus).cpu_lock,
        final(cpus).inner@ == old(cpus).inner@.update(cpu as int,
            (Cpu { interrupt_nest: wrap_dec(old(cpus).inner@[cpu as int].interrupt_nest), ..old(cpus).inner@[cpu as int] })),
{
    let mut me = cpus.inner[cpu];
    me.interrupt_nest_dec();
    cpus.inner.set(cpu, me);
}

/// How deep processor `cpu` is in interrupt handlers.
pub fn rt_interrupt_get_nest(cpus: &Cpus, cpu: usize) -> (r: u32)
    requires
        cpu < cpus.inner@.len(),
    ensures
        r == cpus.inner@[cpu as int].interrupt_nest,
{
    cpus.inner[cpu].interrupt_nest_load()
}

} // verus!
