use vstd::prelude::*;

verus! {

/// The kernel features a build may turn on.
#[derive(Debug, PartialEq, Eq, Structural, Clone, Copy)]
pub enum Feature {
    Smp,
    Tlsf,
    OverflowCheck,
    IdleHook,
    Heap,
    HeapIsr,
    DebuggingInit,
    Event,
    MessageQueue,
    Mailbox,
    Mutex,
    Semaphore,
    Rwlock,
    Condvar,
    CompatNewlibc,
    ThreadPriorityMax,
}

/// The configuration name of a feature.
pub open spec fn feature_name(f: Feature) -> Seq<char> {
    match f {
        Feature::Smp => "smp"@,
        Feature::Tlsf => "tlsf"@,
        Feature::OverflowCheck => "overflow_check"@,
        Feature::IdleHook => "idle_hook"@,
        Feature::Heap => "heap"@,
        Feature::HeapIsr => "heap_isr"@,
        Feature::DebuggingInit => "debugging_init"@,
        Feature::Event => "event"@,
        Feature::MessageQueue => "messagequeue"@,
        Feature::Mailbox => "mailbox"@,
        Feature::Mutex => "mutex"@,
        Feature::Semaphore => "semaphore"@,
        Feature::Rwlock => "rwlock"@,
        Feature::Condvar => "condvar"@,
        Feature::CompatNewlibc => "compat_newlibc"@,
        Feature::ThreadPriorityMax => "thread_priority_max"@,
    }
}

impl Feature {
    /// The configuration name of the feature.
    pub fn to_string(&self) -> (s: &'static str)
        ensures
            s@ == feature_name(*self),
    {
        match self {
            Feature::Smp => "smp",
            Feature::Tlsf => "tlsf",
            Feature::OverflowCheck => "overflow_check",
            Feature::IdleHook => "idle_hook",
            Feature::Heap => "heap",
            Feature::HeapIsr => "heap_isr",
            Feature::DebuggingInit => "debugging_init",
            Feature::Event => "event",
            Feature::MessageQueue => "messagequeue",
            Feature::Mailbox => "mailbox",
            Feature::Mutex => "mutex",
            Feature::Semaphore => "semaphore",
            Feature::Rwlock => "rwlock",
            Feature::Condvar => "condvar",
            Feature::CompatNewlibc => "compat_newlibc",
            Feature::ThreadPriorityMax => "thread_priority_max",
        }
    }

    /// Whether the feature is on, given the build's switches: `switches`
    /// holds one flag per feature, in the order they are listed, and the
    /// priority feature is on when `thread_priority_max` is at least 32.
    pub fn is_enabled(&self, switches: &[bool; 15], thread_priority_max: u32) -> (b: bool)
        ensures
            *self == Feature::ThreadPriorityMax ==> (b <==> thread_priority_max >= 32),
            *self == Feature::Smp ==> b == switches[0],
            *self == Feature::Tlsf ==> b == switches[1],
            *self == Feature::OverflowCheck ==> b == switches[2],
            *self == Feature::IdleHook ==> b == switches[3],
            *self == Feature::Heap ==> b == switches[4],
            *self == Feature::HeapIsr ==> b == switches[5],
            *self == Feature::DebuggingInit ==> b == switches[6],
            *self == Feature::Event ==> b == switches[7],
            *self == Feature::MessageQueue ==> b == switches[8],
            *self == Feature::Mailbox ==> b == switches[9],
            *self == Feature::Mutex ==> b == switches[10],
            *self == Feature::Semaphore ==> b == switches[11],
            *self == Feature::Rwlock ==> b == switches[12],
            *self == Feature::Condvar ==> b == switches[13],
            *self == Feature::CompatNewlibc ==> b == switches[14],
    {
        match self {
            Feature::Smp => switches[0],
            Feature::Tlsf => switches[1],
            Feature::OverflowCheck => switches[2],
            Feature::IdleHook => switches[3],
            Feature::Heap => switches[4],
            Feature::HeapIsr => switches[5],
            Feature::DebuggingInit => switches[6],
            Feature::Event => switches[7],
            Feature::MessageQueue => switches[8],
            Feature::Mailbox => switches[9],
            Feature::Mutex => switches[10],
            Feature::Semaphore => switches[11],
            Feature::Rwlock => switches[12],
            Feature::Condvar => switches[13],
            Feature::CompatNewlibc => switches[14],
            Feature::ThreadPriorityMax => thread_priority_max >= 32,
        }
    }
}

/// The number of processors a build runs on: the configured number with
/// the multi-processor feature, else one.
pub fn get_cpus_nr(smp: bool, configured: u32) -> (n: u32)
    ensures
        n == if smp { configured } else { 1 },
{
    if smp {
        configured
    } else {
        1
    }
}

} // verus!
