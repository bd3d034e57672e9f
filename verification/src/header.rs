use vstd::prelude::*;

verus! {

/// The system call numbers, in order from 0.
#[derive(Copy, Clone, Debug, PartialEq, Eq, Structural)]
pub enum NR {
    Nop,
    Echo,
    GetTid,
    CreateThread,
    ExitThread,
    AtomicWait,
    AtomicWake,
    ClockGetTime,
    AllocMem,
    FreeMem,
    Write,
    Close,
    Read,
    Open,
    Lseek,
    SchedYield,
    Fcntl,
    Mkdir,
    Rmdir,
    Stat,
    FStat,
    Statfs,
    FStatfs,
    Link,
    Unlink,
    Ftruncate,
    GetDents,
    Chdir,
    Getcwd,
    Mount,
    Umount,
    RtSigAction,
    SigAltStack,
    RtSigPending,
    RtSigProcmask,
    RtSigQueueInfo,
    RtSigSuspend,
    RtSigTimedWait,
    Socket,
    Bind,
    Connect,
    Listen,
    Accept,
    Send,
    Sendto,
    Recv,
    Recvfrom,
    Shutdown,
    Setsockopt,
    Getsockopt,
    Sendmsg,
    Recvmsg,
    GetAddrinfo,
    FreeAddrinfo,
    NanoSleep,
    LastNR,
}

/// What a new thread is started with; code and memory are given by their
/// addresses.
#[derive(Clone, Copy, Debug)]
pub struct SpawnArgs {
    /// The address of a hook called with the new thread's id, if any.
    pub spawn_hook: Option<usize>,
    /// The address of the thread's entry function.
    pub entry: usize,
    /// The argument handed to the entry function.
    pub arg: usize,
    /// The start of the thread's stack.
    pub stack_start: usize,
    /// The size of the thread's stack.
    pub stack_size: usize,
}

/// What an exiting thread hands back; code and memory are given by their
/// addresses.
#[derive(Clone, Copy, Debug)]
pub struct ExitArgs {
    /// The address of a hook called on exit, if any.
    pub exit_hook: Option<usize>,
    /// The exiting thread's id.
    pub tid: usize,
    /// The start of the thread's stack.
    pub stack_start: usize,
}

} // verus!
