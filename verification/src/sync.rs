use vstd::prelude::*;

pub mod ipc_common;
pub mod semaphore;
pub mod mailbox;
pub mod event;
pub mod message_queue;
pub mod mutex;
pub mod lock;
pub mod condvar;
pub mod rwlock;
pub mod spinlock;

verus! {
} // verus!
