# blueos

Building blocks of a small real-time kernel, written in Verus: each public
function states in `requires`/`ensures` what it does, and Verus proves it.

Layout of `src/`:

- `list/`, `rt_list.rs`, `intrusive.rs`, `tinyarc.rs`: intrusive lists kept in
  arenas (nodes are named by their place), the circular list head, the
  non-circular typed lists, and reference-counted values that lists share.
- `tinyrwlock.rs`: the counter word of a reader-writer lock with upgradable
  readers.
- `sync/`: the kernel's IPC objects (wait queues, semaphore, mutex with
  priority inheritance, condition variable, reader-writer lock, event,
  mailbox, message queue). Each blocking operation is a step function from
  the object's state to what the caller does next (done, failed, or blocked);
  the loop that suspends and resumes threads lives outside the library.
- `timer.rs`, `clock.rs`, `cpu.rs`: the timer wheel, tick conversions, and the
  per-processor counters.
- `allocator/`: the buddy-system heap, with its accounting.
- `process.rs`, `object.rs`: kernel objects and the per-class object lists.
- `thread.rs`: thread state words, priorities, identifiers and time slices.
- `klibc.rs`, `libc.rs`, `string.rs`: C string and memory routines over byte
  buffers.
- `error.rs`, `header.rs`, `kconfig.rs`, `static_init.rs`, `irq.rs`: error
  codes, system call arguments, build features and small wrappers.

`app/` holds the scheduler-facing loops that drive the step functions;
`tests/` holds the tests.
