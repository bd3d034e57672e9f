use vstd::prelude::*;

pub mod error;
pub mod thread;
pub mod intrusive;
pub mod tinyrwlock;
pub mod list;
pub mod klibc;
pub mod string;
pub mod allocator;
pub mod sync;
pub mod object;
pub mod header;
pub mod static_init;
pub mod irq;
pub mod rt_list;
pub mod kconfig;
pub mod clock;
pub mod timer;
pub mod libc;
pub mod tinyarc;
pub mod process;
pub mod cpu;
pub mod zombie;
