use vstd::prelude::*;

verus! {

// Errno values of the kernel, as `Error` holds them.

pub const EOK: i32 = 0;
pub const TRUE: i32 = 1;
pub const FLASE: i32 = 0;
pub const ERROR: i32 = -255;
pub const ETIMEOUT: i32 = -116;
pub const ETIMEDOUT: i32 = -116;
pub const EFULL: i32 = -28;
pub const EEMPTY: i32 = -61;
pub const ENOMEM: i32 = -12;
pub const ENOSYS: i32 = -88;
pub const EBUSY: i32 = -16;
pub const EIO: i32 = -5;
pub const EINTR: i32 = -4;
pub const EINVAL: i32 = -22;
pub const ENOENT: i32 = -2;
pub const ENOSPC: i32 = -28;
pub const EPERM: i32 = -1;
pub const ETRAP: i32 = -254;

} // verus!
