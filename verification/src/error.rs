use vstd::prelude::*;
use crate::thread::RtThread;

pub mod code;

verus! {

/// A kernel error number, stored as the (usually negative) errno value.
#[derive(Clone, Copy, PartialEq, Eq, Structural, Debug)]
pub struct Error(pub i32);

/// The eight-character name that the kernel prints for an errno value, as
/// the constants of `code` hold them (`EOK` is 0, the others negative).
pub open spec fn errno_name(errno: int) -> Seq<char> {
    if errno == 0 {
        "OK      "@
    } else if errno == -255 {
        "ERROR   "@
    } else if errno == -116 {
        "ETIMOUT "@
    } else if errno == -28 {
        "ERSFULL "@
    } else if errno == -61 {
        "ERSEPTY "@
    } else if errno == -12 {
        "ENOMEM  "@
    } else if errno == -88 {
        "ENOSYS  "@
    } else if errno == -16 {
        "EBUSY   "@
    } else if errno == -5 {
        "EIO     "@
    } else if errno == -4 {
        "EINTRPT "@
    } else if errno == -22 {
        "EINVAL  "@
    } else if errno == -2 {
        "ENOENT  "@
    } else if errno == -1 {
        "EPERM   "@
    } else if errno == -254 {
        "ETRAP   "@
    } else {
        "EUNKNOW "@
    }
}

impl Error {
    /// Wraps a raw errno value.
    pub fn from_errno(errno: i32) -> (e: Error)
        ensures
            e.0 == errno,
    {
        Error(errno)
    }

    /// The raw errno value.
    pub fn to_errno(self) -> (r: i32)
        ensures
            r == self.0,
    {
        self.0
    }

    /// The printable name of this error; the errno is negated before the
    /// lookup, so `Error(12)` is named `ENOMEM` and `Error(-12)` is unknown.
    pub fn name(&self) -> (s: &'static str)
        requires
            self.0 != i32::MIN,
        ensures
            s@ == errno_name(-self.0),
    {
        name(Error(-self.0))
    }
}

/// Looks up the printable name of an error by its errno value, one of the
/// constants of `code`.
pub fn name(errno: Error) -> (s: &'static str)
    ensures
        s@ == errno_name(errno.0 as int),
{
    let e = errno.0;
    if e == 0 {
        "OK      "
    } else if e == -255 {
        "ERROR   "
    } else if e == -116 {
        "ETIMOUT "
    } else if e == -28 {
        "ERSFULL "
    } else if e == -61 {
        "ERSEPTY "
    } else if e == -12 {
        "ENOMEM  "
    } else if e == -88 {
        "ENOSYS  "
    } else if e == -16 {
        "EBUSY   "
    } else if e == -5 {
        "EIO     "
    } else if e == -4 {
        "EINTRPT "
    } else if e == -22 {
        "EINVAL  "
    } else if e == -2 {
        "ENOENT  "
    } else if e == -1 {
        "EPERM   "
    } else if e == -254 {
        "ETRAP   "
    } else {
        "EUNKNOW "
    }
}

/// The printable name of a raw errno value, as `Error::name` gives it.
pub fn strerror(error: i32) -> (s: &'static str)
    requires
        error != i32::MIN,
    ensures
        s@ == errno_name(-error),
{
    Error(error).name()
}

/// The last error where the caller runs: in an interrupt handler (`nest`
/// above 0) or with no thread running, the kernel's own error `global`;
/// otherwise the error of the running thread `current`.
pub fn get_errno(nest: u32, current: Option<&RtThread>, global: i32) -> (r: i32)
    ensures
        r == (if nest != 0 || current is None { global } else { current.unwrap().error }),
{
    if nest != 0 {
        return global;
    }
    match current {
        Some(t) => t.error,
        None => global,
    }
}

/// Records `error` where the caller runs: in an interrupt handler (`nest`
/// above 0) or with no thread running, as the kernel's own error `global`;
/// otherwise as the error of the running thread `current`, which is
/// otherwise unchanged.
pub fn set_errno(nest: u32, current: Option<&mut RtThread>, global: &mut i32, error: i32)
    ensures
        nest != 0 || current is None ==> *final(global) == error,
        nest == 0 && current is Some ==> *final(global) == *old(global),
        match current {
            Some(t) => if nest == 0 {
                *final(t) == RtThread { error, ..*t }
            } else {
                *final(t) == *t
            },
            None => true,
        },
{
    if nest != 0 {
        *global = error;
        return;
    }
    match current {
        Some(t) => {
            t.error = error;
        },
        None => {
            *global = error;
        },
    }
}

} // verus!
