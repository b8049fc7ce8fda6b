//! Linux errno values and their syscall-return encoding.
use vstd::prelude::*;

verus! {

pub const EPERM: isize = 1;
pub const EBADF: isize = 9;
pub const ESRCH: isize = 3;
pub const EINTR: isize = 4;
pub const ECHILD: isize = 10;
pub const EAGAIN: isize = 11;
pub const ENOMEM: isize = 12;
pub const EFAULT: isize = 14;
pub const EINVAL: isize = 22;
pub const ENOTTY: isize = 25;
pub const EPIPE: isize = 32;
pub const ENOSYS: isize = 38;
pub const EEXIST: isize = 17;
pub const ENOTSOCK: isize = 88;
pub const EAFNOSUPPORT: isize = 97;
/// Largest errno value that a syscall may report (Linux `MAX_ERRNO`).
pub const MAX_ERRNO: isize = 4095;

/// An error that a kernel service reports, by its Linux name.
#[derive(Clone, Copy, Debug, PartialEq, Eq, Structural)]
pub enum Errno {
    Eperm,
    Esrch,
    Eintr,
    Ebadf,
    Echild,
    Eagain,
    Enomem,
    Efault,
    Einval,
    Enotty,
    Epipe,
    Enosys,
    Eexist,
    Enotsock,
    Eafnosupport,
}

impl Errno {
    pub open spec fn code_spec(self) -> isize {
        match self {
            Errno::Eperm => EPERM,
            Errno::Esrch => ESRCH,
            Errno::Eintr => EINTR,
            Errno::Ebadf => EBADF,
            Errno::Echild => ECHILD,
            Errno::Eagain => EAGAIN,
            Errno::Enomem => ENOMEM,
            Errno::Efault => EFAULT,
            Errno::Einval => EINVAL,
            Errno::Enotty => ENOTTY,
            Errno::Epipe => EPIPE,
            Errno::Enosys => ENOSYS,
            Errno::Eexist => EEXIST,
            Errno::Enotsock => ENOTSOCK,
            Errno::Eafnosupport => EAFNOSUPPORT,
        }
    }

    /// The errno number.
    pub fn code(self) -> (code: isize)
        ensures
            code == self.code_spec(),
            1 <= code <= MAX_ERRNO,
    {
        match self {
            Errno::Eperm => EPERM,
            Errno::Esrch => ESRCH,
            Errno::Eintr => EINTR,
            Errno::Ebadf => EBADF,
            Errno::Echild => ECHILD,
            Errno::Eagain => EAGAIN,
            Errno::Enomem => ENOMEM,
            Errno::Efault => EFAULT,
            Errno::Einval => EINVAL,
            Errno::Enotty => ENOTTY,
            Errno::Epipe => EPIPE,
            Errno::Enosys => ENOSYS,
            Errno::Eexist => EEXIST,
            Errno::Enotsock => ENOTSOCK,
            Errno::Eafnosupport => EAFNOSUPPORT,
        }
    }
}

/// Encodes an errno as the negative return value of a syscall.
pub fn encode(errno: isize) -> (value: isize)
    requires
        errno > isize::MIN,
    ensures
        value == -errno,
{
    -errno
}

/// Whether a raw syscall return value denotes an error.
pub fn is_error(value: isize) -> (error: bool)
    ensures
        error <==> (-MAX_ERRNO <= value < 0),
{
    value < 0 && value >= -MAX_ERRNO
}

/// Every errno in `1..=MAX_ERRNO`, once encoded, is recognised as an error,
/// and no non-negative value is.
pub proof fn lemma_encoded_errno_is_error(errno: isize, value: isize)
    ensures
        1 <= errno <= MAX_ERRNO ==> (-MAX_ERRNO <= -errno < 0),
        value >= 0 ==> !(-MAX_ERRNO <= value < 0),
{
}

} // verus!
