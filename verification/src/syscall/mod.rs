//! Linux asm-generic 64-bit syscall ABI shared by both ports.
//!
//! This module owns ABI facts only: syscall numbers, errno values, the
//! register layout of a request and the encoding of results.
use vstd::prelude::*;

pub mod abi;
pub mod errno;
pub mod number;

verus! {

/// A decoded syscall request: its number and six raw arguments.
#[derive(Clone, Copy, Debug, PartialEq, Eq)]
pub struct Request {
    pub number: usize,
    pub arguments: [usize; 6],
}

/// Checks, at verification time, the ABI numbers that user space relies on.
pub fn verify_contract()
{
    proof {
        assert(number::GETCWD == 17);
        assert(number::DUP == 23);
        assert(number::DUP3 == 24);
        assert(number::FCNTL == 25);
        assert(number::IOCTL == 29);
        assert(number::MKDIRAT == 34);
        assert(number::UNLINKAT == 35);
        assert(number::SYMLINKAT == 36);
        assert(number::LINKAT == 37);
        assert(number::RENAMEAT == 38);
        assert(number::UMOUNT2 == 39);
        assert(number::MOUNT == 40);
        assert(number::FTRUNCATE == 46);
        assert(number::FACCESSAT == 48);
        assert(number::CHDIR == 49);
        assert(number::OPENAT == 56);
        assert(number::CLOSE == 57);
        assert(number::PIPE2 == 59);
        assert(number::GETDENTS64 == 61);
        assert(number::LSEEK == 62);
        assert(number::READ == 63);
        assert(number::WRITE == 64);
        assert(number::PSELECT6 == 72);
        assert(number::PPOLL == 73);
        assert(number::READLINKAT == 78);
        assert(number::NEWFSTATAT == 79);
        assert(number::FSTAT == 80);
        assert(number::FSYNC == 82);
        assert(number::EXIT == 93);
        assert(number::EXIT_GROUP == 94);
        assert(number::SET_TID_ADDRESS == 96);
        assert(number::SET_ROBUST_LIST == 99);
        assert(number::NANOSLEEP == 101);
        assert(number::CLOCK_GETTIME == 113);
        assert(number::SCHED_YIELD == 124);
        assert(number::KILL == 129);
        assert(number::RT_SIGACTION == 134);
        assert(number::RT_SIGPROCMASK == 135);
        assert(number::RT_SIGRETURN == 139);
        assert(number::UNAME == 160);
        assert(number::GETPID == 172);
        assert(number::GETPPID == 173);
        assert(number::GETUID == 174);
        assert(number::GETEUID == 175);
        assert(number::GETGID == 176);
        assert(number::GETEGID == 177);
        assert(number::GETTID == 178);
        assert(number::SYSINFO == 179);
        assert(number::BRK == 214);
        assert(number::MUNMAP == 215);
        assert(number::CLONE == 220);
        assert(number::EXECVE == 221);
        assert(number::MMAP == 222);
        assert(number::MPROTECT == 226);
        assert(number::WAIT4 == 260);
        assert(number::PRLIMIT64 == 261);
        assert(number::GETRANDOM == 278);
        assert(errno::EAGAIN == 11);
        assert(errno::EPIPE == 32);
    }
    let enosys = errno::encode(errno::ENOSYS);
    let flagged = errno::is_error(enosys);
    let success = errno::is_error(0);
    assert(flagged && !success);
}

} // verus!
