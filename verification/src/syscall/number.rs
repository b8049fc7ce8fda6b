//! Linux asm-generic syscall numbers.
use vstd::prelude::*;

verus! {
pub const GETCWD: usize = 17;
pub const DUP: usize = 23;
pub const DUP3: usize = 24;
pub const FCNTL: usize = 25;
pub const IOCTL: usize = 29;
pub const MKDIRAT: usize = 34;
pub const UNLINKAT: usize = 35;
pub const SYMLINKAT: usize = 36;
pub const LINKAT: usize = 37;
pub const RENAMEAT: usize = 38;
pub const UMOUNT2: usize = 39;
pub const MOUNT: usize = 40;
pub const FACCESSAT: usize = 48;
pub const CHDIR: usize = 49;
pub const OPENAT: usize = 56;
pub const CLOSE: usize = 57;
pub const PIPE2: usize = 59;
pub const GETDENTS64: usize = 61;
pub const LSEEK: usize = 62;
pub const READ: usize = 63;
pub const WRITE: usize = 64;
pub const READV: usize = 65;
pub const WRITEV: usize = 66;
pub const PREAD64: usize = 67;
pub const PSELECT6: usize = 72;
pub const PPOLL: usize = 73;
pub const READLINKAT: usize = 78;
pub const NEWFSTATAT: usize = 79;
pub const FSTAT: usize = 80;
pub const FSYNC: usize = 82;
pub const EXIT: usize = 93;
pub const EXIT_GROUP: usize = 94;
pub const SET_TID_ADDRESS: usize = 96;
pub const SET_ROBUST_LIST: usize = 99;
pub const NANOSLEEP: usize = 101;
pub const CLOCK_GETTIME: usize = 113;
pub const SCHED_YIELD: usize = 124;
pub const KILL: usize = 129;
pub const TKILL: usize = 130;
pub const TGKILL: usize = 131;
pub const SETSID: usize = 132;
pub const SETPGID: usize = 133;
pub const RT_SIGACTION: usize = 134;
pub const RT_SIGPROCMASK: usize = 135;
pub const RT_SIGTIMEDWAIT: usize = 137;
pub const RT_SIGRETURN: usize = 139;
pub const TIMES: usize = 153;
pub const GETPGID: usize = 155;
pub const GETSID: usize = 156;
pub const UNAME: usize = 160;
pub const GETTIMEOFDAY: usize = 169;
pub const GETPID: usize = 172;
pub const GETPPID: usize = 173;
pub const GETUID: usize = 174;
pub const GETEUID: usize = 175;
pub const GETGID: usize = 176;
pub const GETEGID: usize = 177;
pub const GETTID: usize = 178;
pub const SYSINFO: usize = 179;
pub const BRK: usize = 214;
pub const MUNMAP: usize = 215;
pub const CLONE: usize = 220;
pub const EXECVE: usize = 221;
pub const MMAP: usize = 222;
pub const MPROTECT: usize = 226;
pub const WAIT4: usize = 260;
pub const PRLIMIT64: usize = 261;
pub const GETRANDOM: usize = 278;
pub const STATX: usize = 291;
pub const FTRUNCATE: usize = 46;
// Socket syscalls (Linux asm-generic)
pub const SOCKET: usize = 198;
pub const BIND: usize = 200;
pub const LISTEN: usize = 201;
pub const ACCEPT: usize = 202;
pub const CONNECT: usize = 203;
pub const GETSOCKNAME: usize = 204;
pub const GETPEERNAME: usize = 205;
pub const SENDTO: usize = 206;
pub const RECVFROM: usize = 207;
pub const SHUTDOWN: usize = 210;
pub const SETSOCKOPT: usize = 208;
pub const GETSOCKOPT: usize = 209;

} // verus!
