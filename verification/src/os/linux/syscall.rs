//! System call names and the guest-side layout of the structures that system
//! calls fill.

use crate::utils::{be_bytes, Endian, Packer};
use vstd::prelude::*;
use vstd::string::StringSliceAdditionalSpecFns;

verus! {

/// The system calls that the emulator knows by name.
#[allow(non_camel_case_types)]
#[derive(Debug, Clone, Copy, PartialEq, Eq, Hash, Structural)]
pub enum SysCalls {
    GETPID,
    SET_THREAD_AREA,
    SET_TID_ADDRESS,
    POLL,
    RT_SIGACTION,
    RT_SIGPROCMASK,
    SYSCALL_SIGNAL,
    SCHED_GETAFFINITY,
    SIGALTSTACK,
    SIGRETURN,
    RT_SIGRETURN,
    BRK,
    EXIT_GROUP,
    GETRANDOM,
    FUTEX,
    SCHED_YIELD,
    TKILL,
    GETTIMEOFDAY,
    CLOCK_GETTIME,
    EXIT,
    MUNMAP,
    MPROTECT,
    MREMAP,
    MMAP2,
    MADVISE,
    GETRLIMIT,
    SYSINFO,
    SET_ROBUST_LIST,
    PRLIMIT64,
    OPEN,
    READ,
    WRITE,
    CLOSE,
    LSEEK,
    FCNTL,
    READLINK,
    STAT,
    _LLSEEK,
    STAT64,
    FSTAT,
    FSTAT64,
    FCNTL64,
    LSTAT64,
    FSTATAT64,
    GETCWD,
    IOCTL,
    WRITEV,
}

impl SysCalls {
    /// The lower-case name of the call, as the system call table spells it.
    pub open spec fn name_spec(self) -> Seq<u8> {
        match self {
            SysCalls::GETPID => "getpid".spec_bytes(),
            SysCalls::SET_THREAD_AREA => "set_thread_area".spec_bytes(),
            SysCalls::SET_TID_ADDRESS => "set_tid_address".spec_bytes(),
            SysCalls::POLL => "poll".spec_bytes(),
            SysCalls::RT_SIGACTION => "rt_sigaction".spec_bytes(),
            SysCalls::RT_SIGPROCMASK => "rt_sigprocmask".spec_bytes(),
            SysCalls::SYSCALL_SIGNAL => "syscall_signal".spec_bytes(),
            SysCalls::SCHED_GETAFFINITY => "sched_getaffinity".spec_bytes(),
            SysCalls::SIGALTSTACK => "sigaltstack".spec_bytes(),
            SysCalls::SIGRETURN => "sigreturn".spec_bytes(),
            SysCalls::RT_SIGRETURN => "rt_sigreturn".spec_bytes(),
            SysCalls::BRK => "brk".spec_bytes(),
            SysCalls::EXIT_GROUP => "exit_group".spec_bytes(),
            SysCalls::GETRANDOM => "getrandom".spec_bytes(),
            SysCalls::FUTEX => "futex".spec_bytes(),
            SysCalls::SCHED_YIELD => "sched_yield".spec_bytes(),
            SysCalls::TKILL => "tkill".spec_bytes(),
            SysCalls::GETTIMEOFDAY => "gettimeofday".spec_bytes(),
            SysCalls::CLOCK_GETTIME => "clock_gettime".spec_bytes(),
            SysCalls::EXIT => "exit".spec_bytes(),
            SysCalls::MUNMAP => "munmap".spec_bytes(),
            SysCalls::MPROTECT => "mprotect".spec_bytes(),
            SysCalls::MREMAP => "mremap".spec_bytes(),
            SysCalls::MMAP2 => "mmap2".spec_bytes(),
            SysCalls::MADVISE => "madvise".spec_bytes(),
            SysCalls::GETRLIMIT => "getrlimit".spec_bytes(),
            SysCalls::SYSINFO => "sysinfo".spec_bytes(),
            SysCalls::SET_ROBUST_LIST => "set_robust_list".spec_bytes(),
            SysCalls::PRLIMIT64 => "prlimit64".spec_bytes(),
            SysCalls::OPEN => "open".spec_bytes(),
            SysCalls::READ => "read".spec_bytes(),
            SysCalls::WRITE => "write".spec_bytes(),
            SysCalls::CLOSE => "close".spec_bytes(),
            SysCalls::LSEEK => "lseek".spec_bytes(),
            SysCalls::FCNTL => "fcntl".spec_bytes(),
            SysCalls::READLINK => "readlink".spec_bytes(),
            SysCalls::STAT => "stat".spec_bytes(),
            SysCalls::_LLSEEK => "_llseek".spec_bytes(),
            SysCalls::STAT64 => "stat64".spec_bytes(),
            SysCalls::FSTAT => "fstat".spec_bytes(),
            SysCalls::FSTAT64 => "fstat64".spec_bytes(),
            SysCalls::FCNTL64 => "fcntl64".spec_bytes(),
            SysCalls::LSTAT64 => "lstat64".spec_bytes(),
            SysCalls::FSTATAT64 => "fstatat64".spec_bytes(),
            SysCalls::GETCWD => "getcwd".spec_bytes(),
            SysCalls::IOCTL => "ioctl".spec_bytes(),
            SysCalls::WRITEV => "writev".spec_bytes(),
        }
    }

    /// The lower-case name of the call.
    pub fn name(self) -> (r: &'static str)
        ensures
            r.spec_bytes() == self.name_spec(),
    {
        match self {
            SysCalls::GETPID => "getpid",
            SysCalls::SET_THREAD_AREA => "set_thread_area",
            SysCalls::SET_TID_ADDRESS => "set_tid_address",
            SysCalls::POLL => "poll",
            SysCalls::RT_SIGACTION => "rt_sigaction",
            SysCalls::RT_SIGPROCMASK => "rt_sigprocmask",
            SysCalls::SYSCALL_SIGNAL => "syscall_signal",
            SysCalls::SCHED_GETAFFINITY => "sched_getaffinity",
            SysCalls::SIGALTSTACK => "sigaltstack",
            SysCalls::SIGRETURN => "sigreturn",
            SysCalls::RT_SIGRETURN => "rt_sigreturn",
            SysCalls::BRK => "brk",
            SysCalls::EXIT_GROUP => "exit_group",
            SysCalls::GETRANDOM => "getrandom",
            SysCalls::FUTEX => "futex",
            SysCalls::SCHED_YIELD => "sched_yield",
            SysCalls::TKILL => "tkill",
            SysCalls::GETTIMEOFDAY => "gettimeofday",
            SysCalls::CLOCK_GETTIME => "clock_gettime",
            SysCalls::EXIT => "exit",
            SysCalls::MUNMAP => "munmap",
            SysCalls::MPROTECT => "mprotect",
            SysCalls::MREMAP => "mremap",
            SysCalls::MMAP2 => "mmap2",
            SysCalls::MADVISE => "madvise",
            SysCalls::GETRLIMIT => "getrlimit",
            SysCalls::SYSINFO => "sysinfo",
            SysCalls::SET_ROBUST_LIST => "set_robust_list",
            SysCalls::PRLIMIT64 => "prlimit64",
            SysCalls::OPEN => "open",
            SysCalls::READ => "read",
            SysCalls::WRITE => "write",
            SysCalls::CLOSE => "close",
            SysCalls::LSEEK => "lseek",
            SysCalls::FCNTL => "fcntl",
            SysCalls::READLINK => "readlink",
            SysCalls::STAT => "stat",
            SysCalls::_LLSEEK => "_llseek",
            SysCalls::STAT64 => "stat64",
            SysCalls::FSTAT => "fstat",
            SysCalls::FSTAT64 => "fstat64",
            SysCalls::FCNTL64 => "fcntl64",
            SysCalls::LSTAT64 => "lstat64",
            SysCalls::FSTATAT64 => "fstatat64",
            SysCalls::GETCWD => "getcwd",
            SysCalls::IOCTL => "ioctl",
            SysCalls::WRITEV => "writev",
        }
    }

    /// The position of the call in the list of calls.
    pub open spec fn index_spec(self) -> int {
        match self {
            SysCalls::GETPID => 0,
            SysCalls::SET_THREAD_AREA => 1,
            SysCalls::SET_TID_ADDRESS => 2,
            SysCalls::POLL => 3,
            SysCalls::RT_SIGACTION => 4,
            SysCalls::RT_SIGPROCMASK => 5,
            SysCalls::SYSCALL_SIGNAL => 6,
            SysCalls::SCHED_GETAFFINITY => 7,
            SysCalls::SIGALTSTACK => 8,
            SysCalls::SIGRETURN => 9,
            SysCalls::RT_SIGRETURN => 10,
            SysCalls::BRK => 11,
            SysCalls::EXIT_GROUP => 12,
            SysCalls::GETRANDOM => 13,
            SysCalls::FUTEX => 14,
            SysCalls::SCHED_YIELD => 15,
            SysCalls::TKILL => 16,
            SysCalls::GETTIMEOFDAY => 17,
            SysCalls::CLOCK_GETTIME => 18,
            SysCalls::EXIT => 19,
            SysCalls::MUNMAP => 20,
            SysCalls::MPROTECT => 21,
            SysCalls::MREMAP => 22,
            SysCalls::MMAP2 => 23,
            SysCalls::MADVISE => 24,
            SysCalls::GETRLIMIT => 25,
            SysCalls::SYSINFO => 26,
            SysCalls::SET_ROBUST_LIST => 27,
            SysCalls::PRLIMIT64 => 28,
            SysCalls::OPEN => 29,
            SysCalls::READ => 30,
            SysCalls::WRITE => 31,
            SysCalls::CLOSE => 32,
            SysCalls::LSEEK => 33,
            SysCalls::FCNTL => 34,
            SysCalls::READLINK => 35,
            SysCalls::STAT => 36,
            SysCalls::_LLSEEK => 37,
            SysCalls::STAT64 => 38,
            SysCalls::FSTAT => 39,
            SysCalls::FSTAT64 => 40,
            SysCalls::FCNTL64 => 41,
            SysCalls::LSTAT64 => 42,
            SysCalls::FSTATAT64 => 43,
            SysCalls::GETCWD => 44,
            SysCalls::IOCTL => 45,
            SysCalls::WRITEV => 46,
        }
    }

    /// The call at position `i` of the list of calls.
    pub fn nth(i: usize) -> (r: SysCalls)
        requires
            i < SYSCALL_COUNT,
        ensures
            r.index_spec() == i,
    {
        match i {
            0 => SysCalls::GETPID,
            1 => SysCalls::SET_THREAD_AREA,
            2 => SysCalls::SET_TID_ADDRESS,
            3 => SysCalls::POLL,
            4 => SysCalls::RT_SIGACTION,
            5 => SysCalls::RT_SIGPROCMASK,
            6 => SysCalls::SYSCALL_SIGNAL,
            7 => SysCalls::SCHED_GETAFFINITY,
            8 => SysCalls::SIGALTSTACK,
            9 => SysCalls::SIGRETURN,
            10 => SysCalls::RT_SIGRETURN,
            11 => SysCalls::BRK,
            12 => SysCalls::EXIT_GROUP,
            13 => SysCalls::GETRANDOM,
            14 => SysCalls::FUTEX,
            15 => SysCalls::SCHED_YIELD,
            16 => SysCalls::TKILL,
            17 => SysCalls::GETTIMEOFDAY,
            18 => SysCalls::CLOCK_GETTIME,
            19 => SysCalls::EXIT,
            20 => SysCalls::MUNMAP,
            21 => SysCalls::MPROTECT,
            22 => SysCalls::MREMAP,
            23 => SysCalls::MMAP2,
            24 => SysCalls::MADVISE,
            25 => SysCalls::GETRLIMIT,
            26 => SysCalls::SYSINFO,
            27 => SysCalls::SET_ROBUST_LIST,
            28 => SysCalls::PRLIMIT64,
            29 => SysCalls::OPEN,
            30 => SysCalls::READ,
            31 => SysCalls::WRITE,
            32 => SysCalls::CLOSE,
            33 => SysCalls::LSEEK,
            34 => SysCalls::FCNTL,
            35 => SysCalls::READLINK,
            36 => SysCalls::STAT,
            37 => SysCalls::_LLSEEK,
            38 => SysCalls::STAT64,
            39 => SysCalls::FSTAT,
            40 => SysCalls::FSTAT64,
            41 => SysCalls::FCNTL64,
            42 => SysCalls::LSTAT64,
            43 => SysCalls::FSTATAT64,
            44 => SysCalls::GETCWD,
            45 => SysCalls::IOCTL,
            _ => SysCalls::WRITEV,
        }
    }

    /// The call that the table spells `name`, if there is one.
    pub fn from_name(name: &str) -> (r: Option<SysCalls>)
        ensures
            match r {
                Some(c) => c.name_spec() == name.spec_bytes(),
                None => forall|c: SysCalls| c.name_spec() != name.spec_bytes(),
            },
            r == call_named(name.spec_bytes()),
    {
        let b = name.as_bytes();
        let mut i: usize = 0;
        while i < SYSCALL_COUNT
            invariant
                0 <= i <= SYSCALL_COUNT,
                b@ == name.spec_bytes(),
                forall|c: SysCalls| 0 <= c.index_spec() < i ==> c.name_spec() != name.spec_bytes(),
            decreases SYSCALL_COUNT - i,
        {
            let c = SysCalls::nth(i);
            if bytes_eq(b, c.name().as_bytes()) {
                proof {
                    let d = choose|d: SysCalls| d.name_spec() == name.spec_bytes();
                    lemma_names_differ(c, d);
                }
                return Some(c);
            }
            proof {
                lemma_index_unique(c);
            }
            i += 1;
        }
        proof {
            assert forall|c: SysCalls| c.name_spec() != name.spec_bytes() by {
                lemma_index_unique(c);
            }
        }
        None
    }
}

/// Number of system calls that the emulator knows by name.
pub const SYSCALL_COUNT: usize = 47;

/// Every call has a position in the list, and no two calls share one.
pub proof fn lemma_index_unique(c: SysCalls)
    ensures
        0 <= c.index_spec() < SYSCALL_COUNT,
        forall|d: SysCalls| d.index_spec() == c.index_spec() ==> d == c,
{
}

/// Byte `i` of `b`, or zero behind its end.
pub open spec fn byte_or_zero(b: Seq<u8>, i: int) -> int {
    if 0 <= i < b.len() {
        b[i] as int
    } else {
        0
    }
}

/// What tells the names of the calls apart: the length of a name and four of
/// its letters.
pub open spec fn name_key(b: Seq<u8>) -> (int, int, int, int, int) {
    (
        b.len() as int,
        byte_or_zero(b, 0),
        byte_or_zero(b, 1),
        byte_or_zero(b, 3),
        byte_or_zero(b, 6),
    )
}

impl SysCalls {
    /// The key of the name of the call.
    pub open spec fn key_spec(self) -> (int, int, int, int, int) {
        match self {
            SysCalls::GETPID => (6int, 103int, 101int, 112int, 0int),
            SysCalls::SET_THREAD_AREA => (15int, 115int, 101int, 95int, 114int),
            SysCalls::SET_TID_ADDRESS => (15int, 115int, 101int, 95int, 100int),
            SysCalls::POLL => (4int, 112int, 111int, 108int, 0int),
            SysCalls::RT_SIGACTION => (12int, 114int, 116int, 115int, 97int),
            SysCalls::RT_SIGPROCMASK => (14int, 114int, 116int, 115int, 112int),
            SysCalls::SYSCALL_SIGNAL => (14int, 115int, 121int, 99int, 108int),
            SysCalls::SCHED_GETAFFINITY => (17int, 115int, 99int, 101int, 103int),
            SysCalls::SIGALTSTACK => (11int, 115int, 105int, 97int, 115int),
            SysCalls::SIGRETURN => (9int, 115int, 105int, 114int, 117int),
            SysCalls::RT_SIGRETURN => (12int, 114int, 116int, 115int, 114int),
            SysCalls::BRK => (3int, 98int, 114int, 0int, 0int),
            SysCalls::EXIT_GROUP => (10int, 101int, 120int, 116int, 114int),
            SysCalls::GETRANDOM => (9int, 103int, 101int, 114int, 100int),
            SysCalls::FUTEX => (5int, 102int, 117int, 101int, 0int),
            SysCalls::SCHED_YIELD => (11int, 115int, 99int, 101int, 121int),
            SysCalls::TKILL => (5int, 116int, 107int, 108int, 0int),
            SysCalls::GETTIMEOFDAY => (12int, 103int, 101int, 116int, 101int),
            SysCalls::CLOCK_GETTIME => (13int, 99int, 108int, 99int, 103int),
            SysCalls::EXIT => (4int, 101int, 120int, 116int, 0int),
            SysCalls::MUNMAP => (6int, 109int, 117int, 109int, 0int),
            SysCalls::MPROTECT => (8int, 109int, 112int, 111int, 99int),
            SysCalls::MREMAP => (6int, 109int, 114int, 109int, 0int),
            SysCalls::MMAP2 => (5int, 109int, 109int, 112int, 0int),
            SysCalls::MADVISE => (7int, 109int, 97int, 118int, 101int),
            SysCalls::GETRLIMIT => (9int, 103int, 101int, 114int, 109int),
            SysCalls::SYSINFO => (7int, 115int, 121int, 105int, 111int),
            SysCalls::SET_ROBUST_LIST => (15int, 115int, 101int, 95int, 98int),
            SysCalls::PRLIMIT64 => (9int, 112int, 114int, 105int, 116int),
            SysCalls::OPEN => (4int, 111int, 112int, 110int, 0int),
            SysCalls::READ => (4int, 114int, 101int, 100int, 0int),
            SysCalls::WRITE => (5int, 119int, 114int, 116int, 0int),
            SysCalls::CLOSE => (5int, 99int, 108int, 115int, 0int),
            SysCalls::LSEEK => (5int, 108int, 115int, 101int, 0int),
            SysCalls::FCNTL => (5int, 102int, 99int, 116int, 0int),
            SysCalls::READLINK => (8int, 114int, 101int, 100int, 110int),
            SysCalls::STAT => (4int, 115int, 116int, 116int, 0int),
            SysCalls::_LLSEEK => (7int, 95int, 108int, 115int, 107int),
            SysCalls::STAT64 => (6int, 115int, 116int, 116int, 0int),
            SysCalls::FSTAT => (5int, 102int, 115int, 97int, 0int),
            SysCalls::FSTAT64 => (7int, 102int, 115int, 97int, 52int),
            SysCalls::FCNTL64 => (7int, 102int, 99int, 116int, 52int),
            SysCalls::LSTAT64 => (7int, 108int, 115int, 97int, 52int),
            SysCalls::FSTATAT64 => (9int, 102int, 115int, 97int, 116int),
            SysCalls::GETCWD => (6int, 103int, 101int, 99int, 0int),
            SysCalls::IOCTL => (5int, 105int, 111int, 116int, 0int),
            SysCalls::WRITEV => (6int, 119int, 114int, 116int, 0int),
        }
    }
}

/// The name of each call has the key that `key_spec` gives.
pub proof fn lemma_name_key(c: SysCalls)
    ensures
        name_key(c.name_spec()) == c.key_spec(),
{
    match c {
        SysCalls::GETPID => {
            reveal_strlit("getpid");
            vstd::string::is_ascii_spec_bytes("getpid");
        },
        SysCalls::SET_THREAD_AREA => {
            reveal_strlit("set_thread_area");
            vstd::string::is_ascii_spec_bytes("set_thread_area");
        },
        SysCalls::SET_TID_ADDRESS => {
            reveal_strlit("set_tid_address");
            vstd::string::is_ascii_spec_bytes("set_tid_address");
        },
        SysCalls::POLL => {
            reveal_strlit("poll");
            vstd::string::is_ascii_spec_bytes("poll");
        },
        SysCalls::RT_SIGACTION => {
            reveal_strlit("rt_sigaction");
            vstd::string::is_ascii_spec_bytes("rt_sigaction");
        },
        SysCalls::RT_SIGPROCMASK => {
            reveal_strlit("rt_sigprocmask");
            vstd::string::is_ascii_spec_bytes("rt_sigprocmask");
        },
        SysCalls::SYSCALL_SIGNAL => {
            reveal_strlit("syscall_signal");
            vstd::string::is_ascii_spec_bytes("syscall_signal");
        },
        SysCalls::SCHED_GETAFFINITY => {
            reveal_strlit("sched_getaffinity");
            vstd::string::is_ascii_spec_bytes("sched_getaffinity");
        },
        SysCalls::SIGALTSTACK => {
            reveal_strlit("sigaltstack");
            vstd::string::is_ascii_spec_bytes("sigaltstack");
        },
        SysCalls::SIGRETURN => {
            reveal_strlit("sigreturn");
            vstd::string::is_ascii_spec_bytes("sigreturn");
        },
        SysCalls::RT_SIGRETURN => {
            reveal_strlit("rt_sigreturn");
            vstd::string::is_ascii_spec_bytes("rt_sigreturn");
        },
        SysCalls::BRK => {
            reveal_strlit("brk");
            vstd::string::is_ascii_spec_bytes("brk");
        },
        SysCalls::EXIT_GROUP => {
            reveal_strlit("exit_group");
            vstd::string::is_ascii_spec_bytes("exit_group");
        },
        SysCalls::GETRANDOM => {
            reveal_strlit("getrandom");
            vstd::string::is_ascii_spec_bytes("getrandom");
        },
        SysCalls::FUTEX => {
            reveal_strlit("futex");
            vstd::string::is_ascii_spec_bytes("futex");
        },
        SysCalls::SCHED_YIELD => {
            reveal_strlit("sched_yield");
            vstd::string::is_ascii_spec_bytes("sched_yield");
        },
        SysCalls::TKILL => {
            reveal_strlit("tkill");
            vstd::string::is_ascii_spec_bytes("tkill");
        },
        SysCalls::GETTIMEOFDAY => {
            reveal_strlit("gettimeofday");
            vstd::string::is_ascii_spec_bytes("gettimeofday");
        },
        SysCalls::CLOCK_GETTIME => {
            reveal_strlit("clock_gettime");
            vstd::string::is_ascii_spec_bytes("clock_gettime");
        },
        SysCalls::EXIT => {
            reveal_strlit("exit");
            vstd::string::is_ascii_spec_bytes("exit");
        },
        SysCalls::MUNMAP => {
            reveal_strlit("munmap");
            vstd::string::is_ascii_spec_bytes("munmap");
        },
        SysCalls::MPROTECT => {
            reveal_strlit("mprotect");
            vstd::string::is_ascii_spec_bytes("mprotect");
        },
        SysCalls::MREMAP => {
            reveal_strlit("mremap");
            vstd::string::is_ascii_spec_bytes("mremap");
        },
        SysCalls::MMAP2 => {
            reveal_strlit("mmap2");
            vstd::string::is_ascii_spec_bytes("mmap2");
        },
        SysCalls::MADVISE => {
            reveal_strlit("madvise");
            vstd::string::is_ascii_spec_bytes("madvise");
        },
        SysCalls::GETRLIMIT => {
            reveal_strlit("getrlimit");
            vstd::string::is_ascii_spec_bytes("getrlimit");
        },
        SysCalls::SYSINFO => {
            reveal_strlit("sysinfo");
            vstd::string::is_ascii_spec_bytes("sysinfo");
        },
        SysCalls::SET_ROBUST_LIST => {
            reveal_strlit("set_robust_list");
            vstd::string::is_ascii_spec_bytes("set_robust_list");
        },
        SysCalls::PRLIMIT64 => {
            reveal_strlit("prlimit64");
            vstd::string::is_ascii_spec_bytes("prlimit64");
        },
        SysCalls::OPEN => {
            reveal_strlit("open");
            vstd::string::is_ascii_spec_bytes("open");
        },
        SysCalls::READ => {
            reveal_strlit("read");
            vstd::string::is_ascii_spec_bytes("read");
        },
        SysCalls::WRITE => {
            reveal_strlit("write");
            vstd::string::is_ascii_spec_bytes("write");
        },
        SysCalls::CLOSE => {
            reveal_strlit("close");
            vstd::string::is_ascii_spec_bytes("close");
        },
        SysCalls::LSEEK => {
            reveal_strlit("lseek");
            vstd::string::is_ascii_spec_bytes("lseek");
        },
        SysCalls::FCNTL => {
            reveal_strlit("fcntl");
            vstd::string::is_ascii_spec_bytes("fcntl");
        },
        SysCalls::READLINK => {
            reveal_strlit("readlink");
            vstd::string::is_ascii_spec_bytes("readlink");
        },
        SysCalls::STAT => {
            reveal_strlit("stat");
            vstd::string::is_ascii_spec_bytes("stat");
        },
        SysCalls::_LLSEEK => {
            reveal_strlit("_llseek");
            vstd::string::is_ascii_spec_bytes("_llseek");
        },
        SysCalls::STAT64 => {
            reveal_strlit("stat64");
            vstd::string::is_ascii_spec_bytes("stat64");
        },
        SysCalls::FSTAT => {
            reveal_strlit("fstat");
            vstd::string::is_ascii_spec_bytes("fstat");
        },
        SysCalls::FSTAT64 => {
            reveal_strlit("fstat64");
            vstd::string::is_ascii_spec_bytes("fstat64");
        },
        SysCalls::FCNTL64 => {
            reveal_strlit("fcntl64");
            vstd::string::is_ascii_spec_bytes("fcntl64");
        },
        SysCalls::LSTAT64 => {
            reveal_strlit("lstat64");
            vstd::string::is_ascii_spec_bytes("lstat64");
        },
        SysCalls::FSTATAT64 => {
            reveal_strlit("fstatat64");
            vstd::string::is_ascii_spec_bytes("fstatat64");
        },
        SysCalls::GETCWD => {
            reveal_strlit("getcwd");
            vstd::string::is_ascii_spec_bytes("getcwd");
        },
        SysCalls::IOCTL => {
            reveal_strlit("ioctl");
            vstd::string::is_ascii_spec_bytes("ioctl");
        },
        SysCalls::WRITEV => {
            reveal_strlit("writev");
            vstd::string::is_ascii_spec_bytes("writev");
        },
    }
}

/// No two calls share a name.
pub proof fn lemma_names_differ(c: SysCalls, d: SysCalls)
    requires
        c.name_spec() == d.name_spec(),
    ensures
        c == d,
{
    lemma_name_key(c);
    lemma_name_key(d);
}

/// The call whose name is `name`, if there is one.
pub open spec fn call_named(name: Seq<u8>) -> Option<SysCalls> {
    if exists|c: SysCalls| c.name_spec() == name {
        Some(choose|c: SysCalls| c.name_spec() == name)
    } else {
        None
    }
}

/// Whether two byte strings are equal.
pub fn bytes_eq(a: &[u8], b: &[u8]) -> (r: bool)
    ensures
        r == (a@ == b@),
{
    if a.len() != b.len() {
        return false;
    }
    let mut i: usize = 0;
    while i < a.len()
        invariant
            a@.len() == b@.len(),
            0 <= i <= a@.len(),
            forall|j: int| 0 <= j < i ==> a@[j] == b@[j],
        decreases a@.len() - i,
    {
        if a[i] != b[i] {
            return false;
        }
        i += 1;
    }
    assert(a@ =~= b@);
    true
}

/// `n` zero bytes.
pub open spec fn zeros(n: nat) -> Seq<u8> {
    Seq::new(n, |i: int| 0u8)
}

/// Appends `n` zero bytes.
pub fn push_zeros(v: &mut Vec<u8>, n: usize)
    ensures
        final(v)@ == old(v)@ + zeros(n as nat),
{
    let mut i: usize = 0;
    assert(v@ =~= old(v)@ + zeros(0));
    while i < n
        invariant
            0 <= i <= n,
            v@ == old(v)@ + zeros(i as nat),
        decreases n - i,
    {
        v.push(0);
        assert(v@ =~= old(v)@ + zeros((i + 1) as nat));
        i += 1;
    }
}

/// Appends the low `size` bytes of `value` in big-endian order.
pub fn push_be(v: &mut Vec<u8>, value: u64, size: u8)
    requires
        size <= 8,
    ensures
        final(v)@ == old(v)@ + be_bytes(value, size as nat),
{
    let p = Packer::new(Endian::Big, size);
    let mut b = p.pack(value);
    v.append(&mut b);
}

/// A resource limit as the guest sees it.
#[derive(Debug, Clone, Copy, PartialEq, Eq, Structural)]
pub struct Rlimit {
    pub cur: u32,
    pub max: u32,
}

impl Rlimit {
    /// The guest layout: the soft limit, then the hard limit.
    pub open spec fn encoded(self) -> Seq<u8> {
        be_bytes(self.cur as u64, 4) + be_bytes(self.max as u64, 4)
    }

    /// The bytes of the limit in the guest layout.
    pub fn encode(&self) -> (r: Vec<u8>)
        ensures
            r@ == self.encoded(),
    {
        let mut v: Vec<u8> = Vec::new();
        push_be(&mut v, self.cur as u64, 4);
        push_be(&mut v, self.max as u64, 4);
        assert(v@ =~= self.encoded());
        v
    }
}

/// The fields of a host `stat` result that reach the guest.
#[derive(Debug, Clone, Copy, PartialEq, Eq, Structural)]
pub struct StatX8664 {
    pub st_ino: u64,
    pub st_mode: u32,
    pub st_size: i64,
}

/// `struct stat` of a 32-bit MIPS guest; fields that are not listed are zero.
#[derive(Debug, Clone, Copy, PartialEq, Eq, Structural)]
pub struct StatMIPS {
    pub st_ino: u32,
    pub st_mode: u32,
    pub st_size: u32,
}

/// The low 32 bits of `v`.
pub open spec fn low32(v: u64) -> u32 {
    (v % 0x1_0000_0000) as u32
}

impl StatMIPS {
    /// The structure with all fields zero.
    pub fn new() -> (s: StatMIPS)
        ensures
            s == (StatMIPS { st_ino: 0, st_mode: 0, st_size: 0 }),
    {
        StatMIPS { st_ino: 0, st_mode: 0, st_size: 0 }
    }

    /// The guest structure for a host result: inode and size are cut to 32
    /// bits.
    pub fn from_host(h: &StatX8664) -> (s: StatMIPS)
        ensures
            s.st_ino == low32(h.st_ino),
            s.st_mode == h.st_mode,
            s.st_size == low32(h.st_size as u64),
    {
        StatMIPS {
            st_ino: (h.st_ino % 0x1_0000_0000) as u32,
            st_mode: h.st_mode,
            st_size: ((h.st_size as u64) % 0x1_0000_0000) as u32,
        }
    }

    /// The 144 bytes of the guest layout: the inode at offset 16, the mode at
    /// 20, the size at 48.
    pub open spec fn encoded(self) -> Seq<u8> {
        zeros(16) + be_bytes(self.st_ino as u64, 4) + be_bytes(self.st_mode as u64, 4) + zeros(24)
            + be_bytes(self.st_size as u64, 4) + zeros(92)
    }

    /// The bytes of the structure in the guest layout.
    pub fn encode(&self) -> (r: Vec<u8>)
        ensures
            r@ == self.encoded(),
            r@.len() == 144,
    {
        let mut v: Vec<u8> = Vec::new();
        push_zeros(&mut v, 16);
        push_be(&mut v, self.st_ino as u64, 4);
        push_be(&mut v, self.st_mode as u64, 4);
        push_zeros(&mut v, 24);
        push_be(&mut v, self.st_size as u64, 4);
        push_zeros(&mut v, 92);
        assert(v@ =~= self.encoded());
        v
    }
}

/// `struct stat64` of a 32-bit MIPS guest; fields that are not listed are
/// zero.
#[derive(Debug, Clone, Copy, PartialEq, Eq, Structural)]
pub struct Stat64MIPS {
    pub st_ino: u64,
    pub st_mode: u32,
    pub st_size: u64,
}

impl Stat64MIPS {
    /// The structure with all fields zero.
    pub fn new() -> (s: Stat64MIPS)
        ensures
            s == (Stat64MIPS { st_ino: 0, st_mode: 0, st_size: 0 }),
    {
        Stat64MIPS { st_ino: 0, st_mode: 0, st_size: 0 }
    }

    /// The guest structure for a host result.
    pub fn from_host(h: &StatX8664) -> (s: Stat64MIPS)
        ensures
            s.st_ino == h.st_ino,
            s.st_mode == h.st_mode,
            s.st_size == h.st_size as u64,
    {
        Stat64MIPS { st_ino: h.st_ino, st_mode: h.st_mode, st_size: h.st_size as u64 }
    }

    /// The 104 bytes of the guest layout: the inode at offset 16, the mode at
    /// 24, the size at 56.
    pub open spec fn encoded(self) -> Seq<u8> {
        zeros(16) + be_bytes(self.st_ino, 8) + be_bytes(self.st_mode as u64, 4) + zeros(28)
            + be_bytes(self.st_size, 8) + zeros(40)
    }

    /// The bytes of the structure in the guest layout.
    pub fn encode(&self) -> (r: Vec<u8>)
        ensures
            r@ == self.encoded(),
            r@.len() == 104,
    {
        let mut v: Vec<u8> = Vec::new();
        push_zeros(&mut v, 16);
        push_be(&mut v, self.st_ino, 8);
        push_be(&mut v, self.st_mode as u64, 4);
        push_zeros(&mut v, 28);
        push_be(&mut v, self.st_size, 8);
        push_zeros(&mut v, 40);
        assert(v@ =~= self.encoded());
        v
    }
}

/// `struct sysinfo` of a 32-bit MIPS guest.
#[derive(Debug, Clone, Copy, PartialEq, Eq, Structural)]
pub struct SysInfoMIPS {
    pub uptime: u32,
    pub loads: u32,
    pub total_ram: u32,
    pub free_ram: u32,
    pub shared_ram: u32,
    pub buffer_ram: u32,
    pub total_swap: u32,
    pub free_swap: u32,
    pub procs: u16,
    pub total_high: u32,
    pub free_high: u32,
    pub mem_unit: u32,
}

impl SysInfoMIPS {
    /// The constant system information that every guest sees.
    pub open spec fn synthetic() -> SysInfoMIPS {
        SysInfoMIPS {
            uptime: 1234,
            loads: 2000,
            total_ram: 10000000,
            free_ram: 10000000,
            shared_ram: 10000000,
            buffer_ram: 0,
            total_swap: 0,
            free_swap: 0,
            procs: 1,
            total_high: 0,
            free_high: 0,
            mem_unit: 0,
        }
    }

    /// The constant system information that every guest sees.
    pub fn new() -> (s: SysInfoMIPS)
        ensures
            s == SysInfoMIPS::synthetic(),
    {
        SysInfoMIPS {
            uptime: 1234,
            loads: 2000,
            total_ram: 10000000,
            free_ram: 10000000,
            shared_ram: 10000000,
            buffer_ram: 0,
            total_swap: 0,
            free_swap: 0,
            procs: 1,
            total_high: 0,
            free_high: 0,
            mem_unit: 0,
        }
    }

    /// The 64 bytes of the guest layout; the three load averages are equal.
    pub open spec fn encoded(self) -> Seq<u8> {
        be_bytes(self.uptime as u64, 4) + be_bytes(self.loads as u64, 4) + be_bytes(
            self.loads as u64,
            4,
        ) + be_bytes(self.loads as u64, 4) + be_bytes(self.total_ram as u64, 4) + be_bytes(
            self.free_ram as u64,
            4,
        ) + be_bytes(self.shared_ram as u64, 4) + be_bytes(self.buffer_ram as u64, 4) + be_bytes(
            self.total_swap as u64,
            4,
        ) + be_bytes(self.free_swap as u64, 4) + be_bytes(self.procs as u64, 2) + zeros(2)
            + be_bytes(self.total_high as u64, 4) + be_bytes(self.free_high as u64, 4) + be_bytes(
            self.mem_unit as u64,
            4,
        ) + zeros(8)
    }

    /// The bytes of the structure in the guest layout.
    pub fn encode(&self) -> (r: Vec<u8>)
        ensures
            r@ == self.encoded(),
            r@.len() == 64,
    {
        let mut v: Vec<u8> = Vec::new();
        push_be(&mut v, self.uptime as u64, 4);
        push_be(&mut v, self.loads as u64, 4);
        push_be(&mut v, self.loads as u64, 4);
        push_be(&mut v, self.loads as u64, 4);
        push_be(&mut v, self.total_ram as u64, 4);
        push_be(&mut v, self.free_ram as u64, 4);
        push_be(&mut v, self.shared_ram as u64, 4);
        push_be(&mut v, self.buffer_ram as u64, 4);
        push_be(&mut v, self.total_swap as u64, 4);
        push_be(&mut v, self.free_swap as u64, 4);
        push_be(&mut v, self.procs as u64, 2);
        push_zeros(&mut v, 2);
        push_be(&mut v, self.total_high as u64, 4);
        push_be(&mut v, self.free_high as u64, 4);
        push_be(&mut v, self.mem_unit as u64, 4);
        push_zeros(&mut v, 8);
        assert(v@ =~= self.encoded());
        v
    }
}

/// Access mode bits of the flags of `open`.
#[allow(non_camel_case_types)]
#[derive(Debug, Clone, Copy, PartialEq, Eq, Structural)]
pub enum FileFlags {
    O_ACCMODE,
    O_RDONLY,
    O_WRONLY,
    O_RDWR,
}

impl FileFlags {
    /// The bits of the flag.
    pub fn bits(self) -> (r: u64)
        ensures
            r == match self {
                FileFlags::O_ACCMODE => 3u64,
                FileFlags::O_RDONLY => 0u64,
                FileFlags::O_WRONLY => 1u64,
                FileFlags::O_RDWR => 2u64,
            },
    {
        match self {
            FileFlags::O_ACCMODE => 3,
            FileFlags::O_RDONLY => 0,
            FileFlags::O_WRONLY => 1,
            FileFlags::O_RDWR => 2,
        }
    }
}

impl Default for StatMIPS {
    fn default() -> (s: StatMIPS)
        ensures
            s == (StatMIPS { st_ino: 0, st_mode: 0, st_size: 0 }),
    {
        StatMIPS::new()
    }
}

impl Default for Stat64MIPS {
    fn default() -> (s: Stat64MIPS)
        ensures
            s == (Stat64MIPS { st_ino: 0, st_mode: 0, st_size: 0 }),
    {
        Stat64MIPS::new()
    }
}

impl Default for SysInfoMIPS {
    fn default() -> (s: SysInfoMIPS)
        ensures
            s == SysInfoMIPS::synthetic(),
    {
        SysInfoMIPS::new()
    }
}

} // verus!
