//! The Linux system-call personality: which calls exist, the per-process
//! state they keep (open files, working directory, program break, mmap
//! cursor, stdout budget, terminal mode), path resolution, and the stdin
//! line discipline.
//!
//! User memory is read and written by the kernel around these functions:
//! they take the bytes a call reads (paths, iovecs) as values and return
//! the bytes it stores.
use vstd::prelude::*;
use crate::nkfs::{Nkfs, KIND_DIR, meta_of, flush_effect, normalized_len, ram_lookup, zeros, RAM_FILE_CAP, RAM_FILE_COUNT};
use crate::ring::ByteRing;
use crate::keyboard::KeyboardBuffer;
use crate::memory::{UserMemory, user_range_ok};
use crate::ring::{offered_all};
use crate::scheduler::{UserScheduler, TrapFrame, UserSwitch, StdinWake, BlockReason, USER_TASKS};
use crate::services::Gui;
use crate::tty::key_task;

verus! {

pub const SYS_READ: u64 = 0;
pub const SYS_WRITE: u64 = 1;
pub const SYS_OPEN: u64 = 2;
pub const SYS_CLOSE: u64 = 3;
pub const SYS_STAT: u64 = 4;
pub const SYS_FSTAT: u64 = 5;
pub const SYS_LSTAT: u64 = 6;
pub const SYS_POLL: u64 = 7;
pub const SYS_LSEEK: u64 = 8;
pub const SYS_MMAP: u64 = 9;
pub const SYS_MPROTECT: u64 = 10;
pub const SYS_MUNMAP: u64 = 11;
pub const SYS_BRK: u64 = 12;
pub const SYS_RT_SIGACTION: u64 = 13;
pub const SYS_RT_SIGPROCMASK: u64 = 14;
pub const SYS_IOCTL: u64 = 16;
pub const SYS_PWRITE64: u64 = 18;
pub const SYS_WRITEV: u64 = 20;
pub const SYS_ACCESS: u64 = 21;
pub const SYS_PIPE: u64 = 22;
pub const SYS_MADVISE: u64 = 28;
pub const SYS_GETPID: u64 = 39;
pub const SYS_FORK: u64 = 57;
pub const SYS_EXECVE: u64 = 59;
pub const SYS_EXIT: u64 = 60;
pub const SYS_WAIT4: u64 = 61;
pub const SYS_UNAME: u64 = 63;
pub const SYS_FCNTL: u64 = 72;
pub const SYS_FSYNC: u64 = 74;
pub const SYS_FDATASYNC: u64 = 75;
pub const SYS_TRUNCATE: u64 = 76;
pub const SYS_FTRUNCATE: u64 = 77;
pub const SYS_GETCWD: u64 = 79;
pub const SYS_CHDIR: u64 = 80;
pub const SYS_UNLINK: u64 = 87;
pub const SYS_READLINK: u64 = 89;
pub const SYS_GETTIMEOFDAY: u64 = 96;
pub const SYS_GETRLIMIT: u64 = 97;
pub const SYS_GETUID: u64 = 102;
pub const SYS_GETGID: u64 = 104;
pub const SYS_GETEUID: u64 = 107;
pub const SYS_GETEGID: u64 = 108;
pub const SYS_GETPPID: u64 = 110;
pub const SYS_GETRESUID: u64 = 118;
pub const SYS_GETRESGID: u64 = 120;
pub const SYS_SIGALTSTACK: u64 = 131;
pub const SYS_ARCH_PRCTL: u64 = 158;
pub const SYS_GETXATTR: u64 = 191;
pub const SYS_LGETXATTR: u64 = 192;
pub const SYS_FGETXATTR: u64 = 193;
pub const SYS_LISTXATTR: u64 = 194;
pub const SYS_LLISTXATTR: u64 = 195;
pub const SYS_FLISTXATTR: u64 = 196;
pub const SYS_TKILL: u64 = 200;
pub const SYS_GETDENTS64: u64 = 217;
pub const SYS_SET_TID_ADDRESS: u64 = 218;
pub const SYS_CLOCK_GETTIME: u64 = 228;
pub const SYS_EXIT_GROUP: u64 = 231;
pub const SYS_OPENAT: u64 = 257;
pub const SYS_NEWFSTATAT: u64 = 262;
pub const SYS_UNLINKAT: u64 = 263;
pub const SYS_FACCESSAT: u64 = 269;
pub const SYS_SET_ROBUST_LIST: u64 = 273;
pub const SYS_SPLICE: u64 = 275;
pub const SYS_PIPE2: u64 = 293;
pub const SYS_PRLIMIT64: u64 = 302;
pub const SYS_GETRANDOM: u64 = 318;
pub const SYS_STATX: u64 = 332;
pub const SYS_RSEQ: u64 = 439;

pub const ARCH_SET_FS: u64 = 0x1002;
pub const ARCH_GET_FS: u64 = 0x1003;

pub const EBADF: i64 = -9;
pub const ECHILD: i64 = -10;
pub const ENOENT: i64 = -2;
pub const EFAULT: i64 = -14;
pub const EINVAL: i64 = -22;
pub const EPIPE: i64 = -32;
pub const ENOSYS: i64 = -38;
pub const EAGAIN: i64 = -11;
pub const EMFILE: i64 = -24;
pub const ENODATA: i64 = -61;
pub const ENOMEM: i64 = -12;

pub const O_WRONLY: u64 = 1;
pub const O_RDWR: u64 = 2;
pub const O_CREAT: u64 = 0o100;
pub const O_TRUNC: u64 = 0o1000;

/// `dirfd` meaning the working directory.
pub const AT_FDCWD: i32 = -100;

/// The system calls, grouped by what the kernel does for them.
#[derive(Clone, Copy, PartialEq, Eq, Structural)]
pub enum SyscallKind {
    Read, Write, Open, Close, Stat, Fstat, Lseek, Poll, Mmap, Ioctl, Pwrite64, Writev, Access, FaccessAt,
    Fcntl, Truncate, Ftruncate, Brk, GetPid, Fork, Execve, Uname, Wait4, Getcwd, Gettimeofday,
    Getrlimit, Getresid, Chdir, Unlink, Readlink, GetPpid, ArchPrctl, Getdents64, Exit, ClockGettime,
    OpenAt, UnlinkAt, NewFstatAt, Prlimit64, Getrandom, Statx,
    /// Calls answered by a fixed value without doing anything.
    Fixed(i64),
    /// Calls this kernel does not know.
    Unknown,
}

/// The kind of system call `nr`.
pub open spec fn syscall_kind(nr: u64) -> SyscallKind {
    if nr == SYS_READ { SyscallKind::Read }
    else if nr == SYS_WRITE { SyscallKind::Write }
    else if nr == SYS_OPEN { SyscallKind::Open }
    else if nr == SYS_CLOSE { SyscallKind::Close }
    else if nr == SYS_STAT || nr == SYS_LSTAT { SyscallKind::Stat }
    else if nr == SYS_FSTAT { SyscallKind::Fstat }
    else if nr == SYS_LSEEK { SyscallKind::Lseek }
    else if nr == SYS_POLL { SyscallKind::Poll }
    else if nr == SYS_MMAP { SyscallKind::Mmap }
    else if nr == SYS_MUNMAP || nr == SYS_MPROTECT || nr == SYS_MADVISE || nr == SYS_RT_SIGACTION
        || nr == SYS_RT_SIGPROCMASK || nr == SYS_FSYNC || nr == SYS_FDATASYNC || nr == SYS_SIGALTSTACK
        || nr == SYS_GETUID || nr == SYS_GETGID || nr == SYS_GETEUID || nr == SYS_GETEGID || nr == SYS_TKILL
        || nr == SYS_LISTXATTR || nr == SYS_LLISTXATTR || nr == SYS_FLISTXATTR || nr == SYS_SET_ROBUST_LIST {
        SyscallKind::Fixed(0)
    }
    else if nr == SYS_IOCTL { SyscallKind::Ioctl }
    else if nr == SYS_PWRITE64 { SyscallKind::Pwrite64 }
    else if nr == SYS_WRITEV { SyscallKind::Writev }
    else if nr == SYS_PIPE || nr == SYS_PIPE2 || nr == SYS_SPLICE || nr == SYS_RSEQ { SyscallKind::Fixed(ENOSYS) }
    else if nr == SYS_ACCESS { SyscallKind::Access }
    else if nr == SYS_FACCESSAT { SyscallKind::FaccessAt }
    else if nr == SYS_FCNTL { SyscallKind::Fcntl }
    else if nr == SYS_TRUNCATE { SyscallKind::Truncate }
    else if nr == SYS_FTRUNCATE { SyscallKind::Ftruncate }
    else if nr == SYS_BRK { SyscallKind::Brk }
    else if nr == SYS_GETPID { SyscallKind::GetPid }
    else if nr == SYS_FORK { SyscallKind::Fork }
    else if nr == SYS_EXECVE { SyscallKind::Execve }
    else if nr == SYS_UNAME { SyscallKind::Uname }
    else if nr == SYS_WAIT4 { SyscallKind::Wait4 }
    else if nr == SYS_GETCWD { SyscallKind::Getcwd }
    else if nr == SYS_GETTIMEOFDAY { SyscallKind::Gettimeofday }
    else if nr == SYS_GETRLIMIT { SyscallKind::Getrlimit }
    else if nr == SYS_GETRESUID || nr == SYS_GETRESGID { SyscallKind::Getresid }
    else if nr == SYS_CHDIR { SyscallKind::Chdir }
    else if nr == SYS_UNLINK { SyscallKind::Unlink }
    else if nr == SYS_READLINK { SyscallKind::Readlink }
    else if nr == SYS_GETPPID { SyscallKind::GetPpid }
    else if nr == SYS_ARCH_PRCTL { SyscallKind::ArchPrctl }
    else if nr == SYS_GETXATTR || nr == SYS_LGETXATTR || nr == SYS_FGETXATTR { SyscallKind::Fixed(ENODATA) }
    else if nr == SYS_SET_TID_ADDRESS { SyscallKind::Fixed(4) }
    else if nr == SYS_GETDENTS64 { SyscallKind::Getdents64 }
    else if nr == SYS_EXIT || nr == SYS_EXIT_GROUP { SyscallKind::Exit }
    else if nr == SYS_CLOCK_GETTIME { SyscallKind::ClockGettime }
    else if nr == SYS_OPENAT { SyscallKind::OpenAt }
    else if nr == SYS_UNLINKAT { SyscallKind::UnlinkAt }
    else if nr == SYS_NEWFSTATAT { SyscallKind::NewFstatAt }
    else if nr == SYS_PRLIMIT64 { SyscallKind::Prlimit64 }
    else if nr == SYS_GETRANDOM { SyscallKind::Getrandom }
    else if nr == SYS_STATX { SyscallKind::Statx }
    else { SyscallKind::Unknown }
}

/// The x86-64 Linux system-call numbers: each call this kernel answers is
/// classified as the call its number names in that table, and no other
/// number is classified as it; the calls answered by a fixed value are
/// exactly these numbers.
pub proof fn lemma_syscall_numbers(nr: u64)
    ensures
        (syscall_kind(nr) == SyscallKind::Read) <==> (nr == 0),
        (syscall_kind(nr) == SyscallKind::Write) <==> (nr == 1),
        (syscall_kind(nr) == SyscallKind::Open) <==> (nr == 2),
        (syscall_kind(nr) == SyscallKind::Close) <==> (nr == 3),
        (syscall_kind(nr) == SyscallKind::Stat) <==> (nr == 4 || nr == 6),
        (syscall_kind(nr) == SyscallKind::Fstat) <==> (nr == 5),
        (syscall_kind(nr) == SyscallKind::Poll) <==> (nr == 7),
        (syscall_kind(nr) == SyscallKind::Lseek) <==> (nr == 8),
        (syscall_kind(nr) == SyscallKind::Mmap) <==> (nr == 9),
        (syscall_kind(nr) == SyscallKind::Brk) <==> (nr == 12),
        (syscall_kind(nr) == SyscallKind::Ioctl) <==> (nr == 16),
        (syscall_kind(nr) == SyscallKind::Pwrite64) <==> (nr == 18),
        (syscall_kind(nr) == SyscallKind::Writev) <==> (nr == 20),
        (syscall_kind(nr) == SyscallKind::Access) <==> (nr == 21),
        (syscall_kind(nr) == SyscallKind::GetPid) <==> (nr == 39),
        (syscall_kind(nr) == SyscallKind::Fork) <==> (nr == 57),
        (syscall_kind(nr) == SyscallKind::Execve) <==> (nr == 59),
        (syscall_kind(nr) == SyscallKind::Exit) <==> (nr == 60 || nr == 231),
        (syscall_kind(nr) == SyscallKind::Wait4) <==> (nr == 61),
        (syscall_kind(nr) == SyscallKind::Uname) <==> (nr == 63),
        (syscall_kind(nr) == SyscallKind::Fcntl) <==> (nr == 72),
        (syscall_kind(nr) == SyscallKind::Truncate) <==> (nr == 76),
        (syscall_kind(nr) == SyscallKind::Ftruncate) <==> (nr == 77),
        (syscall_kind(nr) == SyscallKind::Getcwd) <==> (nr == 79),
        (syscall_kind(nr) == SyscallKind::Chdir) <==> (nr == 80),
        (syscall_kind(nr) == SyscallKind::Unlink) <==> (nr == 87),
        (syscall_kind(nr) == SyscallKind::Readlink) <==> (nr == 89),
        (syscall_kind(nr) == SyscallKind::Gettimeofday) <==> (nr == 96),
        (syscall_kind(nr) == SyscallKind::Getrlimit) <==> (nr == 97),
        (syscall_kind(nr) == SyscallKind::GetPpid) <==> (nr == 110),
        (syscall_kind(nr) == SyscallKind::Getresid) <==> (nr == 118 || nr == 120),
        (syscall_kind(nr) == SyscallKind::ArchPrctl) <==> (nr == 158),
        (syscall_kind(nr) == SyscallKind::Getdents64) <==> (nr == 217),
        (syscall_kind(nr) == SyscallKind::ClockGettime) <==> (nr == 228),
        (syscall_kind(nr) == SyscallKind::OpenAt) <==> (nr == 257),
        (syscall_kind(nr) == SyscallKind::NewFstatAt) <==> (nr == 262),
        (syscall_kind(nr) == SyscallKind::UnlinkAt) <==> (nr == 263),
        (syscall_kind(nr) == SyscallKind::FaccessAt) <==> (nr == 269),
        (syscall_kind(nr) == SyscallKind::Prlimit64) <==> (nr == 302),
        (syscall_kind(nr) == SyscallKind::Getrandom) <==> (nr == 318),
        (syscall_kind(nr) == SyscallKind::Statx) <==> (nr == 332),
        (syscall_kind(nr) == SyscallKind::Fixed(0)) <==> (nr == 10 || nr == 11 || nr == 13 || nr == 14 || nr == 28 || nr == 74 || nr == 75 || nr == 102 || nr == 104 || nr == 107 || nr == 108 || nr == 131 || nr == 194 || nr == 195 || nr == 196 || nr == 200 || nr == 273),
        (syscall_kind(nr) == SyscallKind::Fixed(ENOSYS)) <==> (nr == 22 || nr == 275 || nr == 293 || nr == 439),
        (syscall_kind(nr) == SyscallKind::Fixed(ENODATA)) <==> (nr == 191 || nr == 192 || nr == 193),
        (syscall_kind(nr) == SyscallKind::Fixed(4)) <==> (nr == 218),
{
}

/// The kind of system call `nr`.
pub fn classify(nr: u64) -> (r: SyscallKind)
    ensures r == syscall_kind(nr),
{
    if nr == SYS_READ { SyscallKind::Read }
    else if nr == SYS_WRITE { SyscallKind::Write }
    else if nr == SYS_OPEN { SyscallKind::Open }
    else if nr == SYS_CLOSE { SyscallKind::Close }
    else if nr == SYS_STAT || nr == SYS_LSTAT { SyscallKind::Stat }
    else if nr == SYS_FSTAT { SyscallKind::Fstat }
    else if nr == SYS_LSEEK { SyscallKind::Lseek }
    else if nr == SYS_POLL { SyscallKind::Poll }
    else if nr == SYS_MMAP { SyscallKind::Mmap }
    else if nr == SYS_MUNMAP || nr == SYS_MPROTECT || nr == SYS_MADVISE || nr == SYS_RT_SIGACTION
        || nr == SYS_RT_SIGPROCMASK || nr == SYS_FSYNC || nr == SYS_FDATASYNC || nr == SYS_SIGALTSTACK
        || nr == SYS_GETUID || nr == SYS_GETGID || nr == SYS_GETEUID || nr == SYS_GETEGID || nr == SYS_TKILL
        || nr == SYS_LISTXATTR || nr == SYS_LLISTXATTR || nr == SYS_FLISTXATTR || nr == SYS_SET_ROBUST_LIST {
        SyscallKind::Fixed(0)
    }
    else if nr == SYS_IOCTL { SyscallKind::Ioctl }
    else if nr == SYS_PWRITE64 { SyscallKind::Pwrite64 }
    else if nr == SYS_WRITEV { SyscallKind::Writev }
    else if nr == SYS_PIPE || nr == SYS_PIPE2 || nr == SYS_SPLICE || nr == SYS_RSEQ { SyscallKind::Fixed(ENOSYS) }
    else if nr == SYS_ACCESS { SyscallKind::Access }
    else if nr == SYS_FACCESSAT { SyscallKind::FaccessAt }
    else if nr == SYS_FCNTL { SyscallKind::Fcntl }
    else if nr == SYS_TRUNCATE { SyscallKind::Truncate }
    else if nr == SYS_FTRUNCATE { SyscallKind::Ftruncate }
    else if nr == SYS_BRK { SyscallKind::Brk }
    else if nr == SYS_GETPID { SyscallKind::GetPid }
    else if nr == SYS_FORK { SyscallKind::Fork }
    else if nr == SYS_EXECVE { SyscallKind::Execve }
    else if nr == SYS_UNAME { SyscallKind::Uname }
    else if nr == SYS_WAIT4 { SyscallKind::Wait4 }
    else if nr == SYS_GETCWD { SyscallKind::Getcwd }
    else if nr == SYS_GETTIMEOFDAY { SyscallKind::Gettimeofday }
    else if nr == SYS_GETRLIMIT { SyscallKind::Getrlimit }
    else if nr == SYS_GETRESUID || nr == SYS_GETRESGID { SyscallKind::Getresid }
    else if nr == SYS_CHDIR { SyscallKind::Chdir }
    else if nr == SYS_UNLINK { SyscallKind::Unlink }
    else if nr == SYS_READLINK { SyscallKind::Readlink }
    else if nr == SYS_GETPPID { SyscallKind::GetPpid }
    else if nr == SYS_ARCH_PRCTL { SyscallKind::ArchPrctl }
    else if nr == SYS_GETXATTR || nr == SYS_LGETXATTR || nr == SYS_FGETXATTR { SyscallKind::Fixed(ENODATA) }
    else if nr == SYS_SET_TID_ADDRESS { SyscallKind::Fixed(4) }
    else if nr == SYS_GETDENTS64 { SyscallKind::Getdents64 }
    else if nr == SYS_EXIT || nr == SYS_EXIT_GROUP { SyscallKind::Exit }
    else if nr == SYS_CLOCK_GETTIME { SyscallKind::ClockGettime }
    else if nr == SYS_OPENAT { SyscallKind::OpenAt }
    else if nr == SYS_UNLINKAT { SyscallKind::UnlinkAt }
    else if nr == SYS_NEWFSTATAT { SyscallKind::NewFstatAt }
    else if nr == SYS_PRLIMIT64 { SyscallKind::Prlimit64 }
    else if nr == SYS_GETRANDOM { SyscallKind::Getrandom }
    else if nr == SYS_STATX { SyscallKind::Statx }
    else { SyscallKind::Unknown }
}

/// Whether an unknown call is worth a log line: the first 32, then every
/// 128th. Returns the count after this call.
pub fn note_unknown_syscall(count: u64) -> (r: (u64, bool))
    ensures
        r.0 == count.wrapping_add(1),
        r.1 == (r.0 <= 32 || r.0 % 128 == 0),
{
    let n = count.wrapping_add(1);
    (n, n <= 32 || n % 128 == 0)
}

/// Whether `path` holds a slash.
pub fn path_contains_slash(path: &[u8]) -> (r: bool)
    ensures r == path@.contains(47u8),
{
    let mut i: usize = 0;
    while i < path.len()
        invariant i <= path@.len(), forall|k: int| 0 <= k < i ==> path@[k] != 47,
        decreases path@.len() - i,
    {
        if path[i] == 47 {
            proof { assert(path@[i as int] == 47u8); }
            return true;
        }
        i += 1;
    }
    false
}

/// Where the last path component starts: after the last slash.
pub open spec fn basename_start(path: Seq<u8>, n: int) -> int
    decreases n,
{
    if n <= 0 { 0 } else if path[n - 1] == 47 { n } else { basename_start(path, n - 1) }
}

/// The last component of `path`.
pub fn basename_bytes(path: &[u8]) -> (r: Vec<u8>)
    ensures r@ == path@.subrange(basename_start(path@, path@.len() as int), path@.len() as int),
{
    let mut start: usize = 0;
    let mut i: usize = 0;
    while i < path.len()
        invariant
            i <= path@.len(), start <= i,
            start == basename_start(path@, i as int),
        decreases path@.len() - i,
    {
        if path[i] == 47 {
            start = i + 1;
        }
        i += 1;
    }
    let mut out: Vec<u8> = Vec::new();
    let mut k = start;
    while k < path.len()
        invariant start <= k <= path@.len(), out@ == path@.subrange(start as int, k as int),
        decreases path@.len() - k,
    {
        out.push(path[k]);
        k += 1;
        proof { assert(out@ =~= path@.subrange(start as int, k as int)); }
    }
    out
}

/// Whether `a` is `b`.
pub fn bytes_eq(a: &[u8], b: &[u8]) -> (r: bool)
    ensures r == (a@ == b@),
{
    if a.len() != b.len() {
        return false;
    }
    let mut i: usize = 0;
    while i < a.len()
        invariant i <= a@.len(), a@.len() == b@.len(), forall|k: int| 0 <= k < i ==> a@[k] == b@[k],
        decreases a@.len() - i,
    {
        if a[i] != b[i] {
            return false;
        }
        i += 1;
    }
    proof { assert(a@ =~= b@); }
    true
}

/// The native program a path names: `gui` or `GUI.elf` run the GUI,
/// `taskview` or `taskviewer` the task viewer; other programs are Linux
/// programs.
pub open spec fn native_name_spec(name: Seq<u8>) -> Option<Seq<char>> {
    if name == seq![103u8, 117, 105] || name == seq![71u8, 85, 73, 46, 101, 108, 102] {
        Some(seq!['g', 'u', 'i'])
    } else if name == seq![116u8, 97, 115, 107, 118, 105, 101, 119]
        || name == seq![116u8, 97, 115, 107, 118, 105, 101, 119, 101, 114] {
        Some(seq!['t', 'a', 's', 'k', 'v', 'i', 'e', 'w', 'e', 'r'])
    } else {
        None
    }
}

/// The native program `path` runs, if it is one.
pub fn native_exec_name(path: &[u8]) -> (r: Option<&'static str>)
    ensures
        native_name_spec(path@.subrange(basename_start(path@, path@.len() as int), path@.len() as int)) is None ==> r is None,
        native_name_spec(path@.subrange(basename_start(path@, path@.len() as int), path@.len() as int)) matches Some(n)
            ==> r matches Some(s) && s@ == n,
{
    let name = basename_bytes(path);
    let gui: [u8; 3] = [103, 117, 105];
    let gui_elf: [u8; 7] = [71, 85, 73, 46, 101, 108, 102];
    let taskview: [u8; 8] = [116, 97, 115, 107, 118, 105, 101, 119];
    let taskviewer: [u8; 10] = [116, 97, 115, 107, 118, 105, 101, 119, 101, 114];
    proof {
        assert(gui@ =~= seq![103u8, 117, 105]);
        assert(gui_elf@ =~= seq![71u8, 85, 73, 46, 101, 108, 102]);
        assert(taskview@ =~= seq![116u8, 97, 115, 107, 118, 105, 101, 119]);
        assert(taskviewer@ =~= seq![116u8, 97, 115, 107, 118, 105, 101, 119, 101, 114]);
    }
    if bytes_eq(&name, &gui) || bytes_eq(&name, &gui_elf) {
        proof { reveal_strlit("gui"); }
        Some("gui")
    } else if bytes_eq(&name, &taskview) || bytes_eq(&name, &taskviewer) {
        proof { reveal_strlit("taskviewer"); }
        Some("taskviewer")
    } else {
        None
    }
}


/// Longest path the calls handle.
pub const PATH_MAX: usize = 256;

/// The first slash at or after `i` (or the end).
pub open spec fn seg_end(path: Seq<u8>, i: int) -> int
    decreases path.len() - i,
{
    if i < 0 || i >= path.len() || path[i] == 47 { i } else { seg_end(path, i + 1) }
}

/// The first non-slash at or after `i` (or the end).
pub open spec fn seg_start(path: Seq<u8>, i: int) -> int
    decreases path.len() - i,
{
    if i < 0 || i >= path.len() || path[i] != 47 { i } else { seg_start(path, i + 1) }
}

/// Where the last component of `out` starts, scanning back from `n`.
pub open spec fn back_to_slash(out: Seq<u8>, n: int) -> int
    decreases n,
{
    if n > 1 && out[n - 1] != 47 { back_to_slash(out, n - 1) } else { n }
}

/// `out` without its last component (the root stays).
pub open spec fn pop_component(out: Seq<u8>) -> Seq<u8> {
    if out.len() <= 1 {
        out
    } else {
        let m = back_to_slash(out, out.len() - 1);
        let m2 = if m > 1 && out[m - 1] == 47 { m - 1 } else { m };
        out.take(if m2 < 1 { 1 } else { m2 })
    }
}

/// `out` after the component `comp`: empty and `.` change nothing, `..`
/// goes up, others are appended; `None` when the path outgrows `PATH_MAX`.
pub open spec fn canon_push(out: Seq<u8>, comp: Seq<u8>) -> Option<Seq<u8>> {
    if comp.len() == 0 || comp == seq![46u8] {
        Some(out)
    } else if comp == seq![46u8, 46u8] {
        Some(pop_component(out))
    } else if out.len() > 1 && out.len() >= PATH_MAX {
        None
    } else {
        let sep = if out.len() > 1 { out.push(47u8) } else { out };
        if sep.len() + comp.len() > PATH_MAX { None } else { Some(sep + comp) }
    }
}

/// The canonical path of `input` from `cursor` on, given `out` so far.
pub open spec fn canon_from(input: Seq<u8>, cursor: int, out: Seq<u8>) -> Option<Seq<u8>>
    decreases input.len() + 1 - cursor,
{
    if cursor > input.len() || cursor < 0 {
        Some(out)
    } else {
        let s = seg_start(input, cursor);
        let e = seg_end(input, s);
        match canon_push(out, input.subrange(s, e)) {
            None => None,
            Some(o) => if e + 1 > cursor && e <= input.len() { canon_from(input, e + 1, o) } else { None },
        }
    }
}

/// The canonical form of the absolute path `input`: no empty, `.` or `..`
/// components, at most `PATH_MAX` bytes.
pub open spec fn canonical(input: Seq<u8>) -> Option<Seq<u8>> {
    if input.len() == 0 || input[0] != 47 { None } else { canon_from(input, 1, seq![47u8]) }
}

proof fn lemma_seg_bounds(path: Seq<u8>, i: int)
    requires 0 <= i <= path.len(),
    ensures
        i <= seg_start(path, i) <= path.len(),
        seg_start(path, i) <= seg_end(path, seg_start(path, i)) <= path.len(),
    decreases path.len() - i,
{
    if i < path.len() && path[i] == 47 { lemma_seg_bounds(path, i + 1); }
    else { lemma_seg_end_bounds(path, i); }
}

proof fn lemma_seg_end_bounds(path: Seq<u8>, i: int)
    requires 0 <= i <= path.len(),
    ensures i <= seg_end(path, i) <= path.len(),
    decreases path.len() - i,
{
    if i < path.len() && path[i] != 47 { lemma_seg_end_bounds(path, i + 1); }
}

proof fn lemma_back_bounds(out: Seq<u8>, n: int)
    requires 1 <= n <= out.len(),
    ensures 1 <= back_to_slash(out, n) <= n,
    decreases n,
{
    if n > 1 && out[n - 1] != 47 { lemma_back_bounds(out, n - 1); }
}

/// `.` or `..`.
pub open spec fn dot_name(s: Seq<u8>) -> bool {
    s == seq![46u8] || s == seq![46u8, 46u8]
}

/// A path as `canonical` leaves it: absolute, at most `PATH_MAX` bytes,
/// no empty, `.` or `..` component, and no trailing slash but the root's.
pub open spec fn clean_path(c: Seq<u8>) -> bool {
    &&& 1 <= c.len() <= PATH_MAX
    &&& c[0] == 47
    &&& c.len() > 1 ==> c.last() != 47
    &&& forall|i: int| 0 <= i < c.len() - 1 && #[trigger] c[i] == 47 ==> c[i + 1] != 47
    &&& forall|i: int| 0 <= i < c.len() && #[trigger] c[i] == 47 ==> !dot_name(c.subrange(i + 1, seg_end(c, i + 1)))
}

proof fn lemma_seg_end_props(path: Seq<u8>, i: int)
    requires 0 <= i <= path.len(),
    ensures
        i <= seg_end(path, i) <= path.len(),
        forall|k: int| i <= k < seg_end(path, i) ==> path[k] != 47,
        seg_end(path, i) < path.len() ==> path[seg_end(path, i)] == 47,
    decreases path.len() - i,
{
    if i < path.len() && path[i] != 47 { lemma_seg_end_props(path, i + 1); }
}

/// A segment ends at the same place in a prefix cut at a slash (or at the
/// end).
proof fn lemma_seg_end_prefix(path: Seq<u8>, k: int, j: int)
    requires 0 <= j <= k <= path.len(), k == path.len() || path[k] == 47,
    ensures seg_end(path.take(k), j) == seg_end(path, j),
    decreases k - j,
{
    if j < k && path[j] != 47 {
        lemma_seg_end_prefix(path, k, j + 1);
    }
}

proof fn lemma_back_slash(out: Seq<u8>, n: int)
    requires 1 <= n <= out.len(),
    ensures back_to_slash(out, n) <= 1 || out[back_to_slash(out, n) - 1] == 47,
    decreases n,
{
    if n > 1 && out[n - 1] != 47 { lemma_back_slash(out, n - 1); }
}

/// A prefix of a clean path cut just before a slash is clean.
proof fn lemma_clean_cut(c: Seq<u8>, k: int)
    requires clean_path(c), 1 <= k < c.len(), c[k] == 47,
    ensures clean_path(c.take(k)),
{
    let r = c.take(k);
    assert(r[0] == c[0]);
    if k > 1 {
        assert(c[k - 1] != 47);
    }
    assert forall|i: int| 0 <= i < r.len() - 1 && #[trigger] r[i] == 47 implies r[i + 1] != 47 by {
        assert(c[i] == 47);
    }
    assert forall|i: int| 0 <= i < r.len() && #[trigger] r[i] == 47 implies !dot_name(r.subrange(i + 1, seg_end(r, i + 1))) by {
        assert(c[i] == 47);
        lemma_seg_end_prefix(c, k, i + 1);
        lemma_seg_end_props(c, i + 1);
        assert(r.subrange(i + 1, seg_end(r, i + 1)) =~= c.subrange(i + 1, seg_end(c, i + 1)));
    }
}

/// Going up from a clean path gives a clean path.
proof fn lemma_pop_clean(out: Seq<u8>)
    requires clean_path(out),
    ensures clean_path(pop_component(out)),
{
    if out.len() > 1 {
        let m = back_to_slash(out, out.len() - 1);
        lemma_back_bounds(out, out.len() - 1);
        lemma_back_slash(out, out.len() - 1);
        let m2 = if m > 1 && out[m - 1] == 47 { m - 1 } else { m };
        if m2 <= 1 {
            assert(pop_component(out) =~= seq![47u8]);
            assert forall|i: int| 0 <= i < 1 && #[trigger] seq![47u8][i] == 47
                implies !dot_name(seq![47u8].subrange(i + 1, seg_end(seq![47u8], i + 1))) by {
                assert(seq![47u8].subrange(1, 1) =~= Seq::<u8>::empty());
            }
        } else {
            lemma_clean_cut(out, m2);
        }
    }
}

/// Adding a name to a clean path gives a clean path.
proof fn lemma_push_clean(out: Seq<u8>, comp: Seq<u8>)
    requires
        clean_path(out),
        comp.len() > 0,
        forall|k: int| 0 <= k < comp.len() ==> comp[k] != 47,
        !dot_name(comp),
        (if out.len() > 1 { out.len() + 1 } else { out.len() + 0 }) + comp.len() <= PATH_MAX,
    ensures clean_path((if out.len() > 1 { out.push(47u8) } else { out }) + comp),
{
    let sep = if out.len() > 1 { out.push(47u8) } else { out };
    let r = sep + comp;
    let n = sep.len() as int;
    assert(sep[n - 1] == 47);
    assert(r.take(n) =~= sep);
    assert(r[0] == 47);
    assert(r.last() == comp.last());
    assert forall|k: int| n <= k < r.len() implies r[k] != 47 by {
        assert(r[k] == comp[k - n]);
    }
    lemma_seg_end_props(r, n);
    assert(seg_end(r, n) == r.len());
    assert(r.subrange(n, r.len() as int) =~= comp);
    assert forall|i: int| 0 <= i < r.len() - 1 && #[trigger] r[i] == 47 implies r[i + 1] != 47 by {
        if i < n - 1 {
            assert(r[i] == out[i]);
            assert(r[i + 1] == out[i + 1]);
        }
    }
    assert forall|i: int| 0 <= i < r.len() && #[trigger] r[i] == 47 implies !dot_name(r.subrange(i + 1, seg_end(r, i + 1))) by {
        if i == n - 1 {
        } else {
            assert(i < n - 1);
            assert(r[i] == out[i]);
            assert(out.len() > 1);
            lemma_seg_end_prefix(r, n - 1, i + 1);
            assert(r.take(n - 1) =~= out);
            lemma_seg_end_props(out, i + 1);
            assert(seg_end(out, i + 1) <= out.len());
            if seg_end(out, i + 1) == out.len() {
                lemma_seg_end_props(r, i + 1);
            }
            lemma_seg_end_prefix(r, n - 1, i + 1);
            assert(r.subrange(i + 1, seg_end(r, i + 1)) =~= out.subrange(i + 1, seg_end(out, i + 1)));
        }
    }
}

/// Whatever `canon_from` builds on a clean path is clean.
proof fn lemma_canon_from_clean(input: Seq<u8>, cursor: int, out: Seq<u8>)
    requires clean_path(out), canon_from(input, cursor, out) is Some,
    ensures clean_path(canon_from(input, cursor, out).unwrap()),
    decreases input.len() + 1 - cursor,
{
    if cursor > input.len() || cursor < 0 {
    } else {
        lemma_seg_bounds(input, cursor);
        let s = seg_start(input, cursor);
        let e = seg_end(input, s);
        lemma_seg_end_props(input, s);
        let comp = input.subrange(s, e);
        match canon_push(out, comp) {
            None => {},
            Some(o) => {
                if comp.len() == 0 || comp == seq![46u8] {
                } else if comp == seq![46u8, 46u8] {
                    lemma_pop_clean(out);
                } else {
                    lemma_push_clean(out, comp);
                }
                if e + 1 > cursor && e <= input.len() {
                    lemma_canon_from_clean(input, e + 1, o);
                }
            },
        }
    }
}

/// A clean path is its own canonical form, walked from `cursor` (just
/// after a slash) with what comes before already built.
proof fn lemma_clean_walk(c: Seq<u8>, cursor: int)
    requires
        clean_path(c),
        1 <= cursor <= c.len() + 1,
        cursor <= c.len() ==> c[cursor - 1] == 47,
    ensures canon_from(c, cursor, c.take(if cursor == 1 { 1 } else { cursor - 1 })) == Some(c),
    decreases c.len() + 1 - cursor,
{
    let out = c.take(if cursor == 1 { 1 } else { cursor - 1 });
    if cursor > c.len() {
        assert(out =~= c);
    } else if c.len() == 1 {
        assert(seg_start(c, 1) == 1);
        assert(seg_end(c, 1) == 1);
        assert(c.subrange(1, 1).len() == 0);
        assert(out =~= c);
        assert(canon_from(c, 2, out) == Some(out));
    } else {
        assert(cursor - 1 < c.len() - 1);
        assert(c[cursor] != 47);
        assert(seg_start(c, cursor) == cursor);
        lemma_seg_end_props(c, cursor);
        let e = seg_end(c, cursor);
        let comp = c.subrange(cursor, e);
        assert(e > cursor);
        assert(!dot_name(comp));
        assert(comp.len() > 0);
        assert(comp != seq![46u8]);
        assert(comp != seq![46u8, 46u8]);
        if cursor > 1 {
            assert(cursor - 1 != 1) by {
                if cursor - 1 == 1 { assert(c[0] == 47 && c[1] == 47); }
            }
            assert(out.push(47u8) + comp =~= c.take(e));
        } else {
            assert(out + comp =~= c.take(e));
        }
        assert(canon_push(out, comp) == Some(c.take(e)));
        if e < c.len() {
            lemma_clean_walk(c, e + 1);
        } else {
            lemma_clean_walk(c, e + 1);
        }
    }
}

/// From `cursor` on, an input of at most `PATH_MAX` bytes always has a
/// canonical continuation, no longer than the input.
proof fn lemma_canon_from_fits(input: Seq<u8>, cursor: int, out: Seq<u8>)
    requires
        1 <= input.len() <= PATH_MAX,
        1 <= cursor <= input.len() + 1,
        1 <= out.len(),
        out.len() <= (if cursor == 1 { 1 } else { cursor - 1 }),
    ensures
        canon_from(input, cursor, out) is Some,
        canon_from(input, cursor, out).unwrap().len() <= input.len(),
    decreases input.len() + 1 - cursor,
{
    if cursor > input.len() {
    } else {
        let s = seg_start(input, cursor);
        lemma_seg_bounds(input, cursor);
        let e = seg_end(input, s);
        let comp = input.subrange(s, e);
        let pushed = canon_push(out, comp);
        if comp.len() == 0 || comp == seq![46u8] {
        } else if comp == seq![46u8, 46u8] {
            lemma_pop_len(out);
        } else {
            assert(e > s);
        }
        assert(pushed is Some);
        assert(pushed.unwrap().len() <= e && pushed.unwrap().len() >= 1);
        lemma_canon_from_fits(input, e + 1, pushed.unwrap());
    }
}

/// Every absolute path of at most `PATH_MAX` bytes has a canonical form:
/// a clean path no longer than it.
pub proof fn lemma_canonical_defined(input: Seq<u8>)
    requires 1 <= input.len() <= PATH_MAX, input[0] == 47,
    ensures
        canonical(input) is Some,
        canonical(input).unwrap().len() <= input.len(),
        clean_path(canonical(input).unwrap()),
{
    lemma_root_clean();
    lemma_canon_from_fits(input, 1, seq![47u8]);
    lemma_canon_from_clean(input, 1, seq![47u8]);
}

/// The root alone is a clean path.
proof fn lemma_root_clean()
    ensures clean_path(seq![47u8]),
{
    let root = seq![47u8];
    assert forall|i: int| 0 <= i < root.len() && #[trigger] root[i] == 47
        implies !dot_name(root.subrange(i + 1, seg_end(root, i + 1))) by {
        assert(root.subrange(1, 1) =~= Seq::<u8>::empty());
    }
}

/// Canonicalization is idempotent: the canonical form of a path is its own
/// canonical form.
pub proof fn lemma_canonical_idempotent(input: Seq<u8>)
    requires canonical(input) is Some,
    ensures canonical(canonical(input).unwrap()) == canonical(input),
{
    let c = canonical(input).unwrap();
    assert(input[0] == 47);
    let root = seq![47u8];
    lemma_root_clean();
    lemma_canon_from_clean(input, 1, root);
    assert(clean_path(c));
    lemma_clean_walk(c, 1);
    assert(c.take(1) =~= root);
}

/// Removes the last component of `out` (the root stays).
fn pop_component_exec(out: &mut Vec<u8>)
    requires 1 <= old(out)@.len(),
    ensures final(out)@ == pop_component(old(out)@), 1 <= final(out)@.len() <= old(out)@.len(),
{
    if out.len() <= 1 {
        return;
    }
    let mut n = out.len() - 1;
    proof { lemma_back_bounds(out@, n as int); }
    while n > 1 && out[n - 1] != 47
        invariant 1 <= n < out@.len(), back_to_slash(out@, n as int) == back_to_slash(out@, out@.len() - 1),
        decreases n,
    {
        n -= 1;
    }
    if n > 1 && out[n - 1] == 47 {
        n -= 1;
    }
    if n < 1 {
        n = 1;
    }
    out.truncate(n);
    proof { assert(out@ =~= pop_component(old(out)@)); }
}

/// What the component `input[start..end]` does: 0 for an empty or `.`
/// component, 1 for `..`, 2 for a name.
fn component_kind(input: &[u8], start: usize, end: usize) -> (r: u8)
    requires start <= end <= input@.len(),
    ensures
        r == 0 <==> (input@.subrange(start as int, end as int).len() == 0 || input@.subrange(start as int, end as int) == seq![46u8]),
        r == 1 <==> input@.subrange(start as int, end as int) == seq![46u8, 46u8],
        r <= 2,
{
    let ghost comp = input@.subrange(start as int, end as int);
    let len = end - start;
    assert(comp.len() == len);
    assert(seq![46u8, 46u8].len() == 2);
    if len == 0 {
        assert(comp != seq![46u8, 46u8]);
        return 0;
    }
    if len == 1 && input[start] == 46 {
        assert(comp =~= seq![46u8]);
        assert(comp != seq![46u8, 46u8]);
        return 0;
    }
    if len == 2 && input[start] == 46 && input[start + 1] == 46 {
        assert(comp =~= seq![46u8, 46u8]);
        return 1;
    }
    proof {
        if comp == seq![46u8] {
            assert(comp[0] == input@[start as int]);
        }
        if comp == seq![46u8, 46u8] {
            assert(comp[0] == input@[start as int] && comp[1] == input@[start + 1]);
        }
    }
    2
}

/// The canonical form of the absolute path `input` (see `canonical`).
pub fn canonicalize_path(input: &[u8]) -> (r: Option<Vec<u8>>)
    requires input@.len() < usize::MAX,
    ensures
        r is Some <==> canonical(input@) is Some,
        r matches Some(v) ==> Some(v@) == canonical(input@),
{
    if input.len() == 0 || input[0] != 47 {
        return None;
    }
    let mut out: Vec<u8> = vec![47u8];
    let mut cursor: usize = 1;
    proof { assert(out@ =~= seq![47u8]); }
    while cursor <= input.len()
        invariant
            1 <= cursor <= input@.len() + 1, input@.len() < usize::MAX,
            1 <= out@.len() <= PATH_MAX,
            input@.len() > 0 && input@[0] == 47,
            canonical(input@) == canon_from(input@, cursor as int, out@),
        decreases input@.len() + 1 - cursor,
    {
        proof { lemma_seg_bounds(input@, cursor as int); }
        let mut start = cursor;
        while start < input.len() && input[start] == 47
            invariant cursor <= start <= input@.len(), seg_start(input@, start as int) == seg_start(input@, cursor as int),
            decreases input@.len() - start,
        {
            start += 1;
        }
        let mut end = start;
        while end < input.len() && input[end] != 47
            invariant start <= end <= input@.len(), seg_end(input@, end as int) == seg_end(input@, start as int),
            decreases input@.len() - end,
        {
            end += 1;
        }
        let ghost comp = input@.subrange(start as int, end as int);
        let kind = component_kind(input, start, end);
        let len = end - start;
        if kind == 0 {
            cursor = end + 1;
            continue;
        }
        if kind == 1 {
            pop_component_exec(&mut out);
            cursor = end + 1;
            continue;
        }
        if out.len() > 1 {
            if out.len() >= PATH_MAX {
                return None;
            }
            out.push(47);
        }
        if len > PATH_MAX - out.len() {
            return None;
        }
        let ghost sep = out@;
        let mut k = start;
        while k < end
            invariant start <= k <= end, end <= input@.len(), out@ == sep + input@.subrange(start as int, k as int),
                sep.len() + (end - start) <= PATH_MAX,
            decreases end - k,
        {
            out.push(input[k]);
            k += 1;
            proof { assert(out@ =~= sep + input@.subrange(start as int, k as int)); }
        }
        cursor = end + 1;
    }
    Some(out)
}


/// Open files per process.
pub const MAX_OPEN_FILES: usize = 16;
/// The first descriptor handed out.
pub const FIRST_USER_FD: i32 = 3;
/// Largest file an open descriptor holds.
pub const FD_BUFFER_CAP: usize = 256 * 1024;
/// Longest line collected from the keyboard (one cell stays free).
pub const INPUT_LINE_CAP: usize = 1024;
/// Cells of the queue of stdin bytes ready for readers.
pub const READY_INPUT_CAP: usize = 2048;
/// Where the program break starts.
pub const USER_BRK_START: u64 = 0x0000_0000_4100_0000;
/// How far the program break may grow.
pub const USER_BRK_END: u64 = 0x0000_0000_4140_0000;
/// Where anonymous mappings start.
pub const USER_MMAP_START: u64 = 0x0000_0000_4140_0000;
/// Where anonymous mappings end.
pub const USER_MMAP_END: u64 = 0x0000_0000_41f0_0000;
/// Descriptor slots of all processes.
pub const FILE_SLOTS: usize = 256;
/// Marks an open file not backed by a RAM file.
pub const NO_RAM_FILE: usize = usize::MAX;

/// The Linux state of every process and the stdin line discipline.
/// Open files are kept per slot (`task * MAX_OPEN_FILES + index`): the data
/// read at open time (the descriptor is free when there is none), the
/// offset, whether it is a directory or writable, the RAM file behind it,
/// its mode and its path.
pub struct LinuxAbi {
    pub file_data: Vec<Option<Vec<u8>>>,
    pub file_offset: Vec<usize>,
    pub file_is_dir: Vec<bool>,
    pub file_writable: Vec<bool>,
    pub file_ram: Vec<usize>,
    pub file_mode: Vec<u32>,
    pub file_path: Vec<Vec<u8>>,
    pub cwds: Vec<Vec<u8>>,
    pub mmap_cursors: Vec<u64>,
    pub program_breaks: Vec<u64>,
    pub stdout_budgets: Vec<i64>,
    pub stdin_raw: Vec<bool>,
    pub input_line: Vec<u8>,
    pub ready: ByteRing,
    pub unknown_logs: u64,
}

/// Slot of descriptor index `index` of task `task`.
pub open spec fn file_slot(task: int, index: int) -> int {
    task * MAX_OPEN_FILES + index
}

/// `/`.
pub open spec fn root() -> Seq<u8> {
    seq![47u8]
}

impl LinuxAbi {
    /// The state's invariant.
    pub open spec fn wf(&self) -> bool {
        &&& self.file_data@.len() == FILE_SLOTS
        &&& self.file_offset@.len() == FILE_SLOTS
        &&& self.file_is_dir@.len() == FILE_SLOTS
        &&& self.file_writable@.len() == FILE_SLOTS
        &&& self.file_ram@.len() == FILE_SLOTS
        &&& self.file_mode@.len() == FILE_SLOTS
        &&& self.file_path@.len() == FILE_SLOTS
        &&& forall|i: int| 0 <= i < FILE_SLOTS ==> (#[trigger] self.file_path@[i])@.len() <= PATH_MAX
        &&& forall|i: int| 0 <= i < FILE_SLOTS ==> (#[trigger] self.file_data@[i] matches Some(d) ==> d@.len() <= FD_BUFFER_CAP)
        &&& self.cwds@.len() == USER_TASKS
        &&& forall|i: int| 0 <= i < USER_TASKS ==> (#[trigger] self.cwds@[i])@.len() <= PATH_MAX
        &&& self.mmap_cursors@.len() == USER_TASKS
        &&& self.program_breaks@.len() == USER_TASKS
        &&& self.stdout_budgets@.len() == USER_TASKS
        &&& self.stdin_raw@.len() == USER_TASKS
        &&& self.input_line@.len() < INPUT_LINE_CAP
        &&& self.ready.wf()
        &&& self.ready.cap() == READY_INPUT_CAP
    }

    /// Whether descriptor index `index` of task `task` is open.
    pub open spec fn is_open(&self, task: int, index: int) -> bool {
        self.file_data@[file_slot(task, index)] is Some
    }

    /// The working directory of task `task` (`/` until one is set).
    pub open spec fn cwd(&self, task: int) -> Seq<u8> {
        if self.cwds@[task]@.len() == 0 { root() } else { self.cwds@[task]@ }
    }

    /// Nothing open, every working directory `/`, breaks and mmap cursors
    /// at their starts, no stdout limits, line mode, no input.
    pub fn new() -> (r: LinuxAbi)
        ensures
            r.wf(),
            forall|t: int, i: int| 0 <= t < USER_TASKS && 0 <= i < MAX_OPEN_FILES ==> !#[trigger] r.is_open(t, i),
            forall|t: int| 0 <= t < USER_TASKS ==> #[trigger] r.cwd(t) == root(),
            forall|t: int| 0 <= t < USER_TASKS ==> #[trigger] r.program_breaks@[t] == USER_BRK_START
                && r.mmap_cursors@[t] == USER_MMAP_START && r.stdout_budgets@[t] == -1 && !r.stdin_raw@[t],
            r.input_line@.len() == 0,
            r.ready@.len() == 0,
    {
        let mut file_data: Vec<Option<Vec<u8>>> = Vec::new();
        let mut file_path: Vec<Vec<u8>> = Vec::new();
        let mut i: usize = 0;
        while i < FILE_SLOTS
            invariant i <= FILE_SLOTS, file_data@.len() == i, file_path@.len() == i,
                forall|k: int| 0 <= k < i ==> (#[trigger] file_data@[k]) is None,
                forall|k: int| 0 <= k < i ==> (#[trigger] file_path@[k])@.len() == 0,
            decreases FILE_SLOTS - i,
        {
            file_data.push(None);
            file_path.push(Vec::new());
            i += 1;
        }
        let mut cwds: Vec<Vec<u8>> = Vec::new();
        let mut t: usize = 0;
        while t < USER_TASKS
            invariant t <= USER_TASKS, cwds@.len() == t, forall|k: int| 0 <= k < t ==> (#[trigger] cwds@[k])@.len() == 0,
            decreases USER_TASKS - t,
        {
            cwds.push(Vec::new());
            t += 1;
        }
        LinuxAbi {
            file_data,
            file_offset: vec![0usize; FILE_SLOTS],
            file_is_dir: vec![false; FILE_SLOTS],
            file_writable: vec![false; FILE_SLOTS],
            file_ram: vec![NO_RAM_FILE; FILE_SLOTS],
            file_mode: vec![0u32; FILE_SLOTS],
            file_path,
            cwds,
            mmap_cursors: vec![USER_MMAP_START; USER_TASKS],
            program_breaks: vec![USER_BRK_START; USER_TASKS],
            stdout_budgets: vec![-1i64; USER_TASKS],
            stdin_raw: vec![false; USER_TASKS],
            input_line: Vec::new(),
            ready: ByteRing::new(READY_INPUT_CAP),
            unknown_logs: 0,
        }
    }

    /// Closes slot `slot`.
    fn clear_file(&mut self, slot: usize)
        requires old(self).wf(), slot < FILE_SLOTS,
        ensures
            final(self).wf(),
            final(self).file_data@ == old(self).file_data@.update(slot as int, None),
            final(self).file_offset@ == old(self).file_offset@.update(slot as int, 0),
            final(self).file_ram@ == old(self).file_ram@.update(slot as int, NO_RAM_FILE),
            final(self).file_writable@ == old(self).file_writable@.update(slot as int, false),
            final(self).file_is_dir@ == old(self).file_is_dir@.update(slot as int, false),
            final(self).file_mode@ == old(self).file_mode@.update(slot as int, 0),
            forall|i: int| 0 <= i < FILE_SLOTS && i != slot ==> #[trigger] final(self).file_path@[i] == old(self).file_path@[i],
            final(self).cwds@ == old(self).cwds@,
            final(self).mmap_cursors@ == old(self).mmap_cursors@,
            final(self).program_breaks@ == old(self).program_breaks@,
            final(self).stdout_budgets@ == old(self).stdout_budgets@,
            final(self).stdin_raw@ == old(self).stdin_raw@,
            final(self).input_line@ == old(self).input_line@,
            final(self).ready@ == old(self).ready@,
    {
        self.file_data.set(slot, None);
        self.file_offset.set(slot, 0);
        self.file_is_dir.set(slot, false);
        self.file_writable.set(slot, false);
        self.file_ram.set(slot, NO_RAM_FILE);
        self.file_mode.set(slot, 0);
        self.file_path.set(slot, Vec::new());
    }

    /// A fresh process image in slot `index`: nothing open, break and mmap
    /// cursor at their starts, no stdout limit, line mode; the working
    /// directory is kept (set to `/` when there is none).
    pub fn reset_process_state(&mut self, index: usize)
        requires old(self).wf(),
        ensures
            final(self).wf(),
            index >= USER_TASKS ==> *final(self) == *old(self),
            index < USER_TASKS ==> {
                &&& forall|i: int| 0 <= i < MAX_OPEN_FILES ==> !#[trigger] final(self).is_open(index as int, i)
                &&& forall|t: int, i: int| 0 <= t < USER_TASKS && t != index && 0 <= i < MAX_OPEN_FILES
                        ==> #[trigger] final(self).is_open(t, i) == old(self).is_open(t, i)
                &&& final(self).cwd(index as int) == old(self).cwd(index as int)
                &&& final(self).program_breaks@ == old(self).program_breaks@.update(index as int, USER_BRK_START)
                &&& final(self).mmap_cursors@ == old(self).mmap_cursors@.update(index as int, USER_MMAP_START)
                &&& final(self).stdout_budgets@ == old(self).stdout_budgets@.update(index as int, -1i64)
                &&& final(self).stdin_raw@ == old(self).stdin_raw@.update(index as int, false)
            },
    {
        if index >= USER_TASKS {
            return;
        }
        self.mmap_cursors.set(index, USER_MMAP_START);
        self.program_breaks.set(index, USER_BRK_START);
        self.stdout_budgets.set(index, -1);
        self.stdin_raw.set(index, false);
        let ghost mid = *self;
        let mut i: usize = 0;
        while i < MAX_OPEN_FILES
            invariant
                self.wf(), index < USER_TASKS, i <= MAX_OPEN_FILES,
                self.cwds@ == mid.cwds@,
                self.program_breaks@ == mid.program_breaks@, self.mmap_cursors@ == mid.mmap_cursors@,
                self.stdout_budgets@ == mid.stdout_budgets@, self.stdin_raw@ == mid.stdin_raw@,
                forall|k: int| 0 <= k < i ==> !#[trigger] self.is_open(index as int, k),
                forall|t: int, k: int| 0 <= t < USER_TASKS && t != index && 0 <= k < MAX_OPEN_FILES
                    ==> #[trigger] self.is_open(t, k) == old(self).is_open(t, k),
            decreases MAX_OPEN_FILES - i,
        {
            let ghost before = *self;
            self.clear_file(index * MAX_OPEN_FILES + i);
            proof {
                assert forall|t: int, k: int| 0 <= t < USER_TASKS && t != index && 0 <= k < MAX_OPEN_FILES
                    implies #[trigger] self.is_open(t, k) == old(self).is_open(t, k) by {
                    assert(file_slot(t, k) != file_slot(index as int, i as int));
                    assert(self.is_open(t, k) == before.is_open(t, k));
                }
                assert forall|k: int| 0 <= k < i + 1 implies !#[trigger] self.is_open(index as int, k) by {
                    if k < i { assert(self.is_open(index as int, k) == before.is_open(index as int, k)); }
                }
            }
            i += 1;
        }
        let ghost before_cwd = *self;
        if self.cwds[index].len() == 0 {
            self.cwds.set(index, vec![47u8]);
            proof { assert(self.cwds@[index as int]@ =~= root()); }
        }
        proof {
            assert(self.file_data@ == before_cwd.file_data@);
            assert forall|i: int| 0 <= i < MAX_OPEN_FILES implies !#[trigger] self.is_open(index as int, i) by {
                assert(self.is_open(index as int, i) == before_cwd.is_open(index as int, i));
            }
            assert forall|t: int, i: int| 0 <= t < USER_TASKS && t != index && 0 <= i < MAX_OPEN_FILES
                implies #[trigger] self.is_open(t, i) == old(self).is_open(t, i) by {
                assert(self.is_open(t, i) == before_cwd.is_open(t, i));
            }
            assert(self.cwd(index as int) == old(self).cwd(index as int));
        }
    }

    /// Limits what task `index` may write to stdout to `bytes` more bytes.
    pub fn set_stdout_budget_for(&mut self, index: usize, bytes: usize)
        requires old(self).wf(),
        ensures
            final(self).wf(),
            final(self).stdout_budgets@ == if index < USER_TASKS {
                old(self).stdout_budgets@.update(index as int, bytes as i64)
            } else { old(self).stdout_budgets@ },
            final(self).file_data@ == old(self).file_data@,
            final(self).cwds@ == old(self).cwds@,
    {
        if index < USER_TASKS {
            self.stdout_budgets.set(index, bytes as i64);
        }
    }

    /// The working directory of task `index`.
    pub fn current_cwd(&self, index: usize) -> (r: Vec<u8>)
        requires self.wf(), index < USER_TASKS,
        ensures r@ == self.cwd(index as int), r@.len() <= PATH_MAX,
    {
        let c = &self.cwds[index];
        if c.len() == 0 {
            let r = vec![47u8];
            proof { assert(r@ =~= root()); }
            r
        } else {
            let mut out: Vec<u8> = Vec::new();
            let mut i: usize = 0;
            while i < c.len()
                invariant i <= c@.len(), out@ == c@.subrange(0, i as int),
                decreases c@.len() - i,
            {
                out.push(c[i]);
                i += 1;
                proof { assert(out@ =~= c@.subrange(0, i as int)); }
            }
            proof { assert(out@ =~= c@); }
            out
        }
    }

    /// Sets the working directory of the current task `current` to `path`
    /// (absolute, at most `PATH_MAX` bytes).
    pub fn set_current_cwd(&mut self, current: Option<usize>, path: &[u8]) -> (r: i64)
        requires old(self).wf(),
        ensures
            final(self).wf(),
            r == if current matches Some(i) && i < USER_TASKS && path@.len() > 0 && path@.len() <= PATH_MAX && path@[0] == 47 { 0 } else { EINVAL },
            r == 0 ==> final(self).cwd(current.unwrap() as int) == path@
                && forall|t: int| 0 <= t < USER_TASKS && t != current.unwrap() ==> #[trigger] final(self).cwds@[t] == old(self).cwds@[t],
            r != 0 ==> final(self).cwds@ == old(self).cwds@,
            final(self).file_data@ == old(self).file_data@,
    {
        let index = match current { Some(i) => i, None => return EINVAL };
        if index >= USER_TASKS || path.len() == 0 || path.len() > PATH_MAX || path[0] != 47 {
            return EINVAL;
        }
        let mut v: Vec<u8> = Vec::new();
        let mut i: usize = 0;
        while i < path.len()
            invariant i <= path@.len(), v@ == path@.subrange(0, i as int),
            decreases path@.len() - i,
        {
            v.push(path[i]);
            i += 1;
            proof { assert(v@ =~= path@.subrange(0, i as int)); }
        }
        proof { assert(v@ =~= path@); }
        self.cwds.set(index, v);
        0
    }
}


/// `prefix` then `input`, when that fits in `PATH_MAX` bytes.
pub open spec fn with_prefix(prefix: Seq<u8>, input: Seq<u8>) -> Option<Seq<u8>> {
    if prefix.len() + input.len() > PATH_MAX { None } else { Some(prefix + input) }
}

/// `input` relative to the directory `dir` (a slash joins them), when that
/// fits in `PATH_MAX` bytes.
pub open spec fn relative_to(dir: Seq<u8>, input: Seq<u8>) -> Option<Seq<u8>> {
    if dir.len() > 1 && dir.last() != 47 {
        if dir.len() >= PATH_MAX { None } else { with_prefix(dir.push(47u8), input) }
    } else {
        with_prefix(dir, input)
    }
}

/// `/bin/`.
pub open spec fn bin_prefix() -> Seq<u8> {
    seq![47u8, 98, 105, 110, 47]
}

/// `prefix` then `input`, when that fits.
fn join(prefix: &[u8], input: &[u8]) -> (r: Option<Vec<u8>>)
    ensures
        r is Some <==> with_prefix(prefix@, input@) is Some,
        r matches Some(v) ==> Some(v@) == with_prefix(prefix@, input@),
{
    if prefix.len() > PATH_MAX || input.len() > PATH_MAX - prefix.len() {
        return None;
    }
    let mut out: Vec<u8> = Vec::new();
    let mut i: usize = 0;
    while i < prefix.len()
        invariant i <= prefix@.len(), out@ == prefix@.subrange(0, i as int),
        decreases prefix@.len() - i,
    {
        out.push(prefix[i]);
        i += 1;
        proof { assert(out@ =~= prefix@.subrange(0, i as int)); }
    }
    let mut j: usize = 0;
    while j < input.len()
        invariant j <= input@.len(), out@ == prefix@ + input@.subrange(0, j as int),
        decreases input@.len() - j,
    {
        out.push(input[j]);
        j += 1;
        proof { assert(out@ =~= prefix@ + input@.subrange(0, j as int)); }
    }
    proof { assert(input@.subrange(0, input@.len() as int) =~= input@); }
    Some(out)
}

/// `input` relative to the directory `dir`, when that fits.
fn join_relative(dir: &[u8], input: &[u8]) -> (r: Option<Vec<u8>>)
    ensures
        r is Some <==> relative_to(dir@, input@) is Some,
        r matches Some(v) ==> Some(v@) == relative_to(dir@, input@),
{
    if dir.len() > 1 && dir[dir.len() - 1] != 47 {
        if dir.len() >= PATH_MAX {
            return None;
        }
        let mut d: Vec<u8> = Vec::new();
        let mut i: usize = 0;
        while i < dir.len()
            invariant i <= dir@.len(), d@ == dir@.subrange(0, i as int),
            decreases dir@.len() - i,
        {
            d.push(dir[i]);
            i += 1;
            proof { assert(d@ =~= dir@.subrange(0, i as int)); }
        }
        d.push(47);
        proof { assert(d@ =~= dir@.push(47u8)); }
        join(&d, input)
    } else {
        join(dir, input)
    }
}

/// The path the working directory or a directory descriptor makes of
/// `input` before canonicalization.
pub open spec fn scratch_path(abi: LinuxAbi, task: int, dirfd: i32, input: Seq<u8>, executable: bool) -> Option<Seq<u8>> {
    if input[0] == 47 {
        if input.len() > PATH_MAX { None } else { Some(input) }
    } else if executable && !input.contains(47u8) {
        with_prefix(bin_prefix(), input)
    } else if dirfd >= FIRST_USER_FD {
        let index = dirfd - FIRST_USER_FD;
        if index >= MAX_OPEN_FILES || !abi.is_open(task, index) || !abi.file_is_dir@[file_slot(task, index)]
            || abi.file_path@[file_slot(task, index)]@.len() == 0 {
            None
        } else {
            relative_to(abi.file_path@[file_slot(task, index)]@, input)
        }
    } else {
        relative_to(abi.cwd(task), input)
    }
}

/// The canonical absolute path `input` names for task `task`: absolute
/// paths as they are; bare program names under `/bin` when `executable`;
/// other relative paths against `dirfd` (a directory descriptor) or the
/// working directory.
pub open spec fn normalized_at(abi: LinuxAbi, task: int, dirfd: i32, input: Seq<u8>, executable: bool) -> Option<Seq<u8>> {
    if input.len() == 0 {
        None
    } else {
        match scratch_path(abi, task, dirfd, input, executable) {
            Some(p) => canonical(p),
            None => None,
        }
    }
}

/// The canonical path `input` names for task `task`, when `fs` has a file
/// or directory there.
pub open spec fn resolved_at(abi: LinuxAbi, fs: Nkfs, task: int, dirfd: i32, input: Seq<u8>, executable: bool) -> Option<Seq<u8>> {
    match normalized_at(abi, task, dirfd, input, executable) {
        Some(p) => if meta_of(fs, p) is Some { Some(p) } else { None },
        None => None,
    }
}

impl LinuxAbi {
    /// The slot of descriptor `fd` of task `task`, when it is open.
    pub fn open_slot(&self, task: usize, fd: i32) -> (r: Option<usize>)
        requires self.wf(), task < USER_TASKS,
        ensures
            r == if fd >= FIRST_USER_FD && fd - FIRST_USER_FD < MAX_OPEN_FILES && self.is_open(task as int, fd - FIRST_USER_FD) {
                Some(file_slot(task as int, fd - FIRST_USER_FD) as usize)
            } else { None },
    {
        if fd < FIRST_USER_FD {
            return None;
        }
        let index = (fd - FIRST_USER_FD) as usize;
        if index >= MAX_OPEN_FILES {
            return None;
        }
        let slot = task * MAX_OPEN_FILES + index;
        if self.file_data[slot].is_none() {
            return None;
        }
        Some(slot)
    }

    /// The first free descriptor of task `task` and its slot.
    pub fn alloc_open_file(&self, task: usize) -> (r: Option<(i32, usize)>)
        requires self.wf(), task < USER_TASKS,
        ensures
            r matches Some((fd, slot)) ==> {
                let i = fd - FIRST_USER_FD;
                &&& 0 <= i < MAX_OPEN_FILES
                &&& slot == file_slot(task as int, i)
                &&& !self.is_open(task as int, i)
                &&& forall|j: int| 0 <= j < i ==> #[trigger] self.is_open(task as int, j)
            },
            r is None ==> forall|j: int| 0 <= j < MAX_OPEN_FILES ==> #[trigger] self.is_open(task as int, j),
    {
        let mut index: usize = 0;
        while index < MAX_OPEN_FILES
            invariant self.wf(), task < USER_TASKS, index <= MAX_OPEN_FILES,
                forall|j: int| 0 <= j < index ==> #[trigger] self.is_open(task as int, j),
            decreases MAX_OPEN_FILES - index,
        {
            if self.file_data[task * MAX_OPEN_FILES + index].is_none() {
                return Some((FIRST_USER_FD + index as i32, task * MAX_OPEN_FILES + index));
            }
            index += 1;
        }
        None
    }

    /// The path before canonicalization (see `scratch_path`).
    fn scratch(&self, task: usize, dirfd: i32, input: &[u8], executable: bool) -> (r: Option<Vec<u8>>)
        requires self.wf(), task < USER_TASKS, input@.len() > 0,
        ensures
            r is Some <==> scratch_path(*self, task as int, dirfd, input@, executable) is Some,
            r matches Some(v) ==> Some(v@) == scratch_path(*self, task as int, dirfd, input@, executable) && v@.len() <= PATH_MAX,
    {
        if input[0] == 47 {
            if input.len() > PATH_MAX {
                return None;
            }
            let empty: [u8; 0] = [];
            let r = join(&empty, input);
            proof { assert(empty@ + input@ =~= input@); }
            return r;
        }
        if executable && !path_contains_slash(input) {
            let bin: [u8; 5] = [47, 98, 105, 110, 47];
            proof { assert(bin@ =~= bin_prefix()); }
            return join(&bin, input);
        }
        if dirfd >= FIRST_USER_FD {
            let slot = match self.open_slot(task, dirfd) { Some(s) => s, None => return None };
            if !self.file_is_dir[slot] || self.file_path[slot].len() == 0 {
                return None;
            }
            return join_relative(&self.file_path[slot], input);
        }
        let cwd = self.current_cwd(task);
        join_relative(&cwd, input)
    }

    /// The canonical path `input` names for task `task` (see `normalized_at`).
    pub fn normalize_at_path(&self, task: usize, dirfd: i32, input: &[u8], executable: bool) -> (r: Option<Vec<u8>>)
        requires self.wf(), task < USER_TASKS,
        ensures
            r is Some <==> normalized_at(*self, task as int, dirfd, input@, executable) is Some,
            r matches Some(v) ==> Some(v@) == normalized_at(*self, task as int, dirfd, input@, executable) && v@.len() <= PATH_MAX
                && v@.len() > 0 && v@[0] == 47,
    {
        if input.len() == 0 {
            return None;
        }
        let scratch = match self.scratch(task, dirfd, input, executable) { Some(v) => v, None => return None };
        let r = canonicalize_path(&scratch);
        proof {
            if r is Some {
                lemma_canonical_len(scratch@);
            }
        }
        r
    }

    /// The canonical path `input` names for task `task`, when a file or
    /// directory is there.
    pub fn resolve_at_path(&self, fs: &mut Nkfs, task: usize, dirfd: i32, input: &[u8], executable: bool) -> (r: Option<Vec<u8>>)
        requires self.wf(), old(fs).wf(), task < USER_TASKS,
        ensures
            final(fs).wf(),
            final(fs).volume.disk@ == old(fs).volume.disk@,
            final(fs).ram_files@ == old(fs).ram_files@,
            final(fs).volume.mounted() == old(fs).volume.mounted(),
            r matches Some(v) ==> Some(v@) == normalized_at(*self, task as int, dirfd, input@, executable) && v@.len() <= PATH_MAX,
            r is Some <==> resolved_at(*self, *old(fs), task as int, dirfd, input@, executable) is Some,
    {
        let path = match self.normalize_at_path(task, dirfd, input, executable) { Some(p) => p, None => return None };
        if fs.path_exists(&path) { Some(path) } else { None }
    }
}

/// A canonical path is absolute and fits in `PATH_MAX` bytes.
proof fn lemma_canonical_len(input: Seq<u8>)
    requires canonical(input) is Some,
    ensures
        canonical(input).unwrap().len() <= PATH_MAX,
        canonical(input).unwrap().len() > 0,
        canonical(input).unwrap()[0] == 47,
{
    if input.len() > 0 && input[0] == 47 {
        lemma_canon_from_len(input, 1, seq![47u8]);
    }
}

proof fn lemma_canon_from_len(input: Seq<u8>, cursor: int, out: Seq<u8>)
    requires out.len() <= PATH_MAX, out.len() > 0, out[0] == 47, canon_from(input, cursor, out) is Some,
    ensures
        canon_from(input, cursor, out).unwrap().len() <= PATH_MAX,
        canon_from(input, cursor, out).unwrap().len() > 0,
        canon_from(input, cursor, out).unwrap()[0] == 47,
    decreases input.len() + 1 - cursor,
{
    if cursor > input.len() || cursor < 0 {
    } else {
        let s = seg_start(input, cursor);
        let e = seg_end(input, s);
        let comp = input.subrange(s, e);
        match canon_push(out, comp) {
            None => {},
            Some(o) => {
                lemma_pop_len(out);
                if !(comp.len() == 0 || comp == seq![46u8]) && !(comp == seq![46u8, 46u8]) {
                    let sep = if out.len() > 1 { out.push(47u8) } else { out };
                    assert((sep + comp)[0] == sep[0]);
                }
                if e + 1 > cursor && e <= input.len() {
                    lemma_canon_from_len(input, e + 1, o);
                }
            },
        }
    }
}

proof fn lemma_pop_len(out: Seq<u8>)
    requires out.len() > 0,
    ensures
        pop_component(out).len() <= out.len(),
        pop_component(out).len() > 0,
        pop_component(out)[0] == out[0],
{
    if out.len() > 1 {
        lemma_back_bounds(out, out.len() - 1);
    }
}


impl LinuxAbi {
    /// Only slot `slot`'s descriptor may differ between `self` and `other`,
    /// and the rest of the state is the same.
    pub open spec fn same_but_slot(&self, other: &LinuxAbi, slot: int) -> bool {
        &&& forall|i: int| 0 <= i < FILE_SLOTS && i != slot ==> {
                &&& #[trigger] self.file_data@[i] == other.file_data@[i]
                &&& self.file_offset@[i] == other.file_offset@[i]
                &&& self.file_is_dir@[i] == other.file_is_dir@[i]
                &&& self.file_writable@[i] == other.file_writable@[i]
                &&& self.file_ram@[i] == other.file_ram@[i]
                &&& self.file_mode@[i] == other.file_mode@[i]
                &&& self.file_path@[i] == other.file_path@[i]
            }
        &&& self.cwds@ == other.cwds@
        &&& self.mmap_cursors@ == other.mmap_cursors@
        &&& self.program_breaks@ == other.program_breaks@
        &&& self.stdout_budgets@ == other.stdout_budgets@
        &&& self.stdin_raw@ == other.stdin_raw@
        &&& self.input_line@ == other.input_line@
        &&& self.ready@ == other.ready@
    }

    /// Opens slot `slot` on `data`.
    fn install_file(&mut self, slot: usize, data: Vec<u8>, is_dir: bool, writable: bool, ram: usize, mode: u32, path: Vec<u8>)
        requires old(self).wf(), slot < FILE_SLOTS, path@.len() <= PATH_MAX, data@.len() <= FD_BUFFER_CAP,
        ensures
            final(self).wf(),
            final(self).same_but_slot(&*old(self), slot as int),
            final(self).file_data@[slot as int] == Some(data),
            final(self).file_offset@[slot as int] == 0,
            final(self).file_is_dir@[slot as int] == is_dir,
            final(self).file_writable@[slot as int] == writable,
            final(self).file_ram@[slot as int] == ram,
            final(self).file_mode@[slot as int] == mode,
            final(self).file_path@[slot as int] == path,
    {
        self.file_data.set(slot, Some(data));
        self.file_offset.set(slot, 0);
        self.file_is_dir.set(slot, is_dir);
        self.file_writable.set(slot, writable);
        self.file_ram.set(slot, ram);
        self.file_mode.set(slot, mode);
        self.file_path.set(slot, path);
    }

    /// Opens the RAM file for `path` (creating or emptying it first when
    /// `create_or_truncate`) as a new descriptor of task `task` holding its
    /// contents; it is writable when `flags` ask to write, create or
    /// truncate. Returns the descriptor, `ENOENT` when there is no such RAM
    /// file, `EMFILE` when all descriptors are open, or `EINVAL` for a file
    /// larger than a descriptor holds.
    pub fn open_ram_file(&mut self, fs: &mut Nkfs, task: usize, path: &[u8], flags: u64, create_or_truncate: bool) -> (r: i64)
        requires old(self).wf(), old(fs).wf(), task < USER_TASKS, path@.len() <= PATH_MAX,
        ensures
            final(self).wf(),
            final(fs).wf(),
            r < 0 ==> *final(self) == *old(self) && (r == ENOENT || r == EMFILE || r == EINVAL),
            r >= 0 ==> {
                let i = r - FIRST_USER_FD;
                let slot = file_slot(task as int, i);
                &&& 0 <= i < MAX_OPEN_FILES
                &&& !old(self).is_open(task as int, i)
                &&& forall|j: int| 0 <= j < i ==> #[trigger] old(self).is_open(task as int, j)
                &&& final(self).same_but_slot(&*old(self), slot)
                &&& final(self).file_ram@[slot] < crate::nkfs::RAM_FILE_COUNT
                &&& final(fs).ram_files@[final(self).file_ram@[slot] as int].used
                &&& final(self).file_data@[slot] matches Some(d) && d@ == final(fs).ram_files@[final(self).file_ram@[slot] as int].contents()
                &&& final(self).file_offset@[slot] == 0
                &&& !final(self).file_is_dir@[slot]
                &&& final(self).file_writable@[slot] == (flags & (O_WRONLY | O_RDWR | O_CREAT | O_TRUNC) != 0)
                &&& final(self).file_mode@[slot] == 0o100755
                &&& final(self).file_path@[slot]@ == path@
            },
    {
        let ram = if create_or_truncate {
            fs.open_writable_file(path, flags & O_TRUNC != 0)
        } else {
            fs.ram_file_index(path)
        };
        let ram = match ram { Some(i) => i, None => return ENOENT };
        let data = match fs.ram_file_slice(ram) { Some(d) => d, None => return ENOENT };
        let (fd, slot) = match self.alloc_open_file(task) { Some(p) => p, None => return EMFILE };
        if data.len() > FD_BUFFER_CAP {
            return EINVAL;
        }
        let writable = flags & (O_WRONLY | O_RDWR | O_CREAT | O_TRUNC) != 0;
        let mut p: Vec<u8> = Vec::new();
        let mut k: usize = 0;
        while k < path.len()
            invariant k <= path@.len(), p@ == path@.subrange(0, k as int),
            decreases path@.len() - k,
        {
            p.push(path[k]);
            k += 1;
            proof { assert(p@ =~= path@.subrange(0, k as int)); }
        }
        proof { assert(p@ =~= path@); }
        self.install_file(slot, data, false, writable, ram, 0o100755, p);
        fd as i64
    }

    /// `openat(dirfd, path, flags)` for task `task`: an existing file opened
    /// to read is copied into the descriptor (a directory as its listing);
    /// opening to write, or creating a missing file with `O_CREAT`, goes
    /// through a RAM file. Returns the descriptor or an error.
    pub fn open_at(&mut self, fs: &mut Nkfs, task: usize, dirfd: i32, raw_path: &[u8], flags: u64) -> (r: i64)
        requires old(self).wf(), old(fs).wf(), task < USER_TASKS,
        ensures
            final(self).wf(),
            final(fs).wf(),
            raw_path@.len() == 0 ==> r == ENOENT && *final(self) == *old(self),
            normalized_at(*old(self), task as int, dirfd, raw_path@, false) is None ==> r == ENOENT && *final(self) == *old(self),
            r < 0 ==> *final(self) == *old(self),
            r >= 0 ==> {
                let i = r - FIRST_USER_FD;
                let slot = file_slot(task as int, i);
                &&& 0 <= i < MAX_OPEN_FILES
                &&& !old(self).is_open(task as int, i)
                &&& final(self).is_open(task as int, i)
                &&& final(self).same_but_slot(&*old(self), slot)
                &&& final(self).file_offset@[slot] == 0
                &&& Some(final(self).file_path@[slot]@) == normalized_at(*old(self), task as int, dirfd, raw_path@, false)
            },
            r >= 0 && flags & (O_WRONLY | O_RDWR | O_TRUNC) == 0
                && resolved_at(*old(self), *old(fs), task as int, dirfd, raw_path@, false) is Some ==> ({
                let slot = file_slot(task as int, r - FIRST_USER_FD);
                let p = final(self).file_path@[slot]@;
                &&& !final(self).file_writable@[slot]
                &&& (meta_of(*old(fs), p) matches Some(m) && m.kind != KIND_DIR) ==> !final(self).file_is_dir@[slot]
                        && (final(self).file_data@[slot] matches Some(d) && Some(d@) == crate::nkfs::file_contents(*old(fs), p))
            }),
    {
        if raw_path.len() == 0 {
            return ENOENT;
        }
        let path = match self.resolve_at_path(fs, task, dirfd, raw_path, false) {
            Some(p) => p,
            None => {
                if flags & O_CREAT == 0 {
                    return ENOENT;
                }
                let p = match self.normalize_at_path(task, dirfd, raw_path, false) { Some(p) => p, None => return ENOENT };
                return self.open_ram_file(fs, task, &p, flags, true);
            },
        };
        if flags & (O_WRONLY | O_RDWR | O_TRUNC) != 0 {
            return self.open_ram_file(fs, task, &path, flags, true);
        }
        let meta = match fs.metadata(&path) { Some(m) => m, None => return ENOENT };
        let data = if meta.kind == KIND_DIR { fs.read_dir(&path) } else { fs.read_file(&path) };
        let data = match data { Some(d) => d, None => return ENOENT };
        if data.len() > FD_BUFFER_CAP {
            return EINVAL;
        }
        let (fd, slot) = match self.alloc_open_file(task) { Some(p) => p, None => return EMFILE };
        let ram = match fs.ram_file_index(&path) { Some(i) => i, None => NO_RAM_FILE };
        let is_dir = meta.kind == KIND_DIR;
        let mode: u32 = if is_dir { 0o040555 } else { 0o100555 };
        self.install_file(slot, data, is_dir, false, ram, mode, path);
        fd as i64
    }

    /// `close(fd)`.
    pub fn close(&mut self, task: usize, fd: i32) -> (r: i64)
        requires old(self).wf(), task < USER_TASKS,
        ensures
            final(self).wf(),
            r == if fd >= FIRST_USER_FD && fd - FIRST_USER_FD < MAX_OPEN_FILES && old(self).is_open(task as int, fd - FIRST_USER_FD) { 0 } else { EBADF },
            r == EBADF ==> *final(self) == *old(self),
            r == 0 ==> !final(self).is_open(task as int, fd - FIRST_USER_FD)
                && final(self).same_but_slot(&*old(self), file_slot(task as int, fd - FIRST_USER_FD)),
    {
        let slot = match self.open_slot(task, fd) { Some(s) => s, None => return EBADF };
        self.clear_file(slot);
        proof {
            assert forall|i: int| 0 <= i < FILE_SLOTS && i != slot implies {
                &&& #[trigger] self.file_data@[i] == old(self).file_data@[i]
                &&& self.file_offset@[i] == old(self).file_offset@[i]
                &&& self.file_is_dir@[i] == old(self).file_is_dir@[i]
                &&& self.file_writable@[i] == old(self).file_writable@[i]
                &&& self.file_ram@[i] == old(self).file_ram@[i]
                &&& self.file_mode@[i] == old(self).file_mode@[i]
                &&& self.file_path@[i] == old(self).file_path@[i]
            } by {}
        }
        0
    }

    /// `read(fd, len)` of an open file: up to `len` bytes from the
    /// descriptor's offset, which advances. Returns the count and the bytes.
    pub fn read_fd(&mut self, task: usize, fd: i32, len: usize, buffer_null: bool) -> (r: (i64, Vec<u8>))
        requires old(self).wf(), task < USER_TASKS,
        ensures
            final(self).wf(),
            buffer_null || len == 0 ==> r.0 == 0 && r.1@.len() == 0 && *final(self) == *old(self),
            !(buffer_null || len == 0) && !(fd >= FIRST_USER_FD && fd - FIRST_USER_FD < MAX_OPEN_FILES
                && old(self).is_open(task as int, fd - FIRST_USER_FD)) ==> r.0 == EBADF && *final(self) == *old(self),
            !(buffer_null || len == 0) && fd >= FIRST_USER_FD && fd - FIRST_USER_FD < MAX_OPEN_FILES
                && old(self).is_open(task as int, fd - FIRST_USER_FD) ==> {
                let slot = file_slot(task as int, fd - FIRST_USER_FD);
                let data = old(self).file_data@[slot].unwrap()@;
                let off = old(self).file_offset@[slot];
                let count = if off >= data.len() { 0 } else if len < data.len() - off { len as int } else { data.len() - off };
                &&& old(self).file_is_dir@[slot] ==> r.0 == EINVAL && *final(self) == *old(self)
                &&& !old(self).file_is_dir@[slot] ==> {
                        &&& r.0 == count
                        &&& r.1@ == if count == 0 { Seq::<u8>::empty() } else { data.subrange(off as int, off + count) }
                        &&& final(self).file_offset@ == if count == 0 { old(self).file_offset@ } else { old(self).file_offset@.update(slot, (off + count) as usize) }
                        &&& final(self).file_data@ == old(self).file_data@
                        &&& final(self).file_path@ == old(self).file_path@
                        &&& final(self).file_ram@ == old(self).file_ram@
                        &&& final(self).file_is_dir@ == old(self).file_is_dir@
                        &&& final(self).file_writable@ == old(self).file_writable@
                        &&& final(self).file_mode@ == old(self).file_mode@
                        &&& final(self).cwds@ == old(self).cwds@
                        &&& final(self).ready@ == old(self).ready@
                        &&& final(self).input_line@ == old(self).input_line@
                    }
            },
    {
        if buffer_null || len == 0 {
            return (0, Vec::new());
        }
        let slot = match self.open_slot(task, fd) { Some(s) => s, None => return (EBADF, Vec::new()) };
        if self.file_is_dir[slot] {
            return (EINVAL, Vec::new());
        }
        let off = self.file_offset[slot];
        let out = match &self.file_data[slot] {
            Some(data) => {
                if off >= data.len() {
                    return (0, Vec::new());
                }
                let count = if len < data.len() - off { len } else { data.len() - off };
                let dlen = data.len();
                let mut out: Vec<u8> = Vec::new();
                let mut k: usize = 0;
                while k < count
                    invariant k <= count, off + count <= data@.len(), dlen == data@.len(), out@ == data@.subrange(off as int, off + k),
                    decreases count - k,
                {
                    out.push(data[off + k]);
                    k += 1;
                    proof { assert(out@ =~= data@.subrange(off as int, off + k)); }
                }
                out
            },
            None => return (EBADF, Vec::new()),
        };
        let count = out.len();
        self.file_offset.set(slot, off + count);
        (count as i64, out)
    }

    /// `fcntl(fd, cmd)`: every command succeeds on the standard streams and
    /// on open descriptors.
    pub fn fcntl(&self, task: usize, fd: i32, command: u64) -> (r: i64)
        requires self.wf(), task < USER_TASKS,
        ensures
            r == if fd == 0 || fd == 1 || fd == 2 || (fd >= FIRST_USER_FD && fd - FIRST_USER_FD < MAX_OPEN_FILES
                && self.is_open(task as int, fd - FIRST_USER_FD)) { 0 } else { EBADF },
    {
        if fd != 0 && fd != 1 && fd != 2 {
            if self.open_slot(task, fd).is_none() {
                return EBADF;
            }
        }
        if fd < 0 {
            return EBADF;
        }
        0
    }

    /// `lseek(fd, offset, whence)`: from the start, the current offset or
    /// the end (a RAM file's current length). Returns the new offset.
    pub fn lseek(&mut self, fs: &Nkfs, task: usize, fd: i32, offset: i64, whence: i32) -> (r: i64)
        requires old(self).wf(), fs.wf(), task < USER_TASKS,
        ensures
            final(self).wf(),
            !(fd >= FIRST_USER_FD && fd - FIRST_USER_FD < MAX_OPEN_FILES && old(self).is_open(task as int, fd - FIRST_USER_FD))
                ==> r == EBADF && *final(self) == *old(self),
            fd >= FIRST_USER_FD && fd - FIRST_USER_FD < MAX_OPEN_FILES && old(self).is_open(task as int, fd - FIRST_USER_FD) ==> {
                let slot = file_slot(task as int, fd - FIRST_USER_FD);
                let ram = old(self).file_ram@[slot];
                let len: int = if ram != NO_RAM_FILE {
                    if ram < crate::nkfs::RAM_FILE_COUNT && fs.ram_files@[ram as int].used { fs.ram_files@[ram as int].len as int } else { 0 }
                } else { old(self).file_data@[slot].unwrap()@.len() as int };
                let base: int = if whence == 0 { 0 } else if whence == 1 { old(self).file_offset@[slot] as i64 as int } else { len as i64 as int };
                let next: int = if base + offset > i64::MAX { i64::MAX as int } else if base + offset < i64::MIN { i64::MIN as int } else { base + offset };
                &&& !(0 <= whence <= 2) ==> r == EINVAL && *final(self) == *old(self)
                &&& 0 <= whence <= 2 && next < 0 ==> r == EINVAL && *final(self) == *old(self)
                &&& 0 <= whence <= 2 && next >= 0 ==> r == next
                        && final(self).file_offset@ == old(self).file_offset@.update(slot, next as usize)
                        && final(self).file_data@ == old(self).file_data@
            },
    {
        let slot = match self.open_slot(task, fd) { Some(s) => s, None => return EBADF };
        let ram = self.file_ram[slot];
        let len: usize = if ram != NO_RAM_FILE {
            match fs.ram_file_slice(ram) { Some(d) => d.len(), None => 0 }
        } else {
            match &self.file_data[slot] { Some(d) => d.len(), None => 0 }
        };
        let base: i64 = if whence == 0 { 0 } else if whence == 1 { self.file_offset[slot] as i64 } else if whence == 2 { len as i64 } else { return EINVAL };
        let next: i64 = match base.checked_add(offset) {
            Some(v) => v,
            None => if offset > 0 { i64::MAX } else { i64::MIN },
        };
        if next < 0 {
            return EINVAL;
        }
        self.file_offset.set(slot, next as usize);
        next
    }
}


/// The slot whose state the calls of the current task use: the current
/// task's, or slot 0 before any task runs.
pub fn current_task_index(sched: &UserScheduler) -> (r: usize)
    requires sched.wf(),
    ensures
        r < USER_TASKS,
        r == if sched.initialized && sched.installed > 0 { sched.current as int } else { 0 },
{
    match sched.current_index() {
        Some(i) => i,
        None => 0,
    }
}

/// What a `read` of stdin did: the result (`None` when the task now waits
/// and `switch` names the task to run) and the bytes for its buffer.
pub struct StdinRead {
    pub result: Option<i64>,
    pub bytes: Vec<u8>,
    pub switch: Option<UserSwitch>,
}

/// What a key did to the stdin line: the reader it woke and the byte that
/// reader gets.
pub struct KeyOutcome {
    pub woken: Option<StdinWake>,
    pub byte: Option<u8>,
}

/// The line, ready queue, echo and whether to wake a reader after `byte`.
pub open spec fn stdin_key_step(line: Seq<u8>, ready: Seq<u8>, byte: u8) -> (Seq<u8>, Seq<u8>, Seq<u8>, bool) {
    if byte == 8 || byte == 127 {
        if line.len() > 0 { (line.drop_last(), ready, seq![8u8], false) } else { (line, ready, Seq::empty(), false) }
    } else if byte == 10 || byte == 13 {
        (Seq::empty(), offered_all(ready, READY_INPUT_CAP as nat, line.push(10u8)), seq![10u8], true)
    } else if byte >= 0x20 && line.len() < INPUT_LINE_CAP - 1 {
        (line.push(byte), ready, seq![byte], false)
    } else {
        (line, ready, Seq::empty(), false)
    }
}

impl LinuxAbi {
    /// A key for the stdin line of the task reading stdin (or the current
    /// task): ignored in raw mode; otherwise backspace, Enter (the line and
    /// a newline become ready and a reader is woken) and printable bytes,
    /// each echoed on the console.
    pub fn handle_stdin_key(&mut self, sched: &mut UserScheduler, gui: &mut Gui, byte: u8) -> (r: KeyOutcome)
        requires old(self).wf(), old(sched).wf(), old(gui).wf(), old(gui).console_write + 1 <= usize::MAX,
        ensures
            final(self).wf(), final(sched).wf(), final(gui).wf(),
            final(self).stdin_raw@ == old(self).stdin_raw@,
            final(self).file_data@ == old(self).file_data@,
            ({
                let task = key_task(*old(sched));
                let (line, ready, echo, wake) = if old(self).stdin_raw@[task] {
                    (old(self).input_line@, old(self).ready@, Seq::<u8>::empty(), false)
                } else {
                    stdin_key_step(old(self).input_line@, old(self).ready@, byte)
                };
                &&& final(self).input_line@ == line
                &&& final(gui).written@ == old(gui).written@ + echo
                &&& !wake ==> *final(sched) == *old(sched) && r.woken is None && r.byte is None && final(self).ready@ == ready
                &&& wake ==> old(sched).stdin_wake_outcome(*final(sched), r.woken)
                &&& wake && (r.woken is None || ready.len() == 0) ==> r.byte is None && final(self).ready@ == ready
                &&& wake && r.woken is Some && ready.len() > 0 ==> r.byte == Some(ready[0]) && final(self).ready@ == ready.drop_first()
            }),
    {
        let task = crate::tty::Tty::key_task_index(sched);
        if self.stdin_raw[task] {
            proof { assert(old(gui).written@ + Seq::<u8>::empty() =~= old(gui).written@); }
            return KeyOutcome { woken: None, byte: None };
        }
        if byte == 8 || byte == 127 {
            if self.input_line.len() > 0 {
                self.input_line.pop();
                gui.console_write(&[8u8]);
                proof { assert(gui.written@ =~= old(gui).written@ + seq![8u8]); }
            } else {
                proof { assert(old(gui).written@ + Seq::<u8>::empty() =~= old(gui).written@); }
            }
            return KeyOutcome { woken: None, byte: None };
        } else if byte == 10 || byte == 13 {
            gui.console_write(&[10u8]);
            proof { assert(gui.written@ =~= old(gui).written@ + seq![10u8]); }
            let ghost q0 = self.ready@;
            self.ready.push_bytes(self.input_line.as_slice());
            self.ready.push(10);
            proof {
                let l = old(self).input_line@;
                assert(l.push(10u8).drop_last() =~= l);
                assert(l.push(10u8).last() == 10u8);
                assert(offered_all(q0, READY_INPUT_CAP as nat, l.push(10u8))
                    == crate::ring::offered(offered_all(q0, READY_INPUT_CAP as nat, l), READY_INPUT_CAP as nat, 10u8));
            }
            self.input_line.clear();
            proof { assert(self.input_line@ =~= Seq::<u8>::empty()); }
            let wake = sched.wake_stdin_waiter();
            match wake {
                Some(w) => {
                    let b = self.ready.pop();
                    return KeyOutcome { woken: Some(w), byte: b };
                },
                None => {
                    return KeyOutcome { woken: None, byte: None };
                },
            }
        } else if byte >= 0x20 && self.input_line.len() < INPUT_LINE_CAP - 1 {
            self.input_line.push(byte);
            gui.console_write(&[byte]);
            proof { assert(gui.written@ =~= old(gui).written@ + seq![byte]); }
            return KeyOutcome { woken: None, byte: None };
        }
        proof { assert(old(gui).written@ + Seq::<u8>::empty() =~= old(gui).written@); }
        KeyOutcome { woken: None, byte: None }
    }

    /// `read(0, buffer, len)` for task `task`: raw tasks get ready bytes, a
    /// key, or `EAGAIN`; others get ready bytes or wait for a line (`EAGAIN`
    /// when no other task can run).
    pub fn read_stdin(&mut self, sched: &mut UserScheduler, keyboard: &mut KeyboardBuffer, frame: &mut TrapFrame,
        task: usize, buffer: u64, len: usize, fs_base: u64) -> (r: StdinRead)
        requires old(self).wf(), old(sched).wf(), old(keyboard).wf(), task < USER_TASKS,
        ensures
            final(self).wf(), final(sched).wf(), final(keyboard).wf(),
            final(self).input_line@ == old(self).input_line@,
            final(self).file_data@ == old(self).file_data@,
            len == 0 ==> r.result == Some(0i64) && r.bytes@.len() == 0 && final(self).ready@ == old(self).ready@
                && *final(sched) == *old(sched) && final(keyboard)@ == old(keyboard)@,
            len > 0 && old(self).ready@.len() > 0 ==> {
                let n = if len < old(self).ready@.len() { len as int } else { old(self).ready@.len() as int };
                &&& r.bytes@ == old(self).ready@.take(n)
                &&& final(self).ready@ == old(self).ready@.skip(n)
                &&& r.result == Some(n as i64)
                &&& *final(sched) == *old(sched) && final(keyboard)@ == old(keyboard)@
            },
            len > 0 && old(self).ready@.len() == 0 && old(self).stdin_raw@[task as int] ==> {
                &&& final(self).ready@ == old(self).ready@
                &&& *final(sched) == *old(sched)
                &&& old(keyboard)@.len() > 0 ==> r.result == Some(1i64) && r.bytes@ == seq![old(keyboard)@[0]]
                        && final(keyboard)@ == old(keyboard)@.drop_first()
                &&& old(keyboard)@.len() == 0 ==> r.result == Some(EAGAIN) && r.bytes@.len() == 0
            },
            len > 0 && old(self).ready@.len() == 0 && !old(self).stdin_raw@[task as int] ==> {
                &&& r.bytes@.len() == 0
                &&& final(self).ready@ == old(self).ready@
                &&& final(keyboard)@ == old(keyboard)@
                &&& old(sched).block_outcome(*old(frame), fs_base, BlockReason::Stdin { buffer }, *final(sched), *final(frame), r.switch)
                &&& r.result == if r.switch is Some { None } else { Some(EAGAIN) }
            },
    {
        if len == 0 {
            return StdinRead { result: Some(0), bytes: Vec::new(), switch: None };
        }
        if self.ready.has_data() {
            let bytes = self.ready.pop_up_to(len);
            let n = bytes.len();
            return StdinRead { result: Some(n as i64), bytes, switch: None };
        }
        if self.stdin_raw[task] {
            match keyboard.pop() {
                Some(b) => {
                    let v = vec![b];
                    proof { assert(v@ =~= seq![b]); }
                    return StdinRead { result: Some(1), bytes: v, switch: None };
                },
                None => return StdinRead { result: Some(EAGAIN), bytes: Vec::new(), switch: None },
            }
        }
        let switch = sched.block_current_for_stdin(frame, buffer, fs_base);
        match switch {
            Some(s) => StdinRead { result: None, bytes: Vec::new(), switch: Some(s) },
            None => StdinRead { result: Some(EAGAIN), bytes: Vec::new(), switch: None },
        }
    }

    /// How many bytes of a write of `len` bytes to `fd` task `task` may
    /// make: stdout of a task with a budget takes at most what is left of it
    /// (`EPIPE` when nothing is), which is used up.
    pub fn stdout_allowance(&mut self, task: usize, fd: i32, len: usize) -> (r: Result<usize, i64>)
        requires old(self).wf(), task < USER_TASKS,
        ensures
            final(self).wf(),
            final(self).file_data@ == old(self).file_data@,
            !(fd == 1 && old(self).stdout_budgets@[task as int] >= 0) ==> r == Ok::<usize, i64>(len) && *final(self) == *old(self),
            fd == 1 && old(self).stdout_budgets@[task as int] == 0 ==> r == Err::<usize, i64>(EPIPE) && *final(self) == *old(self),
            fd == 1 && old(self).stdout_budgets@[task as int] > 0 ==> {
                let b = old(self).stdout_budgets@[task as int];
                let allowed = if b < len { b as int } else { len as int };
                &&& r == Ok::<usize, i64>(allowed as usize)
                &&& final(self).stdout_budgets@ == old(self).stdout_budgets@.update(task as int, (b - allowed) as i64)
            },
    {
        if fd == 1 && self.stdout_budgets[task] >= 0 {
            let b = self.stdout_budgets[task];
            if b == 0 {
                return Err(EPIPE);
            }
            let allowed: usize = if (b as u64) < (len as u64) { b as usize } else { len };
            self.stdout_budgets.set(task, b - allowed as i64);
            Ok(allowed)
        } else {
            Ok(len)
        }
    }
}

/// How much of `len` bytes at `addr` of task `task`'s memory can be read,
/// checked in 4096-byte pieces: the bytes before the first unmapped piece,
/// and whether one stopped the read.
pub fn readable_prefix(mem: &UserMemory, task: usize, addr: u64, len: usize) -> (r: (usize, bool))
    requires mem.wf(),
    ensures
        r.0 <= len,
        !r.1 ==> r.0 == len,
        r.1 ==> r.0 < len && r.0 % 4096 == 0,
{
    let mut written: usize = 0;
    while written < len
        invariant mem.wf(), written <= len, written % 4096 == 0 || written == len,
        decreases len - written,
    {
        let count = if len - written < 4096 { len - written } else { 4096 };
        let at = match addr.checked_add(written as u64) { Some(a) => a, None => return (written, true) };
        if !mem.user_range_mapped(task, at, count) {
            return (written, true);
        }
        written = written + count;
    }
    (len, false)
}

/// What a write returns: everything when nothing faulted, else what was
/// written before the fault (`EFAULT` when that is nothing).
pub fn write_outcome(total: usize, done: usize, fault: bool) -> (r: i64)
    requires done <= total, total <= i64::MAX,
    ensures r == if !fault { total as i64 } else if done > 0 { done as i64 } else { EFAULT },
{
    if !fault { total as i64 } else if done > 0 { done as i64 } else { EFAULT }
}


/// The length of a mapping of `len` bytes: whole pages (wrapping as the
/// kernel computes it).
pub open spec fn mmap_len(len: u64) -> int {
    let bumped = len.wrapping_add(4095);
    bumped - bumped % 4096
}

/// `c` rounded up to a page boundary (wrapping as the kernel computes it).
pub open spec fn page_up(c: u64) -> int {
    let b = c.wrapping_add(4095);
    b - b % 4096
}

/// Flag of `mmap`: place the mapping at the address given.
pub const MAP_FIXED: u64 = 0x10;
/// Flag of `mmap`: no file behind the mapping.
pub const MAP_ANONYMOUS: u64 = 0x20;

/// Whether descriptor `fd` of task `task` can be written: open, writable,
/// a RAM file, not a directory.
pub open spec fn writable_fd(abi: LinuxAbi, task: int, fd: i32) -> bool {
    fd >= FIRST_USER_FD && fd - FIRST_USER_FD < MAX_OPEN_FILES && abi.is_open(task, fd - FIRST_USER_FD)
        && abi.file_writable@[file_slot(task, fd - FIRST_USER_FD)]
        && !abi.file_is_dir@[file_slot(task, fd - FIRST_USER_FD)]
        && abi.file_ram@[file_slot(task, fd - FIRST_USER_FD)] != NO_RAM_FILE
}

/// Two writes in a row, the second right behind the first, are one write
/// of both.
proof fn lemma_written_chain(f0: crate::nkfs::RamFile, f1: crate::nkfs::RamFile, f2: crate::nkfs::RamFile,
    off: int, bytes: Seq<u8>, n: int, chunk: Seq<u8>, c: int)
    requires
        0 < n, 0 <= c, n + c <= bytes.len(), c <= chunk.len(),
        chunk.subrange(0, c) == bytes.subrange(n, n + c),
        crate::nkfs::ram_written(f0, f1, off, bytes, n),
        crate::nkfs::ram_written(f1, f2, off + n, chunk, c),
    ensures crate::nkfs::ram_written(f0, f2, off, bytes, n + c),
{
    assert(f2.data@ =~= crate::disk::splice(f0.data@, off, bytes.subrange(0, n + c)));
}

/// A later write behind the bytes written first leaves them in place.
proof fn lemma_write_keeps_prefix(f0: crate::nkfs::RamFile, f1: crate::nkfs::RamFile, f2: crate::nkfs::RamFile,
    off: int, bytes: Seq<u8>, n: int, chunk: Seq<u8>)
    requires
        f0.wf(), f0.used, 0 <= off, 0 < n <= bytes.len(), off + n <= crate::nkfs::RAM_FILE_CAP,
        crate::nkfs::ram_written(f0, f1, off, bytes, n),
        exists|c: int| 0 <= c <= chunk.len() && off + n + c <= crate::nkfs::RAM_FILE_CAP
            && #[trigger] crate::nkfs::ram_written(f1, f2, off + n, chunk, c),
    ensures
        f2.used, f2.path == f0.path,
        f2.contents().subrange(off, off + n) == bytes.subrange(0, n),
{
    let c = choose|c: int| 0 <= c <= chunk.len() && off + n + c <= crate::nkfs::RAM_FILE_CAP
        && #[trigger] crate::nkfs::ram_written(f1, f2, off + n, chunk, c);
    crate::nkfs::lemma_write_then_read(f0, f1, off, bytes, n);
    assert(f1.data@.len() == crate::nkfs::RAM_FILE_CAP);
    assert(f2.data@.len() == crate::nkfs::RAM_FILE_CAP);
    assert(f1.len >= off + n);
    assert(f2.len >= f1.len);
    assert(f2.contents().len() == f2.len);
    assert(f1.contents().len() == f1.len);
    assert forall|k: int| 0 <= k < n implies #[trigger] f2.contents().subrange(off, off + n)[k] == f1.contents().subrange(off, off + n)[k] by {
        assert(f2.data@ == crate::disk::splice(f1.data@, off + n, chunk.subrange(0, c)));
        assert(f2.data@[off + k] == f1.data@[off + k]);
        assert(f2.contents()[off + k] == f2.data@[off + k]);
        assert(f1.contents()[off + k] == f1.data@[off + k]);
    }
    assert(f2.contents().subrange(off, off + n) =~= f1.contents().subrange(off, off + n));
}

proof fn lemma_written_prefix_after(f0: crate::nkfs::RamFile, f1: crate::nkfs::RamFile, f2: crate::nkfs::RamFile,
    off: int, bytes: Seq<u8>, n: int, chunk: Seq<u8>, c: int)
    requires
        n > 0 ==> f0.wf() && f0.used && 0 <= off && n <= bytes.len() && off + n <= crate::nkfs::RAM_FILE_CAP
            && crate::nkfs::ram_written(f0, f1, off, bytes, n),
        0 <= c <= chunk.len(), off + n + c <= crate::nkfs::RAM_FILE_CAP,
        crate::nkfs::ram_written(f1, f2, off + n, chunk, c),
    ensures
        n > 0 ==> f2.used && f2.path == f0.path && f2.contents().subrange(off, off + n) == bytes.subrange(0, n),
{
    if n > 0 {
        lemma_write_keeps_prefix(f0, f1, f2, off, bytes, n, chunk);
    }
}

proof fn lemma_write_then_read_again(f0: crate::nkfs::RamFile, f1: crate::nkfs::RamFile, off: int, bytes: Seq<u8>, n: int, c: int)
    requires
        n + c > 0 ==> f0.wf() && f0.used && 0 <= off && n + c <= bytes.len() && off + n + c <= crate::nkfs::RAM_FILE_CAP
            && crate::nkfs::ram_written(f0, f1, off, bytes, n + c),
        0 <= n, 0 <= c,
    ensures
        n > 0 ==> f1.used && f1.path == f0.path && f1.contents().subrange(off, off + n) == bytes.subrange(0, n),
{
    if n > 0 {
        crate::nkfs::lemma_write_then_read(f0, f1, off, bytes, n + c);
        assert(f1.contents().subrange(off, off + n) =~= f1.contents().subrange(off, off + n + c).subrange(0, n));
        assert(bytes.subrange(0, n) =~= bytes.subrange(0, n + c).subrange(0, n));
    }
}

impl LinuxAbi {
    /// Writes `bytes` (what could be read of the user buffer; `fault` when
    /// the rest could not) to the RAM file behind `fd` at its offset, in
    /// pieces of 4096 bytes, advancing the offset; a short piece stops the
    /// write. The descriptor then holds the file's new contents. Returns
    /// the bytes written, `EBADF` for a descriptor that cannot be written,
    /// `EINVAL` or `EFAULT` when nothing could be written.
    #[verifier::spinoff_prover]
    pub fn write_regular_file(&mut self, fs: &mut Nkfs, task: usize, fd: i32, bytes: &[u8], fault: bool) -> (r: i64)
        requires old(self).wf(), old(fs).wf(), task < USER_TASKS, bytes@.len() <= i64::MAX,
        ensures
            final(self).wf(),
            final(fs).wf(),
            !writable_fd(*old(self), task as int, fd) ==> r == EBADF && *final(self) == *old(self) && *final(fs) == *old(fs),
            writable_fd(*old(self), task as int, fd) ==> {
                let slot = file_slot(task as int, fd - FIRST_USER_FD);
                &&& final(self).same_but_slot(&*old(self), slot)
                &&& final(self).file_ram@[slot] == old(self).file_ram@[slot]
                &&& final(self).file_path@[slot] == old(self).file_path@[slot]
                &&& r >= 0 ==> r <= bytes@.len() && final(self).file_offset@[slot] == old(self).file_offset@[slot] + r
                &&& r < 0 ==> r == EINVAL || r == EFAULT
                &&& r > 0 ==> {
                    let ram = old(self).file_ram@[slot];
                    let f = final(fs).ram_files@[ram as int];
                    &&& ram < crate::nkfs::RAM_FILE_COUNT
                    &&& f.used && f.path == old(fs).ram_files@[ram as int].path
                    &&& f.contents().subrange(old(self).file_offset@[slot] as int, old(self).file_offset@[slot] + r)
                            == bytes@.subrange(0, r as int)
                }
            },
    {
        let slot = match self.open_slot(task, fd) { Some(s) => s, None => return EBADF };
        if !self.file_writable[slot] || self.file_is_dir[slot] || self.file_ram[slot] == NO_RAM_FILE {
            return EBADF;
        }
        let ram = self.file_ram[slot];
        let mut written: usize = 0;
        let ghost off0 = self.file_offset[slot as int];
        let ghost f0 = fs.ram_files@[ram as int];
        while written < bytes.len()
            invariant_except_break
                written == 0 ==> fs.ram_files@ == old(fs).ram_files@,
            invariant
                written > 0 ==> ram < crate::nkfs::RAM_FILE_COUNT && f0.used && f0.wf()
                    && f0 == old(fs).ram_files@[ram as int]
                    && crate::nkfs::ram_written(f0, fs.ram_files@[ram as int], off0 as int, bytes@, written as int)
                    && off0 + written <= crate::nkfs::RAM_FILE_CAP,
                ram < crate::nkfs::RAM_FILE_COUNT ==> f0 == old(fs).ram_files@[ram as int],
                self.wf(), fs.wf(), slot < FILE_SLOTS, slot == file_slot(task as int, fd - FIRST_USER_FD),
                writable_fd(*old(self), task as int, fd),
                written <= bytes@.len(), bytes@.len() <= i64::MAX,
                self.same_but_slot(&*old(self), slot as int),
                self.file_data@[slot as int] == old(self).file_data@[slot as int],
                self.file_ram@[slot as int] == ram, ram == old(self).file_ram@[slot as int],
                self.file_path@[slot as int] == old(self).file_path@[slot as int],
                self.file_is_dir@[slot as int] == old(self).file_is_dir@[slot as int],
                self.file_writable@[slot as int] == old(self).file_writable@[slot as int],
                self.file_mode@[slot as int] == old(self).file_mode@[slot as int],
                self.file_offset@[slot as int] == off0 + written,
                off0 == old(self).file_offset@[slot as int],
            decreases bytes@.len() - written,
        {
            let count = if bytes.len() - written < 4096 { bytes.len() - written } else { 4096 };
            let chunk = crate::userland::slice_copy(bytes, written, written + count);
            let offset = self.file_offset[slot];
            let ghost f_cur = fs.ram_files@[ram as int];
            let done = match fs.write_ram_file(ram, offset, &chunk) {
                Some(d) => d,
                None => {
                    proof {
                        if written > 0 {
                            lemma_write_keeps_prefix(f0, f_cur, fs.ram_files@[ram as int], off0 as int, bytes@, written as int, chunk@);
                        }
                    }
                    return if written > 0 { written as i64 } else { EINVAL };
                },
            };
            if done > count {
                proof { lemma_written_prefix_after(f0, f_cur, fs.ram_files@[ram as int], off0 as int, bytes@, written as int, chunk@, done as int); }
                return written as i64;
            }
            proof {
                if written == 0 {
                    assert(f_cur == f0);
                    assert(chunk@.subrange(0, done as int) =~= bytes@.subrange(0, done as int));
                } else {
                    assert(chunk@.subrange(0, done as int) =~= bytes@.subrange(written as int, written + done));
                    lemma_written_chain(f0, f_cur, fs.ram_files@[ram as int], off0 as int, bytes@, written as int, chunk@, done as int);
                }
            }
            let next = match offset.checked_add(done) { Some(n) => n, None => {
                proof { lemma_write_then_read_again(f0, fs.ram_files@[ram as int], off0 as int, bytes@, written as int, done as int); }
                return written as i64
            } };
            self.file_offset.set(slot, next);
            written = written + done;
            if done < count {
                break;
            }
        }
        proof {
            if written > 0 {
                crate::nkfs::lemma_write_then_read(f0, fs.ram_files@[ram as int], off0 as int, bytes@, written as int);
            }
        }
        if fault {
            return if written > 0 { written as i64 } else { EFAULT };
        }
        match fs.ram_file_slice(ram) {
            Some(d) => {
                if d.len() <= FD_BUFFER_CAP {
                    self.file_data.set(slot, Some(d));
                }
            },
            None => {},
        }
        written as i64
    }

    /// `pwrite64`: a write at `offset` that leaves the descriptor's offset
    /// as it was.
    pub fn pwrite64(&mut self, fs: &mut Nkfs, task: usize, fd: i32, bytes: &[u8], fault: bool, offset: usize) -> (r: i64)
        requires old(self).wf(), old(fs).wf(), task < USER_TASKS, bytes@.len() <= i64::MAX,
        ensures
            final(self).wf(),
            final(fs).wf(),
            !writable_fd(*old(self), task as int, fd) ==> r == EBADF && *final(self) == *old(self) && *final(fs) == *old(fs),
            writable_fd(*old(self), task as int, fd) ==> final(self).file_offset@ == old(self).file_offset@
                && (r >= 0 ==> r <= bytes@.len()),
            writable_fd(*old(self), task as int, fd) && r > 0 ==> {
                let ram = old(self).file_ram@[file_slot(task as int, fd - FIRST_USER_FD)];
                let f = final(fs).ram_files@[ram as int];
                &&& ram < crate::nkfs::RAM_FILE_COUNT
                &&& f.used && f.path == old(fs).ram_files@[ram as int].path
                &&& f.contents().subrange(offset as int, offset + r) == bytes@.subrange(0, r as int)
            },
    {
        let slot = match self.open_slot(task, fd) { Some(s) => s, None => return EBADF };
        if !self.file_writable[slot] || self.file_is_dir[slot] || self.file_ram[slot] == NO_RAM_FILE {
            return EBADF;
        }
        let old_offset = self.file_offset[slot];
        self.file_offset.set(slot, offset);
        let ghost moved = *self;
        proof {
            assert forall|i: int| 0 <= i < FILE_SLOTS && i != slot implies {
                &&& #[trigger] moved.file_data@[i] == old(self).file_data@[i]
                &&& moved.file_offset@[i] == old(self).file_offset@[i]
                &&& moved.file_is_dir@[i] == old(self).file_is_dir@[i]
                &&& moved.file_writable@[i] == old(self).file_writable@[i]
                &&& moved.file_ram@[i] == old(self).file_ram@[i]
                &&& moved.file_mode@[i] == old(self).file_mode@[i]
                &&& moved.file_path@[i] == old(self).file_path@[i]
            } by {}
        }
        let written = self.write_regular_file(fs, task, fd, bytes, fault);
        let ghost after_write = *self;
        self.file_offset.set(slot, old_offset);
        proof {
            assert(writable_fd(moved, task as int, fd));
            assert(after_write.same_but_slot(&moved, slot as int));
            assert(self.file_offset@ =~= old(self).file_offset@) by {
                assert forall|i: int| 0 <= i < FILE_SLOTS implies self.file_offset@[i] == old(self).file_offset@[i] by {
                    if i != slot {
                        assert(after_write.file_data@[i] == moved.file_data@[i]);
                        assert(moved.file_offset@[i] == old(self).file_offset@[i]);
                    }
                }
            }
        }
        written
    }

    /// `truncate(path, len)`: sets the length of the file (through a RAM
    /// file).
    pub fn truncate_path(&mut self, fs: &mut Nkfs, task: usize, raw_path: &[u8], len: usize) -> (r: i64)
        requires old(self).wf(), old(fs).wf(), task < USER_TASKS,
        ensures
            final(fs).wf(),
            *final(self) == *old(self),
            raw_path@.len() == 0 ==> r == ENOENT,
            r == 0 || r == ENOENT || r == EINVAL,
            resolved_at(*old(self), *old(fs), task as int, AT_FDCWD, raw_path@, false) is None ==> r == ENOENT,
            resolved_at(*old(self), *old(fs), task as int, AT_FDCWD, raw_path@, false) matches Some(p) ==> {
                &&& len > RAM_FILE_CAP ==> r == EINVAL
                &&& r == 0 ==> exists|i: int| 0 <= i < RAM_FILE_COUNT && (#[trigger] final(fs).ram_files@[i]).used
                    && Some(final(fs).ram_files@[i].path@) == crate::nkfs::normalized(p) && final(fs).ram_files@[i].len == len
                &&& ram_lookup(old(fs).ram_files@, p) matches Some(i) ==> (len <= RAM_FILE_CAP && normalized_len(p) is Some
                    && normalized_len(p).unwrap() > 1 ==> {
                    let f0 = old(fs).ram_files@[i as int];
                    let contents = if len > f0.len { f0.contents() + zeros((len - f0.len) as nat) } else { f0.data@.subrange(0, len as int) };
                    &&& final(fs).ram_files@[i as int].len == len
                    &&& final(fs).ram_files@[i as int].contents() == contents
                    &&& (r == 0 <==> flush_effect(old(fs).volume.disk@, old(fs).volume.mounted(), true, f0.inode, contents,
                            f0.extent_start, f0.extent_blocks).0)
                })
            },
    {
        if raw_path.len() == 0 {
            return ENOENT;
        }
        let path = match self.resolve_at_path(fs, task, AT_FDCWD, raw_path, false) { Some(p) => p, None => return ENOENT };
        let ghost fs1 = *fs;
        let index = match fs.open_writable_file(&path, false) { Some(i) => i, None => return EINVAL };
        let ghost fs2 = *fs;
        let ok = fs.truncate_ram_file(index, len);
        proof {
            if ok {
                assert(fs.ram_files@[index as int].used);
            }
            if let Some(i) = ram_lookup(old(fs).ram_files@, path@) {
                if normalized_len(path@) is Some && normalized_len(path@).unwrap() > 1 {
                    assert(fs2.ram_files@[i as int] == old(fs).ram_files@[i as int]);
                    assert(fs2.volume == fs1.volume);
                }
            }
        }
        if ok { 0 } else { EINVAL }
    }

    /// `ftruncate(fd, len)`: sets the length of the RAM file behind `fd`;
    /// the descriptor then holds its new contents.
    pub fn ftruncate_fd(&mut self, fs: &mut Nkfs, task: usize, fd: i32, len: usize) -> (r: i64)
        requires old(self).wf(), old(fs).wf(), task < USER_TASKS,
        ensures
            final(self).wf(),
            final(fs).wf(),
            !writable_fd(*old(self), task as int, fd) ==> r == EBADF && *final(self) == *old(self) && *final(fs) == *old(fs),
            writable_fd(*old(self), task as int, fd) ==> {
                let slot = file_slot(task as int, fd - FIRST_USER_FD);
                &&& r == 0 || r == EINVAL
                &&& final(self).same_but_slot(&*old(self), slot)
                &&& final(self).file_offset@[slot] == old(self).file_offset@[slot]
                &&& ({
                    let ram = old(self).file_ram@[slot];
                    &&& len > RAM_FILE_CAP || ram >= RAM_FILE_COUNT || !old(fs).ram_files@[ram as int].used ==> r == EINVAL
                    &&& len <= RAM_FILE_CAP && ram < RAM_FILE_COUNT && old(fs).ram_files@[ram as int].used ==> {
                        let f0 = old(fs).ram_files@[ram as int];
                        let contents = if len > f0.len { f0.contents() + zeros((len - f0.len) as nat) } else { f0.data@.subrange(0, len as int) };
                        &&& final(fs).ram_files@[ram as int].len == len
                        &&& final(fs).ram_files@[ram as int].contents() == contents
                        &&& (r == 0 <==> flush_effect(old(fs).volume.disk@, old(fs).volume.mounted(), true, f0.inode, contents,
                                f0.extent_start, f0.extent_blocks).0)
                    }
                })
            },
    {
        let slot = match self.open_slot(task, fd) { Some(s) => s, None => return EBADF };
        if !self.file_writable[slot] || self.file_is_dir[slot] || self.file_ram[slot] == NO_RAM_FILE {
            return EBADF;
        }
        let ram = self.file_ram[slot];
        if !fs.truncate_ram_file(ram, len) {
            return EINVAL;
        }
        match fs.ram_file_slice(ram) {
            Some(d) => {
                if d.len() <= FD_BUFFER_CAP {
                    self.file_data.set(slot, Some(d));
                }
            },
            None => {},
        }
        0
    }

    /// `brk(request)`: 0 asks for the current break; a break inside the
    /// break area is set, with its new pages mapped (a break that cannot be
    /// mapped is refused). Returns the break.
    pub fn brk(&mut self, mem: &mut UserMemory, task: usize, request: u64) -> (r: i64)
        requires old(self).wf(), old(mem).wf(), task < USER_TASKS,
        ensures
            final(self).wf(), final(mem).wf(),
            final(self).file_data@ == old(self).file_data@,
            forall|t: int| 0 <= t < USER_TASKS && t != task ==> #[trigger] final(self).program_breaks@[t] == old(self).program_breaks@[t],
            r == final(self).program_breaks@[task as int] as i64,
            !(request != 0 && USER_BRK_START <= request <= USER_BRK_END) ==> final(self).program_breaks@ == old(self).program_breaks@,
            final(self).program_breaks@[task as int] == old(self).program_breaks@[task as int]
                || final(self).program_breaks@[task as int] == request,
            request != 0 && USER_BRK_START <= request <= USER_BRK_END ==> {
                let current = old(self).program_breaks@[task as int];
                &&& request <= current ==> final(self).program_breaks@[task as int] == request
                &&& request > current ==> final(self).program_breaks@[task as int] == request
                    || (final(self).program_breaks@[task as int] == current
                        && (!user_range_ok(current, (request - current) as usize) || final(mem).free_frames@.len() == 0))
            },
    {
        if request == 0 {
            return self.program_breaks[task] as i64;
        }
        if USER_BRK_START <= request && request <= USER_BRK_END {
            let current = self.program_breaks[task];
            if request > current {
                let len = (request - current) as usize;
                if !mem.allocate_user_range(task, current, len, true) {
                    return current as i64;
                }
            }
            self.program_breaks.set(task, request);
        }
        self.program_breaks[task] as i64
    }

    /// `mmap(address, len, prot, flags, fd, offset)`: places the mapping (at
    /// `address` with `MAP_FIXED`, else at the page-aligned cursor, which
    /// moves past it), maps its pages, and loads file data for a file
    /// mapping. Returns its address, `EINVAL`, `EBADF` or `ENOMEM`.
    pub fn mmap(&mut self, mem: &mut UserMemory, task: usize, address: u64, len: u64, flags: u64, fd: i64, offset: u64) -> (r: i64)
        requires old(self).wf(), old(mem).wf(), task < USER_TASKS,
        ensures
            final(self).wf(), final(mem).wf(),
            final(self).file_data@ == old(self).file_data@,
            final(self).program_breaks@ == old(self).program_breaks@,
            final(self).cwds@ == old(self).cwds@,
            len == 0 ==> r == EINVAL && *final(self) == *old(self) && *final(mem) == *old(mem),
            len > 0 ==> ({
                let aligned_len = mmap_len(len);
                let fixed = flags & MAP_FIXED != 0 && address != 0;
                let base = if fixed { address as int } else { page_up(old(self).mmap_cursors@[task as int]) };
                &&& fixed ==> final(self).mmap_cursors@ == old(self).mmap_cursors@
                &&& !fixed ==> final(self).mmap_cursors@ == old(self).mmap_cursors@.update(task as int,
                        (if base + aligned_len > u64::MAX { u64::MAX as int } else { base + aligned_len }) as u64)
                &&& (base < USER_MMAP_START || base + aligned_len > USER_MMAP_END) ==> r == ENOMEM
                &&& r >= 0 ==> r == base && USER_MMAP_START <= base && base + aligned_len <= USER_MMAP_END
                &&& r < 0 ==> r == ENOMEM || r == EBADF || r == EINVAL
            }),
    {
        if len == 0 {
            return EINVAL;
        }
        let bumped = len.wrapping_add(4095);
        let aligned_len = bumped - bumped % 4096;
        let base = if flags & MAP_FIXED != 0 && address != 0 {
            address
        } else {
            let c = self.mmap_cursors[task].wrapping_add(4095);
            let next = c - c % 4096;
            self.mmap_cursors.set(task, next.saturating_add(aligned_len));
            next
        };
        if base < USER_MMAP_START || base.saturating_add(aligned_len) > USER_MMAP_END {
            return ENOMEM;
        }
        if !mem.allocate_user_range(task, base, aligned_len as usize, true) {
            return ENOMEM;
        }
        if fd != -1 && flags & MAP_ANONYMOUS == 0 {
            let slot = match self.open_slot(task, fd as i32) { Some(s) => s, None => return EBADF };
            let start = offset as usize;
            let segment = match &self.file_data[slot] {
                Some(data) => {
                    if start > data.len() {
                        return EINVAL;
                    }
                    let count = if (len as usize) < data.len() - start { len as usize } else { data.len() - start };
                    crate::userland::slice_copy(data, start, start + count)
                },
                None => return EBADF,
            };
            let count = segment.len();
            if count > 0 && !mem.copy_user_segment(task, base, &segment, count) {
                return ENOMEM;
            }
        }
        base as i64
    }
}

} // verus!
