//! The Linux system calls that answer with records in user memory: the
//! `stat` family, `getcwd`, `readlink`, `uname`, terminal `ioctl`s,
//! `poll`, directory listings, limits and clocks, and the calls that make
//! and replace processes.
//!
//! Each function takes what the kernel read from user memory (the C
//! strings, whether a pointer is null) and returns the bytes to store
//! there with the call's result.
use vstd::prelude::*;
use crate::bytes::{put_le, byte_of, le16, le32, le64, spec_align_up, read_u16, read_u32, read_u64, write_u16, write_u32, write_u64};
use crate::linux_abi::{
    LinuxAbi, normalized_at, resolved_at, file_slot, EAGAIN, EBADF, EFAULT, EINVAL, ENOENT, FIRST_USER_FD,
    MAX_OPEN_FILES, PATH_MAX, AT_FDCWD,
};
use crate::nkfs::{Nkfs, Metadata, file_contents, meta_of, unlink_effect, unlinked_path, KIND_DIR};
use crate::scheduler::{USER_TASKS, UserScheduler, UserTask, UserAbi, TrapFrame, reusable, forked_child};
use crate::memory::UserMemory;
use crate::userland::AddressSpace;

verus! {

/// `n` zero bytes.
pub open spec fn zeros(n: nat) -> Seq<u8> {
    Seq::new(n, |i: int| 0u8)
}

/// A `Result` of bytes, by its view.
pub open spec fn bytes_view(r: Result<Vec<u8>, i64>) -> Result<Seq<u8>, i64> {
    match r {
        Ok(v) => Ok(v@),
        Err(e) => Err(e),
    }
}

/// The 144-byte `stat` record of a file with mode `mode` and `size` bytes:
/// zero but for the mode at 24 and the size at 48.
pub open spec fn stat_spec(mode: u32, size: u64) -> Seq<u8> {
    put_le(put_le(zeros(144), 24, mode as int, 4), 48, size as int, 8)
}

/// The 256-byte `statx` record: mask `0x17ff`, block size 4096, one link,
/// the mode's low 16 bits, one inode number and the size.
pub open spec fn statx_spec(mode: u32, size: u64) -> Seq<u8> {
    put_le(put_le(put_le(put_le(put_le(put_le(zeros(256), 0, 0x17ff, 4), 4, 4096, 4), 16, 1, 4),
        28, (mode % 65536) as int, 2), 32, 1, 8), 40, size as int, 8)
}

/// Mode of a regular file or directory found by path.
pub open spec fn path_mode(kind: u16) -> u32 {
    if kind == KIND_DIR { 0o040555 } else { 0o100555 }
}

/// Mode reported for the standard streams.
pub const STREAM_MODE: u32 = 0o100444;

/// The `stat` record.
pub fn stat_record(mode: u32, size: u64) -> (r: Vec<u8>)
    ensures r@ == stat_spec(mode, size),
{
    let mut b: Vec<u8> = vec![0u8; 144];
    proof { assert(b@ =~= zeros(144)); }
    write_u32(&mut b, 24, mode);
    write_u64(&mut b, 48, size);
    b
}

/// The `statx` record.
pub fn statx_record(mode: u32, size: u64) -> (r: Vec<u8>)
    ensures r@ == statx_spec(mode, size),
{
    let mut b: Vec<u8> = vec![0u8; 256];
    proof { assert(b@ =~= zeros(256)); }
    write_u32(&mut b, 0, 0x17ff);
    write_u32(&mut b, 4, 4096);
    write_u32(&mut b, 16, 1);
    write_u16(&mut b, 28, (mode % 65536) as u16);
    write_u64(&mut b, 32, 1);
    write_u64(&mut b, 40, size);
    b
}

/// What `fstat(fd)` stores: the standard streams are empty read-only
/// files; an open descriptor reports its mode and the size of its data.
pub open spec fn stat_fd_spec(abi: LinuxAbi, task: int, fd: i32, buf_null: bool) -> Result<Seq<u8>, i64> {
    if 0 <= fd <= 2 {
        if buf_null { Err(EFAULT) } else { Ok(stat_spec(STREAM_MODE, 0)) }
    } else if fd >= FIRST_USER_FD && fd - FIRST_USER_FD < MAX_OPEN_FILES && abi.is_open(task, fd - FIRST_USER_FD) {
        let slot = file_slot(task, fd - FIRST_USER_FD);
        if buf_null { Err(EFAULT) }
        else { Ok(stat_spec(abi.file_mode@[slot], abi.file_data@[slot].unwrap()@.len() as u64)) }
    } else {
        Err(EBADF)
    }
}

/// What `stat` of the path `p` stores, once resolved.
pub open spec fn stat_meta(m: Option<Metadata>, buf_null: bool) -> Result<Seq<u8>, i64> {
    match m {
        Some(m) => if buf_null { Err(EFAULT) } else { Ok(stat_spec(path_mode(m.kind), m.size as u64)) },
        None => Err(ENOENT),
    }
}

/// What `newfstatat(dirfd, path)` stores: an empty path stats the
/// descriptor `dirfd`; other paths are resolved for the task.
pub open spec fn stat_at_spec(abi: LinuxAbi, fs: Nkfs, task: int, dirfd: i32, path: Seq<u8>, buf_null: bool) -> Result<Seq<u8>, i64> {
    if path.len() == 0 {
        if dirfd >= FIRST_USER_FD { stat_fd_spec(abi, task, dirfd, buf_null) } else { Err(ENOENT) }
    } else {
        match resolved_at(abi, fs, task, dirfd, path, false) {
            Some(p) => stat_meta(meta_of(fs, p), buf_null),
            None => Err(ENOENT),
        }
    }
}

/// What `statx(dirfd, path)` stores (after its pointers were found
/// non-null).
pub open spec fn statx_at_spec(abi: LinuxAbi, fs: Nkfs, task: int, dirfd: i32, path: Seq<u8>) -> Result<Seq<u8>, i64> {
    if path.len() == 0 {
        if dirfd >= FIRST_USER_FD && dirfd - FIRST_USER_FD < MAX_OPEN_FILES && abi.is_open(task, dirfd - FIRST_USER_FD) {
            let slot = file_slot(task, dirfd - FIRST_USER_FD);
            Ok(statx_spec(abi.file_mode@[slot], abi.file_data@[slot].unwrap()@.len() as u64))
        } else if dirfd >= FIRST_USER_FD { Err(EBADF) } else { Err(ENOENT) }
    } else {
        match resolved_at(abi, fs, task, dirfd, path, false) {
            Some(p) => match meta_of(fs, p) {
                Some(m) => Ok(statx_spec(path_mode(m.kind), m.size as u64)),
                None => Err(ENOENT),
            },
            None => Err(ENOENT),
        }
    }
}

/// Whether `task` finds something at `path`, as a plain path or else as a
/// program name.
pub open spec fn accessible(abi: LinuxAbi, fs: Nkfs, task: int, dirfd: i32, path: Seq<u8>) -> bool {
    path.len() > 0 && (resolved_at(abi, fs, task, dirfd, path, false) is Some
        || resolved_at(abi, fs, task, dirfd, path, true) is Some)
}

/// `fs` was only read.
pub open spec fn fs_kept(a: Nkfs, b: Nkfs) -> bool {
    &&& a.wf()
    &&& a.volume.disk@ == b.volume.disk@
    &&& a.ram_files@ == b.ram_files@
    &&& a.volume.mounted() == b.volume.mounted()
}

impl LinuxAbi {
    /// `fstat(fd)`: the record to store, `EBADF` or `EFAULT`.
    pub fn stat_fd(&self, task: usize, fd: i32, buf_null: bool) -> (r: Result<Vec<u8>, i64>)
        requires self.wf(), task < USER_TASKS,
        ensures bytes_view(r) == stat_fd_spec(*self, task as int, fd, buf_null),
    {
        if fd == 0 || fd == 1 || fd == 2 {
            if buf_null {
                return Err(EFAULT);
            }
            return Ok(stat_record(STREAM_MODE, 0));
        }
        let slot = match self.open_slot(task, fd) { Some(s) => s, None => return Err(EBADF) };
        if buf_null {
            return Err(EFAULT);
        }
        match &self.file_data[slot] {
            Some(data) => Ok(stat_record(self.file_mode[slot], data.len() as u64)),
            None => Err(EBADF),
        }
    }

    /// `newfstatat(dirfd, path)` (and `stat`, `lstat` with `AT_FDCWD`):
    /// the record to store, `ENOENT`, `EBADF` or `EFAULT`.
    pub fn stat_path_at(&self, fs: &mut Nkfs, task: usize, dirfd: i32, path: &[u8], buf_null: bool) -> (r: Result<Vec<u8>, i64>)
        requires self.wf(), old(fs).wf(), task < USER_TASKS,
        ensures
            fs_kept(*final(fs), *old(fs)),
            bytes_view(r) == stat_at_spec(*self, *old(fs), task as int, dirfd, path@, buf_null),
    {
        if path.len() == 0 {
            if dirfd >= FIRST_USER_FD {
                return self.stat_fd(task, dirfd, buf_null);
            }
            return Err(ENOENT);
        }
        let ghost fs0 = *fs;
        let resolved = match self.resolve_at_path(fs, task, dirfd, path, false) { Some(p) => p, None => return Err(ENOENT) };
        let meta = match fs.metadata(&resolved) { Some(m) => m, None => return Err(ENOENT) };
        proof { assert(meta_of(*fs, resolved@) == meta_of(fs0, resolved@)); }
        if buf_null {
            return Err(EFAULT);
        }
        let mode: u32 = if meta.kind == KIND_DIR { 0o040555 } else { 0o100555 };
        Ok(stat_record(mode, meta.size as u64))
    }

    /// `statx(dirfd, path)`: `EFAULT` for a null path or record pointer,
    /// else the record to store, `ENOENT` or `EBADF`.
    pub fn statx(&self, fs: &mut Nkfs, task: usize, dirfd: i32, path_null: bool, path: &[u8], buf_null: bool) -> (r: Result<Vec<u8>, i64>)
        requires self.wf(), old(fs).wf(), task < USER_TASKS,
        ensures
            fs_kept(*final(fs), *old(fs)),
            bytes_view(r) == if path_null || buf_null { Err(EFAULT) }
                else { statx_at_spec(*self, *old(fs), task as int, dirfd, path@) },
    {
        if path_null || buf_null {
            return Err(EFAULT);
        }
        if path.len() == 0 {
            if dirfd >= FIRST_USER_FD {
                let slot = match self.open_slot(task, dirfd) { Some(s) => s, None => return Err(EBADF) };
                return match &self.file_data[slot] {
                    Some(data) => Ok(statx_record(self.file_mode[slot], data.len() as u64)),
                    None => Err(EBADF),
                };
            }
            return Err(ENOENT);
        }
        let ghost fs0 = *fs;
        let resolved = match self.resolve_at_path(fs, task, dirfd, path, false) { Some(p) => p, None => return Err(ENOENT) };
        let meta = match fs.metadata(&resolved) { Some(m) => m, None => return Err(ENOENT) };
        proof { assert(meta_of(*fs, resolved@) == meta_of(fs0, resolved@)); }
        let mode: u32 = if meta.kind == KIND_DIR { 0o040555 } else { 0o100555 };
        Ok(statx_record(mode, meta.size as u64))
    }

    /// `faccessat(dirfd, path)` (and `access` with `AT_FDCWD`): 0 when
    /// something is at the path, as given or as a program name, else
    /// `ENOENT`.
    pub fn access_at(&self, fs: &mut Nkfs, task: usize, dirfd: i32, path: &[u8]) -> (r: i64)
        requires self.wf(), old(fs).wf(), task < USER_TASKS,
        ensures
            fs_kept(*final(fs), *old(fs)),
            r == if accessible(*self, *old(fs), task as int, dirfd, path@) { 0 } else { ENOENT },
    {
        if path.len() == 0 {
            return ENOENT;
        }
        let resolved = match self.resolve_at_path(fs, task, dirfd, path, false) {
            Some(p) => Some(p),
            None => self.resolve_at_path(fs, task, dirfd, path, true),
        };
        match resolved {
            Some(p) => if fs.path_exists(&p) { 0 } else { ENOENT },
            None => ENOENT,
        }
    }

    /// `chdir(path)` for the current task `current`: the working directory
    /// becomes the directory the path names; `ENOENT` when it names none,
    /// `EINVAL` when there is no current task.
    pub fn chdir(&mut self, fs: &mut Nkfs, current: Option<usize>, path: &[u8]) -> (r: i64)
        requires old(self).wf(), old(fs).wf(),
        ensures
            final(self).wf(),
            fs_kept(*final(fs), *old(fs)),
            final(self).file_data@ == old(self).file_data@,
            ({
                let task = if current matches Some(i) && i < USER_TASKS { current.unwrap() as int } else { 0 };
                match normalized_at(*old(self), task, AT_FDCWD, path@, false) {
                    Some(p) => if meta_of(*old(fs), p) matches Some(m) && m.kind == KIND_DIR {
                        &&& r == if current matches Some(i) && i < USER_TASKS { 0 } else { EINVAL }
                        &&& r == 0 ==> final(self).cwd(task) == p
                            && forall|t: int| 0 <= t < USER_TASKS && t != task ==> #[trigger] final(self).cwds@[t] == old(self).cwds@[t]
                        &&& r != 0 ==> final(self).cwds@ == old(self).cwds@
                    } else {
                        r == ENOENT && final(self).cwds@ == old(self).cwds@
                    },
                    None => r == ENOENT && final(self).cwds@ == old(self).cwds@,
                }
            }),
    {
        let task: usize = match current { Some(i) => if i < USER_TASKS { i } else { 0 }, None => 0 };
        if path.len() == 0 {
            return ENOENT;
        }
        let resolved = match self.normalize_at_path(task, AT_FDCWD, path, false) { Some(p) => p, None => return ENOENT };
        let meta = match fs.metadata(&resolved) { Some(m) => m, None => return ENOENT };
        if meta.kind != KIND_DIR {
            return ENOENT;
        }
        self.set_current_cwd(current, &resolved)
    }

    /// `unlinkat(dirfd, path)` (and `unlink` with `AT_FDCWD`): removes the
    /// file at the path; `ENOENT` when nothing was removed.
    pub fn unlink_at(&self, fs: &mut Nkfs, task: usize, dirfd: i32, path: &[u8]) -> (r: i64)
        requires self.wf(), old(fs).wf(), task < USER_TASKS,
        ensures
            final(fs).wf(),
            r == 0 || r == ENOENT,
            normalized_at(*self, task as int, dirfd, path@, false) is None ==> r == ENOENT && *final(fs) == *old(fs),
            r == ENOENT ==> final(fs).ram_files@ == old(fs).ram_files@,
            normalized_at(*self, task as int, dirfd, path@, false) matches Some(p) ==> {
                let (removed, disk) = unlink_effect(old(fs).volume.disk@, old(fs).volume.mounted(), unlinked_path(p));
                &&& (r == 0) == removed
                &&& final(fs).volume.disk@ == disk
            },
    {
        if path.len() == 0 {
            return ENOENT;
        }
        let resolved = match self.normalize_at_path(task, dirfd, path, false) { Some(p) => p, None => return ENOENT };
        if fs.remove_ram_file(&resolved) { 0 } else { ENOENT }
    }

    /// `getcwd(buffer, len)`: the working directory and a NUL to store;
    /// `EFAULT` for a null buffer, `EINVAL` when it does not fit.
    pub fn getcwd(&self, task: usize, buffer_null: bool, len: usize) -> (r: Result<Vec<u8>, i64>)
        requires self.wf(), task < USER_TASKS,
        ensures
            bytes_view(r) == if buffer_null { Err(EFAULT) }
                else if len <= self.cwd(task as int).len() { Err(EINVAL) }
                else { Ok(self.cwd(task as int).push(0u8)) },
    {
        if buffer_null {
            return Err(EFAULT);
        }
        let mut cwd = self.current_cwd(task);
        if len <= cwd.len() {
            return Err(EINVAL);
        }
        cwd.push(0);
        Ok(cwd)
    }
}

/// `/bin/bash`, what `/proc/self/exe` links to.
pub open spec fn exe_link() -> Seq<u8> {
    seq![47u8, 98, 105, 110, 47, 98, 97, 115, 104]
}

/// `/proc/self/exe`.
pub open spec fn proc_self_exe() -> Seq<u8> {
    seq![47u8, 112, 114, 111, 99, 47, 115, 101, 108, 102, 47, 101, 120, 101]
}

/// `/proc/curproc/file`.
pub open spec fn proc_curproc_file() -> Seq<u8> {
    seq![47u8, 112, 114, 111, 99, 47, 99, 117, 114, 112, 114, 111, 99, 47, 102, 105, 108, 101]
}

/// `readlink(path, buffer, len)`: the link of the executable, cut to
/// `len` bytes; `EFAULT` for a null pointer, `ENOENT` for other paths.
pub fn readlink(path_null: bool, path: &[u8], buffer_null: bool, len: usize) -> (r: Result<Vec<u8>, i64>)
    ensures
        bytes_view(r) == if path_null || buffer_null { Err(EFAULT) }
            else if path@ != proc_self_exe() && path@ != proc_curproc_file() { Err(ENOENT) }
            else { Ok(exe_link().take(if len < 9 { len as int } else { 9 })) },
{
    if path_null || buffer_null {
        return Err(EFAULT);
    }
    let self_exe: [u8; 14] = [47, 112, 114, 111, 99, 47, 115, 101, 108, 102, 47, 101, 120, 101];
    let curproc: [u8; 18] = [47, 112, 114, 111, 99, 47, 99, 117, 114, 112, 114, 111, 99, 47, 102, 105, 108, 101];
    proof {
        assert(self_exe@ =~= proc_self_exe());
        assert(curproc@ =~= proc_curproc_file());
    }
    if !crate::linux_abi::bytes_eq(path, &self_exe) && !crate::linux_abi::bytes_eq(path, &curproc) {
        return Err(ENOENT);
    }
    let value: [u8; 9] = [47, 98, 105, 110, 47, 98, 97, 115, 104];
    proof { assert(value@ =~= exe_link()); }
    let count: usize = if len < 9 { len } else { 9 };
    let out = crate::userland::slice_copy(&value, 0, count);
    proof { assert(out@ =~= exe_link().take(count as int)); }
    Ok(out)
}

/// The bytes `getrandom` hands out: byte `i` is `37 * i + 11`, wrapped.
pub open spec fn random_bytes(n: nat) -> Seq<u8> {
    Seq::new(n, |i: int| ((i * 37 + 11) % 256) as u8)
}

/// `getrandom(buffer, len)`: at most 64 bytes of a fixed pattern;
/// `EFAULT` for a null buffer.
pub fn getrandom(buffer_null: bool, len: usize) -> (r: Result<Vec<u8>, i64>)
    ensures
        bytes_view(r) == if buffer_null { Err(EFAULT) }
            else { Ok(random_bytes(if len < 64 { len as nat } else { 64 })) },
{
    if buffer_null {
        return Err(EFAULT);
    }
    let count: usize = if len < 64 { len } else { 64 };
    let mut out: Vec<u8> = Vec::new();
    let mut index: usize = 0;
    while index < count
        invariant index <= count, count <= 64, out@ == random_bytes(index as nat),
        decreases count - index,
    {
        out.push(((index * 37 + 11) % 256) as u8);
        index += 1;
        proof { assert(out@ =~= random_bytes(index as nat)); }
    }
    Ok(out)
}

/// `s` with field `value` stored at `off`: 65 bytes, zero after the value.
pub open spec fn uts_field(s: Seq<u8>, off: int, value: Seq<u8>) -> Seq<u8> {
    Seq::new(s.len(), |i: int| if off <= i < off + 65 { if i - off < value.len() { value[i - off] } else { 0u8 } } else { s[i] })
}

/// The `utsname` record: `Linux`, `nk`, `0.1.0`, `nk-posix`, `x86_64`.
pub open spec fn uname_spec() -> Seq<u8> {
    uts_field(uts_field(uts_field(uts_field(uts_field(zeros(325),
        0, seq![76u8, 105, 110, 117, 120]),
        65, seq![110u8, 107]),
        130, seq![48u8, 46, 49, 46, 48]),
        195, seq![110u8, 107, 45, 112, 111, 115, 105, 120]),
        260, seq![120u8, 56, 54, 95, 54, 52])
}

/// Stores a 65-byte field at `offset`.
fn write_uts_field(buffer: &mut Vec<u8>, offset: usize, value: &[u8])
    requires offset + 65 <= old(buffer)@.len(), old(buffer)@.len() <= 4096, value@.len() <= 65,
    ensures final(buffer)@ == uts_field(old(buffer)@, offset as int, value@),
{
    let mut index: usize = 0;
    while index < 65
        invariant
            index <= 65, offset + 65 <= buffer@.len(), buffer@.len() == old(buffer)@.len(), buffer@.len() <= 4096, value@.len() <= 65,
            forall|i: int| 0 <= i < buffer@.len() ==> buffer@[i] == (
                if offset <= i < offset + index { if i - offset < value@.len() { value@[i - offset] } else { 0u8 } }
                else { old(buffer)@[i] }),
        decreases 65 - index,
    {
        let byte = if index < value.len() { value[index] } else { 0 };
        buffer.set(offset + index, byte);
        index += 1;
    }
    proof { assert(buffer@ =~= uts_field(old(buffer)@, offset as int, value@)); }
}

/// `uname(buffer)`: the record to store; `EFAULT` for a null buffer.
pub fn uname(buffer_null: bool) -> (r: Result<Vec<u8>, i64>)
    ensures bytes_view(r) == if buffer_null { Err(EFAULT) } else { Ok(uname_spec()) },
{
    if buffer_null {
        return Err(EFAULT);
    }
    let mut b: Vec<u8> = vec![0u8; 325];
    proof { assert(b@ =~= zeros(325)); }
    let sysname: [u8; 5] = [76, 105, 110, 117, 120];
    let nodename: [u8; 2] = [110, 107];
    let release: [u8; 5] = [48, 46, 49, 46, 48];
    let version: [u8; 8] = [110, 107, 45, 112, 111, 115, 105, 120];
    let machine: [u8; 6] = [120, 56, 54, 95, 54, 52];
    proof {
        assert(sysname@ =~= seq![76u8, 105, 110, 117, 120]);
        assert(nodename@ =~= seq![110u8, 107]);
        assert(release@ =~= seq![48u8, 46, 49, 46, 48]);
        assert(version@ =~= seq![110u8, 107, 45, 112, 111, 115, 105, 120]);
        assert(machine@ =~= seq![120u8, 56, 54, 95, 54, 52]);
    }
    write_uts_field(&mut b, 0, &sysname);
    write_uts_field(&mut b, 65, &nodename);
    write_uts_field(&mut b, 130, &release);
    write_uts_field(&mut b, 195, &version);
    write_uts_field(&mut b, 260, &machine);
    Ok(b)
}

/// `TCGETS`, `TCSETS`, `TCSETSW`, `TCSETSF`, `TIOCGWINSZ`, `TIOCSWINSZ`
/// and `FIONREAD`.
pub const TCGETS: u64 = 0x5401;
pub const TCSETS: u64 = 0x5402;
pub const TCSETSW: u64 = 0x5403;
pub const TCSETSF: u64 = 0x5404;
pub const TIOCGWINSZ: u64 = 0x5413;
pub const TIOCSWINSZ: u64 = 0x5414;
pub const TCSBRK: u64 = 0x5405;
pub const TCXONC: u64 = 0x5406;

/// The local-mode flags of a terminal in line mode (`ICANON`, `ECHO` and
/// friends).
pub const LINE_MODE_LFLAG: u32 = 0x8a3b;

/// The 64-byte `termios` record: no input flags, output post-processing,
/// 8-bit characters, the local flags of the mode, `VMIN` 8.
pub open spec fn termios_spec(raw: bool) -> Seq<u8> {
    put_le(put_le(put_le(put_le(zeros(64), 0, 0, 4), 4, 1, 4), 8, 0xbf, 4), 12,
        if raw { 0 } else { LINE_MODE_LFLAG as int }, 4).update(19, 8u8)
}

/// The 8-byte `winsize` record: 24 rows, 80 columns.
pub open spec fn winsize_spec() -> Seq<u8> {
    seq![24u8, 0, 80, 0, 0, 0, 0, 0]
}

/// Whether `request` sets the terminal mode (so the kernel reads the local
/// flags at offset 12 of the record first).
pub open spec fn sets_termios(request: u64) -> bool {
    request == TCSETS || request == TCSETSW || request == TCSETSF
}

/// Whether `request` reports the window size.
pub open spec fn asks_winsize(request: u64) -> bool {
    request == TCSBRK || request == TCXONC || request == TIOCGWINSZ
}

/// The `termios` record.
pub fn termios_record(raw: bool) -> (r: Vec<u8>)
    ensures r@ == termios_spec(raw),
{
    let mut b: Vec<u8> = vec![0u8; 64];
    proof { assert(b@ =~= zeros(64)); }
    write_u32(&mut b, 0, 0);
    write_u32(&mut b, 4, 1);
    write_u32(&mut b, 8, 0xbf);
    write_u32(&mut b, 12, if raw { 0 } else { LINE_MODE_LFLAG });
    b.set(19, 8);
    b
}

/// Whether `ioctl(request)` reads the caller's record before answering.
pub fn ioctl_reads_lflag(request: u64) -> (r: bool)
    ensures r == sets_termios(request),
{
    request == TCSETS || request == TCSETSW || request == TCSETSF
}

impl LinuxAbi {
    /// `ioctl(fd, request, argp)` on a terminal stream: reports the mode
    /// (`TCGETS`), sets raw mode when the local flags `lflag` read from the
    /// record have neither `ICANON` nor `ECHO` (`TCSETS*`), reports the
    /// window size; other requests succeed doing nothing. Returns the result
    /// and the bytes to store at `argp`; `EBADF` off the standard streams,
    /// `EFAULT` for a null record.
    pub fn ioctl(&mut self, task: usize, fd: i32, request: u64, argp_null: bool, lflag: u32) -> (r: (i64, Vec<u8>))
        requires old(self).wf(), task < USER_TASKS,
        ensures
            final(self).wf(),
            !(0 <= fd <= 2) ==> r.0 == EBADF && r.1@.len() == 0 && *final(self) == *old(self),
            0 <= fd <= 2 ==> {
                &&& request == TCGETS ==> if argp_null { r.0 == EFAULT && r.1@.len() == 0 }
                        else { r.0 == 0 && r.1@ == termios_spec(old(self).stdin_raw@[task as int]) }
                &&& sets_termios(request) ==> if argp_null { r.0 == EFAULT && r.1@.len() == 0 }
                        else { r.0 == 0 && r.1@.len() == 0 }
                &&& asks_winsize(request) ==> if argp_null { r.0 == EFAULT && r.1@.len() == 0 }
                        else { r.0 == 0 && r.1@ == winsize_spec() }
                &&& request != TCGETS && !sets_termios(request) && !asks_winsize(request) ==> r.0 == 0 && r.1@.len() == 0
                &&& final(self).stdin_raw@ == if sets_termios(request) && !argp_null {
                        old(self).stdin_raw@.update(task as int, lflag & 0x0a == 0)
                    } else { old(self).stdin_raw@ }
            },
            final(self).file_data@ == old(self).file_data@,
            final(self).file_offset@ == old(self).file_offset@,
            final(self).cwds@ == old(self).cwds@,
            final(self).input_line@ == old(self).input_line@,
            final(self).ready == old(self).ready,
    {
        if fd != 0 && fd != 1 && fd != 2 {
            return (EBADF, Vec::new());
        }
        if request == TCGETS {
            if argp_null {
                return (EFAULT, Vec::new());
            }
            return (0, termios_record(self.stdin_raw[task]));
        }
        if request == TCSETS || request == TCSETSW || request == TCSETSF {
            if argp_null {
                return (EFAULT, Vec::new());
            }
            self.stdin_raw.set(task, lflag & 0x0a == 0);
            return (0, Vec::new());
        }
        if request == TCSBRK || request == TCXONC || request == TIOCGWINSZ {
            if argp_null {
                return (EFAULT, Vec::new());
            }
            let w = vec![24u8, 0, 80, 0, 0, 0, 0, 0];
            proof { assert(w@ =~= winsize_spec()); }
            return (0, w);
        }
        (0, Vec::new())
    }
}

/// The events `poll` reports for one entry: stdin is readable when input
/// is waiting, the output streams are writable, an open descriptor is
/// ready for what was asked of `POLLIN` and `POLLOUT`.
pub open spec fn poll_revents(abi: LinuxAbi, task: int, fd: i32, events: i16, input_ready: bool) -> i16 {
    if fd == 0 && events & 1 != 0 {
        if input_ready { 1 } else { 0 }
    } else if (fd == 1 || fd == 2) && events & 4 != 0 {
        4
    } else if fd >= FIRST_USER_FD && events != 0 && fd - FIRST_USER_FD < MAX_OPEN_FILES && abi.is_open(task, fd - FIRST_USER_FD) {
        events & 5
    } else {
        0
    }
}

/// How many of `s` are not zero.
pub open spec fn nonzero_count(s: Seq<i16>) -> int
    decreases s.len(),
{
    if s.len() == 0 { 0 } else { nonzero_count(s.drop_last()) + if s.last() != 0 { 1int } else { 0 } }
}

/// Entries `poll` looks at: at most 16.
pub open spec fn poll_window(count: usize) -> int {
    if count < 16 { count as int } else { 16 }
}

impl LinuxAbi {
    /// `poll(fds, count)`: `entries` are the descriptor and requested
    /// events of the first `min(count, 16)` entries; `key_waiting` tells
    /// whether the keyboard holds a key. Returns how many entries are
    /// ready and the events to store in each; `EFAULT` for a null array.
    pub fn poll(&self, task: usize, fds_null: bool, count: usize, entries: &[(i32, i16)], key_waiting: bool) -> (r: (i64, Vec<i16>))
        requires
            self.wf(), task < USER_TASKS,
            !fds_null && count > 0 ==> entries@.len() == poll_window(count),
        ensures
            fds_null ==> r.0 == EFAULT && r.1@.len() == 0,
            !fds_null && count == 0 ==> r.0 == 0 && r.1@.len() == 0,
            !fds_null && count > 0 ==> {
                &&& r.1@ == Seq::new(entries@.len(), |i: int| poll_revents(*self, task as int, entries@[i].0, entries@[i].1,
                        self.ready@.len() > 0 || key_waiting))
                &&& r.0 == nonzero_count(r.1@)
            },
    {
        if fds_null {
            return (EFAULT, Vec::new());
        }
        if count == 0 {
            return (0, Vec::new());
        }
        let input_ready = self.ready.has_data() || key_waiting;
        let mut out: Vec<i16> = Vec::new();
        let mut ready: i64 = 0;
        let mut index: usize = 0;
        while index < entries.len()
            invariant
                self.wf(), task < USER_TASKS, index <= entries@.len(), entries@.len() <= 16,
                input_ready == (self.ready@.len() > 0 || key_waiting),
                out@ == Seq::new(index as nat, |i: int| poll_revents(*self, task as int, entries@[i].0, entries@[i].1, input_ready)),
                ready == nonzero_count(out@), 0 <= ready <= index,
            decreases entries@.len() - index,
        {
            let (fd, events) = entries[index];
            let revents: i16 = if fd == 0 && events & 1 != 0 {
                if input_ready { 1 } else { 0 }
            } else if (fd == 1 || fd == 2) && events & 4 != 0 {
                4
            } else if fd >= FIRST_USER_FD && events != 0 && self.open_slot(task, fd).is_some() {
                events & 5
            } else {
                0
            };
            let ghost before = out@;
            out.push(revents);
            if revents != 0 {
                ready += 1;
            }
            index += 1;
            proof {
                assert(out@.drop_last() =~= before);
                assert(out@ =~= Seq::new(index as nat, |i: int| poll_revents(*self, task as int, entries@[i].0, entries@[i].1, input_ready)));
            }
        }
        (ready, out)
    }
}

/// The 16-byte resource limit record: no limit, soft or hard.
pub open spec fn rlimit_spec() -> Seq<u8> {
    Seq::new(16, |i: int| 255u8)
}

/// The 16-byte time record of the clocks: second 1, nothing more.
pub open spec fn clock_spec() -> Seq<u8> {
    zeros(16).update(0, 1u8)
}

fn rlimit_record() -> (r: Vec<u8>)
    ensures r@ == rlimit_spec(),
{
    let b: Vec<u8> = vec![255u8; 16];
    proof { assert(b@ =~= rlimit_spec()); }
    b
}

fn clock_record() -> (r: Vec<u8>)
    ensures r@ == clock_spec(),
{
    let mut b: Vec<u8> = vec![0u8; 16];
    b.set(0, 1);
    proof { assert(b@ =~= clock_spec()); }
    b
}

/// `getrlimit(resource, buffer)`: no limit; `EFAULT` for a null buffer.
pub fn write_rlimit(buffer_null: bool) -> (r: Result<Vec<u8>, i64>)
    ensures bytes_view(r) == if buffer_null { Err(EFAULT) } else { Ok(rlimit_spec()) },
{
    if buffer_null { Err(EFAULT) } else { Ok(rlimit_record()) }
}

/// `prlimit64(pid, resource, new, old)`: setting a limit is refused with
/// `EINVAL`; the old limit is reported when asked for (nothing is stored
/// for a null `old`).
pub fn prlimit64(new_null: bool, old_null: bool) -> (r: Result<Vec<u8>, i64>)
    ensures
        bytes_view(r) == if !new_null { Err(EINVAL) } else if old_null { Ok(Seq::<u8>::empty()) } else { Ok(rlimit_spec()) },
{
    if !new_null {
        return Err(EINVAL);
    }
    if old_null {
        return Ok(Vec::new());
    }
    Ok(rlimit_record())
}

/// `gettimeofday(tv)`: one second after the epoch; nothing is stored for a
/// null `tv`, and the call succeeds.
pub fn gettimeofday(buffer_null: bool) -> (r: Result<Vec<u8>, i64>)
    ensures bytes_view(r) == if buffer_null { Ok::<Seq<u8>, i64>(Seq::<u8>::empty()) } else { Ok(clock_spec()) },
{
    if buffer_null { Ok(Vec::new()) } else { Ok(clock_record()) }
}

/// `clock_gettime(clock, tp)`: one second; `EFAULT` for a null `tp`.
pub fn clock_gettime(buffer_null: bool) -> (r: Result<Vec<u8>, i64>)
    ensures bytes_view(r) == if buffer_null { Err(EFAULT) } else { Ok(clock_spec()) },
{
    if buffer_null { Err(EFAULT) } else { Ok(clock_record()) }
}

/// What `arch_prctl` asks of the kernel.
#[derive(Clone, Copy, PartialEq, Eq, Structural)]
pub enum FsBaseRequest {
    /// Load the FS base with this address; the call returns 0.
    Load(u64),
    /// Store the FS base at this address; the call returns 0.
    Store(u64),
    /// The call fails with this error.
    Refused(i64),
}

/// `arch_prctl(code, address)`: `ARCH_SET_FS` sets the FS base,
/// `ARCH_GET_FS` stores it (`EFAULT` at address 0), other codes are
/// `EINVAL`.
pub fn arch_prctl(code: u64, address: u64) -> (r: FsBaseRequest)
    ensures
        r == if code == crate::linux_abi::ARCH_SET_FS { FsBaseRequest::Load(address) }
            else if code == crate::linux_abi::ARCH_GET_FS {
                if address == 0 { FsBaseRequest::Refused(EFAULT) } else { FsBaseRequest::Store(address) }
            } else { FsBaseRequest::Refused(EINVAL) },
{
    if code == crate::linux_abi::ARCH_SET_FS {
        FsBaseRequest::Load(address)
    } else if code == crate::linux_abi::ARCH_GET_FS {
        if address == 0 { FsBaseRequest::Refused(EFAULT) } else { FsBaseRequest::Store(address) }
    } else {
        FsBaseRequest::Refused(EINVAL)
    }
}

/// The `linux_dirent64` record of one directory entry: its inode, the
/// offset of the next entry, the record length, the type (`DT_DIR` 4 for
/// directories, else `DT_REG` 8) and the NUL-terminated name, padded with
/// zeros.
pub open spec fn dirent_spec(inode: int, next: int, rec_len: int, kind: int, name: Seq<u8>) -> Seq<u8> {
    Seq::new(rec_len as nat, |i: int|
        if i < 8 { byte_of(inode, i as nat) }
        else if i < 16 { byte_of(next, (i - 8) as nat) }
        else if i < 18 { byte_of(rec_len % 65536, (i - 16) as nat) }
        else if i == 18 { if kind == KIND_DIR { 4u8 } else { 8u8 } }
        else if i - 19 < name.len() { name[i - 19] }
        else { 0u8 })
}

/// The records `getdents64` makes of the directory data `data` from offset
/// `off` while they fit in `room` bytes, and the offset where it stops.
/// Each directory entry is an inode (4 bytes), a name length and a kind (2
/// bytes each), and the name, padded to 4 bytes.
pub open spec fn dents(data: Seq<u8>, off: int, room: int) -> (Seq<u8>, int)
    decreases data.len() - off,
{
    if off < 0 || off + 8 > data.len() {
        (Seq::empty(), off)
    } else {
        let name_len = le16(data, off + 4);
        let next = spec_align_up(off + 8 + name_len, 4);
        let rec_len = spec_align_up(20 + name_len, 8);
        if next > data.len() || rec_len > room {
            (Seq::empty(), off)
        } else {
            let rec = dirent_spec(le32(data, off), next, rec_len, le16(data, off + 6),
                data.subrange(off + 8, off + 8 + name_len));
            let rest = dents(data, next, room - rec_len);
            (rec + rest.0, rest.1)
        }
    }
}

/// Builds one `linux_dirent64` record.
fn dirent_record(inode: u32, next: usize, rec_len: usize, kind: u16, name: &[u8]) -> (r: Vec<u8>)
    requires 20 + name@.len() <= rec_len, rec_len <= usize::MAX, next <= u64::MAX,
    ensures r@ == dirent_spec(inode as int, next as int, rec_len as int, kind as int, name@),
{
    let mut b: Vec<u8> = vec![0u8; rec_len];
    proof { assert(b@ =~= zeros(rec_len as nat)); }
    write_u64(&mut b, 0, inode as u64);
    write_u64(&mut b, 8, next as u64);
    write_u16(&mut b, 16, (rec_len % 65536) as u16);
    b.set(18, if kind == KIND_DIR { 4 } else { 8 });
    let ghost head = b@;
    let mut i: usize = 0;
    while i < name.len()
        invariant
            i <= name@.len(), 20 + name@.len() <= rec_len, b@.len() == rec_len,
            forall|k: int| 0 <= k < rec_len ==> b@[k] == if 19 <= k < 19 + i { name@[k - 19] } else { head[k] },
        decreases name@.len() - i,
    {
        b.set(19 + i, name[i]);
        i += 1;
    }
    proof {
        assert(b@ =~= dirent_spec(inode as int, next as int, rec_len as int, kind as int, name@));
    }
    b
}

/// What `getdents64(fd, dirp, count)` stores: the records of the open
/// directory from its offset on; `EBADF` for a descriptor that is not
/// open, `EINVAL` for a null buffer, no room, or a file that is no
/// directory.
pub open spec fn getdents_spec(abi: LinuxAbi, task: int, fd: i32, dirp_null: bool, count: usize) -> Result<Seq<u8>, i64> {
    if fd < FIRST_USER_FD {
        Err(EBADF)
    } else if dirp_null || count == 0 {
        Err(EINVAL)
    } else if fd - FIRST_USER_FD >= MAX_OPEN_FILES || !abi.is_open(task, fd - FIRST_USER_FD) {
        Err(EBADF)
    } else {
        let slot = file_slot(task, fd - FIRST_USER_FD);
        if !abi.file_is_dir@[slot] {
            Err(EINVAL)
        } else {
            Ok(dents(abi.file_data@[slot].unwrap()@, abi.file_offset@[slot] as int, count as int).0)
        }
    }
}

impl LinuxAbi {
    /// `getdents64(fd, dirp, count)`: the directory records to store (see
    /// `getdents_spec`); the descriptor's offset moves past the entries
    /// listed.
    pub fn getdents64(&mut self, task: usize, fd: i32, dirp_null: bool, count: usize) -> (r: Result<Vec<u8>, i64>)
        requires old(self).wf(), task < USER_TASKS,
        ensures
            final(self).wf(),
            bytes_view(r) == getdents_spec(*old(self), task as int, fd, dirp_null, count),
            r is Err ==> *final(self) == *old(self),
            r is Ok ==> {
                let slot = file_slot(task as int, fd - FIRST_USER_FD);
                &&& final(self).file_offset@ == old(self).file_offset@.update(slot,
                        dents(old(self).file_data@[slot].unwrap()@, old(self).file_offset@[slot] as int, count as int).1 as usize)
                &&& final(self).file_data@ == old(self).file_data@
                &&& final(self).file_is_dir@ == old(self).file_is_dir@
                &&& final(self).file_writable@ == old(self).file_writable@
                &&& final(self).file_ram@ == old(self).file_ram@
                &&& final(self).file_mode@ == old(self).file_mode@
                &&& final(self).file_path@ == old(self).file_path@
                &&& final(self).cwds@ == old(self).cwds@
            },
    {
        if fd < FIRST_USER_FD {
            return Err(EBADF);
        }
        if dirp_null || count == 0 {
            return Err(EINVAL);
        }
        let slot = match self.open_slot(task, fd) { Some(s) => s, None => return Err(EBADF) };
        if !self.file_is_dir[slot] {
            return Err(EINVAL);
        }
        let start = self.file_offset[slot];
        let mut offset = start;
        let mut out: Vec<u8> = Vec::new();
        let mut written: usize = 0;
        {
            let data = match &self.file_data[slot] { Some(d) => d, None => return Err(EBADF) };
            let ghost d = data@;
            while offset <= data.len() && data.len() - offset >= 8
                invariant
                    d == data@, data@.len() <= crate::linux_abi::FD_BUFFER_CAP,
                    written <= count, out@.len() == written,
                    out@ + dents(d, offset as int, count - written).0 == dents(d, start as int, count as int).0,
                    dents(d, offset as int, count - written).1 == dents(d, start as int, count as int).1,
                ensures
                    dents(d, offset as int, count - written).0 =~= Seq::<u8>::empty(),
                    dents(d, offset as int, count - written).1 == offset,
                    out@ == dents(d, start as int, count as int).0,
                    offset == dents(d, start as int, count as int).1,
                decreases d.len() - offset,
            {
                let inode = crate::bytes::read_u32(data, offset).unwrap();
                let name_len = crate::bytes::read_u16(data, offset + 4).unwrap() as usize;
                let kind = crate::bytes::read_u16(data, offset + 6).unwrap();
                let next = crate::bytes::align_up(offset + 8 + name_len, 4);
                let rec_len = crate::bytes::align_up(20 + name_len, 8);
                if next > data.len() || rec_len > count - written {
                    proof { assert(out@ + Seq::<u8>::empty() =~= out@); }
                    break;
                }
                let name = crate::userland::slice_copy(data, offset + 8, offset + 8 + name_len);
                let rec = dirent_record(inode, next, rec_len, kind, &name);
                let ghost before = out@;
                let mut k: usize = 0;
                while k < rec.len()
                    invariant k <= rec@.len(), out@ == before + rec@.subrange(0, k as int),
                    decreases rec@.len() - k,
                {
                    out.push(rec[k]);
                    k += 1;
                    proof { assert(out@ =~= before + rec@.subrange(0, k as int)); }
                }
                proof {
                    assert(rec@.subrange(0, rec@.len() as int) =~= rec@);
                    assert(before + (rec@ + dents(d, next as int, count - written - rec_len).0)
                        =~= out@ + dents(d, next as int, count - written - rec_len).0);
                }
                offset = next;
                written = written + rec_len;
            }
        }
        self.file_offset.set(slot, offset);
        Ok(out)
    }
}

/// Two descriptors' data are the same bytes (or both absent).
pub open spec fn same_data(a: Option<Vec<u8>>, b: Option<Vec<u8>>) -> bool {
    match (a, b) {
        (Some(x), Some(y)) => x@ == y@,
        (None, None) => true,
        _ => false,
    }
}

/// Slot `dst` of `new` describes what slot `src` of `old` did.
pub open spec fn slot_copied(old: LinuxAbi, new: LinuxAbi, src: int, dst: int) -> bool {
    &&& same_data(new.file_data@[dst], old.file_data@[src])
    &&& new.file_offset@[dst] == old.file_offset@[src]
    &&& new.file_is_dir@[dst] == old.file_is_dir@[src]
    &&& new.file_writable@[dst] == old.file_writable@[src]
    &&& new.file_ram@[dst] == old.file_ram@[src]
    &&& new.file_mode@[dst] == old.file_mode@[src]
    &&& new.file_path@[dst]@ == old.file_path@[src]@
}

/// `new` is `old` after `fork` gave task `child` the Linux state of task
/// `parent`: its working directory, mmap cursor, program break, stdout
/// budget and open files. Terminal mode and input stay.
pub open spec fn process_copied(old: LinuxAbi, new: LinuxAbi, parent: int, child: int) -> bool {
    &&& forall|t: int| 0 <= t < USER_TASKS ==> (#[trigger] new.cwds@[t])@ == if t == child { old.cwd(parent) } else { old.cwds@[t]@ }
    &&& new.mmap_cursors@ == old.mmap_cursors@.update(child, old.mmap_cursors@[parent])
    &&& new.program_breaks@ == old.program_breaks@.update(child, old.program_breaks@[parent])
    &&& new.stdout_budgets@ == old.stdout_budgets@.update(child, old.stdout_budgets@[parent])
    &&& new.stdin_raw@ == old.stdin_raw@
    &&& forall|i: int| 0 <= i < MAX_OPEN_FILES ==> #[trigger] slot_copied(old, new, file_slot(parent, i), file_slot(child, i))
    &&& forall|i: int| 0 <= i < crate::linux_abi::FILE_SLOTS && !(file_slot(child, 0) <= i < file_slot(child, MAX_OPEN_FILES as int))
            ==> #[trigger] slot_copied(old, new, i, i)
    &&& new.input_line@ == old.input_line@
    &&& new.ready == old.ready
    &&& new.unknown_logs == old.unknown_logs
}

impl LinuxAbi {
    /// Slot `dst` takes what slot `src` holds.
    fn copy_slot(&mut self, src: usize, dst: usize)
        requires old(self).wf(), src < crate::linux_abi::FILE_SLOTS, dst < crate::linux_abi::FILE_SLOTS,
        ensures
            final(self).wf(),
            slot_copied(*old(self), *final(self), src as int, dst as int),
            forall|i: int| 0 <= i < crate::linux_abi::FILE_SLOTS && i != dst ==> #[trigger] slot_copied(*old(self), *final(self), i, i),
            final(self).cwds@ == old(self).cwds@,
            final(self).mmap_cursors@ == old(self).mmap_cursors@,
            final(self).program_breaks@ == old(self).program_breaks@,
            final(self).stdout_budgets@ == old(self).stdout_budgets@,
            final(self).stdin_raw@ == old(self).stdin_raw@,
            final(self).input_line@ == old(self).input_line@,
            final(self).ready == old(self).ready,
            final(self).unknown_logs == old(self).unknown_logs,
    {
        let data = match &self.file_data[src] {
            Some(d) => Some(crate::userland::slice_copy(d, 0, d.len())),
            None => None,
        };
        let p = &self.file_path[src];
        let path = crate::userland::slice_copy(p, 0, p.len());
        proof {
            assert(path@ =~= self.file_path@[src as int]@);
            if data is Some {
                assert(data.unwrap()@ =~= self.file_data@[src as int].unwrap()@);
            }
        }
        let offset = self.file_offset[src];
        let is_dir = self.file_is_dir[src];
        let writable = self.file_writable[src];
        let ram = self.file_ram[src];
        let mode = self.file_mode[src];
        self.file_data.set(dst, data);
        self.file_offset.set(dst, offset);
        self.file_is_dir.set(dst, is_dir);
        self.file_writable.set(dst, writable);
        self.file_ram.set(dst, ram);
        self.file_mode.set(dst, mode);
        self.file_path.set(dst, path);
    }

    /// What `fork` copies into the child: the working directory, mmap
    /// cursor, program break, stdout budget and every descriptor of task
    /// `parent` become task `child`'s. Nothing happens for a task out of
    /// range.
    pub fn copy_process_state(&mut self, parent: usize, child: usize)
        requires old(self).wf(),
        ensures
            final(self).wf(),
            !(parent < USER_TASKS && child < USER_TASKS) ==> *final(self) == *old(self),
            parent < USER_TASKS && child < USER_TASKS ==> process_copied(*old(self), *final(self), parent as int, child as int),
    {
        if parent >= USER_TASKS || child >= USER_TASKS {
            return;
        }
        let ghost start = *self;
        let cwd = if self.cwds[parent].len() == 0 {
            vec![47u8]
        } else {
            let c = &self.cwds[parent];
            crate::userland::slice_copy(c, 0, c.len())
        };
        proof {
            if self.cwds@[parent as int]@.len() == 0 {
                assert(cwd@ =~= crate::linux_abi::root());
            } else {
                assert(cwd@ =~= self.cwds@[parent as int]@);
            }
        }
        self.cwds.set(child, cwd);
        let m = self.mmap_cursors[parent];
        self.mmap_cursors.set(child, m);
        let b = self.program_breaks[parent];
        self.program_breaks.set(child, b);
        let budget = self.stdout_budgets[parent];
        self.stdout_budgets.set(child, budget);
        let ghost mid = *self;
        assert forall|i: int| 0 <= i < crate::linux_abi::FILE_SLOTS implies #[trigger] slot_copied(start, mid, i, i) by {}
        if parent == child {
            proof {
                assert forall|i: int| 0 <= i < MAX_OPEN_FILES implies
                    #[trigger] slot_copied(start, *self, file_slot(parent as int, i), file_slot(child as int, i)) by {
                    assert(slot_copied(start, mid, file_slot(parent as int, i), file_slot(parent as int, i)));
                }
            }
            return;
        }
        let mut i: usize = 0;
        while i < MAX_OPEN_FILES
            invariant
                self.wf(), parent < USER_TASKS, child < USER_TASKS, parent != child, i <= MAX_OPEN_FILES,
                forall|k: int| 0 <= k < i ==> #[trigger] slot_copied(start, *self, file_slot(parent as int, k), file_slot(child as int, k)),
                forall|k: int| 0 <= k < crate::linux_abi::FILE_SLOTS && !(file_slot(child as int, 0) <= k < file_slot(child as int, i as int))
                    ==> #[trigger] slot_copied(start, *self, k, k),
                self.cwds@ == mid.cwds@,
                self.mmap_cursors@ == mid.mmap_cursors@,
                self.program_breaks@ == mid.program_breaks@,
                self.stdout_budgets@ == mid.stdout_budgets@,
                self.stdin_raw@ == start.stdin_raw@,
                self.input_line@ == start.input_line@,
                self.ready == start.ready,
                self.unknown_logs == start.unknown_logs,
            decreases MAX_OPEN_FILES - i,
        {
            let ghost before = *self;
            let src = parent * MAX_OPEN_FILES + i;
            let dst = child * MAX_OPEN_FILES + i;
            proof {
                assert(slot_copied(start, before, src as int, src as int));
            }
            self.copy_slot(src, dst);
            i += 1;
            proof {
                assert forall|k: int| 0 <= k < i implies #[trigger] slot_copied(start, *self, file_slot(parent as int, k), file_slot(child as int, k)) by {
                    if k < i - 1 {
                        assert(slot_copied(start, before, file_slot(parent as int, k), file_slot(child as int, k)));
                        assert(slot_copied(before, *self, file_slot(child as int, k), file_slot(child as int, k)));
                    }
                }
                assert forall|k: int| 0 <= k < crate::linux_abi::FILE_SLOTS && !(file_slot(child as int, 0) <= k < file_slot(child as int, i as int))
                    implies #[trigger] slot_copied(start, *self, k, k) by {
                    assert(slot_copied(start, before, k, k));
                    assert(slot_copied(before, *self, k, k));
                }
            }
        }
    }
}

/// `fork` made task `child` for the current task of `old_sched`: the
/// first reusable slot, a copy of the parent running from `frame` in the
/// address space of the slot's root, with the parent's Linux state; the
/// call returns the child's pid.
pub open spec fn fork_made(old_abi: LinuxAbi, new_abi: LinuxAbi, old_sched: UserScheduler, new_sched: UserScheduler,
    space: AddressSpace, frame: TrapFrame, fs_base: u64, child: int, r: i64) -> bool
{
    let parent = old_sched.current as int;
    &&& 0 <= child < USER_TASKS
    &&& reusable(old_sched.slot(child))
    &&& forall|j: int| 0 <= j < child ==> !reusable(#[trigger] old_sched.slot(j))
    &&& space.roots@[child] is Some
    &&& r == old_sched.next_pid as i64
    &&& new_sched.slot(child) == forked_child(UserTask { fs_base: fs_base, ..old_sched.slot(parent) },
            old_sched.next_pid, space.roots@[child].unwrap().pml4_phys, frame)
    &&& process_copied(old_abi, new_abi, parent, child)
}

impl LinuxAbi {
    /// `fork()`: the current task is copied into the first reusable slot
    /// (memory, scheduler entry, Linux state). Returns the child's pid;
    /// `EINVAL` without a current task or when the memory cannot be copied,
    /// `EAGAIN` without a free slot.
    pub fn fork(&mut self, sched: &mut UserScheduler, mem: &mut UserMemory, space: &AddressSpace, frame: &TrapFrame, fs_base: u64) -> (r: i64)
        requires old(self).wf(), old(sched).wf(), old(mem).wf(), space.wf(),
        ensures
            final(self).wf(), final(sched).wf(), final(mem).wf(), final(mem).same_layout(&*old(mem)),
            !old(sched).initialized || old(sched).installed == 0 ==> r == EINVAL && *final(sched) == *old(sched)
                && *final(mem) == *old(mem) && *final(self) == *old(self),
            (exists|child: int| #[trigger] fork_made(*old(self), *final(self), *old(sched), *final(sched), *space, *frame, fs_base, child, r))
                || ((r == EINVAL || r == EAGAIN) && *final(self) == *old(self)),
            old(sched).initialized && old(sched).installed > 0
                && !reusable(old(sched).slot(old(sched).current as int))
                && (exists|j: int| 0 <= j < USER_TASKS && #[trigger] reusable(old(sched).slot(j)))
                ==> (exists|child: int| #[trigger] fork_made(*old(self), *final(self), *old(sched), *final(sched), *space, *frame, fs_base, child, r))
                    || (r == EINVAL && *final(self) == *old(self) && (final(mem).free_frames@.len() == 0
                        || exists|c: int| 0 <= c < USER_TASKS && #[trigger] reusable(old(sched).slot(c)) && space.roots@[c] is None)),
    {
        let parent = match sched.current_index() { Some(p) => p, None => return EINVAL };
        let child = match sched.allocate_child_slot() { Some(c) => c, None => return EAGAIN };
        if !mem.copy_user_space(parent, child) {
            return EINVAL;
        }
        let child_pml4 = match space.root(child) { Some(root) => root.pml4_phys(), None => return EINVAL };
        let ghost sched0 = *sched;
        let pid = match sched.fork_current_to(child, child_pml4, frame, fs_base) { Some(p) => p, None => return EAGAIN };
        let ghost abi0 = *self;
        self.copy_process_state(parent, child);
        proof {
            assert(fork_made(abi0, *self, sched0, *sched, *space, *frame, fs_base, child as int, pid as i64));
        }
        pid as i64
    }
}

/// The arguments `execve` starts a program with: `argv`, or when it is
/// empty the last component of the path (of its first 64 bytes).
pub open spec fn exec_args(path: Seq<u8>, argv: Seq<Seq<u8>>) -> Seq<Seq<u8>> {
    if argv.len() == 0 {
        let p = path.take(if path.len() < 64 { path.len() as int } else { 64 });
        seq![p.subrange(crate::linux_abi::basename_start(p, p.len() as int), p.len() as int)]
    } else {
        argv
    }
}

/// The arguments `execve` starts a program with (see `exec_args`).
pub fn exec_arguments(path: &[u8], argv: &[Vec<u8>]) -> (r: Vec<Vec<u8>>)
    ensures r@.map_values(|a: Vec<u8>| a@) == exec_args(path@, argv@.map_values(|a: Vec<u8>| a@)),
{
    let mut out: Vec<Vec<u8>> = Vec::new();
    if argv.len() == 0 {
        let n: usize = if path.len() < 64 { path.len() } else { 64 };
        let head = crate::userland::slice_copy(path, 0, n);
        proof { assert(head@ =~= path@.take(n as int)); }
        out.push(crate::linux_abi::basename_bytes(&head));
        proof {
            assert(out@.map_values(|a: Vec<u8>| a@) =~= exec_args(path@, argv@.map_values(|a: Vec<u8>| a@)));
        }
        return out;
    }
    let mut i: usize = 0;
    while i < argv.len()
        invariant
            i <= argv@.len(), out@.len() == i,
            forall|k: int| 0 <= k < i ==> (#[trigger] out@[k])@ == argv@[k]@,
        decreases argv@.len() - i,
    {
        let a = &argv[i];
        let c = crate::userland::slice_copy(a, 0, a.len());
        proof { assert(c@ =~= argv@[i as int]@); }
        out.push(c);
        i += 1;
    }
    proof { assert(out@.map_values(|a: Vec<u8>| a@) =~= argv@.map_values(|a: Vec<u8>| a@)); }
    out
}

impl LinuxAbi {
    /// `execve(path, argv)` in the current task `current`: the path is
    /// resolved as a program (bare names under `/bin`), its image read from
    /// the file system and started with the arguments of `exec_args`, as a
    /// native program when its name is one (`native_exec_name`), else as a
    /// Linux program. Returns 0, `EINVAL` without a current task, `ENOENT`
    /// when the program cannot be found or started.
    pub fn execve(&self, fs: &mut Nkfs, mem: &mut UserMemory, sched: &mut UserScheduler, current: Option<usize>,
        path: &[u8], argv: &[Vec<u8>], frame: &mut TrapFrame) -> (r: i64)
        requires self.wf(), old(fs).wf(), old(mem).wf(), old(sched).wf(),
        ensures
            final(fs).wf(), final(mem).wf(), final(sched).wf(), final(mem).same_layout(&*old(mem)),
            r == 0 || r == EINVAL || r == ENOENT,
            current is None ==> r == EINVAL,
            current matches Some(index) && (path@.len() == 0 || resolved_at(*self, *old(fs),
                if index < USER_TASKS { index as int } else { 0 }, AT_FDCWD, path@, true) is None) ==> r == ENOENT,
            r != 0 ==> *final(frame) == *old(frame),
            current matches Some(i) ==> (r != 0 && path@.len() > 0 ==>
                match resolved_at(*self, *old(fs), if i < USER_TASKS { i as int } else { 0 }, AT_FDCWD, path@, true) {
                    None => true,
                    Some(p) => match file_contents(*old(fs), p) {
                        None => true,
                        Some(image) => crate::userland::exec_refused(i,
                            if crate::linux_abi::native_name_spec(p.subrange(crate::linux_abi::basename_start(p, p.len() as int), p.len() as int)) is Some
                                { UserAbi::Native } else { UserAbi::Linux },
                            image, exec_args(path@, argv@.map_values(|a: Vec<u8>| a@)))
                            || final(mem).free_frames@.len() == 0,
                    },
                }),
            r != 0 && (current is None || path@.len() == 0) ==> *final(mem) == *old(mem) && *final(sched) == *old(sched),
            r == 0 ==> final(frame).cs == crate::gdt::USER_CODE_SELECTOR as u64 && final(frame).ss == crate::gdt::USER_DATA_SELECTOR as u64
                && final(frame).rflags == 0x202,
            r == 0 ==> ({
                let i = current.unwrap();
                let task = if i < USER_TASKS { i as int } else { 0 };
                let p = normalized_at(*self, task, AT_FDCWD, path@, true).unwrap();
                &&& normalized_at(*self, task, AT_FDCWD, path@, true) is Some
                &&& file_contents(*old(fs), p) matches Some(image)
                &&& crate::userland::elf_header_ok(image) && crate::userland::elf_segments(image, 0) is Some
                &&& final(frame).rip == crate::bytes::le64(image, 24)
                &&& crate::linux_abi::native_name_spec(p.subrange(crate::linux_abi::basename_start(p, p.len() as int), p.len() as int)) is None
                    ==> (crate::userland::initial_stack(exec_args(path@, argv@.map_values(|a: Vec<u8>| a@))) matches Some((c, stores))
                        && final(frame).rsp == crate::memory::USER_STACK_BASE + c)
            }),
            r == 0 && old(sched).initialized && (current matches Some(i) && i < old(sched).installed) ==> ({
                let i = current.unwrap();
                let task = if i < USER_TASKS { i as int } else { 0 };
                let p = normalized_at(*self, task, AT_FDCWD, path@, true).unwrap();
                let name = p.subrange(crate::linux_abi::basename_start(p, p.len() as int), p.len() as int);
                final(sched).slot(i as int).abi == if crate::linux_abi::native_name_spec(name) is Some { UserAbi::Native } else { UserAbi::Linux }
            }),
    {
        let index = match current { Some(i) => i, None => return EINVAL };
        let task: usize = if index < USER_TASKS { index } else { 0 };
        if path.len() == 0 {
            return ENOENT;
        }
        let exec_path = match self.resolve_at_path(fs, task, AT_FDCWD, path, true) { Some(p) => p, None => return ENOENT };
        let args = exec_arguments(path, argv);
        let image = match fs.read_file(&exec_path) { Some(i) => i, None => return ENOENT };
        let ok = match crate::linux_abi::native_exec_name(&exec_path) {
            Some(name) => crate::userland::exec_image(mem, sched, index, name, UserAbi::Native, &image, &args, frame),
            None => crate::userland::exec_image(mem, sched, index, "exec", UserAbi::Linux, &image, &args, frame),
        };
        if ok { 0 } else { ENOENT }
    }
}

/// Most iovecs one `writev` takes.
pub const WRITEV_MAX: usize = 16;

/// Checks the iovec array of `writev(fd, iov, count)` in task `task`:
/// returns its length in bytes; `EFAULT` for a null or unmapped array,
/// `EINVAL` for more than 16 entries.
pub fn writev_iovecs(mem: &UserMemory, task: usize, iov: u64, count: usize) -> (r: Result<usize, i64>)
    requires mem.wf(),
    ensures
        r == if iov == 0 { Err(EFAULT) }
            else if count > WRITEV_MAX { Err(EINVAL) }
            else if mem.range_mapped(task as int, iov, (count * 16) as usize) { Ok((count * 16) as usize) }
            else { Err(EFAULT) },
{
    if iov == 0 {
        return Err(EFAULT);
    }
    if count > WRITEV_MAX {
        return Err(EINVAL);
    }
    let len = count * 16;
    if !mem.user_range_mapped(task, iov, len) {
        return Err(EFAULT);
    }
    Ok(len)
}

/// The sum of `results[..n]` while all are not negative.
pub open spec fn writes_total(results: Seq<i64>, n: int) -> int
    decreases n,
{
    if n <= 0 { 0 } else { writes_total(results, n - 1) + results[n - 1] }
}

/// What `writev` returns from the results of its writes, one per iovec in
/// order: the first error, else the bytes written in all.
pub fn writev_result(results: &[i64]) -> (r: i64)
    requires
        results@.len() <= WRITEV_MAX,
        forall|i: int| 0 <= i < results@.len() ==> #[trigger] results@[i] <= i64::MAX / 16,
    ensures
        (exists|i: int| 0 <= i < results@.len() && #[trigger] results@[i] < 0) ==> ({
            let i = choose|i: int| 0 <= i < results@.len() && results@[i] < 0
                && forall|j: int| 0 <= j < i ==> #[trigger] results@[j] >= 0;
            r == results@[i]
        }),
        (forall|i: int| 0 <= i < results@.len() ==> #[trigger] results@[i] >= 0) ==> r == writes_total(results@, results@.len() as int),
{
    let mut total: i64 = 0;
    let mut index: usize = 0;
    while index < results.len()
        invariant
            index <= results@.len(), results@.len() <= WRITEV_MAX,
            forall|i: int| 0 <= i < results@.len() ==> #[trigger] results@[i] <= i64::MAX / 16,
            forall|j: int| 0 <= j < index ==> #[trigger] results@[j] >= 0,
            total == writes_total(results@, index as int),
            0 <= total <= index * (i64::MAX / 16),
        decreases results@.len() - index,
    {
        let written = results[index];
        if written < 0 {
            proof {
                let w = choose|i: int| 0 <= i < results@.len() && results@[i] < 0
                    && forall|j: int| 0 <= j < i ==> #[trigger] results@[j] >= 0;
                assert(0 <= index < results@.len() && results@[index as int] < 0
                    && forall|j: int| 0 <= j < index ==> #[trigger] results@[j] >= 0);
                if w < index {
                } else if w > index {
                    assert(results@[index as int] >= 0);
                }
            }
            return written;
        }
        total = total + written;
        index += 1;
    }
    total
}

/// The largest result of one write that `writev` adds up.
pub const WRITE_RESULT_CAP: i64 = 0x7ff_ffff_ffff_ffff;

/// One result of a `writev` write as `writev_result` takes it: capped at
/// `WRITE_RESULT_CAP`, so sixteen of them add up without overflow.
pub fn writev_entry_result(written: i64) -> (r: i64)
    ensures
        r == if written < WRITE_RESULT_CAP { written } else { WRITE_RESULT_CAP },
        r <= i64::MAX / 16,
{
    if written < WRITE_RESULT_CAP { written } else { WRITE_RESULT_CAP }
}

/// One iovec as user memory holds it (16 bytes): the buffer's address and
/// its length.
pub fn iovec_entry(raw: &[u8]) -> (r: (u64, u64))
    requires raw@.len() >= 16,
    ensures r.0 == le64(raw@, 0), r.1 == le64(raw@, 8),
{
    let base = match read_u64(raw, 0) { Some(v) => v, None => 0 };
    let len = match read_u64(raw, 8) { Some(v) => v, None => 0 };
    (base, len)
}

/// One `pollfd` entry as user memory holds it (8 bytes): the descriptor
/// (four bytes) and the events asked for (two bytes), both signed.
pub fn poll_entry(raw: &[u8]) -> (r: (i32, i16))
    requires raw@.len() >= 8,
    ensures r.0 as u32 == le32(raw@, 0), r.1 as u16 == le16(raw@, 4),
{
    let fd = match read_u32(raw, 0) { Some(v) => v, None => 0 };
    let events = match read_u16(raw, 4) { Some(v) => v, None => 0 };
    let fd_signed = fd as i32;
    let events_signed = events as i16;
    assert(fd_signed as u32 == fd) by (bit_vector) requires fd_signed == fd as i32;
    assert(events_signed as u16 == events) by (bit_vector) requires events_signed == events as i16;
    (fd_signed, events_signed)
}

/// How many arguments `execve` gathers from user memory.
pub const EXEC_ARGV_MAX: usize = 4;

/// The next argument pointer `execve` follows, from the `argv` word read at
/// slot `collected` (empty when it could not be read): none once
/// `EXEC_ARGV_MAX` arguments are in, nor at a null or unreadable word.
pub fn next_exec_argument(collected: usize, word: &[u8]) -> (r: Option<u64>)
    ensures
        r == if collected >= EXEC_ARGV_MAX || word@.len() < 8 || le64(word@, 0) == 0 { None::<u64> }
            else { Some(le64(word@, 0) as u64) },
{
    if collected >= EXEC_ARGV_MAX {
        return None;
    }
    match read_u64(word, 0) {
        Some(ptr) => if ptr == 0 { None } else { Some(ptr) },
        None => None,
    }
}

/// Where `getresuid` / `getresgid` store a zero id: each of the three
/// pointers that is not null, in order.
pub fn resid_targets(first: u64, second: u64, third: u64) -> (r: Vec<u64>)
    ensures
        r@ == (if first != 0 { seq![first] } else { Seq::empty() })
            + (if second != 0 { seq![second] } else { Seq::empty() })
            + (if third != 0 { seq![third] } else { Seq::empty() }),
{
    let mut r: Vec<u64> = Vec::new();
    if first != 0 { r.push(first); }
    let ghost a = r@;
    if second != 0 { r.push(second); }
    let ghost b = r@;
    if third != 0 { r.push(third); }
    proof {
        assert(a =~= (if first != 0 { seq![first] } else { Seq::empty() }));
        assert(b =~= a + (if second != 0 { seq![second] } else { Seq::empty() }));
        assert(r@ =~= b + (if third != 0 { seq![third] } else { Seq::empty() }));
    }
    r
}

} // verus!
