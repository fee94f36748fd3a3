//! nkfs, the root filesystem: a superblock, a table of 128-byte inodes, and
//! files and directories stored as contiguous extents of 512-byte blocks.
//! A directory's data is a list of records
//! `inode:u32 name_len:u16 kind:u16 name` padded to four bytes; kind 0 marks
//! a free record. Files opened for writing are staged in a table of RAM
//! files and written back on every change.
use vstd::prelude::*;
use crate::bytes::{le16, le32, le64, put_le, spec_align_up, read_u16, read_u32, read_u64,
    write_u16, write_u32, write_u64, align_up};
use crate::disk::{Disk, SECTOR_SIZE, splice};

verus! {

/// Bytes of one inode record.
pub const INODE_SIZE: usize = 128;
/// Largest file `read_file` serves.
pub const MAX_FILE_SIZE: usize = 20 * 1024 * 1024;
/// Capacity of a file opened for writing.
pub const RAM_FILE_CAP: usize = 256 * 1024;
/// Number of files that may be open for writing.
pub const RAM_FILE_COUNT: usize = 32;
/// Largest inode count the table may grow to.
pub const MAX_INODES: u32 = 256;
/// Largest directory, in bytes.
pub const DIR_CAP: usize = 512 * 16;
/// Inode kind of a regular file.
pub const KIND_FILE: u16 = 1;
/// Inode kind of a directory.
pub const KIND_DIR: u16 = 2;
/// The format version this code reads.
pub const VERSION: u32 = 1;

/// The volume's geometry and allocation state.
#[derive(Clone, Copy, PartialEq, Eq)]
pub struct Superblock {
    pub block_size: u32,
    pub inode_count: u32,
    pub inode_table_start: u32,
    pub inode_table_blocks: u32,
    pub data_start: u32,
    pub root_inode: u32,
    pub next_free_block: u32,
    pub total_blocks: u32,
}

/// What `stat` reports of a path.
#[derive(Clone, Copy)]
pub struct Metadata {
    pub kind: u16,
    pub size: usize,
}

/// One inode.
#[derive(Clone, Copy, PartialEq, Eq)]
pub struct Inode {
    pub number: u32,
    pub kind: u16,
    pub size: usize,
    pub extent_start: u32,
    pub extent_blocks: u32,
}

/// The volume magic "NKFSv1\0\0".
pub open spec fn magic() -> Seq<u8> {
    seq![78u8, 75, 70, 83, 118, 49, 0, 0]
}

/// The superblock stored in the first sector `s`, if it is a volume this
/// code reads (the right magic, version 1, 512-byte blocks).
pub open spec fn superblock_spec(s: Seq<u8>) -> Option<Superblock> {
    if s.len() < 512 || s.subrange(0, 8) != magic() || le32(s, 8) != VERSION || le32(s, 12) != 512 {
        None
    } else {
        Some(Superblock {
            block_size: 512,
            inode_count: le32(s, 16) as u32,
            inode_table_start: le32(s, 20) as u32,
            inode_table_blocks: le32(s, 24) as u32,
            data_start: le32(s, 28) as u32,
            root_inode: le32(s, 32) as u32,
            next_free_block: le32(s, 36) as u32,
            total_blocks: le32(s, 40) as u32,
        })
    }
}

/// Parses a volume's first sector.
pub fn parse_superblock(sector: &[u8]) -> (r: Option<Superblock>)
    ensures r == superblock_spec(sector@),
{
    if sector.len() < 512 {
        return None;
    }
    let expected: [u8; 8] = [78, 75, 70, 83, 118, 49, 0, 0];
    let mut i: usize = 0;
    while i < 8
        invariant
            sector@.len() >= 512,
            expected@ == magic(),
            0 <= i <= 8,
            forall|j: int| 0 <= j < i ==> sector@[j] == magic()[j],
        decreases 8 - i,
    {
        if sector[i] != expected[i] {
            proof { assert(sector@.subrange(0, 8)[i as int] != magic()[i as int]); }
            return None;
        }
        i += 1;
    }
    proof { assert(sector@.subrange(0, 8) =~= magic()); }
    if read_u32(sector, 8).unwrap() != VERSION {
        return None;
    }
    let block_size = read_u32(sector, 12).unwrap();
    if block_size != 512 {
        return None;
    }
    Some(Superblock {
        block_size,
        inode_count: read_u32(sector, 16).unwrap(),
        inode_table_start: read_u32(sector, 20).unwrap(),
        inode_table_blocks: read_u32(sector, 24).unwrap(),
        data_start: read_u32(sector, 28).unwrap(),
        root_inode: read_u32(sector, 32).unwrap(),
        next_free_block: read_u32(sector, 36).unwrap(),
        total_blocks: read_u32(sector, 40).unwrap(),
    })
}

/// The byte offset of inode `n`'s record on the disk.
pub open spec fn inode_byte_offset(fs: Superblock, n: u32) -> int {
    fs.inode_table_start as int * fs.block_size as int + (n - 1) * 128
}

/// Inode `n` of the volume `fs` on `disk`, if `n` is in the table.
pub open spec fn inode_spec(disk: Seq<u8>, fs: Superblock, n: u32) -> Option<Inode> {
    let bo = inode_byte_offset(fs, n);
    let lba = (bo / 512) as u32;
    let off = bo % 512;
    if n == 0 || n > fs.inode_count || (lba as int + 1) * 512 > disk.len() || off + 128 > 512 {
        None
    } else {
        let at = lba as int * 512 + off;
        Some(Inode {
            number: n,
            kind: le16(disk, at) as u16,
            size: le64(disk, at + 8) as u64 as usize,
            extent_start: le32(disk, at + 16) as u32,
            extent_blocks: le32(disk, at + 20) as u32,
        })
    }
}

/// The permission word stored for an inode of `kind`.
pub open spec fn mode_for(kind: u16) -> u16 {
    if kind == 0 { 0 } else if kind == KIND_DIR { 0o040555 } else { 0o100755 }
}

/// The 128-byte record of `inode`.
pub open spec fn inode_record(inode: Inode) -> Seq<u8> {
    let z = Seq::new(128, |i: int| 0u8);
    let a = put_le(z, 0, inode.kind as int, 2);
    let b = put_le(a, 2, mode_for(inode.kind) as int, 2);
    let c = put_le(b, 4, 1, 4);
    let d = put_le(c, 8, inode.size as u64 as int, 8);
    let e = put_le(d, 16, inode.extent_start as int, 4);
    put_le(e, 20, inode.extent_blocks as int, 4)
}

/// Whether `write_inode` accepts `inode` for `fs`.
pub open spec fn inode_writable(fs: Superblock, inode: Inode) -> bool {
    let bo = inode_byte_offset(fs, inode.number);
    &&& inode.number != 0
    &&& inode.number <= fs.inode_count
    &&& (inode.number as int) <= (fs.inode_table_blocks as int * 512) % 4294967296 / 128
    &&& bo % 512 + 128 <= 512
}

/// `x` rounded up to a multiple of four.
pub open spec fn align4(x: int) -> int {
    spec_align_up(x, 4)
}

/// Looks up `name` among the records of directory data `data` from offset
/// `off`: the inode of the first live record with that name.
pub open spec fn entry_walk(data: Seq<u8>, name: Seq<u8>, off: int) -> Option<u32>
    decreases data.len() - off,
{
    if off < 0 || off + 8 > data.len() {
        None
    } else {
        let nl = le16(data, off + 4);
        let kind = le16(data, off + 6);
        let next = align4(off + 8 + nl);
        if next > data.len() {
            None
        } else if kind != 0 && data.subrange(off + 8, off + 8 + nl) == name {
            Some(le32(data, off) as u32)
        } else if next > off {
            entry_walk(data, name, next)
        } else {
            None
        }
    }
}

/// The data of directory `dir`, if it fits a directory buffer and lies on the disk.
pub open spec fn dir_data(disk: Seq<u8>, dir: Inode) -> Option<Seq<u8>> {
    let start = dir.extent_start as int * 512;
    if dir.size > DIR_CAP || start + dir.size > disk.len()
        || (dir.extent_start as int + spec_align_up(dir.size as int, 512) / 512) * 512 > disk.len() {
        None
    } else {
        Some(disk.subrange(start, start + dir.size))
    }
}

/// The inode number `name` has in directory `dir`.
pub open spec fn lookup(disk: Seq<u8>, dir: Inode, name: Seq<u8>) -> Option<u32> {
    match dir_data(disk, dir) {
        Some(data) => entry_walk(data, name, 0),
        None => None,
    }
}

/// The end of the path component starting at `i`.
pub open spec fn component_end(path: Seq<u8>, i: int) -> int
    decreases path.len() - i,
{
    if i < 0 || i >= path.len() || path[i] == 47 || path[i] == 0 { i } else { component_end(path, i + 1) }
}

/// The first index at or after `i` that is not a slash.
pub open spec fn skip_slashes(path: Seq<u8>, i: int) -> int
    decreases path.len() - i,
{
    if i < 0 || i >= path.len() || path[i] != 47 { i } else { skip_slashes(path, i + 1) }
}

/// The component ".".
pub open spec fn dot() -> Seq<u8> { seq![46u8] }
/// The component "..".
pub open spec fn dotdot() -> Seq<u8> { seq![46u8, 46u8] }

/// Walks `path` from `cursor` (the start of a component) and the directory
/// inode `ino`; `.` and empty components stay put, and a NUL ends the path.
pub open spec fn resolve_from(disk: Seq<u8>, fs: Superblock, path: Seq<u8>, cursor: int, ino: u32) -> Option<Inode>
    decreases path.len() - cursor,
{
    let end = component_end(path, cursor);
    let name = path.subrange(cursor, end);
    let step: Option<u32> = if name.len() == 0 || name == dot() {
        Some(ino)
    } else {
        match inode_spec(disk, fs, ino) {
            Some(dir) => if dir.kind != KIND_DIR { None } else { lookup(disk, dir, name) },
            None => None,
        }
    };
    match step {
        None => None,
        Some(next) => {
            let c2 = skip_slashes(path, end);
            if c2 >= path.len() || path[c2] == 0 {
                inode_spec(disk, fs, next)
            } else if c2 > cursor && 0 <= cursor {
                resolve_from(disk, fs, path, c2, next)
            } else {
                None
            }
        }
    }
}

/// The inode `path` names on the volume `fs`.
pub open spec fn resolve_spec(disk: Seq<u8>, fs: Superblock, path: Seq<u8>) -> Option<Inode> {
    let c = skip_slashes(path, 0);
    if c >= path.len() {
        inode_spec(disk, fs, fs.root_inode)
    } else {
        resolve_from(disk, fs, path, c, fs.root_inode)
    }
}

/// `path` without trailing slashes, if it is an absolute path of at most
/// 256 bytes.
pub open spec fn normalized_len(path: Seq<u8>) -> Option<usize> {
    if path.len() == 0 || path[0] != 47 || path.len() > 256 {
        None
    } else {
        Some(trim_slashes(path, path.len() as int) as usize)
    }
}

/// The length of `path[..len]` without its trailing slashes (keeping one byte).
pub open spec fn trim_slashes(path: Seq<u8>, len: int) -> int
    decreases len,
{
    if len > 1 && path[len - 1] == 47 { trim_slashes(path, len - 1) } else { len }
}

proof fn lemma_trim_bounds(path: Seq<u8>, len: int)
    requires 1 <= len <= path.len(),
    ensures
        1 <= trim_slashes(path, len) <= len,
        trim_slashes(path, len) == 1 || path[trim_slashes(path, len) - 1] != 47,
    decreases len,
{
    if len > 1 && path[len - 1] == 47 { lemma_trim_bounds(path, len - 1); }
}

/// The length of `path` with its trailing slashes removed, when `path` is an
/// absolute path of at most 256 bytes.
pub fn normalized_path_bytes(path: &[u8]) -> (r: Option<usize>)
    ensures
        r == normalized_len(path@),
        r matches Some(n) ==> 1 <= n <= path@.len() && (n == 1 || path@[n - 1] != 47),
{
    if path.len() == 0 || path[0] != 47 || path.len() > 256 {
        return None;
    }
    let mut len = path.len();
    proof { lemma_trim_bounds(path@, len as int); }
    while len > 1 && path[len - 1] == 47
        invariant
            1 <= len <= path@.len(),
            trim_slashes(path@, len as int) == trim_slashes(path@, path@.len() as int),
        decreases len,
    {
        len -= 1;
    }
    Some(len)
}

/// A path a file can be created at: absolute, not the root.
pub fn valid_absolute_file_path(path: &[u8]) -> (r: bool)
    ensures r == (normalized_len(path@) matches Some(n) && n > 1),
{
    match normalized_path_bytes(path) {
        Some(n) => n > 1,
        None => false,
    }
}

/// Whether `path` lies strictly inside the directory `parent`.
pub open spec fn descendant(path: Seq<u8>, parent: Seq<u8>) -> bool {
    &&& path.len() > parent.len()
    &&& path.subrange(0, parent.len() as int) == parent
    &&& (parent == seq![47u8] || path[parent.len() as int] == 47)
}

/// Whether `path` lies strictly inside the directory `parent`.
pub fn path_is_descendant(path: &[u8], parent: &[u8]) -> (r: bool)
    ensures r == descendant(path@, parent@),
{
    if path.len() <= parent.len() {
        return false;
    }
    let mut i: usize = 0;
    while i < parent.len()
        invariant
            path@.len() > parent@.len(),
            0 <= i <= parent@.len(),
            forall|j: int| 0 <= j < i ==> path@[j] == parent@[j],
        decreases parent@.len() - i,
    {
        if path[i] != parent[i] {
            proof { assert(path@.subrange(0, parent@.len() as int)[i as int] != parent@[i as int]); }
            return false;
        }
        i += 1;
    }
    proof { assert(path@.subrange(0, parent@.len() as int) =~= parent@); }
    let root = parent.len() == 1 && parent[0] == 47;
    proof { if root { assert(parent@ =~= seq![47u8]); } if parent@ == seq![47u8] { assert(parent@[0] == 47); } }
    root || path[parent.len()] == 47
}

/// Whether byte `b` occurs in `s`.
pub fn contains_byte(s: &[u8], b: u8) -> (r: bool)
    ensures r == s@.contains(b),
{
    let mut i: usize = 0;
    while i < s.len()
        invariant
            0 <= i <= s@.len(),
            forall|j: int| 0 <= j < i ==> s@[j] != b,
        decreases s@.len() - i,
    {
        if s[i] == b {
            assert(s@[i as int] == b);
            return true;
        }
        i += 1;
    }
    false
}

/// Copies `s[from..to]`.
pub fn copy_range(s: &[u8], from: usize, to: usize) -> (r: Vec<u8>)
    requires from <= to <= s@.len(),
    ensures r@ == s@.subrange(from as int, to as int),
{
    let mut out: Vec<u8> = Vec::new();
    let mut i = from;
    while i < to
        invariant
            from <= i <= to <= s@.len(),
            out@ == s@.subrange(from as int, i as int),
        decreases to - i,
    {
        out.push(s[i]);
        i += 1;
        proof { assert(out@ =~= s@.subrange(from as int, i as int)); }
    }
    out
}

/// The parent directory and final name of a normalized path.
pub open spec fn split_spec(path: Seq<u8>) -> Option<(Seq<u8>, Seq<u8>)> {
    match normalized_len(path) {
        None => None,
        Some(n) => {
            let p = path.subrange(0, n as int);
            let slash = last_slash(p, p.len() as int);
            let parent = if slash == 0 { seq![47u8] } else { p.subrange(0, slash) };
            let name = p.subrange(slash + 1, p.len() as int);
            if name.len() == 0 || name.contains(47u8) || name.len() > 255 { None } else { Some((parent, name)) }
        }
    }
}

/// The index of the last slash in `p[1..end]`, or 0.
pub open spec fn last_slash(p: Seq<u8>, end: int) -> int
    decreases end,
{
    if end <= 1 { 0 } else if p[end - 1] == 47 { end - 1 } else { last_slash(p, end - 1) }
}

proof fn lemma_last_slash(p: Seq<u8>, end: int)
    requires end <= p.len(),
    ensures
        0 <= last_slash(p, end) < if end < 1 { 1 } else { end },
        last_slash(p, end) > 0 ==> p[last_slash(p, end)] == 47,
        forall|k: int| last_slash(p, end) < k < end && k >= 1 ==> p[k] != 47,
    decreases end,
{
    if end > 1 && p[end - 1] != 47 { lemma_last_slash(p, end - 1); }
}

/// Splits a path into its parent directory and final name.
pub fn split_parent_name(path: &[u8]) -> (r: Option<(Vec<u8>, Vec<u8>)>)
    ensures
        r matches Some((p, n)) ==> split_spec(path@) == Some((p@, n@)),
        r is None ==> split_spec(path@) is None,
{
    let n = match normalized_path_bytes(path) { Some(n) => n, None => return None };
    let ghost p = path@.subrange(0, n as int);
    let mut slash: usize = 0;
    let mut index: usize = 1;
    while index < n
        invariant
            1 <= index <= n || (n < 1 && index == 1),
            n <= path@.len(),
            p == path@.subrange(0, n as int),
            slash == last_slash(p, index as int),
        decreases n - index,
    {
        if path[index] == 47 {
            slash = index;
        }
        index += 1;
    }
    proof { lemma_last_slash(p, n as int); }
    let parent = if slash == 0 {
        let root: Vec<u8> = vec![47u8];
        proof { assert(root@ =~= seq![47u8]); }
        root
    } else {
        let v = copy_range(path, 0, slash);
        proof { assert(v@ =~= p.subrange(0, slash as int)); }
        v
    };
    let name = copy_range(path, slash + 1, n);
    proof { assert(name@ =~= p.subrange(slash + 1, p.len() as int)); }
    if name.len() == 0 || contains_byte(&name, 47) || name.len() > 255 {
        return None;
    }
    Some((parent, name))
}


/// A file opened for writing: its path, its staged contents (`data[..len]`,
/// in a buffer of `RAM_FILE_CAP` bytes), and where it lives on the disk.
pub struct RamFile {
    pub used: bool,
    pub path: Vec<u8>,
    pub data: Vec<u8>,
    pub len: usize,
    pub inode: u32,
    pub extent_start: u32,
    pub extent_blocks: u32,
    pub dirty: bool,
}

impl RamFile {
    /// A free slot.
    pub fn empty() -> (r: RamFile)
        ensures
            !r.used,
            r.wf(),
            r.path@.len() == 0,
            r.len == 0,
    {
        RamFile { used: false, path: Vec::new(), data: Vec::new(), len: 0, inode: 0, extent_start: 0, extent_blocks: 0, dirty: false }
    }

    /// The slot's invariant.
    pub open spec fn wf(&self) -> bool {
        &&& self.used ==> self.data@.len() == RAM_FILE_CAP && self.len <= RAM_FILE_CAP
        &&& !self.used ==> self.len == 0
        &&& self.path@.len() <= 256
    }

    /// The file's contents.
    pub open spec fn contents(&self) -> Seq<u8> {
        self.data@.subrange(0, self.len as int)
    }
}

/// The on-disk filesystem: the disk and the cached superblock.
pub struct Volume {
    pub disk: Disk,
    pub mount_cache: Option<Superblock>,
}

/// A mounted root volume with the files open for writing.
pub struct Nkfs {
    pub volume: Volume,
    pub ram_files: Vec<RamFile>,
}

impl Nkfs {
    /// The volume's invariant.
    pub open spec fn wf(&self) -> bool {
        &&& self.volume.wf()
        &&& self.ram_files@.len() == RAM_FILE_COUNT
        &&& forall|i: int| 0 <= i < RAM_FILE_COUNT ==> (#[trigger] self.ram_files@[i]).wf()
    }

    /// A volume over `disk` with no file open.
    pub fn new(disk: Disk) -> (r: Nkfs)
        ensures
            r.wf(),
            r.volume.disk@ == disk@,
            r.volume.mount_cache is None,
            forall|i: int| 0 <= i < RAM_FILE_COUNT ==> !(#[trigger] r.ram_files@[i]).used,
    {
        let mut files: Vec<RamFile> = Vec::new();
        let mut i: usize = 0;
        while i < RAM_FILE_COUNT
            invariant
                0 <= i <= RAM_FILE_COUNT,
                files@.len() == i,
                forall|k: int| 0 <= k < i ==> (#[trigger] files@[k]).wf() && !files@[k].used,
            decreases RAM_FILE_COUNT - i,
        {
            files.push(RamFile::empty());
            i += 1;
        }
        Nkfs { volume: Volume { disk, mount_cache: None }, ram_files: files }
    }
}

impl Volume {
    /// The volume's invariant.
    pub open spec fn wf(&self) -> bool {
        self.mount_cache matches Some(fs) ==> fs.block_size == 512
    }

    /// The superblock `mount` yields.
    pub open spec fn mounted(&self) -> Option<Superblock> {
        match self.mount_cache {
            Some(fs) => Some(fs),
            None => if self.disk@.len() >= 512 { superblock_spec(self.disk@.subrange(0, 512)) } else { None },
        }
    }

    /// Reads the superblock (once; later calls use the cached copy).
    pub fn mount(&mut self) -> (r: Option<Superblock>)
        requires old(self).wf(),
        ensures
            final(self).wf(),
            r == old(self).mounted(),
            final(self).disk@ == old(self).disk@,
            final(self).mount_cache == if r is Some { r } else { old(self).mount_cache },
            final(self).mounted() == old(self).mounted(),
            r matches Some(fs) ==> fs.block_size == 512,
    {
        match self.mount_cache {
            Some(fs) => return Some(fs),
            None => {},
        }
        let sector = match self.disk.read_sector(0) { Some(s) => s, None => return None };
        let fs = match parse_superblock(&sector) { Some(fs) => fs, None => return None };
        self.mount_cache = Some(fs);
        Some(fs)
    }

    /// Whether a volume is present.
    pub fn smoke_test(&mut self) -> (r: bool)
        requires old(self).wf(),
        ensures
            final(self).wf(),
            r == old(self).mounted() is Some,
            final(self).disk@ == old(self).disk@,
            final(self).mounted() == old(self).mounted(),
    {
        self.mount().is_some()
    }

    /// Stores the allocation fields of `fs` in the first sector and caches it.
    pub fn write_mount(&mut self, fs: Superblock) -> (r: bool)
        requires old(self).wf(), fs.block_size == 512,
        ensures
            final(self).wf(),
            r <==> old(self).disk.in_range(0, 1),
            !r ==> *final(self) == *old(self),
            r ==> final(self).mount_cache == Some(fs) && final(self).disk@ == superblock_written(old(self).disk@, fs),
    {
        let mut sector = match self.disk.read_sector(0) { Some(s) => s, None => return false };
        write_u32(&mut sector, 16, fs.inode_count);
        write_u32(&mut sector, 20, fs.inode_table_start);
        write_u32(&mut sector, 24, fs.inode_table_blocks);
        write_u32(&mut sector, 28, fs.data_start);
        write_u32(&mut sector, 32, fs.root_inode);
        write_u32(&mut sector, 36, fs.next_free_block);
        write_u32(&mut sector, 40, fs.total_blocks);
        let ok = self.disk.write_sector(0, &sector);
        proof {
            assert(ok);
            let d = old(self).disk@;
            let fields = put_le(put_le(put_le(put_le(put_le(put_le(put_le(d.subrange(16, 44), 0, fs.inode_count as int, 4),
                    4, fs.inode_table_start as int, 4), 8, fs.inode_table_blocks as int, 4), 12, fs.data_start as int, 4),
                    16, fs.root_inode as int, 4), 20, fs.next_free_block as int, 4), 24, fs.total_blocks as int, 4);
            assert(self.disk@ =~= splice(d, 16, fields));
        }
        self.mount_cache = Some(fs);
        true
    }
}


/// `disk` with the counters of `fs` stored in its superblock (bytes 16 to
/// 44, little-endian).
pub open spec fn superblock_written(disk: Seq<u8>, fs: Superblock) -> Seq<u8> {
    splice(disk, 16,
        put_le(put_le(put_le(put_le(put_le(put_le(put_le(disk.subrange(16, 44), 0, fs.inode_count as int, 4),
            4, fs.inode_table_start as int, 4), 8, fs.inode_table_blocks as int, 4), 12, fs.data_start as int, 4),
            16, fs.root_inode as int, 4), 20, fs.next_free_block as int, 4), 24, fs.total_blocks as int, 4))
}

/// Copies `src` into `dst` at `off`.
pub fn copy_into(dst: &mut Vec<u8>, off: usize, src: &[u8])
    requires off + src@.len() <= old(dst)@.len(),
    ensures final(dst)@ == splice(old(dst)@, off as int, src@),
{
    let dlen = dst.len();
    let mut i: usize = 0;
    while i < src.len()
        invariant
            0 <= i <= src@.len(),
            off + src@.len() <= dst@.len(),
            dst@.len() == old(dst)@.len(),
            dst@.len() == dlen,
            forall|k: int| 0 <= k < dst@.len() ==> dst@[k] == if off <= k < off + i { src@[k - off] } else { old(dst)@[k] },
        decreases src@.len() - i,
    {
        dst.set(off + i, src[i]);
        i += 1;
    }
    assert(dst@ =~= splice(old(dst)@, off as int, src@));
}

/// The product of two 32-bit values.
pub fn mul_u32(a: u32, b: u32) -> (r: u64)
    ensures
        r == a as int * b as int,
        r <= 0xffff_fffe_0000_0001,
{
    proof {
        assert(a as int * b as int <= 0xffff_fffe_0000_0001) by (nonlinear_arith)
            requires a <= 0xffff_ffff, b <= 0xffff_ffff, 0 <= a, 0 <= b;
    }
    a as u64 * b as u64
}

/// The 128-byte record of `inode`.
pub fn encode_inode(inode: Inode) -> (r: Vec<u8>)
    ensures r@ == inode_record(inode),
{
    let mut rec: Vec<u8> = vec![0u8; 128];
    proof { assert(rec@ =~= Seq::new(128, |i: int| 0u8)); }
    let mode: u16 = if inode.kind == 0 { 0 } else if inode.kind == KIND_DIR { 0o040555 } else { 0o100755 };
    write_u16(&mut rec, 0, inode.kind);
    write_u16(&mut rec, 2, mode);
    write_u32(&mut rec, 4, 1);
    write_u64(&mut rec, 8, inode.size as u64);
    write_u32(&mut rec, 16, inode.extent_start);
    write_u32(&mut rec, 20, inode.extent_blocks);
    rec
}

/// The record an inode is written as reads back as that inode.
pub proof fn lemma_inode_record_roundtrip(disk: Seq<u8>, fs: Superblock, inode: Inode)
    requires
        inode_writable(fs, inode),
        ({
            let bo = inode_byte_offset(fs, inode.number);
            ((bo / 512) as u32 as int + 1) * 512 <= disk.len()
        }),
    ensures ({
        let bo = inode_byte_offset(fs, inode.number);
        let at = (bo / 512) as u32 as int * 512 + bo % 512;
        inode_spec(splice(disk, at, inode_record(inode)), fs, inode.number) == Some(inode)
    }),
{
    let bo = inode_byte_offset(fs, inode.number);
    let at = (bo / 512) as u32 as int * 512 + bo % 512;
    let rec = inode_record(inode);
    let d2 = splice(disk, at, rec);
    let z = Seq::new(128, |i: int| 0u8);
    let a = put_le(z, 0, inode.kind as int, 2);
    let b = put_le(a, 2, mode_for(inode.kind) as int, 2);
    let c = put_le(b, 4, 1, 4);
    let d = put_le(c, 8, inode.size as u64 as int, 8);
    let e = put_le(d, 16, inode.extent_start as int, 4);
    crate::bytes::lemma_le16_roundtrip(z, 0, inode.kind);
    crate::bytes::lemma_le64_roundtrip(c, 8, inode.size as u64);
    crate::bytes::lemma_le32_roundtrip(d, 16, inode.extent_start);
    crate::bytes::lemma_le32_roundtrip(e, 20, inode.extent_blocks);
    assert(le16(d2, at) == le16(rec, 0));
    assert(le64(d2, at + 8) == le64(rec, 8));
    assert(le32(d2, at + 16) == le32(rec, 16));
    assert(le32(d2, at + 20) == le32(rec, 20));
    assert(le16(rec, 0) == le16(a, 0));
    assert(le64(rec, 8) == le64(d, 8));
    assert(le32(rec, 16) == le32(e, 16));
}

impl Volume {
    /// Reads inode `n` of the volume `fs`.
    pub fn read_inode(&self, fs: Superblock, n: u32) -> (r: Option<Inode>)
        requires fs.block_size == 512,
        ensures r == inode_spec(self.disk@, fs, n),
    {
        if n == 0 || n > fs.inode_count {
            return None;
        }
        let bo: u64 = mul_u32(fs.inode_table_start, fs.block_size) + (n as u64 - 1) * 128;
        let lba = (bo / 512) as u32;
        let off = (bo % 512) as usize;
        let sector = match self.disk.read_sector(lba) { Some(s) => s, None => return None };
        if off + INODE_SIZE > SECTOR_SIZE {
            return None;
        }
        let kind = read_u16(&sector, off).unwrap();
        let size = read_u64(&sector, off + 8).unwrap();
        let extent_start = read_u32(&sector, off + 16).unwrap();
        let extent_blocks = read_u32(&sector, off + 20).unwrap();
        proof {
            let at = lba as int * 512 + off as int;
            let d = self.disk@;
            assert(sector@ == d.subrange(lba as int * 512, (lba as int + 1) * 512));
            assert(le16(sector@, off as int) == le16(d, at));
            assert(le64(sector@, off as int + 8) == le64(d, at + 8));
            assert(le32(sector@, off as int + 16) == le32(d, at + 16));
            assert(le32(sector@, off as int + 20) == le32(d, at + 20));
        }
        Some(Inode { number: n, kind, size: size as usize, extent_start, extent_blocks })
    }

    /// Writes `inode` into its record of the table.
    pub fn write_inode(&mut self, fs: Superblock, inode: Inode) -> (r: bool)
        requires old(self).wf(), fs.block_size == 512,
        ensures
            final(self).wf(),
            final(self).mount_cache == old(self).mount_cache,
            ({
                let bo = inode_byte_offset(fs, inode.number);
                let lba = (bo / 512) as u32;
                &&& r <==> inode_writable(fs, inode) && old(self).disk.in_range(lba as int, 1)
                &&& r ==> final(self).disk@ == splice(old(self).disk@, lba as int * 512 + bo % 512, inode_record(inode))
                &&& !r ==> final(self).disk@ == old(self).disk@
            }),
    {
        let limit = fs.inode_table_blocks.wrapping_mul(512) / 128;
        if inode.number == 0 || inode.number > fs.inode_count || inode.number > limit {
            return false;
        }
        let bo: u64 = mul_u32(fs.inode_table_start, fs.block_size) + (inode.number as u64 - 1) * 128;
        let lba = (bo / 512) as u32;
        let off = (bo % 512) as usize;
        if off + INODE_SIZE > SECTOR_SIZE {
            return false;
        }
        let mut sector = match self.disk.read_sector(lba) { Some(s) => s, None => return false };
        let rec = encode_inode(inode);
        copy_into(&mut sector, off, &rec);
        let ok = self.disk.write_sector(lba, &sector);
        proof {
            let d = old(self).disk@;
            let at = lba as int * 512 + off as int;
            assert(ok);
            assert(self.disk@ =~= splice(d, at, inode_record(inode)));
        }
        ok
    }
}

/// `n` zero bytes.
pub open spec fn zeros(n: nat) -> Seq<u8> {
    Seq::new(n, |i: int| 0u8)
}

/// Number of blocks an extent of `size` bytes occupies.
pub open spec fn blocks_for(size: int) -> int {
    spec_align_up(size, 512) / 512
}

impl Volume {
    /// Reads the first `size` bytes of the extent at block `start`; fails
    /// when `size` exceeds `out_len` or the extent runs off the disk.
    pub fn read_extent(&self, start: u32, size: usize, out_len: usize) -> (r: Option<Vec<u8>>)
        requires out_len <= MAX_FILE_SIZE,
        ensures
            r is Some <==> size <= out_len && self.disk.in_range(start as int, blocks_for(size as int)),
            r matches Some(v) ==> v@ == self.disk@.subrange(start as int * 512, start as int * 512 + size),
    {
        if size > out_len {
            return None;
        }
        let sectors = align_up(size, SECTOR_SIZE) / SECTOR_SIZE;
        let data = match self.disk.read_sectors(start, sectors) { Some(d) => d, None => return None };
        let out = copy_range(&data, 0, size);
        proof {
            assert(out@ =~= self.disk@.subrange(start as int * 512, start as int * 512 + size));
        }
        Some(out)
    }

    /// Writes `data[..size]` as the extent at block `start`, padding its last
    /// block with zeros (an empty extent still takes one block).
    pub fn write_extent(&mut self, start: u32, size: usize, data: &[u8]) -> (r: bool)
        requires
            old(self).wf(),
            size <= MAX_FILE_SIZE,
        ensures
            final(self).wf(),
            final(self).mount_cache == old(self).mount_cache,
            ({
                let blocks = blocks_for(if size == 0 { 1 } else { size as int });
                &&& r <==> size <= data@.len() && old(self).disk.in_range(start as int, blocks)
                &&& r ==> final(self).disk@ == splice(old(self).disk@, start as int * 512,
                        data@.subrange(0, size as int) + zeros((blocks * 512 - size) as nat))
                &&& !r ==> final(self).disk@ == old(self).disk@
            }),
    {
        if size > data.len() {
            return false;
        }
        let sectors = align_up(if size == 0 { 1 } else { size }, SECTOR_SIZE) / SECTOR_SIZE;
        let total = sectors * SECTOR_SIZE;
        let mut buffer: Vec<u8> = vec![0u8; total];
        let head = copy_range(data, 0, size);
        copy_into(&mut buffer, 0, &head);
        let ok = self.disk.write_sectors(start, sectors, &buffer);
        proof {
            let want = data@.subrange(0, size as int) + zeros((total - size) as nat);
            assert(buffer@.subrange(0, total as int) =~= want);
        }
        ok
    }

    /// The data of directory `dir`, read from the disk.
    pub fn read_dir_data(&self, dir: Inode) -> (r: Option<Vec<u8>>)
        ensures r matches Some(v) ==> Some(v@) == dir_data(self.disk@, dir),
            r is None <==> dir_data(self.disk@, dir) is None,
    {
        if dir.size > DIR_CAP {
            return None;
        }
        let r = self.read_extent(dir.extent_start, dir.size, DIR_CAP);
        proof {
            if r is Some {
                assert(dir.extent_start as int * 512 + dir.size <= self.disk@.len()) by (nonlinear_arith)
                    requires
                        (dir.extent_start as int + blocks_for(dir.size as int)) * 512 <= self.disk@.len(),
                        blocks_for(dir.size as int) * 512 >= dir.size,
                    {}
            }
        }
        r
    }
}


/// Whether `data[from..to]` equals `name`.
pub fn range_equals(data: &[u8], from: usize, to: usize, name: &[u8]) -> (r: bool)
    requires from <= to <= data@.len(),
    ensures r == (data@.subrange(from as int, to as int) == name@),
{
    if to - from != name.len() {
        return false;
    }
    let mut i: usize = 0;
    while i < name.len()
        invariant
            from <= to <= data@.len(),
            to - from == name@.len(),
            0 <= i <= name@.len(),
            forall|j: int| 0 <= j < i ==> data@[from + j] == name@[j],
        decreases name@.len() - i,
    {
        if data[from + i] != name[i] {
            proof { assert(data@.subrange(from as int, to as int)[i as int] != name@[i as int]); }
            return false;
        }
        i += 1;
    }
    proof { assert(data@.subrange(from as int, to as int) =~= name@); }
    true
}

proof fn lemma_align4_ge(x: int)
    requires x >= 0,
    ensures x <= align4(x) <= x + 3, align4(x) % 4 == 0,
{
}

/// Looks up `name` in directory data `data`.
pub fn find_entry(data: &[u8], name: &[u8]) -> (r: Option<u32>)
    requires data@.len() <= DIR_CAP,
    ensures r == entry_walk(data@, name@, 0),
{
    let mut offset: usize = 0;
    while offset + 8 <= data.len()
        invariant
            data@.len() <= DIR_CAP,
            offset <= data@.len() + 8,
            entry_walk(data@, name@, 0) == entry_walk(data@, name@, offset as int),
        decreases data@.len() + 8 - offset,
    {
        let inode = read_u32(data, offset).unwrap();
        let name_len = read_u16(data, offset + 4).unwrap() as usize;
        let kind = read_u16(data, offset + 6).unwrap();
        let next = align_up(offset + 8 + name_len, 4);
        proof { lemma_align4_ge(offset + 8 + name_len); }
        if next > data.len() {
            return None;
        }
        if kind != 0 && range_equals(data, offset + 8, offset + 8 + name_len, name) {
            return Some(inode);
        }
        offset = next;
    }
    None
}

impl Volume {
    /// The inode `name` has in directory `dir`.
    pub fn find_dir_entry(&self, dir: Inode, name: &[u8]) -> (r: Option<u32>)
        ensures r == lookup(self.disk@, dir, name@),
    {
        let data = match self.read_dir_data(dir) { Some(d) => d, None => return None };
        find_entry(&data, name)
    }
}

/// The end of the path component starting at `i`.
fn component_end_exec(path: &[u8], i: usize) -> (r: usize)
    requires i <= path@.len(),
    ensures r == component_end(path@, i as int), i <= r <= path@.len(),
{
    let mut c = i;
    while c < path.len() && path[c] != 47 && path[c] != 0
        invariant
            i <= c <= path@.len(),
            component_end(path@, i as int) == component_end(path@, c as int),
        decreases path@.len() - c,
    {
        c += 1;
    }
    c
}

/// The first index at or after `i` that is not a slash.
fn skip_slashes_exec(path: &[u8], i: usize) -> (r: usize)
    requires i <= path@.len(),
    ensures r == skip_slashes(path@, i as int), i <= r <= path@.len(),
{
    let mut c = i;
    while c < path.len() && path[c] == 47
        invariant
            i <= c <= path@.len(),
            skip_slashes(path@, i as int) == skip_slashes(path@, c as int),
        decreases path@.len() - c,
    {
        c += 1;
    }
    c
}

impl Volume {
    /// Resolves `path` from the root directory of `fs`.
    pub fn resolve_path(&self, fs: Superblock, path: &[u8]) -> (r: Option<Inode>)
        requires fs.block_size == 512,
        ensures r == resolve_spec(self.disk@, fs, path@),
    {
        let mut inode_number = fs.root_inode;
        let mut cursor = skip_slashes_exec(path, 0);
        if cursor >= path.len() {
            return self.read_inode(fs, inode_number);
        }
        loop
            invariant
                fs.block_size == 512,
                cursor < path@.len(),
                resolve_spec(self.disk@, fs, path@) == resolve_from(self.disk@, fs, path@, cursor as int, inode_number),
            decreases path@.len() - cursor,
        {
            let start = cursor;
            let end = component_end_exec(path, start);
            let is_dot = end > start && end - start == 1 && path[start] == 46;
            proof {
                let name = path@.subrange(start as int, end as int);
                if is_dot { assert(name =~= dot()); }
                if name == dot() { assert(name[0] == 46); }
            }
            let mut next = inode_number;
            if end > start && !is_dot {
                proof {
                    let nm = path@.subrange(start as int, end as int);
                    assert(nm.len() != 0);
                    if nm == dot() { assert(nm.len() == 1); assert(nm[0] == 46); assert(path@[start as int] == 46); }
                    assert(nm != dot());
                }
                let name = copy_range(path, start, end);
                let dir = match self.read_inode(fs, inode_number) { Some(d) => d, None => return None };
                if dir.kind != KIND_DIR {
                    return None;
                }
                next = match self.find_dir_entry(dir, &name) { Some(n) => n, None => return None };
            }
            let c2 = skip_slashes_exec(path, end);
            if c2 >= path.len() || path[c2] == 0 {
                return self.read_inode(fs, next);
            }
            if c2 <= cursor {
                return None;
            }
            inode_number = next;
            cursor = c2;
        }
    }
}


/// The index of the first open RAM file named `p`.
pub open spec fn ram_find_spec(files: Seq<RamFile>, p: Seq<u8>) -> Option<usize> {
    if exists|i: int| 0 <= i < files.len() && files[i].used && (#[trigger] files[i]).path@ == p {
        Some((choose|i: int| 0 <= i < files.len() && files[i].used && (#[trigger] files[i]).path@ == p
            && forall|j: int| 0 <= j < i ==> !(files[j].used && (#[trigger] files[j]).path@ == p)) as usize)
    } else {
        None
    }
}

/// The open RAM file that `path` names, after normalization.
pub open spec fn ram_lookup(files: Seq<RamFile>, path: Seq<u8>) -> Option<usize> {
    match normalized_len(path) {
        Some(n) => ram_find_spec(files, path.subrange(0, n as int)),
        None => None,
    }
}

/// The contents `read_file` gives of `path`: an open RAM file first, then
/// a regular file of the mounted volume.
pub open spec fn file_contents(fs: Nkfs, path: Seq<u8>) -> Option<Seq<u8>> {
    match ram_lookup(fs.ram_files@, path) {
        Some(i) => Some(fs.ram_files@[i as int].contents()),
        None => match fs.volume.mounted() {
            Some(sb) => disk_file(fs.volume.disk@, sb, path),
            None => None,
        },
    }
}

/// What `stat` reports of `path` in `fs`: an open RAM file first, then
/// the mounted volume.
pub open spec fn meta_of(fs: Nkfs, path: Seq<u8>) -> Option<Metadata> {
    match ram_lookup(fs.ram_files@, path) {
        Some(i) => Some(Metadata { kind: KIND_FILE, size: fs.ram_files@[i as int].len }),
        None => match fs.volume.mounted() {
            Some(sb) => match resolve_spec(fs.volume.disk@, sb, path) {
                Some(inode) => Some(Metadata { kind: inode.kind, size: inode.size }),
                None => None,
            },
            None => None,
        },
    }
}

/// The bytes of the file `path` names on the disk, if it is a regular file
/// of at most `MAX_FILE_SIZE` bytes lying on the disk.
pub open spec fn disk_file(disk: Seq<u8>, fs: Superblock, path: Seq<u8>) -> Option<Seq<u8>> {
    match resolve_spec(disk, fs, path) {
        Some(inode) => if inode.kind != KIND_FILE || inode.size > MAX_FILE_SIZE
            || !((inode.extent_start as int + blocks_for(inode.size as int)) * 512 <= disk.len()) {
            None
        } else {
            Some(disk.subrange(inode.extent_start as int * 512, inode.extent_start as int * 512 + inode.size))
        },
        None => None,
    }
}

impl Nkfs {
    /// Whether two byte strings are equal.
    fn same_bytes(a: &[u8], b: &[u8]) -> (r: bool)
        ensures r == (a@ == b@),
    {
        if a.len() != b.len() {
            return false;
        }
        proof { assert(a@.subrange(0, a@.len() as int) =~= a@); }
        range_equals(a, 0, a.len(), b)
    }

    /// The first open RAM file with path exactly `p`.
    fn ram_find_exact(&self, p: &[u8]) -> (r: Option<usize>)
        requires self.wf(),
        ensures
            r == ram_find_spec(self.ram_files@, p@),
            r matches Some(i) ==> i < RAM_FILE_COUNT,
    {
        let mut index: usize = 0;
        while index < RAM_FILE_COUNT
            invariant
                self.wf(),
                0 <= index <= RAM_FILE_COUNT,
                forall|j: int| 0 <= j < index ==> !(self.ram_files@[j].used && (#[trigger] self.ram_files@[j]).path@ == p@),
            decreases RAM_FILE_COUNT - index,
        {
            let file = &self.ram_files[index];
            if file.used && Self::same_bytes(&file.path, p) {
                proof {
                    let files = self.ram_files@;
                    let c = choose|i: int| 0 <= i < files.len() && files[i].used && (#[trigger] files[i]).path@ == p@
                        && forall|j: int| 0 <= j < i ==> !(files[j].used && (#[trigger] files[j]).path@ == p@);
                    assert(files[index as int].used && files[index as int].path@ == p@);
                    if c < index { assert(!(files[c].used && files[c].path@ == p@)); }
                    if index < c { assert(!(files[index as int].used && files[index as int].path@ == p@)); }
                }
                return Some(index);
            }
            index += 1;
        }
        None
    }

    /// The open RAM file that `path` names.
    pub fn ram_find(&self, path: &[u8]) -> (r: Option<usize>)
        requires self.wf(),
        ensures
            r == ram_lookup(self.ram_files@, path@),
            r matches Some(i) ==> i < RAM_FILE_COUNT,
    {
        let n = match normalized_path_bytes(path) { Some(n) => n, None => return None };
        let p = copy_range(path, 0, n);
        self.ram_find_exact(&p)
    }

    /// The open RAM file that `path` names.
    pub fn ram_file_index(&self, path: &[u8]) -> (r: Option<usize>)
        requires self.wf(),
        ensures r == ram_lookup(self.ram_files@, path@),
    {
        self.ram_find(path)
    }

    /// The contents of open RAM file `index`.
    pub fn ram_file_slice(&self, index: usize) -> (r: Option<Vec<u8>>)
        requires self.wf(),
        ensures
            r is Some <==> index < RAM_FILE_COUNT && self.ram_files@[index as int].used,
            r matches Some(v) ==> v@ == self.ram_files@[index as int].contents(),
    {
        if index >= RAM_FILE_COUNT {
            return None;
        }
        let file = &self.ram_files[index];
        if !file.used {
            return None;
        }
        Some(copy_range(&file.data, 0, file.len))
    }

    /// The contents of the file at `path`: an open RAM file if one has that
    /// path, else the regular file on the disk.
    pub fn read_file(&mut self, path: &[u8]) -> (r: Option<Vec<u8>>)
        requires old(self).wf(),
        ensures
            final(self).wf(),
            final(self).volume.disk@ == old(self).volume.disk@,
            final(self).ram_files@ == old(self).ram_files@,
            final(self).volume.mounted() == old(self).volume.mounted(),
            r matches Some(v) ==> Some(v@) == file_contents(*old(self), path@),
            r is None <==> file_contents(*old(self), path@) is None,
    {
        match self.ram_find(path) {
            Some(index) => return self.ram_file_slice(index),
            None => {},
        }
        let fs = match self.volume.mount() { Some(fs) => fs, None => return None };
        let inode = match self.volume.resolve_path(fs, path) { Some(i) => i, None => return None };
        if inode.kind != KIND_FILE || inode.size > MAX_FILE_SIZE {
            return None;
        }
        self.volume.read_extent(inode.extent_start, inode.size, MAX_FILE_SIZE)
    }

    /// What `stat` reports of `path`.
    pub fn metadata(&mut self, path: &[u8]) -> (r: Option<Metadata>)
        requires old(self).wf(),
        ensures
            final(self).wf(),
            final(self).volume.disk@ == old(self).volume.disk@,
            final(self).ram_files@ == old(self).ram_files@,
            final(self).volume.mounted() == old(self).volume.mounted(),
            r == meta_of(*old(self), path@),
    {
        match self.ram_find(path) {
            Some(index) => return Some(Metadata { kind: KIND_FILE, size: self.ram_files[index].len }),
            None => {},
        }
        let fs = match self.volume.mount() { Some(fs) => fs, None => return None };
        match self.volume.resolve_path(fs, path) {
            Some(inode) => Some(Metadata { kind: inode.kind, size: inode.size }),
            None => None,
        }
    }

    /// Whether `path` names a file or directory.
    pub fn path_exists(&mut self, path: &[u8]) -> (r: bool)
        requires old(self).wf(),
        ensures
            final(self).wf(),
            final(self).volume.disk@ == old(self).volume.disk@,
            final(self).ram_files@ == old(self).ram_files@,
            final(self).volume.mounted() == old(self).volume.mounted(),
            r == meta_of(*old(self), path@) is Some,
    {
        self.metadata(path).is_some()
    }
}

/// The directory record of `name`, padded to `record_len` bytes.
pub open spec fn dir_record(name: Seq<u8>, inode: u32, kind: u16, record_len: nat) -> Seq<u8> {
    let z = zeros(record_len);
    let a = put_le(z, 0, inode as int, 4);
    let b = put_le(a, 4, name.len() as int, 2);
    let c = put_le(b, 6, kind as int, 2);
    splice(c, 8, name)
}

/// Writes the record of `name` at `offset` in `buffer`, zero-padded to
/// `record_len` bytes; returns `record_len`.
pub fn write_dir_record(buffer: &mut Vec<u8>, offset: usize, record_len: usize, name: &[u8], inode: u32, kind: u16) -> (r: usize)
    requires
        offset + record_len <= old(buffer)@.len(),
        8 + name@.len() <= record_len,
        name@.len() < 65536,
    ensures
        r == record_len,
        final(buffer)@ == splice(old(buffer)@, offset as int, dir_record(name@, inode, kind, record_len as nat)),
{
    let mut rec: Vec<u8> = vec![0u8; record_len];
    proof { assert(rec@ =~= zeros(record_len as nat)); }
    write_u32(&mut rec, 0, inode);
    write_u16(&mut rec, 4, name.len() as u16);
    write_u16(&mut rec, 6, kind);
    copy_into(&mut rec, 8, name);
    copy_into(buffer, offset, &rec);
    record_len
}

/// A record written for `name` is found when its directory data is searched
/// for `name`.
pub proof fn lemma_record_found(name: Seq<u8>, inode: u32, kind: u16)
    requires
        kind != 0,
        name.len() < 65536,
    ensures ({
        let rec = dir_record(name, inode, kind, align4(8 + name.len() as int) as nat);
        entry_walk(rec, name, 0) == Some(inode)
    }),
{
    let len = align4(8 + name.len() as int);
    lemma_align4_ge(8 + name.len() as int);
    let z = zeros(len as nat);
    let a = put_le(z, 0, inode as int, 4);
    let b = put_le(a, 4, name.len() as int, 2);
    let c = put_le(b, 6, kind as int, 2);
    let rec = splice(c, 8, name);
    crate::bytes::lemma_le32_roundtrip(z, 0, inode);
    crate::bytes::lemma_le16_roundtrip(a, 4, name.len() as u16);
    crate::bytes::lemma_le16_roundtrip(b, 6, kind);
    assert(le32(rec, 0) == le32(a, 0));
    assert(le16(rec, 4) == le16(b, 4));
    assert(le16(rec, 6) == le16(c, 6));
    assert(rec.subrange(8, 8 + name.len() as int) =~= name);
}


/// Whether inode `n` exists and is free.
pub open spec fn free_inode_at(disk: Seq<u8>, fs: Superblock, n: u32) -> bool {
    match inode_spec(disk, fs, n) { Some(i) => i.kind == 0, None => false }
}

/// The first free inode of the table from `n` on.
pub open spec fn first_free_inode(disk: Seq<u8>, fs: Superblock, n: int) -> Option<u32>
    decreases fs.inode_count + 1 - n,
{
    if n < 1 || n > fs.inode_count {
        None
    } else if free_inode_at(disk, fs, n as u32) {
        Some(n as u32)
    } else {
        first_free_inode(disk, fs, n + 1)
    }
}

/// The inode `allocate_inode` hands out on `disk`, with the superblock
/// after: the first free one, or a new one at the end of the table while
/// the table has room (and the superblock can be written).
pub open spec fn inode_alloc(disk: Seq<u8>, fs: Superblock) -> Option<(Superblock, u32)> {
    match first_free_inode(disk, fs, 1) {
        Some(n) => Some((fs, n)),
        None => if fs.inode_count >= MAX_INODES || fs.inode_count >= (fs.inode_table_blocks as int * 512) % 4294967296 / 128
            || disk.len() < 512 {
            None
        } else {
            let fs2 = Superblock { inode_count: (fs.inode_count + 1) as u32, ..fs };
            Some((fs2, fs2.inode_count))
        },
    }
}

/// The first free inode of the table, from `n` on, that holds an extent of
/// at least `blocks` (and at least one) data blocks.
pub open spec fn first_spare(disk: Seq<u8>, fs: Superblock, blocks: u32, n: int) -> Option<Inode>
    decreases fs.inode_count + 1 - n,
{
    if n < 1 || n > fs.inode_count {
        None
    } else {
        match inode_spec(disk, fs, n as u32) {
            Some(i) => if i.kind == 0 && i.extent_start >= fs.data_start && i.extent_blocks >= blocks && i.extent_blocks != 0 {
                Some(i)
            } else {
                first_spare(disk, fs, blocks, n + 1)
            },
            None => first_spare(disk, fs, blocks, n + 1),
        }
    }
}

/// What `allocate_blocks` gives on `disk`, with the disk after: the head
/// of the first spare extent (its inode keeping the rest), or the blocks at
/// the end of the used area (the superblock records the new end).
pub open spec fn block_alloc(disk: Seq<u8>, fs: Superblock, blocks: u32) -> (Option<(Superblock, u32)>, Seq<u8>) {
    if blocks == 0 {
        (Some((fs, 0u32)), disk)
    } else {
        match first_spare(disk, fs, blocks, 1) {
            Some(i) => {
                let remaining = (i.extent_blocks - blocks) as u32;
                let freed = Inode {
                    number: i.number,
                    kind: 0,
                    size: 0,
                    extent_start: if remaining == 0 { 0 } else { i.extent_start.wrapping_add(blocks) },
                    extent_blocks: remaining,
                };
                let (ok, d) = inode_write(disk, fs, freed);
                if ok { (Some((fs, i.extent_start)), d) } else { (None, d) }
            },
            None => {
                let start = fs.next_free_block;
                if start + blocks > u32::MAX || (fs.total_blocks != 0 && start + blocks > fs.total_blocks) || disk.len() < 512 {
                    (None, disk)
                } else {
                    let fs2 = Superblock { next_free_block: (start + blocks) as u32, ..fs };
                    (Some((fs2, start)), superblock_written(disk, fs2))
                }
            },
        }
    }
}

/// Whether inode `m` is free and holds an extent of at least `blocks` data
/// blocks starting at `start`.
pub open spec fn spare_extent(disk: Seq<u8>, fs: Superblock, m: u32, blocks: u32, start: u32) -> bool {
    match inode_spec(disk, fs, m) {
        Some(i) => i.kind == 0 && i.extent_start >= fs.data_start && i.extent_blocks >= blocks && i.extent_start == start,
        None => false,
    }
}


impl Volume {
    /// A free inode: the first table slot of kind 0, or a new slot at the end
    /// of the table (recorded in the superblock) while the table has room.
    pub fn allocate_inode(&mut self, fs: Superblock) -> (r: Option<(Superblock, u32)>)
        requires old(self).wf(), fs.block_size == 512,
        ensures
            final(self).wf(),
            r matches Some((fs2, n)) ==> fs2.block_size == 512 && 1 <= n <= fs2.inode_count,
            r matches Some((fs2, n)) ==> (fs2 == fs && final(self).disk@ == old(self).disk@
                    && final(self).mount_cache == old(self).mount_cache
                    && free_inode_at(old(self).disk@, fs, n)
                    && forall|m: u32| 1 <= m < n ==> !free_inode_at(old(self).disk@, fs, m))
                || (fs2 == Superblock { inode_count: (fs.inode_count + 1) as u32, ..fs } && n == fs.inode_count + 1
                    && fs.inode_count < MAX_INODES
                    && fs.inode_count < (fs.inode_table_blocks as int * 512) % 4294967296 / 128
                    && final(self).mount_cache == Some(fs2)),
            r == inode_alloc(old(self).disk@, fs),
            first_free_inode(old(self).disk@, fs, 1) is Some || r is None ==> *final(self) == *old(self),
            first_free_inode(old(self).disk@, fs, 1) is None ==> (r matches Some((fs2, n)) ==>
                final(self).mount_cache == Some(fs2) && final(self).disk@ == superblock_written(old(self).disk@, fs2)),
    {
        let mut n: u64 = 1;
        while n <= fs.inode_count as u64
            invariant
                1 <= n <= fs.inode_count as u64 + 1,
                fs.block_size == 512,
                self.wf(),
                *self == *old(self),
                forall|m: u32| 1 <= m < n ==> !free_inode_at(self.disk@, fs, m),
                first_free_inode(self.disk@, fs, 1) == first_free_inode(self.disk@, fs, n as int),
            decreases fs.inode_count as u64 + 1 - n,
        {
            match self.read_inode(fs, n as u32) {
                Some(inode) => {
                    if inode.kind == 0 {
                        return Some((fs, n as u32));
                    }
                },
                None => {},
            }
            n += 1;
        }
        let limit = fs.inode_table_blocks.wrapping_mul(512) / 128;
        if fs.inode_count >= limit || fs.inode_count >= MAX_INODES {
            return None;
        }
        let fs2 = Superblock { inode_count: fs.inode_count + 1, ..fs };
        if self.write_mount(fs2) {
            Some((fs2, fs2.inode_count))
        } else {
            None
        }
    }

    /// Marks `inode` free, keeping its extent for reuse.
    pub fn release_inode(&mut self, fs: Superblock, inode: Inode) -> (r: bool)
        requires old(self).wf(), fs.block_size == 512,
        ensures
            final(self).wf(),
            final(self).mount_cache == old(self).mount_cache,
            ({
                let freed = Inode { kind: 0, size: 0, ..inode };
                let bo = inode_byte_offset(fs, inode.number);
                let lba = (bo / 512) as u32;
                &&& r <==> inode_writable(fs, freed) && old(self).disk.in_range(lba as int, 1)
                &&& r ==> final(self).disk@ == splice(old(self).disk@, lba as int * 512 + bo % 512, inode_record(freed))
                &&& !r ==> final(self).disk@ == old(self).disk@
            }),
    {
        self.write_inode(fs, Inode { number: inode.number, kind: 0, size: 0, extent_start: inode.extent_start, extent_blocks: inode.extent_blocks })
    }

    /// `blocks` contiguous free blocks: carved from the extent of the first
    /// free inode that has enough, or taken from the end of the used area
    /// (recorded in the superblock, bounded by the volume size when known).
    pub fn allocate_blocks(&mut self, fs: Superblock, blocks: u32) -> (r: Option<(Superblock, u32)>)
        requires old(self).wf(), fs.block_size == 512,
        ensures
            final(self).wf(),
            blocks == 0 ==> r == Some((fs, 0u32)) && *final(self) == *old(self),
            r matches Some((fs2, start)) ==> fs2.block_size == 512,
            blocks != 0 ==> (r matches Some((fs2, start)) ==>
                (fs2 == fs && exists|m: u32| spare_extent(old(self).disk@, fs, m, blocks, start))
                || (start == fs.next_free_block && fs2 == Superblock { next_free_block: (start + blocks) as u32, ..fs }
                    && start + blocks <= u32::MAX
                    && (fs.total_blocks == 0 || start + blocks <= fs.total_blocks)
                    && final(self).mount_cache == Some(fs2))),
            (r, final(self).disk@) == block_alloc(old(self).disk@, fs, blocks),
            blocks == 0 || first_spare(old(self).disk@, fs, blocks, 1) is Some || r is None
                ==> final(self).mount_cache == old(self).mount_cache,
    {
        if blocks == 0 {
            return Some((fs, 0));
        }
        let mut n: u64 = 1;
        while n <= fs.inode_count as u64
            invariant
                1 <= n <= fs.inode_count as u64 + 1,
                fs.block_size == 512,
                blocks != 0,
                self.wf(),
                *self == *old(self),
                first_spare(self.disk@, fs, blocks, 1) == first_spare(self.disk@, fs, blocks, n as int),
            decreases fs.inode_count as u64 + 1 - n,
        {
            match self.read_inode(fs, n as u32) {
                Some(inode) => {
                    if inode.kind == 0 && inode.extent_start >= fs.data_start && inode.extent_blocks >= blocks
                        && inode.extent_blocks != 0 {
                        let start = inode.extent_start;
                        let remaining = inode.extent_blocks - blocks;
                        let free_inode = Inode {
                            number: inode.number,
                            kind: 0,
                            size: 0,
                            extent_start: if remaining == 0 { 0 } else { inode.extent_start.wrapping_add(blocks) },
                            extent_blocks: remaining,
                        };
                        proof { assert(spare_extent(old(self).disk@, fs, n as u32, blocks, start)); }
                        if !self.write_inode(fs, free_inode) {
                            return None;
                        }
                        return Some((fs, start));
                    }
                },
                None => {},
            }
            n += 1;
        }
        let start = fs.next_free_block;
        let next = match start.checked_add(blocks) { Some(v) => v, None => return None };
        if fs.total_blocks != 0 && next > fs.total_blocks {
            return None;
        }
        let fs2 = Superblock { next_free_block: next, ..fs };
        if self.write_mount(fs2) {
            Some((fs2, start))
        } else {
            None
        }
    }

    /// Writes a fresh directory holding `.` and `..` at block `extent_start`;
    /// returns its size.
    pub fn write_empty_dir(&mut self, extent_start: u32, self_inode: u32, parent_inode: u32) -> (r: Option<usize>)
        requires old(self).wf(),
        ensures
            final(self).wf(),
            final(self).mount_cache == old(self).mount_cache,
            r is Some <==> old(self).disk.in_range(extent_start as int, 1),
            r matches Some(n) ==> n == 24 && final(self).disk@ == splice(old(self).disk@, extent_start as int * 512,
                dir_record(dot(), self_inode, KIND_DIR, 12) + dir_record(dotdot(), parent_inode, KIND_DIR, 12) + zeros(488)),
            r is None ==> final(self).disk@ == old(self).disk@,
    {
        let mut data: Vec<u8> = vec![0u8; SECTOR_SIZE];
        let one: [u8; 1] = [46];
        let two: [u8; 2] = [46, 46];
        proof { assert(one@ =~= dot()); assert(two@ =~= dotdot()); }
        let mut offset: usize = 0;
        offset += write_dir_record(&mut data, offset, 12, &one, self_inode, KIND_DIR);
        offset += write_dir_record(&mut data, offset, 12, &two, parent_inode, KIND_DIR);
        let ghost d = data@;
        let ok = self.write_extent(extent_start, offset, &data);
        proof {
            let want = dir_record(dot(), self_inode, KIND_DIR, 12) + dir_record(dotdot(), parent_inode, KIND_DIR, 12) + zeros(488);
            assert(d.subrange(0, 24) + zeros(488) =~= want);
            assert(blocks_for(24) == 1);
        }
        if ok { Some(offset) } else { None }
    }
}


/// Whether directory data `data` holds, from `off`, only free records and
/// the records `.` and `..`.
pub open spec fn only_dots_from(data: Seq<u8>, off: int) -> bool
    decreases data.len() - off,
{
    if off < 0 || off + 8 > data.len() {
        true
    } else {
        let nl = le16(data, off + 4);
        let kind = le16(data, off + 6);
        let next = align4(off + 8 + nl);
        let name = data.subrange(off + 8, off + 8 + nl);
        if next > data.len() {
            false
        } else if kind != 0 && name != dot() && name != dotdot() {
            false
        } else if next > off {
            only_dots_from(data, next)
        } else {
            false
        }
    }
}

/// Extends `buf` with zeros to `n` bytes.
/// The offset of the first record of directory data `data`, from `off`
/// on, whose kind is `kind` and whose name is `name`; the walk stops at a
/// record that runs past the end.
pub open spec fn record_walk(data: Seq<u8>, name: Seq<u8>, kind: u16, off: int) -> Option<int>
    decreases data.len() - off,
{
    if off < 0 || off + 8 > data.len() {
        None
    } else {
        let nl = le16(data, off + 4);
        let next = align4(off + 8 + nl);
        if next > data.len() {
            None
        } else if le16(data, off + 6) == kind && data.subrange(off + 8, off + 8 + nl) == name {
            Some(off)
        } else if next > off {
            record_walk(data, name, kind, next)
        } else {
            None
        }
    }
}

/// What freeing the record `name` of `kind` in directory `dir` finds: the
/// record's offset in the directory data and the inode it names.
pub open spec fn removal(disk: Seq<u8>, dir: Inode, name: Seq<u8>, kind: u16) -> Option<(int, u32)> {
    if dir.kind != KIND_DIR {
        None
    } else {
        match dir_data(disk, dir) {
            None => None,
            Some(data) => match record_walk(data, name, kind, 0) {
                Some(off) => Some((off, le32(data, off) as u32)),
                None => None,
            },
        }
    }
}

/// Walks directory data `data` from `off` for a free record (kind 0) of at
/// least `record_len` bytes: `Some(Some(at))` for the first one,
/// `Some(None)` when the records end first, `None` at a record that runs
/// past the end.
pub open spec fn slot_walk(data: Seq<u8>, record_len: int, off: int) -> Option<Option<int>>
    decreases data.len() - off,
{
    if off < 0 || off + 8 > data.len() {
        Some(None)
    } else {
        let entry_len = align4(8 + le16(data, off + 4));
        if off + entry_len > data.len() {
            None
        } else if le16(data, off + 6) == 0 && entry_len >= record_len {
            Some(Some(off))
        } else if entry_len > 0 {
            slot_walk(data, record_len, off + entry_len)
        } else {
            None
        }
    }
}

/// What a disk write of the first `size` bytes of `data` as the extent at
/// block `start` leaves on `disk` (the rest of its last block zeroed; an
/// empty extent still has one block).
pub open spec fn extent_written(disk: Seq<u8>, start: u32, size: int, data: Seq<u8>) -> Seq<u8> {
    let blocks = blocks_for(if size == 0 { 1 } else { size });
    splice(disk, start as int * 512, data.subrange(0, size) + zeros((blocks * 512 - size) as nat))
}

/// Adding the record `name -> inode` of `kind` to directory `dir` on
/// `disk`: whether it succeeds, and the disk after. A free record with
/// room is reused in place; otherwise the record goes at the end, within
/// the directory's extent and capacity, and the grown inode is written
/// (its data stays written when that last write fails).
pub open spec fn append_effect(disk: Seq<u8>, fs: Superblock, dir: Inode, name: Seq<u8>, inode: u32, kind: u16) -> (bool, Seq<u8>) {
    if dir.kind != KIND_DIR {
        (false, disk)
    } else {
        match dir_data(disk, dir) {
            None => (false, disk),
            Some(data) => {
                let size = dir.size as int;
                let record_len = align4(8 + name.len() as int);
                let buffer = data + zeros((DIR_CAP - size) as nat);
                match slot_walk(data, record_len, 0) {
                    None => (false, disk),
                    Some(Some(at)) => {
                        let entry_len = align4(8 + le16(data, at + 4));
                        (true, extent_written(disk, dir.extent_start, size,
                            splice(buffer, at, dir_record(name, inode, kind, entry_len as nat))))
                    },
                    Some(None) => {
                        let next_size = size + record_len;
                        if next_size > dir.extent_blocks as int * 512 || next_size > DIR_CAP
                            || (dir.extent_start as int + blocks_for(next_size)) * 512 > disk.len() {
                            (false, disk)
                        } else {
                            let grown = Inode { size: next_size as usize, ..dir };
                            let written = extent_written(disk, dir.extent_start, next_size,
                                splice(buffer, size, dir_record(name, inode, kind, record_len as nat)));
                            let bo = inode_byte_offset(fs, grown.number);
                            let lba = (bo / 512) as u32;
                            if inode_writable(fs, grown) && (lba as int + 1) * 512 <= disk.len() {
                                (true, splice(written, lba as int * 512 + bo % 512, inode_record(grown)))
                            } else {
                                (false, written)
                            }
                        }
                    },
                }
            },
        }
    }
}

/// Writing the record of `inode` into the inode table on `disk`: whether
/// it succeeds, and the disk after.
pub open spec fn inode_write(disk: Seq<u8>, fs: Superblock, inode: Inode) -> (bool, Seq<u8>) {
    let bo = inode_byte_offset(fs, inode.number);
    let lba = (bo / 512) as u32;
    if inode_writable(fs, inode) && (lba as int + 1) * 512 <= disk.len() {
        (true, splice(disk, lba as int * 512 + bo % 512, inode_record(inode)))
    } else {
        (false, disk)
    }
}

/// The disk after freeing the record `name` of `kind` in directory `dir`
/// (unchanged when there is none).
pub open spec fn removal_disk(disk: Seq<u8>, dir: Inode, name: Seq<u8>, kind: u16) -> Seq<u8> {
    match removal(disk, dir, name, kind) {
        Some((off, ino)) => extent_written(disk, dir.extent_start, dir.size as int,
            put_le(dir_data(disk, dir).unwrap(), off + 6, 0, 2)),
        None => disk,
    }
}

pub fn padded(buf: &[u8], n: usize) -> (r: Vec<u8>)
    requires buf@.len() <= n,
    ensures r@ == buf@ + zeros((n - buf@.len()) as nat), r@.len() == n,
{
    let mut out: Vec<u8> = vec![0u8; n];
    copy_into(&mut out, 0, buf);
    proof { assert(out@ =~= buf@ + zeros((n - buf@.len()) as nat)); }
    out
}

impl Volume {
    /// Adds the record `name -> inode` of `kind` to directory `dir`: into the
    /// first free record with room, or at the end (growing the directory
    /// within its extent and directory capacity, and rewriting its inode).
    pub fn append_dir_entry(&mut self, fs: Superblock, dir: Inode, name: &[u8], inode: u32, kind: u16) -> (r: bool)
        requires old(self).wf(), fs.block_size == 512, name@.len() <= 255,
        ensures
            final(self).wf(),
            final(self).mount_cache == old(self).mount_cache,
            (r, final(self).disk@) == append_effect(old(self).disk@, fs, dir, name@, inode, kind),
    {
        if dir.kind != KIND_DIR || dir.size > DIR_CAP {
            return false;
        }
        let record_len = align_up(8 + name.len(), 4);
        let data = match self.read_dir_data(dir) { Some(d) => d, None => return false };
        let mut buffer = padded(&data, DIR_CAP);
        let size = dir.size;
        let mut offset: usize = 0;
        while offset + 8 <= size
            invariant
                self.wf(),
                *self == *old(self),
                size == dir.size,
                size <= DIR_CAP,
                buffer@.len() == DIR_CAP,
                offset <= size + 8,
                record_len == align4(8 + name@.len() as int),
                dir.kind == KIND_DIR,
                dir_data(old(self).disk@, dir) is Some,
                name@.len() <= 255,
                fs.block_size == 512,
                dir_data(old(self).disk@, dir) == Some(data@),
                buffer@ == data@ + zeros((DIR_CAP - size) as nat),
                slot_walk(data@, record_len as int, 0) == slot_walk(data@, record_len as int, offset as int),
            decreases size + 8 - offset,
        {
            let name_len = read_u16(&buffer, offset + 4).unwrap() as usize;
            let entry_kind = read_u16(&buffer, offset + 6).unwrap();
            let entry_len = align_up(8 + name_len, 4);
            proof { lemma_align4_ge(8 + name_len); }
            let next = offset + entry_len;
            if next > size {
                return false;
            }
            if entry_kind == 0 && entry_len >= record_len {
                write_dir_record(&mut buffer, offset, entry_len, name, inode, kind);
                if !self.write_extent(dir.extent_start, size, &buffer) {
                    return false;
                }
                return true;
            }
            offset = next;
        }
        let next_size = size + record_len;
        if next_size as u64 > dir.extent_blocks as u64 * 512 || next_size > DIR_CAP {
            return false;
        }
        write_dir_record(&mut buffer, size, record_len, name, inode, kind);
        if !self.write_extent(dir.extent_start, next_size, &buffer) {
            return false;
        }
        let grown = Inode { size: next_size, ..dir };
        self.write_inode(fs, grown)
    }

    /// Frees the record of `name` of `expected_kind` in directory `dir`;
    /// returns the inode it named. The directory's extent is written back
    /// with the record's kind cleared (and the rest of its last block zeroed).
    pub fn remove_dir_entry(&mut self, dir: Inode, name: &[u8], expected_kind: u16) -> (r: Option<u32>)
        requires old(self).wf(),
        ensures
            final(self).wf(),
            final(self).mount_cache == old(self).mount_cache,
            r == (match removal(old(self).disk@, dir, name@, expected_kind) {
                Some((off, ino)) => Some(ino),
                None => None,
            }),
            final(self).disk@ == removal_disk(old(self).disk@, dir, name@, expected_kind),
    {
        if dir.kind != KIND_DIR || dir.size > DIR_CAP {
            return None;
        }
        let mut data = match self.read_dir_data(dir) { Some(d) => d, None => return None };
        let size = dir.size;
        let ghost d0 = data@;
        let mut offset: usize = 0;
        while offset + 8 <= size
            invariant
                self.wf(),
                *self == *old(self),
                size == dir.size,
                size <= DIR_CAP,
                data@.len() == size,
                data@ == d0,
                offset <= size + 8,
                dir.kind == KIND_DIR,
                dir_data(old(self).disk@, dir) == Some(d0),
                record_walk(d0, name@, expected_kind, 0) == record_walk(d0, name@, expected_kind, offset as int),
            decreases size + 8 - offset,
        {
            let inode = read_u32(&data, offset).unwrap();
            let name_len = read_u16(&data, offset + 4).unwrap() as usize;
            let kind = read_u16(&data, offset + 6).unwrap();
            let next = align_up(offset + 8 + name_len, 4);
            proof { lemma_align4_ge(offset + 8 + name_len); }
            if next > size {
                return None;
            }
            if kind == expected_kind && range_equals(&data, offset + 8, offset + 8 + name_len, name) {
                write_u16(&mut data, offset + 6, 0);
                let ok = self.write_extent(dir.extent_start, size, &data);
                proof {
                    assert(data@.subrange(0, size as int) =~= data@);
                    assert(ok);
                }
                return Some(inode);
            }
            offset = next;
        }
        None
    }

    /// Whether directory `dir` holds nothing but `.` and `..`.
    pub fn dir_is_empty(&self, dir: Inode) -> (r: bool)
        ensures
            r == (dir.kind == KIND_DIR && match dir_data(self.disk@, dir) {
                Some(data) => only_dots_from(data, 0),
                None => false,
            }),
    {
        if dir.kind != KIND_DIR || dir.size > DIR_CAP {
            return false;
        }
        let data = match self.read_dir_data(dir) { Some(d) => d, None => return false };
        let one: [u8; 1] = [46];
        let two: [u8; 2] = [46, 46];
        proof { assert(one@ =~= dot()); assert(two@ =~= dotdot()); }
        let mut offset: usize = 0;
        while offset + 8 <= data.len()
            invariant
                data@.len() <= DIR_CAP,
                one@ == dot(),
                two@ == dotdot(),
                dir.kind == KIND_DIR,
                Some(data@) == dir_data(self.disk@, dir),
                offset <= data@.len() + 8,
                only_dots_from(data@, 0) == only_dots_from(data@, offset as int),
            decreases data@.len() + 8 - offset,
        {
            let name_len = read_u16(&data, offset + 4).unwrap() as usize;
            let kind = read_u16(&data, offset + 6).unwrap();
            let next = align_up(offset + 8 + name_len, 4);
            proof { lemma_align4_ge(offset + 8 + name_len); }
            if next > data.len() {
                return false;
            }
            if kind != 0 && !range_equals(&data, offset + 8, offset + 8 + name_len, &one)
                && !range_equals(&data, offset + 8, offset + 8 + name_len, &two) {
                return false;
            }
            offset = next;
        }
        true
    }
}


/// A path's normalized form, when it has one.
pub open spec fn normalized(path: Seq<u8>) -> Option<Seq<u8>> {
    match normalized_len(path) {
        Some(n) => Some(path.subrange(0, n as int)),
        None => None,
    }
}

impl Nkfs {
    /// Takes RAM file `i` out of the table (a free slot stands in).
    fn take_file(&mut self, i: usize) -> (f: RamFile)
        requires old(self).wf(), i < RAM_FILE_COUNT,
        ensures
            f == old(self).ram_files@[i as int],
            final(self).ram_files@ == old(self).ram_files@.remove(i as int),
            final(self).volume == old(self).volume,
    {
        self.ram_files.remove(i)
    }

    /// Puts RAM file `f` back at `i`.
    fn put_file(&mut self, i: usize, f: RamFile)
        requires old(self).ram_files@.len() == RAM_FILE_COUNT - 1, i < RAM_FILE_COUNT,
        ensures
            final(self).ram_files@ == old(self).ram_files@.insert(i as int, f),
            final(self).volume == old(self).volume,
    {
        self.ram_files.insert(i, f);
    }

    /// Writes open RAM file `index` back to its inode, growing its extent
    /// (with fresh blocks) when the contents no longer fit.
    #[verifier::rlimit(50)]
    #[verifier::spinoff_prover]
    pub fn flush_writable_file(&mut self, index: usize) -> (r: bool)
        requires old(self).wf(),
        ensures
            final(self).wf(),
            final(self).ram_files@.len() == RAM_FILE_COUNT,
            forall|i: int| 0 <= i < RAM_FILE_COUNT && i != index ==> final(self).ram_files@[i] == old(self).ram_files@[i],
            index < RAM_FILE_COUNT ==> {
                let f0 = old(self).ram_files@[index as int];
                let f1 = final(self).ram_files@[index as int];
                f1.used == f0.used && f1.path == f0.path && f1.data == f0.data && f1.len == f0.len && f1.inode == f0.inode
            },
            r ==> index < RAM_FILE_COUNT && old(self).ram_files@[index as int].used && old(self).ram_files@[index as int].inode != 0
                && !final(self).ram_files@[index as int].dirty,
            index >= RAM_FILE_COUNT ==> !r && final(self).volume.disk@ == old(self).volume.disk@,
            index < RAM_FILE_COUNT ==> {
                let (ok, disk, start, blocks) = flush_of(old(self).volume.disk@, old(self).volume.mounted(), old(self).ram_files@[index as int]);
                &&& r == ok
                &&& final(self).volume.disk@ == disk
                &&& final(self).ram_files@[index as int].extent_start == start
                &&& final(self).ram_files@[index as int].extent_blocks == blocks
            },
    {
        proof { reveal(flush_effect); }
        if index >= RAM_FILE_COUNT {
            return false;
        }
        let fs = match self.volume.mount() { Some(fs) => fs, None => return false };
        let mut file = self.take_file(index);
        if !file.used || file.inode == 0 {
            self.put_file(index, file);
            proof { assert(self.ram_files@ =~= old(self).ram_files@); }
            return false;
        }
        let mut fs = fs;
        let needed = align_up(if file.len == 0 { 1 } else { file.len }, SECTOR_SIZE) / SECTOR_SIZE;
        if needed as u64 > file.extent_blocks as u64 {
            match self.volume.allocate_blocks(fs, needed as u32) {
                Some((next_fs, start)) => {
                    fs = next_fs;
                    file.extent_start = start;
                    file.extent_blocks = needed as u32;
                },
                None => {
                    self.put_file(index, file);
                    proof { assert(self.ram_files@ =~= old(self).ram_files@); }
                    return false;
                },
            }
        }
        let head = copy_range(&file.data, 0, file.len);
        if !self.volume.write_extent(file.extent_start, file.len, &head) {
            self.put_file(index, file);
            proof { assert(self.ram_files@ =~= old(self).ram_files@.update(index as int, self.ram_files@[index as int])); }
            return false;
        }
        let inode = Inode { number: file.inode, kind: KIND_FILE, size: file.len, extent_start: file.extent_start, extent_blocks: file.extent_blocks };
        if !self.volume.write_inode(fs, inode) {
            self.put_file(index, file);
            proof { assert(self.ram_files@ =~= old(self).ram_files@.update(index as int, self.ram_files@[index as int])); }
            return false;
        }
        file.dirty = false;
        self.put_file(index, file);
        proof { assert(self.ram_files@ =~= old(self).ram_files@.update(index as int, self.ram_files@[index as int])); }
        true
    }
}


/// Writing back an open file (`used`, with inode `inode`, `contents` and
/// the extent at `extent_start` of `extent_blocks` blocks) on `disk`
/// mounted as `mounted`: a fresh extent is allocated when the contents no
/// longer fit the file's own, the contents are written there and then its
/// inode. Whether that succeeds,
/// the disk after, and the extent the file has after.
#[verifier::opaque]
pub open spec fn flush_effect(disk: Seq<u8>, mounted: Option<Superblock>, used: bool, inode: u32, contents: Seq<u8>,
    extent_start: u32, extent_blocks: u32) -> (bool, Seq<u8>, u32, u32)
{
    match mounted {
        None => (false, disk, extent_start, extent_blocks),
        Some(fs) => if !used || inode == 0 {
            (false, disk, extent_start, extent_blocks)
        } else {
            let size = contents.len() as int;
            let needed = blocks_for(if size == 0 { 1 } else { size });
            let (alloc, d1) = if needed > extent_blocks {
                block_alloc(disk, fs, needed as u32)
            } else {
                (Some((fs, extent_start)), disk)
            };
            match alloc {
                None => (false, d1, extent_start, extent_blocks),
                Some((fs2, s0)) => {
                    let start = if needed > extent_blocks { s0 } else { extent_start };
                    let blocks = if needed > extent_blocks { needed as u32 } else { extent_blocks };
                    if (start as int + needed) * 512 > d1.len() {
                        (false, d1, start, blocks)
                    } else {
                        let d2 = extent_written(d1, start, size, contents);
                        let (ok, d3) = inode_write(d2, fs2, Inode { number: inode, kind: KIND_FILE, size: size as usize, extent_start: start, extent_blocks: blocks });
                        (ok, d3, start, blocks)
                    }
                },
            }
        },
    }
}

/// Writing RAM file `f` back: `flush_effect` of its contents and extent.
pub open spec fn flush_of(disk: Seq<u8>, mounted: Option<Superblock>, f: RamFile) -> (bool, Seq<u8>, u32, u32) {
    flush_effect(disk, mounted, f.used, f.inode, f.contents(), f.extent_start, f.extent_blocks)
}

/// The bytes of inode `n` of the volume `fs` on `disk`, when it is a
/// regular file whose extent lies on the disk (the rule `disk_file`
/// applies to the inode a path names).
pub open spec fn inode_file(disk: Seq<u8>, fs: Superblock, n: u32) -> Option<Seq<u8>> {
    match inode_spec(disk, fs, n) {
        Some(inode) => if inode.kind != KIND_FILE || inode.size > MAX_FILE_SIZE
            || !((inode.extent_start as int + blocks_for(inode.size as int)) * 512 <= disk.len()) {
            None
        } else {
            Some(disk.subrange(inode.extent_start as int * 512, inode.extent_start as int * 512 + inode.size))
        },
        None => None,
    }
}

/// Where the record of inode `n` starts on the disk.
pub open spec fn inode_record_at(fs: Superblock, n: u32) -> int {
    let bo = inode_byte_offset(fs, n);
    (bo / 512) as u32 as int * 512 + bo % 512
}

/// An inode a path resolves to is that inode as the table holds it.
proof fn lemma_resolve_from_table(disk: Seq<u8>, fs: Superblock, path: Seq<u8>, cursor: int, ino: u32)
    requires resolve_from(disk, fs, path, cursor, ino) is Some,
    ensures ({
        let i = resolve_from(disk, fs, path, cursor, ino).unwrap();
        inode_spec(disk, fs, i.number) == Some(i)
    }),
    decreases path.len() - cursor,
{
    let end = component_end(path, cursor);
    let name = path.subrange(cursor, end);
    let step: Option<u32> = if name.len() == 0 || name == dot() {
        Some(ino)
    } else {
        match inode_spec(disk, fs, ino) {
            Some(dir) => if dir.kind != KIND_DIR { None } else { lookup(disk, dir, name) },
            None => None,
        }
    };
    match step {
        None => {},
        Some(next) => {
            let c2 = skip_slashes(path, end);
            if c2 >= path.len() || path[c2] == 0 {
            } else if c2 > cursor && 0 <= cursor {
                lemma_resolve_from_table(disk, fs, path, c2, next);
            }
        },
    }
}

/// Allocating blocks leaves the inode table where it was.
proof fn lemma_block_alloc_table(disk: Seq<u8>, fs: Superblock, blocks: u32)
    requires block_alloc(disk, fs, blocks).0 is Some,
    ensures ({
        let fs2 = block_alloc(disk, fs, blocks).0.unwrap().0;
        &&& fs2.inode_table_start == fs.inode_table_start
        &&& fs2.block_size == fs.block_size
        &&& fs2.inode_count == fs.inode_count
        &&& fs2.inode_table_blocks == fs.inode_table_blocks
    }),
{
}

/// A successful write-back, taken apart: the disk `d2` with the contents
/// written to the extent, and the superblock `fs2` the inode is written
/// with; the final disk is `d2` with the inode's record put in place.
#[verifier::rlimit(60)]
#[verifier::spinoff_prover]
proof fn lemma_flush_parts(disk: Seq<u8>, fs: Superblock, used: bool, inode: u32, contents: Seq<u8>,
    extent_start: u32, extent_blocks: u32) -> (r: (Seq<u8>, Superblock))
    requires flush_effect(disk, Some(fs), used, inode, contents, extent_start, extent_blocks).0,
    ensures ({
        let (ok, d, start, blocks) = flush_effect(disk, Some(fs), used, inode, contents, extent_start, extent_blocks);
        let (d2, fs2) = r;
        let size = contents.len() as int;
        let rec = Inode { number: inode, kind: KIND_FILE, size: size as usize, extent_start: start, extent_blocks: blocks };
        &&& inode_byte_offset(fs2, inode) == inode_byte_offset(fs, inode)
        &&& fs2.inode_count == fs.inode_count
        &&& inode_writable(fs2, rec)
        &&& ((inode_byte_offset(fs2, inode) / 512) as u32 as int + 1) * 512 <= d2.len()
        &&& d == splice(d2, inode_record_at(fs, inode), inode_record(rec))
        &&& (start as int + blocks_for(size)) * 512 <= d2.len()
        &&& d2.subrange(start as int * 512, start as int * 512 + size) == contents
    }),
{
    reveal(flush_effect);
    let size = contents.len() as int;
    let needed = blocks_for(if size == 0 { 1 } else { size });
    if needed > extent_blocks {
        lemma_block_alloc_table(disk, fs, needed as u32);
    }
    let (alloc, d1) = if needed > extent_blocks {
        block_alloc(disk, fs, needed as u32)
    } else {
        (Some((fs, extent_start)), disk)
    };
    let (fs2, s0) = alloc.unwrap();
    let start = if needed > extent_blocks { s0 } else { extent_start };
    let data = contents.subrange(0, size) + zeros((needed * 512 - size) as nat);
    let d2 = extent_written(d1, start, size, contents);
    let base = start as int * 512;
    assert(blocks_for(size) <= needed);
    assert(d2.subrange(base, base + size) =~= contents) by {
        assert forall|k: int| 0 <= k < size implies #[trigger] d2[base + k] == contents[k] by {
            assert(d2[base + k] == data[k]);
        }
    }
    (d2, fs2)
}

/// A write-back is read back: after a successful write-back of `contents`
/// to inode `inode` of the volume `fs`, the inode on the new disk is a
/// regular file of that size in the extent the write-back used, its bytes
/// are `contents`, and every path naming that inode reads `contents`.
/// (Left out: an extent that covers the inode's own record, which the
/// record then overwrites.)
#[verifier::rlimit(60)]
#[verifier::spinoff_prover]
pub proof fn lemma_flush_then_read(disk: Seq<u8>, fs: Superblock, used: bool, inode: u32, contents: Seq<u8>,
    extent_start: u32, extent_blocks: u32)
    requires
        flush_effect(disk, Some(fs), used, inode, contents, extent_start, extent_blocks).0,
        contents.len() <= MAX_FILE_SIZE,
        ({
            let start = flush_effect(disk, Some(fs), used, inode, contents, extent_start, extent_blocks).2;
            let at = inode_record_at(fs, inode);
            start as int * 512 + contents.len() <= at || at + 128 <= start as int * 512
        }),
    ensures ({
        let (ok, d, start, blocks) = flush_effect(disk, Some(fs), used, inode, contents, extent_start, extent_blocks);
        &&& inode_spec(d, fs, inode) == Some(Inode { number: inode, kind: KIND_FILE, size: contents.len() as usize,
                extent_start: start, extent_blocks: blocks })
        &&& inode_file(d, fs, inode) == Some(contents)
        &&& forall|path: Seq<u8>| #[trigger] resolve_spec(d, fs, path) matches Some(i) && i.number == inode
                ==> disk_file(d, fs, path) == Some(contents)
    }),
{
    let (ok, d3, start, blocks) = flush_effect(disk, Some(fs), used, inode, contents, extent_start, extent_blocks);
    let (d2, fs2) = lemma_flush_parts(disk, fs, used, inode, contents, extent_start, extent_blocks);
    let size = contents.len() as int;
    let rec = Inode { number: inode, kind: KIND_FILE, size: size as usize, extent_start: start, extent_blocks: blocks };
    lemma_inode_record_roundtrip(d2, fs2, rec);
    assert(inode_spec(d3, fs2, inode) == Some(rec));
    assert(inode_spec(d3, fs, inode) == Some(rec));
    let at = inode_record_at(fs, inode);
    let base = start as int * 512;
    assert(d3.subrange(base, base + size) =~= contents) by {
        assert forall|k: int| 0 <= k < size implies #[trigger] d3[base + k] == contents[k] by {
            assert(d2.subrange(base, base + size)[k] == contents[k]);
        }
    }
    assert(inode_file(d3, fs, inode) == Some(contents));
    assert forall|path: Seq<u8>| #[trigger] resolve_spec(d3, fs, path) matches Some(i) && i.number == inode
        implies disk_file(d3, fs, path) == Some(contents) by {
        let c = skip_slashes(path, 0);
        if c < path.len() {
            lemma_resolve_from_table(d3, fs, path, c, fs.root_inode);
        }
    }
}

/// Whether `path` can get a new entry: its parent resolves to a directory
/// that has no entry of its name.
pub open spec fn creatable(disk: Seq<u8>, fs: Superblock, path: Seq<u8>) -> bool {
    match split_spec(path) {
        Some((parent, name)) => match resolve_spec(disk, fs, parent) {
            Some(pi) => pi.kind == KIND_DIR && lookup(disk, pi, name) is None,
            None => false,
        },
        None => false,
    }
}

/// Whether `path`'s parent resolves and lists its name.
pub open spec fn listed(disk: Seq<u8>, fs: Superblock, path: Seq<u8>) -> bool {
    match split_spec(path) {
        Some((parent, name)) => match resolve_spec(disk, fs, parent) {
            Some(pi) => lookup(disk, pi, name) is Some,
            None => false,
        },
        None => false,
    }
}

/// Whether `path` is valid and not the root.
pub open spec fn proper_path(path: Seq<u8>) -> bool {
    match normalized(path) { Some(p) => p != root_path(), None => false }
}

/// Whether the volume is mounted and `pred` holds of it.
pub open spec fn mounted_and(v: Volume, path: Seq<u8>, listed_not_creatable: bool) -> bool {
    match v.mounted() {
        Some(fs) => if listed_not_creatable { listed(v.disk@, fs, path) } else { creatable(v.disk@, fs, path) },
        None => false,
    }
}

/// Removing the regular file `path` from the volume on `disk` mounted as
/// `mounted`: its record is freed in its parent directory, then its inode,
/// when it is a regular file. Whether that succeeds, and the disk after.
pub open spec fn unlink_effect(disk: Seq<u8>, mounted: Option<Superblock>, path: Seq<u8>) -> (bool, Seq<u8>) {
    match mounted {
        None => (false, disk),
        Some(fs) => match split_spec(path) {
            None => (false, disk),
            Some((parent_path, name)) => match resolve_spec(disk, fs, parent_path) {
                None => (false, disk),
                Some(parent) => match removal(disk, parent, name, KIND_FILE) {
                    None => (false, disk),
                    Some((off, n)) => {
                        let d1 = removal_disk(disk, parent, name, KIND_FILE);
                        match inode_spec(d1, fs, n) {
                            Some(inode) => if inode.kind == KIND_FILE {
                                inode_write(d1, fs, Inode { kind: 0, size: 0, ..inode })
                            } else {
                                (false, d1)
                            },
                            None => (false, d1),
                        }
                    },
                },
            },
        },
    }
}

/// The disk after `allocate_inode`: the superblock is written only when a
/// new inode is added at the end of the table.
pub open spec fn inode_alloc_disk(disk: Seq<u8>, fs: Superblock) -> Seq<u8> {
    match (first_free_inode(disk, fs, 1), inode_alloc(disk, fs)) {
        (None, Some((fs2, n))) => superblock_written(disk, fs2),
        _ => disk,
    }
}

/// Creating the empty regular file `path` on `disk` mounted as `fs`: its
/// parent must be a directory without that name; an inode and a one-block
/// extent are allocated, the inode written, the record added and the
/// block zeroed. The inode and first block, and the disk after.
#[verifier::opaque]
pub open spec fn create_file_effect(disk: Seq<u8>, fs: Superblock, path: Seq<u8>) -> (Option<(u32, u32)>, Seq<u8>) {
    match split_spec(path) {
        None => (None, disk),
        Some((parent_path, name)) => match resolve_spec(disk, fs, parent_path) {
            None => (None, disk),
            Some(parent) => if parent.kind != KIND_DIR || lookup(disk, parent, name) is Some {
                (None, disk)
            } else {
                match inode_alloc(disk, fs) {
                    None => (None, disk),
                    Some((fs1, n)) => {
                        let (b, d2) = block_alloc(inode_alloc_disk(disk, fs), fs1, 1);
                        match b {
                            None => (None, d2),
                            Some((fs2, start)) => {
                                let (ok, d3) = inode_write(d2, fs2, Inode { number: n, kind: KIND_FILE, size: 0, extent_start: start, extent_blocks: 1 });
                                if !ok {
                                    (None, d3)
                                } else {
                                    let (added, d4) = append_effect(d3, fs2, parent, name, n, KIND_FILE);
                                    if !added {
                                        (None, d4)
                                    } else if (start as int + 1) * 512 > d4.len() {
                                        (None, d4)
                                    } else {
                                        (Some((n, start)), splice(d4, start as int * 512, zeros(512)))
                                    }
                                }
                            },
                        }
                    },
                }
            },
        },
    }
}

impl Volume {
    /// Creates the empty regular file `path` (its parent must be a directory
    /// without that name): a fresh inode with a one-block zeroed extent.
    /// Returns the inode number and the extent's first block.
    pub fn create_disk_file(&mut self, fs: Superblock, path: &[u8]) -> (r: Option<(u32, u32)>)
        requires old(self).wf(), fs.block_size == 512,
        ensures
            final(self).wf(),
            split_spec(path@) is None ==> r is None && *final(self) == *old(self),
            r is Some ==> creatable(old(self).disk@, fs, path@),
            (r, final(self).disk@) == create_file_effect(old(self).disk@, fs, path@),
    {
        proof { reveal(create_file_effect); }
        let (parent_path, name) = match split_parent_name(path) { Some(x) => x, None => return None };
        let parent = match self.resolve_path(fs, &parent_path) { Some(p) => p, None => return None };
        if parent.kind != KIND_DIR || self.find_dir_entry(parent, &name).is_some() {
            return None;
        }
        let (fs, inode_number) = match self.allocate_inode(fs) { Some(x) => x, None => return None };
        let (fs, extent_start) = match self.allocate_blocks(fs, 1) { Some(x) => x, None => return None };
        let inode = Inode { number: inode_number, kind: KIND_FILE, size: 0, extent_start, extent_blocks: 1 };
        if !self.write_inode(fs, inode) || !self.append_dir_entry(fs, parent, &name, inode_number, KIND_FILE) {
            return None;
        }
        let zero: Vec<u8> = vec![0u8; SECTOR_SIZE];
        proof { assert(zero@.subrange(0, 512) =~= zeros(512)); }
        if !self.disk.write_sector(extent_start, &zero) {
            return None;
        }
        Some((inode_number, extent_start))
    }

    /// Removes the regular file `path` from its directory and frees its inode.
    pub fn remove_disk_file(&mut self, path: &[u8]) -> (r: bool)
        requires old(self).wf(),
        ensures
            final(self).wf(),
            (r, final(self).disk@) == unlink_effect(old(self).disk@, old(self).mounted(), path@),
    {
        let fs = match self.mount() { Some(fs) => fs, None => return false };
        let (parent_path, name) = match split_parent_name(path) { Some(x) => x, None => return false };
        let parent = match self.resolve_path(fs, &parent_path) { Some(p) => p, None => return false };
        let inode_number = match self.remove_dir_entry(parent, &name, KIND_FILE) { Some(n) => n, None => return false };
        let inode = match self.read_inode(fs, inode_number) { Some(i) => i, None => return false };
        if inode.kind != KIND_FILE {
            return false;
        }
        self.release_inode(fs, inode)
    }
}

/// The root path "/".
pub open spec fn root_path() -> Seq<u8> {
    seq![47u8]
}

/// Whether `p` is "/".
fn is_root(p: &[u8]) -> (r: bool)
    ensures r == (p@ == root_path()),
{
    let r = p.len() == 1 && p[0] == 47;
    proof { if r { assert(p@ =~= root_path()); } if p@ == root_path() { assert(p@[0] == 47); } }
    r
}

impl Nkfs {
    /// `mkdir path`: a new empty directory in an existing parent directory
    /// that has no entry of that name.
    pub fn create_dir(&mut self, path: &[u8]) -> (r: bool)
        requires old(self).wf(),
        ensures
            final(self).wf(),
            final(self).ram_files@ == old(self).ram_files@,
            r ==> proper_path(path@) && mounted_and(old(self).volume, path@, false),
            !proper_path(path@) ==> !r && final(self).volume.disk@ == old(self).volume.disk@,
            (r, final(self).volume.disk@) == mkdir_effect(old(self).volume.disk@, old(self).volume.mounted(), path@),
    {
        proof { reveal(mkdir_effect); }
        let fs = match self.volume.mount() { Some(fs) => fs, None => return false };
        let n = match normalized_path_bytes(path) { Some(n) => n, None => return false };
        let p = copy_range(path, 0, n);
        if is_root(&p) {
            return false;
        }
        let (parent_path, name) = match split_parent_name(path) { Some(x) => x, None => return false };
        let parent = match self.volume.resolve_path(fs, &parent_path) { Some(x) => x, None => return false };
        if parent.kind != KIND_DIR || self.volume.find_dir_entry(parent, &name).is_some() {
            return false;
        }
        let (fs, inode_number) = match self.volume.allocate_inode(fs) { Some(x) => x, None => return false };
        let (fs, extent_start) = match self.volume.allocate_blocks(fs, 1) { Some(x) => x, None => return false };
        let size = match self.volume.write_empty_dir(extent_start, inode_number, parent.number) { Some(s) => s, None => return false };
        let inode = Inode { number: inode_number, kind: KIND_DIR, size, extent_start, extent_blocks: 1 };
        if !self.volume.write_inode(fs, inode) || !self.volume.append_dir_entry(fs, parent, &name, inode_number, KIND_DIR) {
            return false;
        }
        true
    }

    /// `rmdir path`: removes an empty directory (not the root).
    pub fn remove_dir(&mut self, path: &[u8]) -> (r: bool)
        requires old(self).wf(),
        ensures
            final(self).wf(),
            final(self).ram_files@ == old(self).ram_files@,
            r ==> proper_path(path@) && mounted_and(old(self).volume, path@, true),
            !proper_path(path@) ==> !r && final(self).volume.disk@ == old(self).volume.disk@,
            (r, final(self).volume.disk@) == rmdir_effect(old(self).volume.disk@, old(self).volume.mounted(), path@),
    {
        let fs = match self.volume.mount() { Some(fs) => fs, None => return false };
        let n = match normalized_path_bytes(path) { Some(n) => n, None => return false };
        let p = copy_range(path, 0, n);
        if is_root(&p) {
            return false;
        }
        let (parent_path, name) = match split_parent_name(path) { Some(x) => x, None => return false };
        let parent = match self.volume.resolve_path(fs, &parent_path) { Some(x) => x, None => return false };
        let inode_number = match self.volume.find_dir_entry(parent, &name) { Some(x) => x, None => return false };
        let inode = match self.volume.read_inode(fs, inode_number) { Some(x) => x, None => return false };
        if inode.kind != KIND_DIR || !self.volume.dir_is_empty(inode) {
            return false;
        }
        if self.volume.remove_dir_entry(parent, &name, KIND_DIR).is_none() || !self.volume.release_inode(fs, inode) {
            return false;
        }
        true
    }
}

/// Creating the empty directory `path` (not the root) on the volume on
/// `disk` mounted as `mounted`: its parent must be a directory without that
/// name; an inode and a one-block extent are allocated, the extent gets the
/// `.` and `..` records, the inode is written and the record added. Whether
/// that succeeds, and the disk after.
#[verifier::opaque]
pub open spec fn mkdir_effect(disk: Seq<u8>, mounted: Option<Superblock>, path: Seq<u8>) -> (bool, Seq<u8>) {
    match (mounted, split_spec(path)) {
        (Some(fs), Some((parent_path, name))) => if !proper_path(path) {
            (false, disk)
        } else {
            match resolve_spec(disk, fs, parent_path) {
                None => (false, disk),
                Some(parent) => if parent.kind != KIND_DIR || lookup(disk, parent, name) is Some {
                    (false, disk)
                } else {
                    match inode_alloc(disk, fs) {
                        None => (false, disk),
                        Some((fs1, n)) => {
                            let (b, d2) = block_alloc(inode_alloc_disk(disk, fs), fs1, 1);
                            match b {
                                None => (false, d2),
                                Some((fs2, start)) => if (start as int + 1) * 512 > d2.len() {
                                    (false, d2)
                                } else {
                                    let d3 = splice(d2, start as int * 512, dir_record(dot(), n, KIND_DIR, 12)
                                        + dir_record(dotdot(), parent.number, KIND_DIR, 12) + zeros(488));
                                    let (ok, d4) = inode_write(d3, fs2, Inode { number: n, kind: KIND_DIR, size: 24, extent_start: start, extent_blocks: 1 });
                                    if !ok { (false, d4) } else { append_effect(d4, fs2, parent, name, n, KIND_DIR) }
                                },
                            }
                        },
                    }
                },
            }
        },
        _ => (false, disk),
    }
}

/// Removing the empty directory `path` (not the root) from the volume on
/// `disk` mounted as `mounted`: its record is freed in its parent, then its
/// inode. Whether that succeeds, and the disk after.
pub open spec fn rmdir_effect(disk: Seq<u8>, mounted: Option<Superblock>, path: Seq<u8>) -> (bool, Seq<u8>) {
    match mounted {
        None => (false, disk),
        Some(fs) => if !proper_path(path) {
            (false, disk)
        } else {
            match split_spec(path) {
                None => (false, disk),
                Some((parent_path, name)) => match resolve_spec(disk, fs, parent_path) {
                    None => (false, disk),
                    Some(parent) => match lookup(disk, parent, name) {
                        None => (false, disk),
                        Some(n) => match inode_spec(disk, fs, n) {
                            None => (false, disk),
                            Some(inode) => if inode.kind != KIND_DIR
                                || !(dir_data(disk, inode) matches Some(d) && only_dots_from(d, 0)) {
                                (false, disk)
                            } else if removal(disk, parent, name, KIND_DIR) is None {
                                (false, disk)
                            } else {
                                inode_write(removal_disk(disk, parent, name, KIND_DIR), fs, Inode { kind: 0, size: 0, ..inode })
                            },
                        },
                    },
                },
            }
        },
    }
}

/// Moving `old_path` to `new_path` on the volume on `disk` mounted as
/// `mounted`: both proper and distinct, both parents directories, the new
/// name free, the moved inode a file or a directory (a directory never
/// into itself). The record is added in the new parent, then freed in the
/// old one (and the new one freed again when that fails). Whether that
/// succeeds, and the disk after.
pub open spec fn rename_effect(disk: Seq<u8>, mounted: Option<Superblock>, old_path: Seq<u8>, new_path: Seq<u8>) -> (bool, Seq<u8>) {
    match (mounted, normalized(old_path), normalized(new_path), split_spec(old_path), split_spec(new_path)) {
        (Some(fs), Some(op), Some(np), Some((opp, old_name)), Some((npp, new_name))) =>
            if op == root_path() || np == root_path() || op == np {
                (false, disk)
            } else {
                match (resolve_spec(disk, fs, opp), resolve_spec(disk, fs, npp)) {
                    (Some(old_parent), Some(new_parent)) =>
                        if old_parent.kind != KIND_DIR || new_parent.kind != KIND_DIR || lookup(disk, new_parent, new_name) is Some {
                            (false, disk)
                        } else {
                            match lookup(disk, old_parent, old_name) {
                                None => (false, disk),
                                Some(n) => match inode_spec(disk, fs, n) {
                                    None => (false, disk),
                                    Some(inode) =>
                                        if (inode.kind != KIND_FILE && inode.kind != KIND_DIR)
                                            || (inode.kind == KIND_DIR && descendant(np, op)) {
                                            (false, disk)
                                        } else {
                                            let (added, d1) = append_effect(disk, fs, new_parent, new_name, n, inode.kind);
                                            if !added {
                                                (false, d1)
                                            } else if removal(d1, old_parent, old_name, inode.kind) is Some {
                                                (true, removal_disk(d1, old_parent, old_name, inode.kind))
                                            } else {
                                                (false, removal_disk(d1, new_parent, new_name, inode.kind))
                                            }
                                        },
                                },
                            }
                        },
                    _ => (false, disk),
                }
            },
        _ => (false, disk),
    }
}

/// The path an open file at `p` has after `old` is renamed to `new`.
pub open spec fn renamed_path(p: Seq<u8>, old: Seq<u8>, new: Seq<u8>) -> Seq<u8> {
    if p == old {
        if new.len() <= 256 { new } else { p }
    } else if p.len() > old.len() && p.subrange(0, old.len() as int) == old && p[old.len() as int] == 47 {
        if new.len() + (p.len() - old.len()) <= 256 { new + p.subrange(old.len() as int, p.len() as int) } else { p }
    } else {
        p
    }
}

/// Concatenates `a` and `b`.
pub fn concat(a: &[u8], b: &[u8]) -> (r: Vec<u8>)
    ensures r@ == a@ + b@,
{
    let mut out = copy_range(a, 0, a.len());
    let mut i: usize = 0;
    proof { assert(a@.subrange(0, a@.len() as int) =~= a@); }
    while i < b.len()
        invariant
            0 <= i <= b@.len(),
            out@ == a@ + b@.subrange(0, i as int),
        decreases b@.len() - i,
    {
        out.push(b[i]);
        i += 1;
        proof { assert(out@ =~= a@ + b@.subrange(0, i as int)); }
    }
    proof { assert(b@.subrange(0, b@.len() as int) =~= b@); }
    out
}

/// Whether `p` begins with `prefix`.
pub fn starts_with(p: &[u8], prefix: &[u8]) -> (r: bool)
    ensures r == (p@.len() >= prefix@.len() && p@.subrange(0, prefix@.len() as int) == prefix@),
{
    if p.len() < prefix.len() {
        return false;
    }
    range_equals(p, 0, prefix.len(), prefix)
}

impl Nkfs {
    /// Follows a rename in the paths of the open RAM files: the renamed file,
    /// and anything below a renamed directory, take the new path when it fits.
    pub fn update_ram_paths(&mut self, old_path: &[u8], new_path: &[u8])
        requires old(self).wf(),
        ensures
            final(self).wf(),
            final(self).volume == old(self).volume,
            forall|i: int| 0 <= i < RAM_FILE_COUNT ==> {
                let f0 = #[trigger] old(self).ram_files@[i];
                let f1 = final(self).ram_files@[i];
                &&& f1.used == f0.used && f1.data == f0.data && f1.len == f0.len && f1.inode == f0.inode
                &&& f1.path@ == if f0.used { renamed_path(f0.path@, old_path@, new_path@) } else { f0.path@ }
            },
    {
        let mut index: usize = 0;
        while index < RAM_FILE_COUNT
            invariant
                self.wf(),
                self.volume == old(self).volume,
                0 <= index <= RAM_FILE_COUNT,
                forall|i: int| 0 <= i < RAM_FILE_COUNT ==> {
                    let f0 = #[trigger] old(self).ram_files@[i];
                    let f1 = self.ram_files@[i];
                    &&& f1.used == f0.used && f1.data == f0.data && f1.len == f0.len && f1.inode == f0.inode
                    &&& f1.path@ == if i < index && f0.used { renamed_path(f0.path@, old_path@, new_path@) } else { f0.path@ }
                },
            decreases RAM_FILE_COUNT - index,
        {
            let ghost before = self.ram_files@;
            let mut file = self.take_file(index);
            if file.used {
                let p = copy_range(&file.path, 0, file.path.len());
                proof { assert(p@ =~= file.path@); }
                if Self::same_bytes(&p, old_path) {
                    if new_path.len() <= 256 {
                        file.path = copy_range(new_path, 0, new_path.len());
                        proof { assert(file.path@ =~= new_path@); }
                    }
                } else if p.len() > old_path.len() && starts_with(&p, old_path) && p[old_path.len()] == 47 {
                    let suffix = copy_range(&p, old_path.len(), p.len());
                    if new_path.len() <= 256 && suffix.len() <= 256 - new_path.len() {
                        file.path = concat(new_path, &suffix);
                    }
                }
            }
            self.put_file(index, file);
            proof {
                assert(self.ram_files@ =~= before.update(index as int, self.ram_files@[index as int]));
            }
            index += 1;
        }
    }
}


impl Nkfs {
    /// `rename old_path new_path`: moves a file or directory to a name that
    /// is free in an existing directory (a directory never into itself), then
    /// follows the move in the open files' paths.
    pub fn rename_path(&mut self, old_path: &[u8], new_path: &[u8]) -> (r: bool)
        requires old(self).wf(),
        ensures
            final(self).wf(),
            r ==> proper_path(old_path@) && proper_path(new_path@) && normalized(old_path@) != normalized(new_path@)
                && mounted_and(old(self).volume, old_path@, true) && mounted_and(old(self).volume, new_path@, false),
            !proper_path(old_path@) || !proper_path(new_path@) || normalized(old_path@) == normalized(new_path@)
                ==> !r && final(self).volume.disk@ == old(self).volume.disk@,
            (r, final(self).volume.disk@) == rename_effect(old(self).volume.disk@, old(self).volume.mounted(), old_path@, new_path@),
            !r ==> final(self).ram_files@ == old(self).ram_files@,
            r ==> forall|i: int| 0 <= i < RAM_FILE_COUNT ==> {
                let f0 = #[trigger] old(self).ram_files@[i];
                let f1 = final(self).ram_files@[i];
                &&& f1.used == f0.used && f1.data == f0.data && f1.len == f0.len && f1.inode == f0.inode
                &&& f1.path@ == if f0.used {
                        renamed_path(f0.path@, normalized(old_path@).unwrap(), normalized(new_path@).unwrap())
                    } else { f0.path@ }
            },
    {
        let fs = match self.volume.mount() { Some(fs) => fs, None => return false };
        let on = match normalized_path_bytes(old_path) { Some(n) => n, None => return false };
        let nn = match normalized_path_bytes(new_path) { Some(n) => n, None => return false };
        let op = copy_range(old_path, 0, on);
        let np = copy_range(new_path, 0, nn);
        if is_root(&op) || is_root(&np) || Self::same_bytes(&op, &np) {
            return false;
        }
        let (old_parent_path, old_name) = match split_parent_name(old_path) { Some(x) => x, None => return false };
        let (new_parent_path, new_name) = match split_parent_name(new_path) { Some(x) => x, None => return false };
        let old_parent = match self.volume.resolve_path(fs, &old_parent_path) { Some(x) => x, None => return false };
        let new_parent = match self.volume.resolve_path(fs, &new_parent_path) { Some(x) => x, None => return false };
        if old_parent.kind != KIND_DIR || new_parent.kind != KIND_DIR
            || self.volume.find_dir_entry(new_parent, &new_name).is_some() {
            return false;
        }
        let inode_number = match self.volume.find_dir_entry(old_parent, &old_name) { Some(x) => x, None => return false };
        let inode = match self.volume.read_inode(fs, inode_number) { Some(x) => x, None => return false };
        if inode.kind != KIND_FILE && inode.kind != KIND_DIR {
            return false;
        }
        if inode.kind == KIND_DIR && path_is_descendant(&np, &op) {
            return false;
        }
        if !self.volume.append_dir_entry(fs, new_parent, &new_name, inode_number, inode.kind) {
            return false;
        }
        if self.volume.remove_dir_entry(old_parent, &old_name, inode.kind).is_none() {
            let _ = self.volume.remove_dir_entry(new_parent, &new_name, inode.kind);
            return false;
        }
        self.update_ram_paths(&op, &np);
        true
    }

    /// Opens `path` for writing, staging it in a RAM file: an already open
    /// file is reused (emptied when `truncate`); an existing regular file of
    /// at most `RAM_FILE_CAP` bytes is loaded (or emptied and written back
    /// when `truncate`); a missing file is created. Returns the RAM file.
    #[verifier::rlimit(50)]
    #[verifier::spinoff_prover]
    pub fn open_writable_file(&mut self, path: &[u8], truncate: bool) -> (r: Option<usize>)
        requires old(self).wf(),
        ensures
            final(self).wf(),
            !(normalized_len(path@) matches Some(n) && n > 1) ==> r is None && *final(self) == *old(self),
            (normalized_len(path@) matches Some(n) && n > 1) && ram_lookup(old(self).ram_files@, path@) is Some ==> {
                let i = ram_lookup(old(self).ram_files@, path@).unwrap();
                &&& r == Some(i)
                &&& final(self).volume == old(self).volume
                &&& final(self).ram_files@ == old(self).ram_files@.update(i as int,
                        RamFile { len: if truncate { 0 } else { old(self).ram_files@[i as int].len }, ..old(self).ram_files@[i as int] })
            },
            r matches Some(i) ==> i < RAM_FILE_COUNT && final(self).ram_files@[i as int].used
                && Some(final(self).ram_files@[i as int].path@) == normalized(path@),
            (normalized_len(path@) matches Some(n) && n > 1) && ram_lookup(old(self).ram_files@, path@) is None ==>
                opened_fresh(*old(self), *final(self), normalized(path@).unwrap(), truncate, r),
    {
        if !valid_absolute_file_path(path) {
            return None;
        }
        match self.ram_find(path) {
            Some(index) => {
                if truncate {
                    let mut f = self.take_file(index);
                    f.len = 0;
                    self.put_file(index, f);
                    proof {
                        assert(self.ram_files@ =~= old(self).ram_files@.update(index as int,
                            RamFile { len: 0, ..old(self).ram_files@[index as int] }));
                    }
                }
                proof {
                    let n = normalized_len(path@).unwrap();
                    let files = old(self).ram_files@;
                    let c = choose|i: int| 0 <= i < files.len() && files[i].used && (#[trigger] files[i]).path@ == path@.subrange(0, n as int)
                        && forall|j: int| 0 <= j < i ==> !(files[j].used && (#[trigger] files[j]).path@ == path@.subrange(0, n as int));
                    assert(files[c].used);
                }
                return Some(index);
            },
            None => {},
        }
        let fs = match self.volume.mount() { Some(fs) => fs, None => return None };
        let n = normalized_path_bytes(path).unwrap();
        let p = copy_range(path, 0, n);
        let inode = self.volume.resolve_path(fs, &p);
        let mut index: usize = 0;
        while index < RAM_FILE_COUNT
            invariant
                self.wf(),
                fs.block_size == 512,
                0 <= index <= RAM_FILE_COUNT,
                p@.len() <= 256,
                Some(p@) == normalized(path@),
                normalized_len(path@) matches Some(n) && n > 1,
                ram_lookup(old(self).ram_files@, path@) is None,
                self.ram_files@ == old(self).ram_files@,
                self.volume.disk@ == old(self).volume.disk@,
                old(self).volume.mounted() == Some(fs),
                inode == resolve_spec(old(self).volume.disk@, fs, p@),
                first_unused(old(self).ram_files@, 0) == first_unused(old(self).ram_files@, index as int),
            decreases RAM_FILE_COUNT - index,
        {
            if !self.ram_files[index].used {
                let ghost files0 = self.ram_files@;
                let mut f = self.take_file(index);
                f.used = true;
                f.path = copy_range(&p, 0, p.len());
                proof { assert(f.path@ =~= p@); }
                f.data = vec![0u8; RAM_FILE_CAP];
                match inode {
                    Some(ino) => {
                        if ino.kind != KIND_FILE || ino.size > RAM_FILE_CAP {
                            self.put_file(index, RamFile::empty());
                            proof { assert(self.ram_files@ =~= files0.update(index as int, self.ram_files@[index as int])); }
                            return None;
                        }
                        f.inode = ino.number;
                        f.extent_start = ino.extent_start;
                        f.extent_blocks = ino.extent_blocks;
                        if truncate {
                            f.len = 0;
                            f.dirty = true;
                            self.put_file(index, f);
                            proof { assert(self.ram_files@ =~= files0.update(index as int, self.ram_files@[index as int])); }
                            if !self.flush_writable_file(index) {
                                let _ = self.take_file(index);
                                self.put_file(index, RamFile::empty());
                                proof { assert(self.ram_files@ =~= files0.update(index as int, self.ram_files@[index as int])); }
                                return None;
                            }
                        } else {
                            f.len = ino.size;
                            if ino.size > 0 {
                                match self.volume.read_extent(ino.extent_start, ino.size, RAM_FILE_CAP) {
                                    Some(bytes) => {
                                        copy_into(&mut f.data, 0, &bytes);
                                        proof { assert(f.data@.subrange(0, f.len as int) =~= bytes@); }
                                        self.put_file(index, f);
                                    },
                                    None => {
                                        self.put_file(index, f);
                                        proof { assert(self.ram_files@ =~= files0.update(index as int, self.ram_files@[index as int])); }
                                        return None;
                                    },
                                }
                            } else {
                                self.put_file(index, f);
                                proof {
                                    assert(self.ram_files@[index as int].contents() =~= Seq::<u8>::empty());
                                }
                            }
                        }
                        proof { assert(self.ram_files@ =~= files0.update(index as int, self.ram_files@[index as int])); }
                        return Some(index);
                    },
                    None => {},
                }
                match self.volume.create_disk_file(fs, &p) {
                    Some((inode_number, extent_start)) => {
                        f.inode = inode_number;
                        f.extent_start = extent_start;
                        f.extent_blocks = 1;
                        f.len = 0;
                        f.dirty = false;
                        self.put_file(index, f);
                        proof { assert(self.ram_files@ =~= files0.update(index as int, self.ram_files@[index as int])); }
                        return Some(index);
                    },
                    None => {
                        self.put_file(index, RamFile::empty());
                        proof { assert(self.ram_files@ =~= files0.update(index as int, self.ram_files@[index as int])); }
                        return None;
                    },
                }
            }
            index += 1;
        }
        None
    }
}


/// The first free RAM file slot from `i` on.
pub open spec fn first_unused(files: Seq<RamFile>, i: int) -> Option<int>
    decreases RAM_FILE_COUNT - i,
{
    if i < 0 || i >= RAM_FILE_COUNT || i >= files.len() {
        None
    } else if !files[i].used {
        Some(i)
    } else {
        first_unused(files, i + 1)
    }
}

/// `f1` is `f0` with only slot `i` changed.
pub open spec fn others_kept(f0: Seq<RamFile>, f1: Seq<RamFile>, i: int) -> bool {
    &&& f1.len() == f0.len()
    &&& forall|j: int| 0 <= j < f0.len() && j != i ==> #[trigger] f1[j] == f0[j]
}

/// What opening `p` (normalized, not open yet) for writing does, from `a`
/// to `b` with result `r`: with the volume mounted, the first free slot
/// takes the file; a regular file that fits is loaded (its bytes as they
/// are on the disk, when the extent can be read) or emptied when
/// `truncate`; anything else at `p` is refused; a missing file is created
/// on the disk.
pub open spec fn opened_fresh(a: Nkfs, b: Nkfs, p: Seq<u8>, truncate: bool, r: Option<usize>) -> bool {
    match (a.volume.mounted(), first_unused(a.ram_files@, 0)) {
        (Some(fs), Some(i)) => {
            &&& others_kept(a.ram_files@, b.ram_files@, i)
            &&& (r is Some ==> r == Some(i as usize) && b.ram_files@[i].used && b.ram_files@[i].path@ == p)
            &&& match resolve_spec(a.volume.disk@, fs, p) {
                Some(ino) => if ino.kind != KIND_FILE || ino.size > RAM_FILE_CAP {
                    r is None && b.volume.disk@ == a.volume.disk@ && !b.ram_files@[i].used
                } else if !truncate {
                    &&& b.volume.disk@ == a.volume.disk@
                    &&& (r is Some <==> ino.size == 0 || a.volume.disk.in_range(ino.extent_start as int, blocks_for(ino.size as int)))
                    &&& r is Some ==> {
                        let f = b.ram_files@[i];
                        &&& f.len == ino.size && f.inode == ino.number
                        &&& f.extent_start == ino.extent_start && f.extent_blocks == ino.extent_blocks
                        &&& f.contents() == if ino.size == 0 { Seq::empty() }
                                else { a.volume.disk@.subrange(ino.extent_start as int * 512, ino.extent_start as int * 512 + ino.size) }
                    }
                } else {
                    r is Some ==> b.ram_files@[i].len == 0 && b.ram_files@[i].inode == ino.number
                },
                None => {
                    let (created, disk) = create_file_effect(a.volume.disk@, fs, p);
                    &&& b.volume.disk@ == disk
                    &&& (r is Some <==> created is Some)
                    &&& r is None ==> !b.ram_files@[i].used
                    &&& r is Some ==> {
                        let f = b.ram_files@[i];
                        &&& f.len == 0 && f.inode == created.unwrap().0
                        &&& f.extent_start == created.unwrap().1 && f.extent_blocks == 1
                    }
                },
            }
        },
        _ => r is None && b.ram_files@ == a.ram_files@ && b.volume.disk@ == a.volume.disk@,
    }
}

/// `f1` is the RAM file `f0` after the first `count` bytes of `bytes`
/// were written at `offset`.
pub open spec fn ram_written(f0: RamFile, f1: RamFile, offset: int, bytes: Seq<u8>, count: int) -> bool {
    &&& f1.used && f1.path == f0.path
    &&& f1.data@ == splice(f0.data@, offset, bytes.subrange(0, count))
    &&& f1.len == if f0.len > offset + count { f0.len as int } else { offset + count }
}

/// What is written to a file is read back: after a write of `count` bytes
/// at `offset`, the file's contents hold them there, the bytes before the
/// offset are as they were, and the file reaches at least the end of the
/// write.
pub proof fn lemma_write_then_read(f0: RamFile, f1: RamFile, offset: int, bytes: Seq<u8>, count: int)
    requires
        f0.wf(), f0.used,
        0 <= offset, 0 <= count <= bytes.len(), offset + count <= RAM_FILE_CAP,
        ram_written(f0, f1, offset, bytes, count),
    ensures
        f1.contents().len() == if f0.len > offset + count { f0.len as int } else { offset + count },
        f1.contents().subrange(offset, offset + count) == bytes.subrange(0, count),
        forall|i: int| 0 <= i < offset && i < f0.len ==> #[trigger] f1.contents()[i] == f0.contents()[i],
{
    assert(f1.contents().subrange(offset, offset + count) =~= bytes.subrange(0, count));
}

impl Nkfs {
    /// Writes `bytes` at `offset` of open RAM file `index` (as much as fits in
    /// `RAM_FILE_CAP`), extending it as needed, and writes the file back.
    /// Returns the number of bytes taken.
    pub fn write_ram_file(&mut self, index: usize, offset: usize, bytes: &[u8]) -> (r: Option<usize>)
        requires old(self).wf(),
        ensures
            final(self).wf(),
            index >= RAM_FILE_COUNT || !old(self).ram_files@[index as int].used || offset > RAM_FILE_CAP
                ==> r is None && *final(self) == *old(self),
            index < RAM_FILE_COUNT && old(self).ram_files@[index as int].used && offset <= RAM_FILE_CAP ==> {
                let f0 = old(self).ram_files@[index as int];
                let f1 = final(self).ram_files@[index as int];
                let count = if bytes@.len() < RAM_FILE_CAP - offset { bytes@.len() as int } else { RAM_FILE_CAP - offset };
                &&& ram_written(f0, f1, offset as int, bytes@, count)
                &&& (r is Some ==> r == Some(count as usize))
                &&& forall|i: int| 0 <= i < RAM_FILE_COUNT && i != index ==> final(self).ram_files@[i] == old(self).ram_files@[i]
                &&& ({
                    let (ok, disk, start, blocks) = flush_effect(old(self).volume.disk@, old(self).volume.mounted(), true,
                        f0.inode, f1.contents(), f0.extent_start, f0.extent_blocks);
                    &&& (r is Some <==> ok)
                    &&& final(self).volume.disk@ == disk
                })
            },
    {
        if index >= RAM_FILE_COUNT || !self.ram_files[index].used || offset > RAM_FILE_CAP {
            return None;
        }
        let mut f = self.take_file(index);
        let count = if bytes.len() < RAM_FILE_CAP - offset { bytes.len() } else { RAM_FILE_CAP - offset };
        let head = copy_range(bytes, 0, count);
        copy_into(&mut f.data, offset, &head);
        if f.len < offset + count {
            f.len = offset + count;
        }
        f.dirty = true;
        self.put_file(index, f);
        let ghost staged = self.ram_files@;
        proof { assert(staged =~= old(self).ram_files@.update(index as int, staged[index as int])); }
        if !self.flush_writable_file(index) {
            return None;
        }
        Some(count)
    }

    /// Sets the length of open RAM file `index` (new bytes read as zero) and
    /// writes it back.
    pub fn truncate_ram_file(&mut self, index: usize, len: usize) -> (r: bool)
        requires old(self).wf(),
        ensures
            final(self).wf(),
            index >= RAM_FILE_COUNT || len > RAM_FILE_CAP || !old(self).ram_files@[index as int].used
                ==> !r && *final(self) == *old(self),
            index < RAM_FILE_COUNT && len <= RAM_FILE_CAP && old(self).ram_files@[index as int].used ==> {
                let f0 = old(self).ram_files@[index as int];
                let f1 = final(self).ram_files@[index as int];
                &&& f1.used && f1.path == f0.path
                &&& f1.len == len
                &&& f1.contents() == if len > f0.len { f0.contents() + zeros((len - f0.len) as nat) }
                        else { f0.data@.subrange(0, len as int) }
                &&& forall|i: int| 0 <= i < RAM_FILE_COUNT && i != index ==> final(self).ram_files@[i] == old(self).ram_files@[i]
                &&& ({
                    let (ok, disk, start, blocks) = flush_effect(old(self).volume.disk@, old(self).volume.mounted(), true,
                        f0.inode, f1.contents(), f0.extent_start, f0.extent_blocks);
                    &&& r == ok
                    &&& final(self).volume.disk@ == disk
                })
            },
    {
        if index >= RAM_FILE_COUNT || len > RAM_FILE_CAP || !self.ram_files[index].used {
            return false;
        }
        let mut f = self.take_file(index);
        if len > f.len {
            let gap_len = len - f.len;
            let gap: Vec<u8> = vec![0u8; gap_len];
            copy_into(&mut f.data, f.len, &gap);
            proof { assert(gap@ =~= zeros((len - old(self).ram_files@[index as int].len) as nat)); }
        }
        let ghost f0 = old(self).ram_files@[index as int];
        f.len = len;
        f.dirty = true;
        proof {
            if len > f0.len {
                assert(f.data@.subrange(0, len as int) =~= f0.contents() + zeros((len - f0.len) as nat));
            }
        }
        self.put_file(index, f);
        proof { assert(self.ram_files@ =~= old(self).ram_files@.update(index as int, self.ram_files@[index as int])); }
        self.flush_writable_file(index)
    }

    /// `unlink path`: removes the regular file from the disk and closes a RAM
    /// file open on it.
    pub fn remove_ram_file(&mut self, path: &[u8]) -> (r: bool)
        requires old(self).wf(),
        ensures
            final(self).wf(),
            (r, final(self).volume.disk@) == unlink_effect(old(self).volume.disk@, old(self).volume.mounted(), unlinked_path(path@)),
            !r ==> final(self).ram_files@ == old(self).ram_files@,
            r ==> match ram_lookup(old(self).ram_files@, unlinked_path(path@)) {
                Some(i) => forall|j: int| 0 <= j < RAM_FILE_COUNT ==>
                    if j == i { !(#[trigger] final(self).ram_files@[j]).used } else { final(self).ram_files@[j] == old(self).ram_files@[j] },
                None => final(self).ram_files@ == old(self).ram_files@,
            },
    {
        let p = match normalized_path_bytes(path) {
            Some(n) => copy_range(path, 0, n),
            None => copy_range(path, 0, path.len()),
        };
        if !self.volume.remove_disk_file(&p) {
            return false;
        }
        match self.ram_find(&p) {
            Some(index) => {
                let _ = self.take_file(index);
                self.put_file(index, RamFile::empty());
            },
            None => {},
        }
        true
    }
}

/// The path `remove_ram_file` removes: `path` normalized, or as given when
/// it has no normal form.
pub open spec fn unlinked_path(path: Seq<u8>) -> Seq<u8> {
    match normalized(path) { Some(p) => p, None => path }
}

/// The records listing the open RAM files of `files` from `i` on that are
/// direct children of directory `dir` and not among its records on the
/// disk (`disk_data`), in `room` bytes: a file record each (inode field
/// `0x8000_0000` plus the path's length), until one does not fit.
pub open spec fn ram_records(files: Seq<RamFile>, dir: Seq<u8>, disk_data: Seq<u8>, i: int, room: int) -> Seq<u8>
    decreases files.len() - i,
{
    if i < 0 || i >= files.len() {
        Seq::empty()
    } else if !files[i].used {
        ram_records(files, dir, disk_data, i + 1, room)
    } else {
        match child_name(dir, files[i].path@) {
            Some(name) => if entry_walk(disk_data, name, 0) is Some {
                ram_records(files, dir, disk_data, i + 1, room)
            } else {
                let record_len = align4(8 + name.len() as int);
                if record_len > room {
                    Seq::empty()
                } else {
                    dir_record(name, (0x8000_0000 + files[i].path@.len()) as u32, KIND_FILE, record_len as nat)
                        + ram_records(files, dir, disk_data, i + 1, room - record_len)
                }
            },
            None => ram_records(files, dir, disk_data, i + 1, room),
        }
    }
}

/// The directory data `read_dir` gives of `path`: its records on the disk,
/// then records for the open RAM files created in it.
pub open spec fn dir_listing_data(fs: Nkfs, path: Seq<u8>) -> Option<Seq<u8>> {
    match fs.volume.mounted() {
        None => None,
        Some(sb) => match resolve_spec(fs.volume.disk@, sb, path) {
            None => None,
            Some(d) => if d.kind != KIND_DIR {
                None
            } else {
                match dir_data(fs.volume.disk@, d) {
                    None => None,
                    Some(data) => Some(data + match normalized(path) {
                        Some(p) => ram_records(fs.ram_files@, p, data, 0, DIR_CAP - data.len()),
                        None => Seq::empty(),
                    }),
                }
            },
        },
    }
}

/// The name of `file_path` relative to the directory `dir`, when it is a
/// direct child of it.
pub open spec fn child_name(dir: Seq<u8>, file_path: Seq<u8>) -> Option<Seq<u8>> {
    if dir == root_path() {
        if file_path.len() < 1 { None } else {
            let rest = file_path.subrange(1, file_path.len() as int);
            if rest.len() == 0 || rest.contains(47u8) { None } else { Some(rest) }
        }
    } else if file_path.len() <= dir.len() + 1 || file_path.subrange(0, dir.len() as int) != dir || file_path[dir.len() as int] != 47 {
        None
    } else {
        let rest = file_path.subrange(dir.len() as int + 1, file_path.len() as int);
        if rest.len() == 0 || rest.contains(47u8) { None } else { Some(rest) }
    }
}

/// The name of `file_path` inside the directory `dir`, when it is a direct child.
pub fn ram_child_name(dir: &[u8], file_path: &[u8]) -> (r: Option<Vec<u8>>)
    ensures
        r matches Some(v) ==> child_name(dir@, file_path@) == Some(v@),
        r is None ==> child_name(dir@, file_path@) is None,
{
    if is_root(dir) {
        if file_path.len() < 1 {
            return None;
        }
        let rest = copy_range(file_path, 1, file_path.len());
        if rest.len() == 0 || contains_byte(&rest, 47) {
            return None;
        }
        return Some(rest);
    }
    if file_path.len() <= dir.len() || file_path.len() - dir.len() <= 1 || !starts_with(file_path, dir) || file_path[dir.len()] != 47 {
        return None;
    }
    let rest = copy_range(file_path, dir.len() + 1, file_path.len());
    if rest.len() == 0 || contains_byte(&rest, 47) {
        return None;
    }
    Some(rest)
}

/// Whether the directory data `buf[..size]` has a live record named `name`.
pub fn find_dir_name_in_buffer(buf: &[u8], size: usize, name: &[u8]) -> (r: bool)
    requires size <= buf@.len(), size <= DIR_CAP,
    ensures r == entry_walk(buf@.subrange(0, size as int), name@, 0) is Some,
{
    let data = copy_range(buf, 0, size);
    find_entry(&data, name).is_some()
}

impl Nkfs {
    /// Appends to directory data `buffer[..start]` a record for each open RAM
    /// file that is a direct child of `path` and not yet listed (inode field
    /// `0x8000_0000 | path length`, kind file), while the directory buffer
    /// has room. Returns the new size.
    pub fn append_ram_dir_entries(&self, path: &[u8], buffer: &mut Vec<u8>, start: usize) -> (r: Option<usize>)
        requires
            self.wf(),
            old(buffer)@.len() == DIR_CAP,
            start <= DIR_CAP,
        ensures
            final(buffer)@.len() == DIR_CAP,
            final(buffer)@.subrange(0, start as int) == old(buffer)@.subrange(0, start as int),
            r is None <==> normalized_len(path@) is None,
            r matches Some(n) ==> start <= n <= DIR_CAP,
            r matches Some(n) ==> final(buffer)@.subrange(start as int, n as int) == ram_records(self.ram_files@,
                normalized(path@).unwrap(), old(buffer)@.subrange(0, start as int), 0, DIR_CAP - start),
    {
        let n = match normalized_path_bytes(path) { Some(n) => n, None => return None };
        let dir = copy_range(path, 0, n);
        let ghost disk_data = old(buffer)@.subrange(0, start as int);
        let ghost total = ram_records(self.ram_files@, dir@, disk_data, 0, DIR_CAP - start);
        let mut offset = start;
        let mut index: usize = 0;
        proof { assert(buffer@.subrange(start as int, offset as int) + total =~= total); }
        while index < RAM_FILE_COUNT
            invariant
                self.wf(),
                buffer@.len() == DIR_CAP,
                start <= offset <= DIR_CAP,
                buffer@.subrange(0, start as int) == old(buffer)@.subrange(0, start as int),
                0 <= index <= RAM_FILE_COUNT,
                normalized_len(path@) is Some,
                dir@ == normalized(path@).unwrap(),
                disk_data == old(buffer)@.subrange(0, start as int),
                total == ram_records(self.ram_files@, dir@, disk_data, 0, DIR_CAP - start),
                buffer@.subrange(start as int, offset as int)
                    + ram_records(self.ram_files@, dir@, disk_data, index as int, DIR_CAP - offset) == total,
            decreases RAM_FILE_COUNT - index,
        {
            let file = &self.ram_files[index];
            if file.used {
                match ram_child_name(&dir, &file.path) {
                    Some(name) => {
                        if !find_dir_name_in_buffer(buffer, start, &name) {
                            let record_len = align_up(8 + name.len(), 4);
                            if record_len > DIR_CAP - offset {
                                proof { assert(buffer@.subrange(start as int, offset as int) + Seq::<u8>::empty()
                                    =~= buffer@.subrange(start as int, offset as int)); }
                                return Some(offset);
                            }
                            let tag: u32 = 0x8000_0000 + file.path.len() as u32;
                            proof { assert(name@.len() < 65536); }
                            let ghost b0 = buffer@;
                            write_dir_record(buffer, offset, record_len, &name, tag, KIND_FILE);
                            proof {
                                assert(buffer@.subrange(0, start as int) =~= b0.subrange(0, start as int));
                                let rec = dir_record(name@, tag, KIND_FILE, record_len as nat);
                                assert(buffer@.subrange(start as int, offset + record_len) =~= b0.subrange(start as int, offset as int) + rec);
                                assert(b0.subrange(start as int, offset as int) + (rec
                                    + ram_records(self.ram_files@, dir@, disk_data, index + 1, DIR_CAP - offset - record_len))
                                    =~= (b0.subrange(start as int, offset as int) + rec)
                                    + ram_records(self.ram_files@, dir@, disk_data, index + 1, DIR_CAP - offset - record_len));
                            }
                            offset = offset + record_len;
                        }
                    },
                    None => {},
                }
            }
            index += 1;
        }
        Some(offset)
    }

    /// The listing of directory `path`: its records on the disk followed by
    /// records for the open RAM files created in it.
    pub fn read_dir(&mut self, path: &[u8]) -> (r: Option<Vec<u8>>)
        requires old(self).wf(),
        ensures
            final(self).wf(),
            final(self).volume.disk@ == old(self).volume.disk@,
            final(self).ram_files@ == old(self).ram_files@,
            r is Some <==> (old(self).volume.mounted() matches Some(fs)
                && (resolve_spec(old(self).volume.disk@, fs, path@) matches Some(d)
                    && d.kind == KIND_DIR && dir_data(old(self).volume.disk@, d) is Some)),
            r matches Some(v) ==> (old(self).volume.mounted() matches Some(fs)
                && (resolve_spec(old(self).volume.disk@, fs, path@) matches Some(d)
                    && dir_data(old(self).volume.disk@, d) matches Some(data)
                    && v@.subrange(0, data.len() as int) == data && v@.len() <= DIR_CAP)),
            r is Some <==> dir_listing_data(*old(self), path@) is Some,
            r matches Some(v) ==> Some(v@) == dir_listing_data(*old(self), path@),
    {
        let fs = match self.volume.mount() { Some(fs) => fs, None => return None };
        let inode = match self.volume.resolve_path(fs, path) { Some(i) => i, None => return None };
        if inode.kind != KIND_DIR || inode.size > DIR_CAP {
            return None;
        }
        let data = match self.volume.read_dir_data(inode) { Some(d) => d, None => return None };
        let mut buffer = padded(&data, DIR_CAP);
        let size = match self.append_ram_dir_entries(path, &mut buffer, inode.size) { Some(n) => n, None => inode.size };
        let out = copy_range(&buffer, 0, size);
        proof {
            assert(out@.subrange(0, data@.len() as int) =~= buffer@.subrange(0, inode.size as int));
            assert(buffer@.subrange(0, inode.size as int) =~= data@);
            assert(out@ =~= out@.subrange(0, data@.len() as int) + out@.subrange(data@.len() as int, size as int));
            if normalized(path@) is None {
                assert(out@ =~= data@ + Seq::<u8>::empty());
            }
        }
        Some(out)
    }
}

/// "cat: not found\n"
pub open spec fn cat_not_found() -> Seq<u8> {
    seq![99u8, 97, 116, 58, 32, 110, 111, 116, 32, 102, 111, 117, 110, 100, 10]
}

/// "ls: not a directory or not found\n"
pub open spec fn ls_not_found() -> Seq<u8> {
    seq![108u8, 115, 58, 32, 110, 111, 116, 32, 97, 32, 100, 105, 114, 101, 99, 116, 111, 114, 121, 32,
        111, 114, 32, 110, 111, 116, 32, 102, 111, 117, 110, 100, 10]
}

/// A file's text as shown on the console: followed by a newline unless it
/// ends with one.
pub open spec fn shown(data: Seq<u8>) -> Seq<u8> {
    if data.len() > 0 && data[data.len() - 1] == 10 { data } else { data.push(10) }
}

/// The listing of directory records `data` from `off` with `col` columns
/// used: live names other than `.` and `..`, two spaces apart, wrapping after
/// 64 columns.
pub open spec fn listing(data: Seq<u8>, off: int, col: int) -> Seq<u8>
    decreases data.len() - off,
{
    if off < 0 || off + 8 > data.len() {
        if col != 0 { seq![10u8] } else { Seq::empty() }
    } else {
        let nl = le16(data, off + 4);
        let next = align4(off + 8 + nl);
        if next > data.len() || next <= off {
            if col != 0 { seq![10u8] } else { Seq::empty() }
        } else {
            let name = data.subrange(off + 8, off + 8 + nl);
            let kind = le16(data, off + 6);
            if kind != 0 && name != dot() && name != dotdot() {
                let c = col + name.len();
                if c >= 64 {
                    name + seq![10u8] + listing(data, next, 0)
                } else {
                    name + seq![32u8, 32u8] + listing(data, next, c + 2)
                }
            } else {
                listing(data, next, col)
            }
        }
    }
}

/// Appends `b` to `out`.
fn push_all(out: &mut Vec<u8>, b: &[u8])
    ensures final(out)@ == old(out)@ + b@,
{
    let mut i: usize = 0;
    while i < b.len()
        invariant
            0 <= i <= b@.len(),
            out@ == old(out)@ + b@.subrange(0, i as int),
        decreases b@.len() - i,
    {
        out.push(b[i]);
        i += 1;
        proof { assert(out@ =~= old(out)@ + b@.subrange(0, i as int)); }
    }
    proof { assert(b@.subrange(0, b@.len() as int) =~= b@); }
}

/// The console listing of directory records `data`.
pub fn format_listing(data: &[u8]) -> (r: Vec<u8>)
    requires data@.len() <= DIR_CAP,
    ensures r@ == listing(data@, 0, 0),
{
    let one: [u8; 1] = [46];
    let two: [u8; 2] = [46, 46];
    proof { assert(one@ =~= dot()); assert(two@ =~= dotdot()); }
    let mut out: Vec<u8> = Vec::new();
    let mut offset: usize = 0;
    let mut col: usize = 0;
    while offset + 8 <= data.len()
        invariant
            data@.len() <= DIR_CAP,
            one@ == dot(),
            two@ == dotdot(),
            offset <= data@.len() + 8,
            col <= DIR_CAP + 70,
            out@ + listing(data@, offset as int, col as int) == listing(data@, 0, 0),
        decreases data@.len() + 8 - offset,
    {
        let name_len = read_u16(data, offset + 4).unwrap() as usize;
        let next = align_up(offset + 8 + name_len, 4);
        proof { lemma_align4_ge(offset + 8 + name_len); }
        if next > data.len() {
            offset = data.len();
            continue;
        }
        let kind = read_u16(data, offset + 6).unwrap();
        let name = copy_range(data, offset + 8, offset + 8 + name_len);
        let ghost rest = listing(data@, next as int, 0);
        if kind != 0 && !range_equals(data, offset + 8, offset + 8 + name_len, &one)
            && !range_equals(data, offset + 8, offset + 8 + name_len, &two) {
            push_all(&mut out, &name);
            let c = col + name.len();
            if c >= 64 {
                out.push(10);
                col = 0;
            } else {
                out.push(32);
                out.push(32);
                col = c + 2;
            }
            proof {
                assert(name@ + seq![10u8] + rest == name@.push(10u8) + rest) by { assert(name@ + seq![10u8] =~= name@.push(10u8)); }
                assert(name@ + seq![32u8, 32u8] =~= name@.push(32u8).push(32u8));
            }
        }
        offset = next;
        proof {
            assert forall|a: Seq<u8>, b: Seq<u8>, c: Seq<u8>| #![auto] (a + b) + c == a + (b + c) by {
                assert((a + b) + c =~= a + (b + c));
            }
        }
    }
    if col != 0 {
        out.push(10);
    }
    proof {
        assert forall|a: Seq<u8>| #![auto] a + Seq::<u8>::empty() == a by { assert(a + Seq::<u8>::empty() =~= a); }
        assert forall|a: Seq<u8>, b: u8| #![auto] a + seq![b] == a.push(b) by { assert(a + seq![b] =~= a.push(b)); }
    }
    out
}

impl Nkfs {
    /// `cat path` on the console: the bytes to show, and whether the file
    /// was found.
    pub fn write_file_to_console(&mut self, path: &[u8]) -> (r: (bool, Vec<u8>))
        requires old(self).wf(),
        ensures
            final(self).wf(),
            final(self).volume.disk@ == old(self).volume.disk@,
            final(self).ram_files@ == old(self).ram_files@,
            !r.0 ==> r.1@ == cat_not_found(),
            r.0 <==> file_contents(*old(self), path@) is Some,
            r.0 ==> r.1@ == shown(file_contents(*old(self), path@).unwrap()),
    {
        match self.read_file(path) {
            None => {
                let msg: [u8; 15] = [99, 97, 116, 58, 32, 110, 111, 116, 32, 102, 111, 117, 110, 100, 10];
                proof { assert(msg@ =~= cat_not_found()); }
                (false, copy_range(&msg, 0, 15))
            },
            Some(data) => {
                let mut out = data;
                let n = out.len();
                if !(n > 0 && out[n - 1] == 10) {
                    out.push(10);
                }
                proof { assert(out@ == shown(data@)); }
                (true, out)
            },
        }
    }

    /// `ls path` on the console: the listing to show, and whether `path` is
    /// a directory.
    pub fn write_dir_to_console(&mut self, path: &[u8]) -> (r: (bool, Vec<u8>))
        requires old(self).wf(),
        ensures
            final(self).wf(),
            final(self).volume.disk@ == old(self).volume.disk@,
            final(self).ram_files@ == old(self).ram_files@,
            !r.0 ==> r.1@ == ls_not_found(),
            r.0 <==> dir_listing_data(*old(self), path@) is Some,
            r.0 ==> r.1@ == listing(dir_listing_data(*old(self), path@).unwrap(), 0, 0),
    {
        match self.read_dir(path) {
            None => {
                let msg: [u8; 33] = [108, 115, 58, 32, 110, 111, 116, 32, 97, 32, 100, 105, 114, 101, 99, 116, 111, 114, 121, 32,
                    111, 114, 32, 110, 111, 116, 32, 102, 111, 117, 110, 100, 10];
                proof { assert(msg@ =~= ls_not_found()); }
                (false, copy_range(&msg, 0, 33))
            },
            Some(data) => (true, format_listing(&data)),
        }
    }
}

} // verus!
