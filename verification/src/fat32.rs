//! The FAT32 boot volume: files in its root directory, read by their 8.3
//! names along their cluster chains.
use vstd::prelude::*;
use crate::bytes::{le16, le32, read_u16, read_u32};
use crate::disk::Disk;

verus! {

/// Largest file read.
pub const MAX_FILE_SIZE: usize = 1024 * 1024;
/// Cluster numbers from here on end a chain.
pub const END_OF_CHAIN: u32 = 0x0fff_fff8;

/// Where the parts of the volume lie.
#[derive(Clone, Copy)]
pub struct Fat32 {
    pub sectors_per_cluster: u8,
    pub root_cluster: u32,
    pub fat_start: u32,
    pub data_start: u32,
}

/// A file of the root directory.
#[derive(Clone, Copy)]
pub struct DirectoryEntry {
    pub cluster: u32,
    pub size: u32,
}

/// The volume the boot sector `s` describes: it ends in the 0x55 0xaa
/// signature and has 512-byte sectors. Sector arithmetic wraps.
pub open spec fn mount_spec(s: Seq<u8>) -> Option<Fat32> {
    if s.len() < 512 || s[510] != 0x55 || s[511] != 0xaa || le16(s, 11) != 512 {
        None
    } else {
        let fat_start = le16(s, 14) as u32;
        Some(Fat32 {
            sectors_per_cluster: s[13],
            root_cluster: le32(s, 44) as u32,
            fat_start,
            data_start: fat_start.wrapping_add((s[16] as u32).wrapping_mul(le32(s, 36) as u32)),
        })
    }
}

/// The first sector of `cluster`.
pub open spec fn cluster_lba_spec(fs: Fat32, cluster: u32) -> u32 {
    fs.data_start.wrapping_add(cluster.wrapping_sub(2).wrapping_mul(fs.sectors_per_cluster as u32))
}

/// Reads the boot sector and describes the volume.
pub fn mount(disk: &Disk) -> (r: Option<Fat32>)
    ensures
        disk.in_range(0, 1) ==> r == mount_spec(disk@.subrange(0, 512)),
        !disk.in_range(0, 1) ==> r is None,
{
    let sector = match disk.read_sector(0) { Some(s) => s, None => return None };
    if sector[510] != 0x55 || sector[511] != 0xaa {
        return None;
    }
    if read_u16(&sector, 11).unwrap() != 512 {
        return None;
    }
    let sectors_per_cluster = sector[13];
    let reserved_sectors = read_u16(&sector, 14).unwrap();
    let fat_count = sector[16];
    let sectors_per_fat = read_u32(&sector, 36).unwrap();
    let root_cluster = read_u32(&sector, 44).unwrap();
    let fat_start = reserved_sectors as u32;
    let data_start = fat_start.wrapping_add((fat_count as u32).wrapping_mul(sectors_per_fat));
    Some(Fat32 { sectors_per_cluster, root_cluster, fat_start, data_start })
}

/// Whether a volume is there.
pub fn smoke_test(disk: &Disk) -> (r: bool)
    ensures r == (disk.in_range(0, 1) && mount_spec(disk@.subrange(0, 512)) is Some),
{
    mount(disk).is_some()
}

/// The first sector of `cluster`.
pub fn cluster_lba(fs: Fat32, cluster: u32) -> (r: u32)
    ensures r == cluster_lba_spec(fs, cluster),
{
    fs.data_start.wrapping_add(cluster.wrapping_sub(2).wrapping_mul(fs.sectors_per_cluster as u32))
}

/// The entry of `cluster` in the first FAT: the next cluster of its chain.
pub fn fat_entry(disk: &Disk, fs: Fat32, cluster: u32) -> (r: Option<u32>)
    ensures
        r matches Some(v) ==> v < 0x1000_0000,
        r == fat_entry_spec(disk@, fs, cluster),
{
    let offset = cluster.wrapping_mul(4);
    let lba = fs.fat_start.wrapping_add(offset / 512);
    let sector_offset = (offset % 512) as usize;
    let sector = match disk.read_sector(lba) { Some(s) => s, None => return None };
    let v = read_u32(&sector, sector_offset).unwrap();
    assert(v & 0x0fff_ffff < 0x1000_0000) by (bit_vector);
    proof { assert(sector@ == sector_of(disk@, lba as int)); }
    Some(v & 0x0fff_ffff)
}

/// The next cluster after `cluster`: its entry in the first FAT, low 28
/// bits; `None` when that sector lies off the disk.
pub open spec fn fat_entry_spec(disk: Seq<u8>, fs: Fat32, cluster: u32) -> Option<u32> {
    let offset = cluster.wrapping_mul(4);
    let lba = fs.fat_start.wrapping_add(offset / 512);
    if (lba as int + 1) * 512 > disk.len() {
        None
    } else {
        Some(((le32(sector_of(disk, lba as int), (offset % 512) as int) as u32) & 0x0fff_ffff) as u32)
    }
}

/// `got` with the sectors of the cluster starting at sector `first` added
/// from sector `offset` on, each up to 512 bytes, until `size` bytes are
/// there; `None` when a sector lies off the disk.
pub open spec fn cluster_read(disk: Seq<u8>, fs: Fat32, first: u32, offset: int, size: int, got: Seq<u8>) -> Option<Seq<u8>>
    decreases fs.sectors_per_cluster - offset,
{
    if offset < 0 || offset >= fs.sectors_per_cluster || got.len() >= size {
        Some(got)
    } else {
        let lba = first.wrapping_add(offset as u32);
        if (lba as int + 1) * 512 > disk.len() {
            None
        } else {
            let copy = if size - got.len() < 512 { size - got.len() } else { 512 };
            cluster_read(disk, fs, first, offset + 1, size, got + sector_of(disk, lba as int).take(copy))
        }
    }
}

/// `got` with the bytes of the cluster chain from `cluster` on, until
/// `size` bytes are there or the chain ends; `None` when a sector or a FAT
/// entry lies off the disk.
pub open spec fn chain_read(disk: Seq<u8>, fs: Fat32, cluster: u32, size: int, got: Seq<u8>) -> Option<Seq<u8>>
    decreases size - got.len(),
{
    if cluster >= END_OF_CHAIN || got.len() >= size {
        Some(got)
    } else {
        match cluster_read(disk, fs, cluster_lba_spec(fs, cluster), 0, size, got) {
            None => None,
            Some(g) => if g.len() <= got.len() {
                Some(g)
            } else {
                match fat_entry_spec(disk, fs, cluster) {
                    None => None,
                    Some(next) => {
                        proof { lemma_cluster_read_len(disk, fs, cluster_lba_spec(fs, cluster), 0, size, got); }
                        chain_read(disk, fs, next, size, g)
                    },
                }
            },
        }
    }
}

/// Reading a cluster only adds bytes, and never past `size`.
pub proof fn lemma_cluster_read_len(disk: Seq<u8>, fs: Fat32, first: u32, offset: int, size: int, got: Seq<u8>)
    requires got.len() <= size,
    ensures
        cluster_read(disk, fs, first, offset, size, got) matches Some(g) ==> got.len() <= g.len() <= size,
    decreases fs.sectors_per_cluster - offset,
{
    if offset < 0 || offset >= fs.sectors_per_cluster || got.len() >= size {
    } else {
        let lba = first.wrapping_add(offset as u32);
        if (lba as int + 1) * 512 <= disk.len() {
            let copy = if size - got.len() < 512 { size - got.len() } else { 512 };
            lemma_cluster_read_len(disk, fs, first, offset + 1, size, got + sector_of(disk, lba as int).take(copy));
        }
    }
}

/// Whether the 32-byte entry at `at` of `s` is the live file `name`.
pub open spec fn entry_matches(s: Seq<u8>, at: int, name: Seq<u8>) -> bool {
    s[at] != 0 && s[at] != 0xe5 && s[at + 11] != 0x0f && s.subrange(at, at + 11) == name
}

/// Sector `lba` of a disk image.
pub open spec fn sector_of(disk: Seq<u8>, lba: int) -> Seq<u8> {
    disk.subrange(lba * 512, lba * 512 + 512)
}

/// Whether `a[from..from + 11]` is `name`.
fn name_at(a: &[u8], from: usize, name: &[u8; 11]) -> (r: bool)
    requires from + 11 <= a@.len(),
    ensures r == (a@.subrange(from as int, from + 11) == name@),
{
    let n = a.len();
    let mut i: usize = 0;
    while i < 11
        invariant
            i <= 11, from + 11 <= a@.len(), name@.len() == 11, n == a@.len(),
            forall|k: int| 0 <= k < i ==> a@[from + k] == name@[k],
        decreases 11 - i,
    {
        if a[from + i] != name[i] {
            proof { assert(a@.subrange(from as int, from + 11)[i as int] != name@[i as int]); }
            return false;
        }
        i += 1;
    }
    proof { assert(a@.subrange(from as int, from + 11) =~= name@); }
    true
}

/// The directory entry at `at` of sector `s`: its first cluster (high and
/// low halves) and its size.
pub open spec fn entry_at(s: Seq<u8>, at: int) -> DirectoryEntry {
    DirectoryEntry {
        cluster: ((le16(s, at + 20) as u16 as u32) << 16u32) | (le16(s, at + 26) as u16 as u32),
        size: le32(s, at + 28) as u32,
    }
}

/// The scan of the directory cluster whose first sector is `first`, from
/// entry `at` of its sector `offset` on: the first live entry named `name`,
/// or `None` at an entry starting with 0, at the cluster's end or at a
/// sector off the disk.
pub open spec fn root_scan(disk: Seq<u8>, fs: Fat32, first: u32, offset: int, at: int, name: Seq<u8>) -> Option<DirectoryEntry>
    decreases fs.sectors_per_cluster - offset, 512 - at,
{
    if offset < 0 || offset >= fs.sectors_per_cluster {
        None
    } else {
        let lba = first.wrapping_add(offset as u32);
        if (lba as int + 1) * 512 > disk.len() {
            None
        } else if at < 0 || at + 32 > 512 {
            root_scan(disk, fs, first, offset + 1, 0, name)
        } else {
            let s = sector_of(disk, lba as int);
            if s[at] == 0 {
                None
            } else if entry_matches(s, at, name) {
                Some(entry_at(s, at))
            } else {
                root_scan(disk, fs, first, offset, at + 32, name)
            }
        }
    }
}

/// Finds the file `name` (an 8.3 name, space padded) in the root
/// directory's first cluster; the listing ends at an entry starting with 0.
/// Deleted entries and long-name entries are skipped.
pub fn find_root_entry(disk: &Disk, fs: Fat32, name: &[u8; 11]) -> (r: Option<DirectoryEntry>)
    ensures
        r == root_scan(disk@, fs, cluster_lba_spec(fs, fs.root_cluster), 0, 0, name@),
{
    let first_sector = cluster_lba(fs, fs.root_cluster);
    let mut offset: u32 = 0;
    while offset < fs.sectors_per_cluster as u32
        invariant
            offset <= fs.sectors_per_cluster,
            first_sector == cluster_lba_spec(fs, fs.root_cluster),
            root_scan(disk@, fs, first_sector, 0, 0, name@) == root_scan(disk@, fs, first_sector, offset as int, 0, name@),
        decreases fs.sectors_per_cluster - offset,
    {
        let lba = first_sector.wrapping_add(offset);
        let sector = match disk.read_sector(lba) { Some(s) => s, None => return None };
        let mut at: usize = 0;
        while at < 512
            invariant
                at <= 512, at % 32 == 0, sector@.len() == 512, offset < fs.sectors_per_cluster,
                disk.in_range(lba as int, 1), lba == first_sector.wrapping_add(offset),
                first_sector == cluster_lba_spec(fs, fs.root_cluster),
                sector@ == sector_of(disk@, lba as int),
                root_scan(disk@, fs, first_sector, 0, 0, name@) == root_scan(disk@, fs, first_sector, offset as int, at as int, name@),
            decreases 512 - at,
        {
            assert(at + 32 <= 512);
            if sector[at] == 0 {
                return None;
            }
            if sector[at] != 0xe5 && sector[at + 11] != 0x0f && name_at(&sector, at, name) {
                let high = read_u16(&sector, at + 20).unwrap() as u32;
                let low = read_u16(&sector, at + 26).unwrap() as u32;
                let size = read_u32(&sector, at + 28).unwrap();
                let e = DirectoryEntry { cluster: (high << 16) | low, size };
                proof {
                    assert(entry_matches(sector@, at as int, name@));
                    assert(e == entry_at(sector@, at as int));
                }
                return Some(e);
            }
            assert(!entry_matches(sector@, at as int, name@));
            at += 32;
        }
        offset += 1;
    }
    None
}

/// Reads `size` bytes (at most `MAX_FILE_SIZE`) along the chain from
/// `start_cluster`, sector by sector; a chain that ends early gives fewer
/// bytes. A volume with no sectors per cluster gives nothing.
pub fn read_chain(disk: &Disk, fs: Fat32, start_cluster: u32, size: usize) -> (r: Option<Vec<u8>>)
    ensures
        size > MAX_FILE_SIZE ==> r is None,
        size <= MAX_FILE_SIZE && fs.sectors_per_cluster == 0 ==> (r matches Some(v) && v@.len() == 0),
        size <= MAX_FILE_SIZE && fs.sectors_per_cluster > 0 ==> (r is Some <==> chain_read(disk@, fs, start_cluster, size as int, Seq::empty()) is Some),
        size <= MAX_FILE_SIZE && fs.sectors_per_cluster > 0 ==> (r matches Some(v) ==> Some(v@) == chain_read(disk@, fs, start_cluster, size as int, Seq::empty())),
        r matches Some(v) ==> v@.len() <= size,
{
    if size > MAX_FILE_SIZE {
        return None;
    }
    let mut out: Vec<u8> = Vec::new();
    if fs.sectors_per_cluster == 0 {
        return Some(out);
    }
    let mut cluster = start_cluster;
    while cluster < END_OF_CHAIN && out.len() < size
        invariant
            out@.len() <= size, fs.sectors_per_cluster > 0,
            chain_read(disk@, fs, start_cluster, size as int, Seq::empty()) == chain_read(disk@, fs, cluster, size as int, out@),
        decreases size - out@.len(),
    {
        let first_sector = cluster_lba(fs, cluster);
        let mut offset: u32 = 0;
        let before = out.len();
        let ghost got0 = out@;
        while offset < fs.sectors_per_cluster as u32 && out.len() < size
            invariant
                out@.len() <= size, before <= out@.len(), offset <= fs.sectors_per_cluster,
                offset > 0 ==> out@.len() > before,
                before == got0.len(), got0.len() < size, cluster < END_OF_CHAIN,
                first_sector == cluster_lba_spec(fs, cluster),
                chain_read(disk@, fs, start_cluster, size as int, Seq::empty()) == chain_read(disk@, fs, cluster, size as int, got0),
                cluster_read(disk@, fs, first_sector, 0, size as int, got0) == cluster_read(disk@, fs, first_sector, offset as int, size as int, out@),
            decreases fs.sectors_per_cluster - offset,
        {
            let lba = first_sector.wrapping_add(offset);
            let sector = match disk.read_sector(lba) { Some(s) => s, None => return None };
            let copy = if size - out.len() < 512 { size - out.len() } else { 512 };
            let ghost l0 = out@;
            let mut k: usize = 0;
            while k < copy
                invariant k <= copy, 0 < copy <= 512, sector@.len() == 512, l0.len() + copy <= size,
                    out@ == l0 + sector@.take(k as int),
                decreases copy - k,
            {
                out.push(sector[k]);
                k += 1;
                proof { assert(out@ =~= l0 + sector@.take(k as int)); }
            }
            proof { assert(sector@ == sector_of(disk@, lba as int)); }
            offset += 1;
        }
        proof {
            assert(cluster_read(disk@, fs, first_sector, offset as int, size as int, out@) == Some(out@));
            assert(out@.len() > got0.len());
        }
        cluster = match fat_entry(disk, fs, cluster) { Some(c) => c, None => return None };
    }
    Some(out)
}

/// The root-directory file `name` of a disk image, read as `read_file`
/// reads it.
pub open spec fn file_spec(disk: Seq<u8>, name: Seq<u8>) -> Option<Seq<u8>> {
    if disk.len() < 512 {
        None
    } else {
        match mount_spec(disk.subrange(0, 512)) {
            None => None,
            Some(fs) => match root_scan(disk, fs, cluster_lba_spec(fs, fs.root_cluster), 0, 0, name) {
                None => None,
                Some(e) => if e.size > MAX_FILE_SIZE {
                    None
                } else if fs.sectors_per_cluster == 0 {
                    Some(Seq::empty())
                } else {
                    chain_read(disk, fs, e.cluster, e.size as int, Seq::empty())
                },
            },
        }
    }
}

/// Reads the root-directory file `name`.
pub fn read_file(disk: &Disk, name: &[u8; 11]) -> (r: Option<Vec<u8>>)
    ensures
        r matches Some(v) ==> v@.len() <= MAX_FILE_SIZE,
        r is Some <==> file_spec(disk@, name@) is Some,
        r matches Some(v) ==> file_spec(disk@, name@) == Some(v@),
{
    let fs = match mount(disk) { Some(f) => f, None => return None };
    let entry = match find_root_entry(disk, fs, name) { Some(e) => e, None => return None };
    read_chain(disk, fs, entry.cluster, entry.size as usize)
}

} // verus!
