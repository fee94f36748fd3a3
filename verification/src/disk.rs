//! The root block device, as a sequence of 512-byte sectors held in memory.
//! Reads and writes address whole sectors; an access past the end fails.
use vstd::prelude::*;

verus! {

/// Bytes per sector.
pub const SECTOR_SIZE: usize = 512;

/// A block device image.
pub struct Disk {
    pub bytes: Vec<u8>,
}

/// `s` with `data` stored at `off`.
pub open spec fn splice(s: Seq<u8>, off: int, data: Seq<u8>) -> Seq<u8> {
    Seq::new(s.len(), |i: int| if off <= i < off + data.len() { data[i - off] } else { s[i] })
}

impl Disk {
    /// The image's bytes.
    pub open spec fn view(&self) -> Seq<u8> {
        self.bytes@
    }

    /// Whether sectors `lba..lba+count` exist.
    pub open spec fn in_range(&self, lba: int, count: int) -> bool {
        0 <= lba && 0 <= count && (lba + count) * 512 <= self@.len()
    }

    /// A disk over `image`.
    pub fn from_image(image: Vec<u8>) -> (r: Disk)
        ensures r@ == image@,
    {
        Disk { bytes: image }
    }

    /// Number of whole sectors.
    pub fn sector_count(&self) -> (r: usize)
        ensures r == self@.len() / 512,
    {
        self.bytes.len() / SECTOR_SIZE
    }

    /// Reads `count` sectors starting at `lba`.
    pub fn read_sectors(&self, lba: u32, count: usize) -> (r: Option<Vec<u8>>)
        ensures
            r is Some <==> self.in_range(lba as int, count as int),
            r matches Some(v) ==> v@ == self@.subrange(lba * 512, (lba + count) * 512),
    {
        let len = self.bytes.len();
        if lba as usize > len / SECTOR_SIZE || count > len / SECTOR_SIZE - lba as usize {
            proof {
                assert(!self.in_range(lba as int, count as int)) by (nonlinear_arith)
                    requires
                        len == self@.len(),
                        lba as int > len / 512 || count as int > len / 512 - lba as int,
                        0 <= lba, 0 <= count;
            }
            return None;
        }
        proof {
            assert(self.in_range(lba as int, count as int)) by (nonlinear_arith)
                requires
                    len == self@.len(),
                    lba as int <= len / 512,
                    count as int <= len / 512 - lba as int,
                    0 <= lba, 0 <= count;
        }
        let start = lba as usize * SECTOR_SIZE;
        let end = start + count * SECTOR_SIZE;
        let mut out: Vec<u8> = Vec::with_capacity(count * SECTOR_SIZE);
        let mut i = start;
        while i < end
            invariant
                start <= i <= end,
                end <= self@.len(),
                out@ == self@.subrange(start as int, i as int),
            decreases end - i,
        {
            out.push(self.bytes[i]);
            i += 1;
            proof { assert(out@ =~= self@.subrange(start as int, i as int)); }
        }
        Some(out)
    }

    /// Reads the sector `lba`.
    pub fn read_sector(&self, lba: u32) -> (r: Option<Vec<u8>>)
        ensures
            r is Some <==> self.in_range(lba as int, 1),
            r matches Some(v) ==> v@ == self@.subrange(lba * 512, (lba + 1) * 512) && v@.len() == 512,
    {
        self.read_sectors(lba, 1)
    }

    /// Writes `count` sectors starting at `lba` from the first bytes of `data`.
    pub fn write_sectors(&mut self, lba: u32, count: usize, data: &[u8]) -> (r: bool)
        ensures
            r <==> old(self).in_range(lba as int, count as int) && data@.len() >= count * 512,
            r ==> final(self)@ == splice(old(self)@, lba * 512, data@.subrange(0, count * 512)),
            !r ==> final(self)@ == old(self)@,
    {
        let len = self.bytes.len();
        let ghost total = old(self)@.len();
        if lba as usize > len / SECTOR_SIZE || count > len / SECTOR_SIZE - lba as usize
            || data.len() / SECTOR_SIZE < count {
            proof {
                if lba as int <= len / 512 && count as int <= len / 512 - lba as int {
                    assert(data@.len() < count * 512) by (nonlinear_arith)
                        requires data@.len() / 512 < count as int, 0 <= count;
                } else {
                    assert(!((lba + count) * 512 <= total)) by (nonlinear_arith)
                        requires
                            len == total,
                            lba as int > len / 512 || count as int > len / 512 - lba as int,
                            0 <= lba, 0 <= count;
                }
            }
            return false;
        }
        proof {
            assert((lba + count) * 512 <= total && data@.len() >= count * 512) by (nonlinear_arith)
                requires
                    len == total,
                    lba as int <= len / 512,
                    count as int <= len / 512 - lba as int,
                    data@.len() / 512 >= count as int,
                    0 <= lba, 0 <= count;
        }
        let start = lba as usize * SECTOR_SIZE;
        let n = count * SECTOR_SIZE;
        let mut i: usize = 0;
        while i < n
            invariant
                0 <= i <= n,
                start + n <= self@.len(),
                n <= data@.len(),
                self@.len() == old(self)@.len(),
                self@.len() == len,
                forall|k: int| 0 <= k < self@.len() ==> self@[k] == if start <= k < start + i { data@[k - start] } else { old(self)@[k] },
            decreases n - i,
        {
            self.bytes.set(start + i, data[i]);
            i += 1;
        }
        proof {
            assert(self@ =~= splice(old(self)@, lba * 512, data@.subrange(0, count * 512)));
        }
        true
    }

    /// Writes the sector `lba` from the first 512 bytes of `data`.
    pub fn write_sector(&mut self, lba: u32, data: &[u8]) -> (r: bool)
        ensures
            r <==> old(self).in_range(lba as int, 1) && data@.len() >= 512,
            r ==> final(self)@ == splice(old(self)@, lba * 512, data@.subrange(0, 512)),
            !r ==> final(self)@ == old(self)@,
    {
        self.write_sectors(lba, 1, data)
    }
}

} // verus!
