//! The root block device: the ATA PIO command sequence, the legacy Virtio
//! block request (its descriptor chain, queue layout and completion), and
//! the choice between the two backends. The port and memory accesses stay
//! with the caller; these functions decide what they are.
use vstd::prelude::*;

verus! {

pub const ATA_DATA: u16 = 0x1f0;
pub const ATA_SECTOR_COUNT: u16 = 0x1f2;
pub const ATA_LBA_LOW: u16 = 0x1f3;
pub const ATA_LBA_MID: u16 = 0x1f4;
pub const ATA_LBA_HIGH: u16 = 0x1f5;
pub const ATA_DRIVE: u16 = 0x1f6;
pub const ATA_STATUS_COMMAND: u16 = 0x1f7;
pub const ATA_STATUS_ERR: u8 = 1;
pub const ATA_STATUS_DRQ: u8 = 8;
pub const ATA_STATUS_BSY: u8 = 0x80;
pub const ATA_CMD_READ_SECTORS: u8 = 0x20;

/// Bytes of a sector.
pub const SECTOR_SIZE: usize = 512;

/// The port writes that start an ATA PIO read of `sectors` sectors at
/// `lba` (LBA28, master drive), in order.
pub open spec fn ata_setup_spec(lba: u32, sectors: u8) -> Seq<(u16, u8)> {
    seq![
        (ATA_DRIVE, (0xe0 | ((lba >> 24u32) & 0x0f)) as u8),
        (ATA_SECTOR_COUNT, sectors),
        (ATA_LBA_LOW, (lba & 0xff) as u8),
        (ATA_LBA_MID, ((lba >> 8u32) & 0xff) as u8),
        (ATA_LBA_HIGH, ((lba >> 16u32) & 0xff) as u8),
        (ATA_STATUS_COMMAND, ATA_CMD_READ_SECTORS)
    ]
}

/// The port writes that start a read of `sectors` sectors at `lba` into a
/// buffer of `out_len` bytes; `None` when the read is refused (no
/// sectors, more than 255, or a buffer too small).
pub fn ata_setup(lba: u32, sectors: usize, out_len: usize) -> (r: Option<Vec<(u16, u8)>>)
    ensures
        r is Some <==> (sectors != 0 && sectors <= 255 && out_len >= sectors * SECTOR_SIZE),
        r matches Some(w) ==> w@ == ata_setup_spec(lba, sectors as u8),
{
    if sectors == 0 || sectors > 255 || out_len / SECTOR_SIZE < sectors {
        return None;
    }
    let w = vec![
        (ATA_DRIVE, (0xe0 | ((lba >> 24) & 0x0f)) as u8),
        (ATA_SECTOR_COUNT, sectors as u8),
        (ATA_LBA_LOW, (lba & 0xff) as u8),
        (ATA_LBA_MID, ((lba >> 8) & 0xff) as u8),
        (ATA_LBA_HIGH, ((lba >> 16) & 0xff) as u8),
        (ATA_STATUS_COMMAND, ATA_CMD_READ_SECTORS)
    ];
    proof { assert(w@ =~= ata_setup_spec(lba, sectors as u8)); }
    Some(w)
}

/// What a status byte says while waiting for data.
#[derive(Clone, Copy, PartialEq, Eq, Structural)]
pub enum DrqStatus {
    /// The drive reported an error.
    Error,
    /// Data is ready.
    Ready,
    /// Keep polling.
    Busy,
}

/// Reads a status byte: an error first, then ready when not busy and
/// requesting data.
pub fn drq_status(status: u8) -> (r: DrqStatus)
    ensures
        r == if status & ATA_STATUS_ERR != 0 { DrqStatus::Error }
            else if status & ATA_STATUS_BSY == 0 && status & ATA_STATUS_DRQ != 0 { DrqStatus::Ready }
            else { DrqStatus::Busy },
{
    if status & ATA_STATUS_ERR != 0 {
        DrqStatus::Error
    } else if status & ATA_STATUS_BSY == 0 && status & ATA_STATUS_DRQ != 0 {
        DrqStatus::Ready
    } else {
        DrqStatus::Busy
    }
}

/// The bytes of data words read from the data port, low byte first.
pub fn words_to_bytes(words: &[u16]) -> (r: Vec<u8>)
    ensures
        r@.len() == 2 * words@.len(),
        forall|i: int| 0 <= i < words@.len() ==> #[trigger] r@[2 * i] == words@[i] % 256 && r@[2 * i + 1] == words@[i] / 256,
{
    let mut out: Vec<u8> = Vec::new();
    let mut i: usize = 0;
    while i < words.len()
        invariant
            i <= words@.len(), out@.len() == 2 * i,
            forall|k: int| 0 <= k < i ==> #[trigger] out@[2 * k] == words@[k] % 256 && out@[2 * k + 1] == words@[k] / 256,
        decreases words@.len() - i,
    {
        let w = words[i];
        let ghost prev = out@;
        out.push((w % 256) as u8);
        out.push((w / 256) as u8);
        proof {
            assert forall|k: int| 0 <= k < i + 1 implies #[trigger] out@[2 * k] == words@[k] % 256 && out@[2 * k + 1] == words@[k] / 256 by {
                if k < i {
                    assert(out@[2 * k] == prev[2 * k] && out@[2 * k + 1] == prev[2 * k + 1]);
                }
            }
        }
        i += 1;
    }
    out
}

/// The block backend in use.
#[derive(Clone, Copy, PartialEq, Eq, Structural)]
pub enum Backend {
    Missing,
    Virtio,
    Ata,
}

/// The backend the kernel settles on: Virtio when its device is ready and
/// its first sector reads, else ATA when that reads, else none.
pub fn choose_backend(virtio_ready: bool, virtio_reads: bool, ata_reads: bool) -> (r: Backend)
    ensures
        r == if virtio_ready && virtio_reads { Backend::Virtio } else if ata_reads { Backend::Ata } else { Backend::Missing },
{
    if virtio_ready && virtio_reads {
        Backend::Virtio
    } else if ata_reads {
        Backend::Ata
    } else {
        Backend::Missing
    }
}

pub const VIRTIO_VENDOR_ID: u16 = 0x1af4;
pub const VIRTIO_PCI_CAP_ID: u8 = 0x09;
pub const QUEUE_SIZE: u16 = 256;
pub const DESC_F_NEXT: u16 = 1;
pub const DESC_F_WRITE: u16 = 2;
pub const VIRTIO_BLK_T_IN: u32 = 0;
pub const STATUS_ACKNOWLEDGE: u8 = 1;
pub const STATUS_DRIVER: u8 = 2;
pub const STATUS_DRIVER_OK: u8 = 4;
pub const STATUS_FEATURES_OK: u8 = 8;
/// Sectors one request may carry.
pub const MAX_REQUEST_SECTORS: usize = 128;
/// Bytes of the request header.
pub const REQUEST_HEADER_LEN: u32 = 16;

/// What a Virtio device is, by its device id.
#[derive(Clone, Copy, PartialEq, Eq, Structural)]
pub enum VirtioKind {
    Block,
    Input,
    Generic,
}

/// The kind of Virtio device `device_id`.
pub fn classify_device(device_id: u16) -> (r: VirtioKind)
    ensures
        r == if device_id == 0x1001 || device_id == 0x1042 { VirtioKind::Block }
            else if device_id == 0x1052 { VirtioKind::Input } else { VirtioKind::Generic },
{
    if device_id == 0x1001 || device_id == 0x1042 {
        VirtioKind::Block
    } else if device_id == 0x1052 {
        VirtioKind::Input
    } else {
        VirtioKind::Generic
    }
}

/// One virtqueue descriptor.
#[derive(Clone, Copy, PartialEq, Eq, Structural)]
pub struct Descriptor {
    pub addr: u64,
    pub len: u32,
    pub flags: u16,
    pub next: u16,
}

/// The three descriptors of a block read: the request header, the data
/// buffer the device writes, and the status byte it writes.
pub open spec fn request_chain_spec(request_phys: u64, data_phys: u64, status_phys: u64, sectors: usize) -> Seq<Descriptor> {
    seq![
        Descriptor { addr: request_phys, len: REQUEST_HEADER_LEN, flags: DESC_F_NEXT, next: 1 },
        Descriptor { addr: data_phys, len: (sectors * SECTOR_SIZE) as u32, flags: (DESC_F_NEXT | DESC_F_WRITE) as u16, next: 2 },
        Descriptor { addr: status_phys, len: 1, flags: DESC_F_WRITE, next: 0 }
    ]
}

/// The descriptor chain of a read of `sectors` sectors (at most
/// `MAX_REQUEST_SECTORS`).
pub fn request_chain(request_phys: u64, data_phys: u64, status_phys: u64, sectors: usize) -> (r: Vec<Descriptor>)
    requires sectors <= MAX_REQUEST_SECTORS,
    ensures r@ == request_chain_spec(request_phys, data_phys, status_phys, sectors),
{
    let r = vec![
        Descriptor { addr: request_phys, len: REQUEST_HEADER_LEN, flags: DESC_F_NEXT, next: 1 },
        Descriptor { addr: data_phys, len: (sectors * SECTOR_SIZE) as u32, flags: DESC_F_NEXT | DESC_F_WRITE, next: 2 },
        Descriptor { addr: status_phys, len: 1, flags: DESC_F_WRITE, next: 0 }
    ];
    proof { assert(r@ =~= request_chain_spec(request_phys, data_phys, status_phys, sectors)); }
    r
}

/// The 16-byte request header: a read (`VIRTIO_BLK_T_IN`) of sector `lba`.
pub fn request_header(lba: u64) -> (r: Vec<u8>)
    ensures r@ == crate::bytes::put_le(Seq::new(16, |i: int| 0u8), 8, lba as int, 8),
{
    let mut b: Vec<u8> = vec![0u8; 16];
    proof { assert(b@ =~= Seq::new(16, |i: int| 0u8)); }
    crate::bytes::write_u64(&mut b, 8, lba);
    b
}

/// Where the legacy queue's rings lie in its memory: the available ring
/// after the 256 descriptors, the used ring on the third page.
pub const AVAILABLE_OFFSET: usize = 4096;
pub const USED_OFFSET: usize = 8192;

/// The available-ring slot the next request goes in, and the index the
/// ring announces after it.
pub fn next_available(avail_idx: u16) -> (r: (usize, u16))
    ensures r.0 == avail_idx % QUEUE_SIZE, r.1 == avail_idx.wrapping_add(1),
{
    ((avail_idx % QUEUE_SIZE) as usize, avail_idx.wrapping_add(1))
}

/// What the used ring says of the request in flight.
#[derive(Clone, Copy, PartialEq, Eq, Structural)]
pub enum Completion {
    /// The device has not answered yet.
    Pending,
    /// The device answered; whether the read succeeded (status 0).
    Done(bool),
}

/// Reads the used ring: an index other than the last one seen means the
/// device answered, with `status` telling success.
pub fn completion(used_idx: u16, last_used: u16, status: u8) -> (r: Completion)
    ensures r == if used_idx != last_used { Completion::Done(status == 0) } else { Completion::Pending },
{
    if used_idx != last_used { Completion::Done(status == 0) } else { Completion::Pending }
}

/// The device status values the legacy initialisation writes, in order:
/// reset, acknowledged with a driver, features settled, driver ready.
pub fn legacy_status_sequence() -> (r: Vec<u8>)
    ensures r@ == seq![0u8, 3, 11, 15],
{
    let r = vec![0u8, STATUS_ACKNOWLEDGE | STATUS_DRIVER, STATUS_ACKNOWLEDGE | STATUS_DRIVER | STATUS_FEATURES_OK,
        STATUS_ACKNOWLEDGE | STATUS_DRIVER | STATUS_FEATURES_OK | STATUS_DRIVER_OK];
    proof {
        assert((1u8 | 2u8) == 3u8 && (1u8 | 2u8 | 8u8) == 11u8 && (1u8 | 2u8 | 8u8 | 4u8) == 15u8) by (bit_vector);
        assert(r@ =~= seq![0u8, 3, 11, 15]);
    }
    r
}

/// Whether a legacy block device can be driven: a block device (id
/// 0x1001) whose first BAR is a nonzero I/O port range, with a queue of at
/// least `QUEUE_SIZE` entries.
pub fn legacy_block_usable(device_id: u16, bar_is_io: bool, bar_base: u64, queue_size: u16) -> (r: bool)
    ensures r == (device_id == 0x1001 && bar_is_io && bar_base != 0 && queue_size >= QUEUE_SIZE),
{
    device_id == 0x1001 && bar_is_io && bar_base != 0 && queue_size >= QUEUE_SIZE
}

/// The page frame number the queue is registered with.
pub fn queue_pfn(queue_phys: u64) -> (r: u32)
    ensures r == (queue_phys / 4096) % 0x1_0000_0000,
{
    ((queue_phys / 4096) % 0x1_0000_0000) as u32
}

/// Whether a block read may be issued: some sectors, at most
/// `MAX_REQUEST_SECTORS`, into a buffer that holds them.
pub fn read_allowed(ready: bool, sectors: usize, out_len: usize) -> (r: bool)
    ensures r == (ready && sectors != 0 && sectors <= MAX_REQUEST_SECTORS && out_len >= sectors * SECTOR_SIZE),
{
    ready && sectors != 0 && sectors <= MAX_REQUEST_SECTORS && out_len / SECTOR_SIZE >= sectors
}

/// The name of a Virtio capability's configuration type.
pub fn cap_kind_name(cfg_type: u8) -> (r: &'static str)
    ensures
        cfg_type == 1 ==> r@ == " common"@,
        cfg_type == 2 ==> r@ == " notify"@,
        cfg_type == 3 ==> r@ == " isr"@,
        cfg_type == 4 ==> r@ == " device"@,
        !(1 <= cfg_type <= 4) ==> r@ == " other"@,
{
    if cfg_type == 1 { " common" } else if cfg_type == 2 { " notify" } else if cfg_type == 3 { " isr" }
    else if cfg_type == 4 { " device" } else { " other" }
}

} // verus!
