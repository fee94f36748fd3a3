//! User address spaces: the page tables every user process gets, the pool of
//! physical frames backing user memory, and which user pages are mapped.
//!
//! Physical memory itself is only touched outside the library: the frames
//! that this module hands out or takes back are queued for zeroing, and
//! copies between frames are returned for the caller to carry out.
use vstd::prelude::*;
use crate::limine::{KernelAddress, MemoryRegion};
use crate::scheduler::USER_TASKS;

verus! {

/// Bytes per page.
pub const PAGE_SIZE: u64 = 4096;
/// Entries per page table.
pub const PAGE_ENTRIES: usize = 512;
/// Base of every user program image.
pub const USER_IMAGE_BASE: u64 = 0x0000_0000_4000_0000;
/// Size of the user image area.
pub const USER_IMAGE_SIZE: usize = 32 * 1024 * 1024;
/// Pages of the user image area.
pub const USER_IMAGE_PAGES: usize = 8192;
/// Base of the user stack.
pub const USER_STACK_BASE: u64 = 0x0000_0000_4200_0000;
/// Size of the user stack.
pub const USER_STACK_SIZE: usize = 16 * 1024;
/// Pages of the user stack.
pub const USER_STACK_PAGES: usize = 4;
/// Size of the area below the stack that is also kept mapped.
pub const USER_STACK_LOW_SIZE: usize = 1024 * 1024;
/// Base of the area below the stack.
pub const USER_STACK_LOW_BASE: u64 = 0x0000_0000_41f0_0000;
/// Pages tracked per task (image then stack).
pub const USER_PAGES: usize = 8196;
/// Page tables mapping the user image.
pub const USER_IMAGE_PT_COUNT: usize = 16;
/// Kernel pages mapped into every address space.
pub const KERNEL_MAPPED_PAGES: usize = 131072;
/// Page tables mapping the kernel.
pub const KERNEL_PT_COUNT: usize = 257;
/// Page tables set aside for the framebuffer.
pub const FRAMEBUFFER_PT_COUNT: usize = 16;
/// Start of the high direct-map window.
pub const HHDM_HIGH_BASE: u64 = 0xf000_0000;
/// Length of the high direct-map window.
pub const HHDM_HIGH_LEN: u64 = 0x1000_0000;
/// Page tables reserved per task.
pub const TABLES_PER_TASK: usize = 800;
/// Page tables in all.
pub const TABLE_COUNT: usize = 12800;
/// Largest number of free frames kept.
pub const MAX_FREE_FRAMES: usize = 65536;
/// Marks an unmapped user page.
pub const FRAME_NONE: u64 = 0;
/// Memory map kind of usable RAM.
pub const LIMINE_MEMMAP_USABLE: u64 = 0;
/// Physical memory reachable through the direct map.
pub const MAPPED_PHYS_LIMIT: u64 = 131072 * 4096;
/// Entry present.
pub const PTE_PRESENT: u64 = 1;
/// Entry writable.
pub const PTE_WRITABLE: u64 = 2;
/// Entry reachable from ring 3.
pub const PTE_USER: u64 = 4;
/// Entry not executable.
pub const PTE_NO_EXECUTE: u64 = 0x8000_0000_0000_0000;

/// A page-table root handed to the scheduler.
#[derive(Clone, Copy)]
pub struct PageTableRoot {
    pub pml4_phys: u64,
}

impl PageTableRoot {
    /// The physical address of the top-level table.
    pub fn pml4_phys(self) -> (r: u64)
        ensures r == self.pml4_phys,
    {
        self.pml4_phys
    }
}

/// The framebuffer's place in virtual and physical memory.
#[derive(Clone, Copy)]
pub struct FramebufferMapping {
    pub virt: u64,
    pub phys: u64,
    pub len: u64,
}

/// `value` rounded up to the power of two `align`.
pub open spec fn spec_align_up_u64(value: u64, align: u64) -> u64 {
    ((value + align - 1) as u64) & !((align - 1) as u64)
}

/// `value` rounded up to the power of two `align`.
pub fn align_up_u64(value: u64, align: u64) -> (r: u64)
    requires
        align >= 1,
        value + align - 1 <= u64::MAX,
    ensures r == spec_align_up_u64(value, align),
{
    let mask = align - 1;
    (value + mask) & !mask
}

/// The physical address of kernel virtual address `virt`.
pub fn virt_to_phys(virt: u64, kernel: KernelAddress) -> (r: u64)
    requires
        virt >= kernel.virtual_base,
        virt - kernel.virtual_base + kernel.physical_base <= u64::MAX,
    ensures r == virt - kernel.virtual_base + kernel.physical_base,
{
    virt - kernel.virtual_base + kernel.physical_base
}

/// The four table indexes of `virt`, top level first.
pub open spec fn spec_page_indexes(virt: u64) -> (usize, usize, usize, usize) {
    (((virt >> 39u64) & 0x1ff) as usize, ((virt >> 30u64) & 0x1ff) as usize,
     ((virt >> 21u64) & 0x1ff) as usize, ((virt >> 12u64) & 0x1ff) as usize)
}

/// The four table indexes of `virt`, top level first.
pub fn page_indexes(virt: u64) -> (r: (usize, usize, usize, usize))
    ensures
        r == spec_page_indexes(virt),
        r.0 < 512 && r.1 < 512 && r.2 < 512 && r.3 < 512,
{
    proof {
        assert((virt >> 39u64) & 0x1ff < 512 && (virt >> 30u64) & 0x1ff < 512
            && (virt >> 21u64) & 0x1ff < 512 && (virt >> 12u64) & 0x1ff < 512) by (bit_vector);
    }
    (((virt >> 39) & 0x1ff) as usize, ((virt >> 30) & 0x1ff) as usize,
     ((virt >> 21) & 0x1ff) as usize, ((virt >> 12) & 0x1ff) as usize)
}

/// The user page (image pages, then stack pages) holding `virt`.
pub open spec fn spec_user_page_index(virt: u64) -> Option<usize> {
    if virt < USER_IMAGE_BASE || virt >= USER_STACK_BASE + USER_STACK_SIZE {
        None
    } else {
        let page = (virt - USER_IMAGE_BASE) / 4096;
        if page < USER_PAGES { Some(page as usize) } else { None }
    }
}

/// The user page (image pages, then stack pages) holding `virt`.
pub fn user_page_index(virt: u64) -> (r: Option<usize>)
    ensures
        r == spec_user_page_index(virt),
        r matches Some(p) ==> p < USER_PAGES,
{
    if virt < USER_IMAGE_BASE || virt >= USER_STACK_BASE + USER_STACK_SIZE as u64 {
        return None;
    }
    let page = ((virt - USER_IMAGE_BASE) / PAGE_SIZE) as usize;
    if page < USER_PAGES { Some(page) } else { None }
}

/// The top of every user stack.
pub fn user_stack_top(_index: usize) -> (r: u64)
    ensures r == USER_STACK_BASE + USER_STACK_SIZE,
{
    USER_STACK_BASE + USER_STACK_SIZE as u64
}


/// Entries of all page tables together.
pub const TABLE_ENTRIES: usize = 6553600;
/// Slots in the table of user frames.
pub const USER_FRAME_SLOTS: usize = 131136;
/// First user page of the stack.
pub const USER_STACK_FIRST_PAGE: usize = 8192;
/// The flags every mapped user page has.
pub const USER_PTE_FLAGS: u64 = 7;

/// Work on physical memory that the allocator leaves to the caller, who
/// reaches frames through the direct map: zero a frame, copy one frame to
/// another, or store bytes at an offset of a frame.
pub enum FrameOp {
    Zero { frame: u64 },
    Copy { from: u64, to: u64 },
    Write { frame: u64, offset: usize, bytes: Vec<u8> },
}

/// The page tables of all user address spaces, the free physical frames,
/// and which frame backs each user page of each task.
pub struct UserMemory {
    pub tables: Vec<u64>,
    pub tables_virt: u64,
    pub kernel: KernelAddress,
    pub hhdm_offset: u64,
    pub free_frames: Vec<u64>,
    pub user_frames: Vec<u64>,
    pub pending: Vec<FrameOp>,
}

/// A frame the allocator may hand out: not frame 0, and in the direct map.
pub open spec fn valid_frame(f: u64) -> bool {
    f != 0 && f < MAPPED_PHYS_LIMIT
}

/// The frame taken from the top of the free stack (invalid entries on top
/// are dropped on the way) and what remains.
pub open spec fn alloc_spec(free: Seq<u64>) -> (Option<u64>, Seq<u64>)
    decreases free.len(),
{
    if free.len() == 0 {
        (None, free)
    } else if valid_frame(free.last()) {
        (Some(free.last()), free.drop_last())
    } else {
        alloc_spec(free.drop_last())
    }
}

/// Slot of user page `page` of task `task`.
pub open spec fn frame_slot(task: int, page: int) -> int {
    task * USER_PAGES + page
}

/// The page-table entry that maps user page `page` of task `task`: the
/// image tables and the stack table follow each other.
pub open spec fn pte_index(task: int, page: int) -> int {
    (task * TABLES_PER_TASK + 3) * 512 + page
}

/// First user page of the range `virt..virt + len`.
pub open spec fn first_page(virt: int) -> int {
    (virt - USER_IMAGE_BASE) / 4096
}

/// One past the last user page of the range ending at `end`.
pub open spec fn end_page(end: int) -> int {
    (end - USER_IMAGE_BASE + 4095) / 4096
}

/// Whether `virt..virt + len` is a non-empty range of user memory.
pub open spec fn user_range_ok(virt: u64, len: usize) -> bool {
    &&& len > 0
    &&& virt + len <= u64::MAX
    &&& virt >= USER_IMAGE_BASE
    &&& virt + len <= USER_STACK_BASE + USER_STACK_SIZE
}

impl UserMemory {
    /// The invariant.
    pub open spec fn wf(&self) -> bool {
        &&& self.tables@.len() == TABLE_ENTRIES
        &&& self.user_frames@.len() == USER_FRAME_SLOTS
        &&& self.free_frames@.len() <= MAX_FREE_FRAMES
        &&& self.tables_virt >= self.kernel.virtual_base
        &&& self.tables_virt - self.kernel.virtual_base + self.kernel.physical_base + TABLE_COUNT * 4096 <= u64::MAX
    }

    /// The frame backing user page `page` of task `task` (0: none).
    pub open spec fn frame(&self, task: int, page: int) -> u64 {
        self.user_frames@[frame_slot(task, page)]
    }

    /// Physical address of page table `index`.
    pub open spec fn table_phys_spec(&self, index: int) -> int {
        self.tables_virt - self.kernel.virtual_base + self.kernel.physical_base + index * 4096
    }

    /// Only the allocator, the frame table, the tables and the queue of
    /// frame work may differ from `other`.
    pub open spec fn same_layout(&self, other: &UserMemory) -> bool {
        &&& self.tables_virt == other.tables_virt
        &&& self.kernel == other.kernel
        &&& self.hhdm_offset == other.hhdm_offset
    }

    /// `self` differs from `other` in the frames of task `task`, pages
    /// `lo..hi`, only where those were unmapped, and in the tables only at
    /// those pages' entries, which map the new frames with `flags`.
    pub open spec fn maps_more(&self, other: &UserMemory, task: int, lo: int, hi: int, flags: u64) -> bool {
        &&& forall|t: int, p: int| 0 <= t < USER_TASKS && 0 <= p < USER_PAGES && !(t == task && lo <= p < hi)
                ==> #[trigger] self.frame(t, p) == other.frame(t, p)
        &&& forall|p: int| lo <= p < hi && other.frame(task, p) != 0 ==> #[trigger] self.frame(task, p) == other.frame(task, p)
        &&& forall|i: int| 0 <= i < TABLE_ENTRIES && !(pte_index(task, lo) <= i < pte_index(task, hi))
                ==> #[trigger] self.tables@[i] == other.tables@[i]
        &&& forall|p: int| lo <= p < hi ==> {
                let e = #[trigger] self.tables@[pte_index(task, p)];
                &&& other.frame(task, p) != 0 ==> e == other.tables@[pte_index(task, p)]
                &&& other.frame(task, p) == 0 && self.frame(task, p) != 0
                        ==> e == self.frame(task, p) | USER_PTE_FLAGS | flags
            }
        &&& self.pending@.subrange(0, other.pending@.len() as int) == other.pending@
        &&& self.pending@.len() >= other.pending@.len()
    }

    /// Physical address of page table `index`.
    pub fn table_phys(&self, index: usize) -> (r: u64)
        requires self.wf(), index < TABLE_COUNT,
        ensures r == self.table_phys_spec(index as int),
    {
        self.tables_virt - self.kernel.virtual_base + self.kernel.physical_base + (index as u64) * PAGE_SIZE
    }

    /// Takes a frame from the top of the free stack, dropping invalid
    /// entries; the frame is queued for zeroing.
    fn alloc_frame(&mut self) -> (r: Option<u64>)
        requires old(self).wf(),
        ensures
            final(self).wf(),
            final(self).same_layout(&*old(self)),
            final(self).tables@ == old(self).tables@,
            final(self).user_frames@ == old(self).user_frames@,
            (r, final(self).free_frames@) == alloc_spec(old(self).free_frames@),
            r matches Some(f) ==> valid_frame(f) && final(self).pending@ == old(self).pending@.push(FrameOp::Zero { frame: f }),
            r is None ==> final(self).pending@ == old(self).pending@,
    {
        while self.free_frames.len() > 0
            invariant
                self.wf(),
                self.same_layout(&*old(self)),
                self.tables@ == old(self).tables@,
                self.user_frames@ == old(self).user_frames@,
                self.pending@ == old(self).pending@,
                alloc_spec(self.free_frames@) == alloc_spec(old(self).free_frames@),
            decreases self.free_frames@.len(),
        {
            let frame = self.free_frames.pop().unwrap();
            if frame == 0 || frame >= MAPPED_PHYS_LIMIT {
                continue;
            }
            self.pending.push(FrameOp::Zero { frame });
            return Some(frame);
        }
        None
    }

    /// Returns a valid frame to the free stack (when there is room); it is
    /// queued for zeroing.
    fn free_frame(&mut self, frame: u64)
        requires old(self).wf(),
        ensures
            final(self).wf(),
            final(self).same_layout(&*old(self)),
            final(self).tables@ == old(self).tables@,
            final(self).user_frames@ == old(self).user_frames@,
            valid_frame(frame) && old(self).free_frames@.len() < MAX_FREE_FRAMES ==>
                final(self).free_frames@ == old(self).free_frames@.push(frame)
                && final(self).pending@ == old(self).pending@.push(FrameOp::Zero { frame }),
            !(valid_frame(frame) && old(self).free_frames@.len() < MAX_FREE_FRAMES) ==>
                final(self).free_frames@ == old(self).free_frames@ && final(self).pending@ == old(self).pending@,
    {
        if frame != 0 && frame < MAPPED_PHYS_LIMIT && self.free_frames.len() < MAX_FREE_FRAMES {
            self.pending.push(FrameOp::Zero { frame });
            self.free_frames.push(frame);
        }
    }

    /// Maps user page `page` of task `task` to `frame`.
    fn map_user_frame(&mut self, task: usize, page: usize, frame: u64, extra_flags: u64)
        requires old(self).wf(), task < USER_TASKS, page < USER_PAGES,
        ensures
            final(self).wf(),
            final(self).same_layout(&*old(self)),
            final(self).free_frames@ == old(self).free_frames@,
            final(self).pending@ == old(self).pending@,
            final(self).user_frames@ == old(self).user_frames@.update(frame_slot(task as int, page as int), frame),
            final(self).tables@ == old(self).tables@.update(pte_index(task as int, page as int), frame | USER_PTE_FLAGS | extra_flags),
    {
        let entry = (task * TABLES_PER_TASK + 3) * PAGE_ENTRIES + page;
        self.tables.set(entry, frame | PTE_PRESENT | PTE_WRITABLE | PTE_USER | extra_flags);
        self.user_frames.set(task * USER_PAGES + page, frame);
        proof {
            assert(frame | PTE_PRESENT | PTE_WRITABLE | PTE_USER | extra_flags == frame | USER_PTE_FLAGS | extra_flags) by (bit_vector);
        }
    }

    /// The frame backing user page `page` of task `task`, allocating and
    /// mapping one when there is none.
    fn ensure_user_page(&mut self, task: usize, page: usize, extra_flags: u64) -> (r: Option<u64>)
        requires old(self).wf(), task < USER_TASKS, page < USER_PAGES,
        ensures
            final(self).wf(),
            final(self).same_layout(&*old(self)),
            final(self).maps_more(&*old(self), task as int, page as int, page as int + 1, extra_flags),
            old(self).frame(task as int, page as int) != 0 ==> r == Some(old(self).frame(task as int, page as int))
                && *final(self) == *old(self),
            old(self).frame(task as int, page as int) == 0 ==> {
                &&& (r, final(self).free_frames@) == alloc_spec(old(self).free_frames@)
                &&& r matches Some(f) ==> final(self).frame(task as int, page as int) == f
                        && final(self).pending@ == old(self).pending@.push(FrameOp::Zero { frame: f })
                &&& r is None ==> final(self).user_frames@ == old(self).user_frames@
                        && final(self).tables@ == old(self).tables@ && final(self).pending@ == old(self).pending@
            },
            r matches Some(f) ==> f != 0 && final(self).frame(task as int, page as int) == f,
    {
        let existing = self.user_frames[task * USER_PAGES + page];
        if existing != FRAME_NONE {
            proof { assert(self.pending@.subrange(0, self.pending@.len() as int) =~= self.pending@); }
            return Some(existing);
        }
        let frame = match self.alloc_frame() {
            Some(f) => f,
            None => {
                proof { assert(self.pending@.subrange(0, self.pending@.len() as int) =~= self.pending@); }
                return None;
            },
        };
        let ghost mid = *self;
        self.map_user_frame(task, page, frame, extra_flags);
        proof {
            assert(self.pending@.subrange(0, old(self).pending@.len() as int) =~= old(self).pending@);
            assert forall|t: int, p: int| 0 <= t < USER_TASKS && 0 <= p < USER_PAGES && !(t == task && page <= p < page + 1)
                implies #[trigger] self.frame(t, p) == old(self).frame(t, p) by {
                assert(frame_slot(t, p) != frame_slot(task as int, page as int));
            }
        }
        Some(frame)
    }

    /// Whether `virt..virt + len` lies in user memory of task `index` and
    /// every page of it is mapped (an empty range always is).
    pub open spec fn range_mapped(&self, index: int, virt: u64, len: usize) -> bool {
        0 <= index < USER_TASKS && (len == 0 || (user_range_ok(virt, len)
            && forall|p: int| first_page(virt as int) <= p < end_page(virt + len) ==> #[trigger] self.frame(index, p) != 0))
    }

    /// Whether `virt..virt + len` lies in user memory of task `index` and
    /// every page of it is mapped (an empty range always is).
    pub fn user_range_mapped(&self, index: usize, virt: u64, len: usize) -> (r: bool)
        requires self.wf(),
        ensures r == self.range_mapped(index as int, virt, len),
    {
        if index >= USER_TASKS {
            return false;
        }
        if len == 0 {
            return true;
        }
        let end = match virt.checked_add(len as u64) { Some(e) => e, None => return false };
        if virt < USER_IMAGE_BASE || end > USER_STACK_BASE + USER_STACK_SIZE as u64 {
            return false;
        }
        let first = ((virt - USER_IMAGE_BASE) / PAGE_SIZE) as usize;
        let last = ((end - USER_IMAGE_BASE + PAGE_SIZE - 1) / PAGE_SIZE) as usize;
        let mut page = first;
        while page < last
            invariant
                self.wf(), index < USER_TASKS, first <= page, last <= USER_PAGES,
                len > 0, user_range_ok(virt, len),
                first == first_page(virt as int), last == end_page(virt + len),
                forall|p: int| first <= p < page ==> #[trigger] self.frame(index as int, p) != 0,
            decreases last - page,
        {
            if self.user_frames[index * USER_PAGES + page] == FRAME_NONE {
                assert(self.frame(index as int, page as int) == 0);
                return false;
            }
            page += 1;
        }
        true
    }

    /// Maps every page of `virt..virt + len` in task `index` (keeping pages
    /// already mapped), not executable when `no_execute`. Fails on an empty
    /// or non-user range, and when frames run out.
    pub fn allocate_user_range(&mut self, index: usize, virt: u64, len: usize, no_execute: bool) -> (r: bool)
        requires old(self).wf(),
        ensures
            final(self).wf(),
            final(self).same_layout(&*old(self)),
            !(index < USER_TASKS && user_range_ok(virt, len)) ==> !r && *final(self) == *old(self),
            index < USER_TASKS && user_range_ok(virt, len) ==> {
                let lo = first_page(virt as int);
                let hi = end_page(virt + len);
                &&& final(self).maps_more(&*old(self), index as int, lo, hi, if no_execute { PTE_NO_EXECUTE } else { 0 })
                &&& r ==> forall|p: int| lo <= p < hi ==> #[trigger] final(self).frame(index as int, p) != 0
                &&& !r ==> final(self).free_frames@.len() == 0
            },
    {
        if index >= USER_TASKS || len == 0 {
            return false;
        }
        let end = match virt.checked_add(len as u64) { Some(e) => e, None => return false };
        if virt < USER_IMAGE_BASE || end > USER_STACK_BASE + USER_STACK_SIZE as u64 {
            return false;
        }
        let flags = if no_execute { PTE_NO_EXECUTE } else { 0 };
        let first = ((virt - USER_IMAGE_BASE) / PAGE_SIZE) as usize;
        let last = ((end - USER_IMAGE_BASE + PAGE_SIZE - 1) / PAGE_SIZE) as usize;
        let mut page = first;
        proof { assert(self.pending@.subrange(0, self.pending@.len() as int) =~= self.pending@); }
        while page < last
            invariant
                self.wf(), old(self).wf(), self.same_layout(&*old(self)),
                index < USER_TASKS, first <= page, last <= USER_PAGES, user_range_ok(virt, len),
                flags == if no_execute { PTE_NO_EXECUTE } else { 0 },
                first == first_page(virt as int), last == end_page(virt + len),
                self.maps_more(&*old(self), index as int, first as int, last as int, flags),
                forall|p: int| first <= p < page ==> #[trigger] self.frame(index as int, p) != 0,
                forall|p: int| page <= p < last ==> #[trigger] self.frame(index as int, p) == old(self).frame(index as int, p),
            decreases last - page,
        {
            let ghost before = *self;
            let res = self.ensure_user_page(index, page, flags);
            proof {
                lemma_maps_more_trans(*old(self), before, *self, index as int, first as int, last as int, page as int, flags);
            }
            if res.is_none() {
                proof { lemma_alloc_none_empties(before.free_frames@); }
                return false;
            }
            proof {
                assert forall|p: int| first <= p < page + 1 implies #[trigger] self.frame(index as int, p) != 0 by {
                    if p < page { assert(self.frame(index as int, p) == before.frame(index as int, p)); }
                }
            }
            page += 1;
        }
        true
    }

    /// Unmaps every user page of task `task`, returning their frames.
    fn free_task_pages(&mut self, task: usize)
        requires old(self).wf(), task < USER_TASKS,
        ensures
            final(self).wf(),
            final(self).same_layout(&*old(self)),
            final(self).tables@ == old(self).tables@,
            forall|p: int| 0 <= p < USER_PAGES ==> #[trigger] final(self).frame(task as int, p) == 0,
            forall|t: int, p: int| 0 <= t < USER_TASKS && t != task && 0 <= p < USER_PAGES
                ==> #[trigger] final(self).frame(t, p) == old(self).frame(t, p),
            final(self).free_frames@ == release_all(old(self).free_frames@,
                old(self).user_frames@.subrange(frame_slot(task as int, 0), frame_slot(task as int, USER_PAGES as int))),
            final(self).pending@.subrange(0, old(self).pending@.len() as int) == old(self).pending@,
            final(self).pending@.len() >= old(self).pending@.len(),
            forall|i: int| old(self).pending@.len() <= i < final(self).pending@.len() ==> #[trigger] final(self).pending@[i] is Zero,
    {
        let base = task * USER_PAGES;
        assert(base + USER_PAGES <= USER_FRAME_SLOTS);
        let ghost frames = old(self).user_frames@.subrange(base as int, base + USER_PAGES);
        let mut page: usize = 0;
        while page < USER_PAGES
            invariant
                self.wf(), self.same_layout(&*old(self)), task < USER_TASKS, base == task * USER_PAGES,
                old(self).wf(), base + USER_PAGES <= USER_FRAME_SLOTS,
                frames == old(self).user_frames@.subrange(base as int, base + USER_PAGES),
                page <= USER_PAGES,
                self.tables@ == old(self).tables@,
                forall|p: int| 0 <= p < page ==> #[trigger] self.frame(task as int, p) == 0,
                forall|p: int| page <= p < USER_PAGES ==> #[trigger] self.frame(task as int, p) == old(self).frame(task as int, p),
                forall|t: int, p: int| 0 <= t < USER_TASKS && t != task && 0 <= p < USER_PAGES
                    ==> #[trigger] self.frame(t, p) == old(self).frame(t, p),
                self.free_frames@ == release_all(old(self).free_frames@, frames.subrange(0, page as int)),
                self.pending@.subrange(0, old(self).pending@.len() as int) == old(self).pending@,
                self.pending@.len() >= old(self).pending@.len(),
                forall|i: int| old(self).pending@.len() <= i < self.pending@.len() ==> #[trigger] self.pending@[i] is Zero,
            decreases USER_PAGES - page,
        {
            let frame = self.user_frames[base + page];
            let ghost before = *self;
            proof {
                assert(self.frame(task as int, page as int) == old(self).frame(task as int, page as int));
                assert(frames[page as int] == old(self).user_frames@[base + page]);
            }
            if frame != FRAME_NONE {
                self.user_frames.set(base + page, FRAME_NONE);
                self.free_frame(frame);
            }
            proof {
                assert(frames[page as int] == frame);
                assert(frames.subrange(0, page as int + 1).drop_last() =~= frames.subrange(0, page as int));
                assert(self.pending@.subrange(0, old(self).pending@.len() as int) =~= old(self).pending@) by {
                    assert(before.pending@.subrange(0, old(self).pending@.len() as int) == old(self).pending@);
                }
                assert forall|t: int, p: int| 0 <= t < USER_TASKS && t != task && 0 <= p < USER_PAGES
                    implies #[trigger] self.frame(t, p) == old(self).frame(t, p) by {
                    assert(frame_slot(t, p) != frame_slot(task as int, page as int));
                    assert(self.frame(t, p) == before.frame(t, p));
                }
                assert forall|p: int| page + 1 <= p < USER_PAGES implies #[trigger] self.frame(task as int, p) == old(self).frame(task as int, p) by {
                    assert(self.frame(task as int, p) == before.frame(task as int, p));
                }
                assert forall|p: int| 0 <= p < page + 1 implies #[trigger] self.frame(task as int, p) == 0 by {
                    if p < page { assert(self.frame(task as int, p) == before.frame(task as int, p)); }
                }
            }
            page += 1;
        }
        proof { assert(frames.subrange(0, USER_PAGES as int) =~= frames); }
    }

    /// Blanks the page tables of task `task`'s image and stack.
    fn clear_user_mappings(&mut self, task: usize)
        requires old(self).wf(), task < USER_TASKS,
        ensures
            final(self).wf(),
            final(self).same_layout(&*old(self)),
            final(self).user_frames@ == old(self).user_frames@,
            final(self).free_frames@ == old(self).free_frames@,
            final(self).pending@ == old(self).pending@,
            forall|i: int| 0 <= i < TABLE_ENTRIES ==> #[trigger] final(self).tables@[i] ==
                if pte_index(task as int, 0) <= i < pte_index(task as int, 0) + 17 * 512 { 0 } else { old(self).tables@[i] },
    {
        let from = (task * TABLES_PER_TASK + 3) * PAGE_ENTRIES;
        let to = from + 17 * PAGE_ENTRIES;
        zero_entries(&mut self.tables, from, to);
    }

    /// Unmaps the pages of `virt..virt + len` in task `task`, returning their
    /// frames.
    fn free_user_range(&mut self, task: usize, virt: u64, len: usize)
        requires old(self).wf(), task < USER_TASKS, user_range_ok(virt, len),
        ensures
            final(self).wf(),
            final(self).same_layout(&*old(self)),
            forall|p: int| first_page(virt as int) <= p < end_page(virt + len) ==> #[trigger] final(self).frame(task as int, p) == 0,
            forall|t: int, p: int| 0 <= t < USER_TASKS && 0 <= p < USER_PAGES
                && !(t == task && first_page(virt as int) <= p < end_page(virt + len))
                ==> #[trigger] final(self).frame(t, p) == old(self).frame(t, p),
            forall|i: int| 0 <= i < TABLE_ENTRIES && !(pte_index(task as int, first_page(virt as int)) <= i < pte_index(task as int, end_page(virt + len)))
                ==> #[trigger] final(self).tables@[i] == old(self).tables@[i],
            forall|p: int| first_page(virt as int) <= p < end_page(virt + len) && old(self).frame(task as int, p) != 0
                ==> #[trigger] final(self).tables@[pte_index(task as int, p)] == 0,
            final(self).pending@.subrange(0, old(self).pending@.len() as int) == old(self).pending@,
            final(self).pending@.len() >= old(self).pending@.len(),
    {
        let end = virt + len as u64;
        let first = ((virt - USER_IMAGE_BASE) / PAGE_SIZE) as usize;
        let last = ((end - USER_IMAGE_BASE + PAGE_SIZE - 1) / PAGE_SIZE) as usize;
        let mut page = first;
        while page < last
            invariant
                self.wf(), self.same_layout(&*old(self)), task < USER_TASKS,
                first == first_page(virt as int), last == end_page(virt + len), first <= page, page <= last, last <= USER_PAGES,
                forall|p: int| first <= p < page ==> #[trigger] self.frame(task as int, p) == 0,
                forall|t: int, p: int| 0 <= t < USER_TASKS && 0 <= p < USER_PAGES && !(t == task && first <= p < page)
                    ==> #[trigger] self.frame(t, p) == old(self).frame(t, p),
                forall|i: int| 0 <= i < TABLE_ENTRIES && !(pte_index(task as int, first as int) <= i < pte_index(task as int, page as int))
                    ==> #[trigger] self.tables@[i] == old(self).tables@[i],
                forall|p: int| first <= p < page && old(self).frame(task as int, p) != 0
                    ==> #[trigger] self.tables@[pte_index(task as int, p)] == 0,
                self.pending@.subrange(0, old(self).pending@.len() as int) == old(self).pending@,
                self.pending@.len() >= old(self).pending@.len(),
            decreases last - page,
        {
            let slot = task * USER_PAGES + page;
            let existing = self.user_frames[slot];
            let ghost before = *self;
            if existing != FRAME_NONE {
                self.user_frames.set(slot, FRAME_NONE);
                self.free_frame(existing);
                let entry = (task * TABLES_PER_TASK + 3) * PAGE_ENTRIES + page;
                self.tables.set(entry, 0);
            }
            proof {
                assert(self.pending@.subrange(0, old(self).pending@.len() as int) =~= old(self).pending@) by {
                    assert(before.pending@.subrange(0, old(self).pending@.len() as int) == old(self).pending@);
                }
                assert forall|t: int, p: int| 0 <= t < USER_TASKS && 0 <= p < USER_PAGES && !(t == task && first <= p < page + 1)
                    implies #[trigger] self.frame(t, p) == old(self).frame(t, p) by {
                    assert(frame_slot(t, p) != frame_slot(task as int, page as int));
                    assert(self.frame(t, p) == before.frame(t, p));
                }
                assert forall|p: int| first <= p < page + 1 implies #[trigger] self.frame(task as int, p) == 0 by {
                    if p < page { assert(self.frame(task as int, p) == before.frame(task as int, p)); }
                }
                assert forall|p: int| first <= p < page + 1 && old(self).frame(task as int, p) != 0
                    implies #[trigger] self.tables@[pte_index(task as int, p)] == 0 by {
                    if p < page { assert(self.tables@[pte_index(task as int, p)] == before.tables@[pte_index(task as int, p)]); }
                    else { assert(before.frame(task as int, p) == old(self).frame(task as int, p)); }
                }
            }
            page += 1;
        }
    }

    /// Empties the address space of task `index` and maps a fresh stack
    /// (the stack pages and the megabyte below them). Fails for a task out
    /// of range or when frames run out.
    pub fn clear_user_image(&mut self, index: usize) -> (r: bool)
        requires old(self).wf(),
        ensures
            final(self).wf(),
            final(self).same_layout(&*old(self)),
            index >= USER_TASKS ==> !r && *final(self) == *old(self),
            index < USER_TASKS ==> {
                &&& forall|t: int, p: int| 0 <= t < USER_TASKS && t != index && 0 <= p < USER_PAGES
                        ==> #[trigger] final(self).frame(t, p) == old(self).frame(t, p)
                &&& forall|p: int| 0 <= p < first_page(USER_STACK_LOW_BASE as int) ==> #[trigger] final(self).frame(index as int, p) == 0
                &&& r ==> forall|p: int| first_page(USER_STACK_LOW_BASE as int) <= p < USER_PAGES ==> #[trigger] final(self).frame(index as int, p) != 0
                &&& !r ==> final(self).free_frames@.len() == 0
            },
    {
        if index >= USER_TASKS {
            return false;
        }
        proof { lemma_low_stack_pages(); }
        self.free_task_pages(index);
        let ghost freed = *self;
        self.clear_user_mappings(index);
        let ghost cleared = *self;
        proof {
            assert(cleared.user_frames@ == freed.user_frames@);
            assert forall|t: int, p: int| 0 <= t < USER_TASKS && t != index && 0 <= p < USER_PAGES
                implies #[trigger] cleared.frame(t, p) == old(self).frame(t, p) by {
                assert(freed.frame(t, p) == old(self).frame(t, p));
            }
            assert forall|p: int| 0 <= p < USER_PAGES implies #[trigger] cleared.frame(index as int, p) == 0 by {
                assert(freed.frame(index as int, p) == 0);
            }
        }
        let low = self.allocate_user_range(index, USER_STACK_LOW_BASE, USER_STACK_LOW_SIZE, true);
        proof {
            assert(self.maps_more(&cleared, index as int, 7936, 8192, PTE_NO_EXECUTE));
        }
        if !low {
            proof {
                assert forall|t: int, p: int| 0 <= t < USER_TASKS && t != index && 0 <= p < USER_PAGES
                    implies #[trigger] self.frame(t, p) == old(self).frame(t, p) by {
                    assert(self.frame(t, p) == cleared.frame(t, p));
                }
                assert forall|p: int| 0 <= p < first_page(USER_STACK_LOW_BASE as int) implies #[trigger] self.frame(index as int, p) == 0 by {
                    assert(self.frame(index as int, p) == cleared.frame(index as int, p));
                }
            }
            return false;
        }
        let ghost mid = *self;
        let stack = self.allocate_user_range(index, USER_STACK_BASE, USER_STACK_SIZE, true);
        proof {
            lemma_low_stack_pages();
            assert forall|p: int| 0 <= p < first_page(USER_STACK_LOW_BASE as int) implies #[trigger] self.frame(index as int, p) == 0 by {
                assert(mid.frame(index as int, p) == cleared.frame(index as int, p));
                assert(self.frame(index as int, p) == mid.frame(index as int, p));
            }
            assert forall|t: int, p: int| 0 <= t < USER_TASKS && t != index && 0 <= p < USER_PAGES
                implies #[trigger] self.frame(t, p) == old(self).frame(t, p) by {
                assert(mid.frame(t, p) == cleared.frame(t, p));
                assert(self.frame(t, p) == mid.frame(t, p));
            }
            if stack {
                assert forall|p: int| first_page(USER_STACK_LOW_BASE as int) <= p < USER_PAGES implies #[trigger] self.frame(index as int, p) != 0 by {
                    if p < USER_STACK_FIRST_PAGE {
                        assert(mid.frame(index as int, p) != 0);
                        assert(self.frame(index as int, p) == mid.frame(index as int, p));
                    }
                }
            }
        }
        stack
    }

    /// Unmaps task `index`'s stack and the megabyte below it and maps them
    /// afresh. Fails for a task out of range or when frames run out.
    pub fn clear_user_stack(&mut self, index: usize) -> (r: bool)
        requires old(self).wf(),
        ensures
            final(self).wf(),
            final(self).same_layout(&*old(self)),
            index >= USER_TASKS ==> !r && *final(self) == *old(self),
            index < USER_TASKS ==> {
                &&& forall|t: int, p: int| 0 <= t < USER_TASKS && 0 <= p < USER_PAGES
                        && !(t == index && first_page(USER_STACK_LOW_BASE as int) <= p)
                        ==> #[trigger] final(self).frame(t, p) == old(self).frame(t, p)
                &&& r ==> forall|p: int| first_page(USER_STACK_LOW_BASE as int) <= p < USER_PAGES ==> #[trigger] final(self).frame(index as int, p) != 0
                &&& !r ==> final(self).free_frames@.len() == 0
            },
            final(self).pending@.len() >= old(self).pending@.len(),
            final(self).pending@.subrange(0, old(self).pending@.len() as int) == old(self).pending@,
    {
        if index >= USER_TASKS {
            return false;
        }
        proof { lemma_low_stack_pages(); }
        self.free_user_range(index, USER_STACK_LOW_BASE, USER_STACK_LOW_SIZE);
        let ghost freed_low = *self;
        self.free_user_range(index, USER_STACK_BASE, USER_STACK_SIZE);
        let ghost freed = *self;
        proof {
            assert(forall|t: int, p: int| 0 <= t < USER_TASKS && 0 <= p < USER_PAGES && !(t == index && 8192 <= p < 8196)
                ==> #[trigger] freed.frame(t, p) == freed_low.frame(t, p));
        }
        let from = (index * TABLES_PER_TASK + 3 + USER_IMAGE_PT_COUNT) * PAGE_ENTRIES;
        zero_entries(&mut self.tables, from, from + PAGE_ENTRIES);
        let ghost cleared = *self;
        proof {
            assert forall|t: int, p: int| 0 <= t < USER_TASKS && 0 <= p < USER_PAGES
                && !(t == index && first_page(USER_STACK_LOW_BASE as int) <= p)
                implies #[trigger] cleared.frame(t, p) == old(self).frame(t, p) by {
                assert(freed_low.frame(t, p) == old(self).frame(t, p));
                assert(cleared.user_frames@ == freed.user_frames@);
                assert(cleared.frame(t, p) == freed.frame(t, p));
                assert(freed.frame(t, p) == freed_low.frame(t, p));
            }
        }
        let low = self.allocate_user_range(index, USER_STACK_LOW_BASE, USER_STACK_LOW_SIZE, true);
        if !low {
            proof {
                assert forall|t: int, p: int| 0 <= t < USER_TASKS && 0 <= p < USER_PAGES
                    && !(t == index && first_page(USER_STACK_LOW_BASE as int) <= p)
                    implies #[trigger] self.frame(t, p) == old(self).frame(t, p) by {
                    assert(self.frame(t, p) == cleared.frame(t, p));
                }
            }
            return false;
        }
        let ghost mid = *self;
        let stack = self.allocate_user_range(index, USER_STACK_BASE, USER_STACK_SIZE, true);
        proof {
            assert forall|t: int, p: int| 0 <= t < USER_TASKS && 0 <= p < USER_PAGES
                && !(t == index && first_page(USER_STACK_LOW_BASE as int) <= p)
                implies #[trigger] self.frame(t, p) == old(self).frame(t, p) by {
                assert(mid.frame(t, p) == cleared.frame(t, p));
                assert(self.frame(t, p) == mid.frame(t, p));
            }
            if stack {
                assert forall|p: int| first_page(USER_STACK_LOW_BASE as int) <= p < USER_PAGES implies #[trigger] self.frame(index as int, p) != 0 by {
                    if p < USER_STACK_FIRST_PAGE {
                        assert(mid.frame(index as int, p) != 0);
                        assert(self.frame(index as int, p) == mid.frame(index as int, p));
                    }
                }
            }
        }
        stack
    }


    /// Stores `data` at `offset` of task `index`'s stack, mapping stack pages
    /// as needed (not executable). Fails when the bytes do not fit in the
    /// stack, for a task out of range, or when frames run out.
    pub fn write_user_stack(&mut self, index: usize, offset: usize, data: &[u8]) -> (r: bool)
        requires old(self).wf(),
        ensures
            final(self).wf(),
            final(self).same_layout(&*old(self)),
            !(offset + data@.len() <= USER_STACK_SIZE && index < USER_TASKS) ==> !r && *final(self) == *old(self),
            offset + data@.len() <= USER_STACK_SIZE && index < USER_TASKS ==> {
                &&& final(self).maps_more(&*old(self), index as int, USER_STACK_FIRST_PAGE as int, USER_PAGES as int, PTE_NO_EXECUTE)
                &&& r ==> write_ops(final(self).pending@.skip(old(self).pending@.len() as int)) == Seq::new(data@.len(), |i: int|
                        (final(self).frame(index as int, stack_page(offset + i)), ((offset + i) % 4096) as usize, seq![data@[i]]))
                &&& r ==> forall|i: int| 0 <= i < data@.len() ==> #[trigger] final(self).frame(index as int, stack_page(offset + i)) != 0
                &&& r ==> write_ops(final(self).pending@.skip(old(self).pending@.len() as int))
                        == stack_stores(*final(self), index as int, bytes_at(offset as int, data@))
                &&& !r ==> final(self).free_frames@.len() == 0
            },
    {
        let end = match offset.checked_add(data.len()) { Some(e) => e, None => return false };
        if end > USER_STACK_SIZE || index >= USER_TASKS {
            return false;
        }
        let ghost start = self.pending@.len() as int;
        let mut i: usize = 0;
        proof {
            assert(self.pending@.subrange(0, start) =~= self.pending@);
            assert(self.pending@.skip(start) =~= Seq::<FrameOp>::empty());
            assert(write_ops(Seq::<FrameOp>::empty()) =~= Seq::new(0, |k: int|
                (self.frame(index as int, stack_page(offset + k)), ((offset + k) % 4096) as usize, seq![data@[k]])));
        }
        while i < data.len()
            invariant
                self.wf(), old(self).wf(), self.same_layout(&*old(self)),
                index < USER_TASKS, end == offset + data@.len(), end <= USER_STACK_SIZE, i <= data@.len(),
                start == old(self).pending@.len(),
                self.maps_more(&*old(self), index as int, USER_STACK_FIRST_PAGE as int, USER_PAGES as int, PTE_NO_EXECUTE),
                forall|k: int| 0 <= k < i ==> #[trigger] self.frame(index as int, stack_page(offset + k)) != 0,
                write_ops(self.pending@.skip(start)) == Seq::new(i as nat, |k: int|
                    (self.frame(index as int, stack_page(offset + k)), ((offset + k) % 4096) as usize, seq![data@[k]])),
            decreases data@.len() - i,
        {
            let at = offset + i;
            let page = USER_STACK_FIRST_PAGE + at / (PAGE_SIZE as usize);
            let ghost before = *self;
            let res = self.ensure_user_page(index, page, PTE_NO_EXECUTE);
            proof {
                lemma_maps_more_trans(*old(self), before, *self, index as int, USER_STACK_FIRST_PAGE as int, USER_PAGES as int, page as int, PTE_NO_EXECUTE);
            }
            let frame = match res {
                Some(f) => f,
                None => {
                    proof { lemma_alloc_none_empties(before.free_frames@); }
                    return false;
                },
            };
            let ghost mid = *self;
            let bytes = vec![data[i]];
            let ghost bview = bytes@;
            self.pending.push(FrameOp::Write { frame, offset: at % (PAGE_SIZE as usize), bytes });
            proof {
                assert(write_ops(mid.pending@.skip(start)) == write_ops(before.pending@.skip(start))) by {
                    if mid.pending@ != before.pending@ {
                        let z = mid.pending@.last();
                        assert(mid.pending@ == before.pending@.push(z));
                        lemma_skip_push(before.pending@, start, z);
                        lemma_write_ops_push(before.pending@.skip(start), z);
                    }
                }
                lemma_skip_push(mid.pending@, start, self.pending@.last());
                lemma_write_ops_push(mid.pending@.skip(start), self.pending@.last());
                assert(bview =~= seq![data@[i as int]]);
                assert forall|k: int| 0 <= k < i implies #[trigger] self.frame(index as int, stack_page(offset + k))
                    == before.frame(index as int, stack_page(offset + k)) by {
                    assert(before.frame(index as int, stack_page(offset + k)) != 0);
                    assert(0 <= stack_page(offset + k) < USER_PAGES);
                    assert(self.frame(index as int, stack_page(offset + k)) == mid.frame(index as int, stack_page(offset + k)));
                }
                assert(self.frame(index as int, page as int) == frame);
                assert(write_ops(self.pending@.skip(start)) =~= Seq::new(i as nat + 1, |k: int|
                    (self.frame(index as int, stack_page(offset + k)), ((offset + k) % 4096) as usize, seq![data@[k]])));
                assert(self.pending@.subrange(0, start) =~= old(self).pending@) by {
                    assert(mid.pending@.subrange(0, start) == old(self).pending@);
                }
                assert(self.pending@.subrange(0, mid.pending@.len() as int) =~= mid.pending@);
                lemma_maps_more_queue(*old(self), mid, *self, index as int, USER_STACK_FIRST_PAGE as int, USER_PAGES as int, PTE_NO_EXECUTE);
                assert forall|k: int| 0 <= k < i + 1 implies #[trigger] self.frame(index as int, stack_page(offset + k)) != 0 by {
                    if k < i { assert(before.frame(index as int, stack_page(offset + k)) != 0); }
                }
            }
            i += 1;
        }
        true
    }

    /// Loads a program segment: `data` followed by zeros up to `mem_size`
    /// bytes at `virt` of task `index`'s image, mapping pages as needed.
    /// Fails for a segment outside the image, data longer than the segment,
    /// a task out of range, or when frames run out.
    pub fn copy_user_segment(&mut self, index: usize, virt: u64, data: &[u8], mem_size: usize) -> (r: bool)
        requires old(self).wf(),
        ensures
            final(self).wf(),
            final(self).same_layout(&*old(self)),
            !segment_ok(index, virt, data@.len(), mem_size) ==> !r && *final(self) == *old(self),
            segment_ok(index, virt, data@.len(), mem_size) ==> {
                &&& final(self).maps_more(&*old(self), index as int, 0, USER_STACK_FIRST_PAGE as int, 0)
                &&& r && mem_size > 0 ==> forall|p: int| first_page(virt as int) <= p < end_page(virt + mem_size)
                        ==> #[trigger] final(self).frame(index as int, p) != 0
                &&& r ==> write_bytes(write_ops(final(self).pending@.skip(old(self).pending@.len() as int)))
                        == data@ + Seq::new((mem_size - data@.len()) as nat, |i: int| 0u8)
                &&& !r ==> final(self).free_frames@.len() == 0
            },
    {
        if index >= USER_TASKS || virt < USER_IMAGE_BASE || virt >= USER_STACK_BASE {
            return false;
        }
        let end_virt = virt.saturating_add(mem_size as u64);
        if end_virt > USER_STACK_BASE || data.len() > mem_size {
            return false;
        }
        let rel_start = (virt - USER_IMAGE_BASE) as usize;
        match rel_start.checked_add(mem_size) {
            Some(e) => { if e > USER_IMAGE_SIZE { return false; } },
            None => { return false; },
        }
        let ghost start = self.pending@.len() as int;
        proof {
            assert(self.pending@.subrange(0, start) =~= self.pending@);
            assert(self.pending@.skip(start) =~= Seq::<FrameOp>::empty());
            assert(write_bytes(write_ops(Seq::<FrameOp>::empty())) =~= Seq::new(0, |q: int| if q < data@.len() { data@[q] } else { 0u8 }));
        }
        let mut relative: usize = 0;
        while relative < mem_size
            invariant
                self.wf(), old(self).wf(), self.same_layout(&*old(self)),
                segment_ok(index, virt, data@.len(), mem_size),
                relative <= mem_size,
                start == old(self).pending@.len(),
                self.maps_more(&*old(self), index as int, 0, USER_STACK_FIRST_PAGE as int, 0),
                relative > 0 ==> forall|p: int| first_page(virt as int) <= p < end_page(virt + relative) ==> #[trigger] self.frame(index as int, p) != 0,
                write_bytes(write_ops(self.pending@.skip(start))) == Seq::new(relative as nat, |q: int| if q < data@.len() { data@[q] } else { 0u8 }),
            decreases mem_size - relative,
        {
            let target = virt + relative as u64;
            let page = ((target - USER_IMAGE_BASE) / PAGE_SIZE) as usize;
            let ghost before = *self;
            let res = self.ensure_user_page(index, page, 0);
            proof {
                lemma_maps_more_trans(*old(self), before, *self, index as int, 0, USER_STACK_FIRST_PAGE as int, page as int, 0);
            }
            let frame = match res {
                Some(f) => f,
                None => {
                    proof { lemma_alloc_none_empties(before.free_frames@); }
                    return false;
                },
            };
            let page_offset = (target % PAGE_SIZE) as usize;
            let room = PAGE_SIZE as usize - page_offset;
            let count = if mem_size - relative < room { mem_size - relative } else { room };
            let available = if data.len() > relative { data.len() - relative } else { 0 };
            let copy_count = if count < available { count } else { available };
            let mut chunk: Vec<u8> = Vec::new();
            let mut k: usize = 0;
            while k < count
                invariant
                    k <= count, copy_count <= count, relative + count <= mem_size,
                    copy_count == if count < available { count } else { available },
                    available == if data@.len() > relative { data@.len() - relative } else { 0 },
                    chunk@ == Seq::new(k as nat, |q: int| if relative + q < data@.len() { data@[relative + q] } else { 0u8 }),
                decreases count - k,
            {
                if k < copy_count {
                    chunk.push(data[relative + k]);
                } else {
                    chunk.push(0);
                }
                proof {
                    assert(chunk@ =~= Seq::new(k as nat + 1, |q: int| if relative + q < data@.len() { data@[relative + q] } else { 0u8 }));
                }
                k += 1;
            }
            let ghost mid = *self;
            let ghost chunk_view = chunk@;
            self.pending.push(FrameOp::Write { frame, offset: page_offset, bytes: chunk });
            proof {
                assert(write_ops(mid.pending@.skip(start)) == write_ops(before.pending@.skip(start))) by {
                    if mid.pending@ != before.pending@ {
                        let z = mid.pending@.last();
                        assert(mid.pending@ == before.pending@.push(z));
                        lemma_skip_push(before.pending@, start, z);
                        lemma_write_ops_push(before.pending@.skip(start), z);
                    }
                }
                lemma_skip_push(mid.pending@, start, self.pending@.last());
                lemma_write_ops_push(mid.pending@.skip(start), self.pending@.last());
                lemma_write_bytes_push(write_ops(mid.pending@.skip(start)), (frame, page_offset, chunk_view));
                assert(write_bytes(write_ops(self.pending@.skip(start))) =~=
                    Seq::new((relative + count) as nat, |q: int| if q < data@.len() { data@[q] } else { 0u8 }));
                assert(self.pending@.subrange(0, start) =~= old(self).pending@) by {
                    assert(mid.pending@.subrange(0, start) == old(self).pending@);
                }
                assert(self.pending@.subrange(0, mid.pending@.len() as int) =~= mid.pending@);
                lemma_maps_more_queue(*old(self), mid, *self, index as int, 0, USER_STACK_FIRST_PAGE as int, 0);
                lemma_segment_pages(virt as int, relative as int, count as int);
                assert forall|p: int| first_page(virt as int) <= p < end_page(virt + relative + count)
                    implies #[trigger] self.frame(index as int, p) != 0 by {
                    if relative > 0 && p < end_page(virt + relative) {
                        assert(before.frame(index as int, p) != 0);
                        assert(0 <= p < USER_PAGES);
                        assert(mid.frame(index as int, p) == before.frame(index as int, p));
                        assert(self.frame(index as int, p) == mid.frame(index as int, p));
                    } else {
                        assert(p == page);
                        assert(self.frame(index as int, p) == mid.frame(index as int, p));
                    }
                }
            }
            relative = relative + count;
        }
        true
    }

    /// Replaces task `target`'s memory with a copy of task `source`'s: each
    /// mapped page of the source gets a fresh frame in the target, queued to
    /// be copied. Fails for a task out of range or when frames run out.
    pub fn copy_user_space(&mut self, source: usize, target: usize) -> (r: bool)
        requires old(self).wf(),
        ensures
            final(self).wf(),
            final(self).same_layout(&*old(self)),
            !(source < USER_TASKS && target < USER_TASKS) ==> !r && *final(self) == *old(self),
            source < USER_TASKS && target < USER_TASKS && source != target ==> {
                &&& forall|t: int, p: int| 0 <= t < USER_TASKS && t != target && 0 <= p < USER_PAGES
                        ==> #[trigger] final(self).frame(t, p) == old(self).frame(t, p)
                &&& r ==> forall|p: int| 0 <= p < USER_PAGES ==>
                        (#[trigger] final(self).frame(target as int, p) != 0) == (old(self).frame(source as int, p) != 0)
                &&& r ==> copy_ops(final(self).pending@.skip(old(self).pending@.len() as int))
                        == copies(old(self).user_frames@.subrange(frame_slot(source as int, 0), frame_slot(source as int, USER_PAGES as int)),
                            final(self).user_frames@.subrange(frame_slot(target as int, 0), frame_slot(target as int, USER_PAGES as int)))
                &&& !r ==> final(self).free_frames@.len() == 0
            },
    {
        if source >= USER_TASKS || target >= USER_TASKS {
            return false;
        }
        self.free_task_pages(target);
        let ghost freed = *self;
        self.clear_user_mappings(target);
        let ghost cleared = *self;
        proof {
            assert(cleared.user_frames@ == freed.user_frames@);
            assert forall|t: int, p: int| 0 <= t < USER_TASKS && t != target && 0 <= p < USER_PAGES
                implies #[trigger] cleared.frame(t, p) == old(self).frame(t, p) by {
                assert(freed.frame(t, p) == old(self).frame(t, p));
            }
            assert forall|p: int| 0 <= p < USER_PAGES implies #[trigger] cleared.frame(target as int, p) == 0 by {
                assert(freed.frame(target as int, p) == 0);
            }
        }
        let ghost start = old(self).pending@.len() as int;
        let ghost src = old(self).user_frames@.subrange(frame_slot(source as int, 0), frame_slot(source as int, USER_PAGES as int));
        proof {
            assert(self.pending@.subrange(0, start) == old(self).pending@);
            assert forall|i: int| 0 <= i < self.pending@.skip(start).len() implies #[trigger] self.pending@.skip(start)[i] is Zero by {
                assert(self.pending@.skip(start)[i] == self.pending@[start + i]);
            }
            lemma_copy_ops_no_copies(self.pending@.skip(start));
            assert(copies(src.subrange(0, 0), Seq::<u64>::empty()) =~= Seq::<(u64, u64)>::empty());
        }
        let mut page: usize = 0;
        let ghost ft = frame_slot(target as int, 0);
        proof {
            assert(self.user_frames@.subrange(ft, ft) =~= Seq::<u64>::empty());
            assert(src.subrange(0, 0) =~= Seq::<u64>::empty());
        }
        while page < USER_PAGES
            invariant
                self.wf(), old(self).wf(), self.same_layout(&*old(self)),
                source < USER_TASKS, target < USER_TASKS, page <= USER_PAGES,
                start == old(self).pending@.len(),
                ft == frame_slot(target as int, 0),
                src == old(self).user_frames@.subrange(frame_slot(source as int, 0), frame_slot(source as int, USER_PAGES as int)),
                source != target ==> forall|t: int, p: int| 0 <= t < USER_TASKS && t != target && 0 <= p < USER_PAGES
                    ==> #[trigger] self.frame(t, p) == old(self).frame(t, p),
                source != target ==> forall|p: int| 0 <= p < page ==>
                    (#[trigger] self.frame(target as int, p) != 0) == (old(self).frame(source as int, p) != 0),
                forall|p: int| page <= p < USER_PAGES ==> #[trigger] self.frame(target as int, p) == 0,
                source == target ==> forall|p: int| 0 <= p < USER_PAGES ==> #[trigger] self.frame(target as int, p) == 0,
                self.pending@.subrange(0, start) == old(self).pending@,
                self.pending@.len() >= start,
                source != target ==> copy_ops(self.pending@.skip(start)) == copies(src.subrange(0, page as int),
                    self.user_frames@.subrange(ft, ft + page)),
            decreases USER_PAGES - page,
        {
            let ghost before = *self;
            let source_frame = self.user_frames[source * USER_PAGES + page];
            proof {
                if source != target {
                    assert(before.frame(source as int, page as int) == old(self).frame(source as int, page as int));
                    assert(source_frame == src[page as int]);
                } else {
                    assert(before.frame(target as int, page as int) == 0);
                }
                assert(src.subrange(0, page as int + 1).drop_last() =~= src.subrange(0, page as int));
                assert(src.subrange(0, page as int + 1).last() == src[page as int]);
            }
            if source_frame != FRAME_NONE {
                let target_frame = match self.alloc_frame() {
                    Some(f) => f,
                    None => {
                        proof {
                            lemma_alloc_none_empties(before.free_frames@);
                            assert forall|t: int, p: int| 0 <= t < USER_TASKS && t != target && 0 <= p < USER_PAGES
                                implies #[trigger] self.frame(t, p) == old(self).frame(t, p) by {
                                assert(self.frame(t, p) == before.frame(t, p));
                            }
                        }
                        return false;
                    },
                };
                self.pending.push(FrameOp::Copy { from: source_frame, to: target_frame });
                let flags = if page >= USER_STACK_FIRST_PAGE { PTE_NO_EXECUTE } else { 0 };
                self.map_user_frame(target, page, target_frame, flags);
                proof {
                    let z = FrameOp::Zero { frame: target_frame };
                    let c = FrameOp::Copy { from: source_frame, to: target_frame };
                    assert(self.pending@ == before.pending@.push(z).push(c));
                    lemma_skip_push(before.pending@, start, z);
                    lemma_skip_push(before.pending@.push(z), start, c);
                    assert(self.pending@.skip(start) == before.pending@.skip(start).push(z).push(c));
                    lemma_copy_ops_push(before.pending@.skip(start), z);
                    lemma_copy_ops_push(before.pending@.skip(start).push(z), c);
                    assert(self.pending@.subrange(0, start) =~= old(self).pending@) by {
                        assert(before.pending@.subrange(0, start) == old(self).pending@);
                    }
                    let d0 = before.user_frames@.subrange(ft, ft + page);
                    let d1 = self.user_frames@.subrange(ft, ft + page + 1);
                    assert(d1.drop_last() =~= d0);
                    assert(d1.last() == target_frame);
                    assert forall|t: int, p: int| 0 <= t < USER_TASKS && t != target && 0 <= p < USER_PAGES
                        implies #[trigger] self.frame(t, p) == before.frame(t, p) by {
                        assert(frame_slot(t, p) != frame_slot(target as int, page as int));
                    }
                    assert forall|p: int| page + 1 <= p < USER_PAGES implies #[trigger] self.frame(target as int, p) == 0 by {
                        assert(self.frame(target as int, p) == before.frame(target as int, p));
                    }
                    assert forall|p: int| 0 <= p < page + 1 implies
                        (#[trigger] self.frame(target as int, p) != 0) == (old(self).frame(source as int, p) != 0) by {
                        if p < page {
                            assert(self.frame(target as int, p) == before.frame(target as int, p));
                        } else {
                            assert(old(self).frame(source as int, p) == source_frame);
                        }
                    }
                }
            } else {
                proof {
                    let d0 = before.user_frames@.subrange(ft, ft + page);
                    let d1 = self.user_frames@.subrange(ft, ft + page + 1);
                    assert(d1.drop_last() =~= d0);
                }
            }
            page += 1;
        }
        proof {
            if source != target {
                assert(src.subrange(0, USER_PAGES as int) =~= src);
            }
        }
        true
    }


    /// Sets entry `entry` of table `table` to map `phys`.
    fn map_page(&mut self, table: usize, entry: usize, phys: u64, extra_flags: u64)
        requires old(self).wf(), table < TABLE_COUNT, entry < PAGE_ENTRIES,
        ensures
            final(self).wf(),
            final(self).same_layout(&*old(self)),
            final(self).user_frames@ == old(self).user_frames@,
            final(self).free_frames@ == old(self).free_frames@,
            final(self).pending@ == old(self).pending@,
            final(self).tables@ == old(self).tables@.update(table * 512 + entry, phys | 3 | extra_flags),
    {
        self.tables.set(table * PAGE_ENTRIES + entry, phys | PTE_PRESENT | PTE_WRITABLE | extra_flags);
        proof { assert(phys | PTE_PRESENT | PTE_WRITABLE | extra_flags == phys | 3 | extra_flags) by (bit_vector); }
    }

    /// Points entry `entry` of table `parent` at table `child`.
    fn link_table(&mut self, parent: usize, entry: usize, child: usize, extra_flags: u64)
        requires old(self).wf(), parent < TABLE_COUNT, entry < PAGE_ENTRIES, child < TABLE_COUNT,
        ensures
            final(self).wf(),
            final(self).same_layout(&*old(self)),
            final(self).user_frames@ == old(self).user_frames@,
            final(self).free_frames@ == old(self).free_frames@,
            final(self).pending@ == old(self).pending@,
            final(self).tables@ == old(self).tables@.update(parent * 512 + entry,
                (old(self).table_phys_spec(child as int) as u64) | 3 | extra_flags),
    {
        let phys = self.table_phys(child);
        self.map_page(parent, entry, phys, extra_flags);
    }

    /// Maps `len` bytes from `virt` to `phys` (page-aligned down) through
    /// `pml4`, `pdpt`, `pd` and the page tables from `pts_start`.
    fn map_range(&mut self, pml4: usize, pdpt: usize, pd: usize, pts_start: usize, virt: u64, phys: u64, len: u64, extra_flags: u64)
        requires
            old(self).wf(),
            range_fits(pml4, pdpt, pd, pts_start, virt, phys, len),
        ensures
            final(self).wf(),
            final(self).same_layout(&*old(self)),
            final(self).user_frames@ == old(self).user_frames@,
            final(self).free_frames@ == old(self).free_frames@,
            final(self).pending@ == old(self).pending@,
            forall|i: int| 0 <= i < TABLE_ENTRIES ==> #[trigger] final(self).tables@[i]
                == range_entry(*old(self), pml4, pdpt, pd, pts_start, virt, phys, len, extra_flags, i),
    {
        let page_offset = virt % PAGE_SIZE;
        let aligned_virt = virt - page_offset;
        let aligned_phys = phys - page_offset;
        let pages = ((len + page_offset + PAGE_SIZE - 1) / PAGE_SIZE) as usize;
        let (pml4_index, pdpt_index, pd_index, pt_index) = page_indexes(aligned_virt);
        proof { lemma_aligned_indexes(virt); }
        self.link_table(pml4, pml4_index, pdpt, 0);
        let ghost l1 = *self;
        self.link_table(pdpt, pdpt_index, pd, 0);
        let ghost linked = *self;
        proof {
            lemma_or_zero(old(self).table_phys_spec(pdpt as int) as u64);
            lemma_or_zero(old(self).table_phys_spec(pd as int) as u64);
        }
        let pt_count = (pt_index + pages + PAGE_ENTRIES - 1) / PAGE_ENTRIES;
        let mut table: usize = 0;
        while table < pt_count
            invariant
                self.wf(), self.same_layout(&linked), linked.wf(),
                range_fits(pml4, pdpt, pd, pts_start, virt, phys, len),
                pt_count == range_tables(virt, len), pd_index == spec_page_indexes((virt - virt % 4096) as u64).2,
                table <= pt_count,
                self.user_frames@ == linked.user_frames@, self.free_frames@ == linked.free_frames@,
                self.pending@ == linked.pending@,
                forall|i: int| 0 <= i < TABLE_ENTRIES ==> #[trigger] self.tables@[i] ==
                    if pd * 512 + pd_index <= i < pd * 512 + pd_index + table {
                        (linked.table_phys_spec(pts_start + (i - pd * 512 - pd_index)) as u64) | 3
                    } else { linked.tables@[i] },
            decreases pt_count - table,
        {
            let ghost before = *self;
            self.link_table(pd, pd_index + table, pts_start + table, 0);
            proof { lemma_or_zero(linked.table_phys_spec(pts_start + table) as u64); }
            table += 1;
        }
        let ghost tabled = *self;
        let mut page: usize = 0;
        while page < pages
            invariant
                self.wf(), self.same_layout(&linked), linked.wf(),
                range_fits(pml4, pdpt, pd, pts_start, virt, phys, len),
                pages == range_pages(virt, len), pt_index == spec_page_indexes((virt - virt % 4096) as u64).3,
                aligned_phys == phys - virt % 4096,
                page <= pages,
                self.user_frames@ == linked.user_frames@, self.free_frames@ == linked.free_frames@,
                self.pending@ == linked.pending@,
                forall|i: int| 0 <= i < TABLE_ENTRIES ==> #[trigger] self.tables@[i] ==
                    if pts_start * 512 + pt_index <= i < pts_start * 512 + pt_index + page {
                        ((aligned_phys + (i - pts_start * 512 - pt_index) * 4096) as u64) | 3 | extra_flags
                    } else { tabled.tables@[i] },
            decreases pages - page,
        {
            let entry = pts_start * PAGE_ENTRIES + pt_index + page;
            let value = (aligned_phys + (page as u64) * PAGE_SIZE) | PTE_PRESENT | PTE_WRITABLE | extra_flags;
            self.tables.set(entry, value);
            proof {
                let a = (aligned_phys + (page as u64) * 4096) as u64;
                assert(a | PTE_PRESENT | PTE_WRITABLE | extra_flags == a | 3 | extra_flags) by (bit_vector);
            }
            page += 1;
        }
        proof {
            assert forall|i: int| 0 <= i < TABLE_ENTRIES implies #[trigger] self.tables@[i]
                == range_entry(*old(self), pml4, pdpt, pd, pts_start, virt, phys, len, extra_flags, i) by {
                assert(tabled.tables@[i] == if pd * 512 + pd_index <= i < pd * 512 + pd_index + pt_count {
                        (linked.table_phys_spec(pts_start + (i - pd * 512 - pd_index)) as u64) | 3
                    } else { linked.tables@[i] });
                assert(linked.tables@ == l1.tables@.update(pdpt * 512 + pdpt_index, (old(self).table_phys_spec(pd as int) as u64) | 3));
                assert(l1.tables@ == old(self).tables@.update(pml4 * 512 + pml4_index, (old(self).table_phys_spec(pdpt as int) as u64) | 3));
                assert(pml4 * 512 + pml4_index != pdpt * 512 + pdpt_index);
            }
        }
    }


    /// Links the user half of task `task`'s tables: the top-level entry 0,
    /// the directory pointer entry 1, and the directory entries of the image
    /// page tables and the stack page table.
    fn link_user_tables(&mut self, task: usize)
        requires old(self).wf(), task < USER_TASKS,
        ensures
            final(self).wf(),
            final(self).same_layout(&*old(self)),
            final(self).user_frames@ == old(self).user_frames@,
            final(self).free_frames@ == old(self).free_frames@,
            final(self).pending@ == old(self).pending@,
            forall|i: int| 0 <= i < TABLE_ENTRIES ==> #[trigger] final(self).tables@[i] ==
                user_link_entry(*old(self), task * TABLES_PER_TASK, i),
    {
        let b = task * TABLES_PER_TASK;
        self.link_table(b, 0, b + 1, PTE_USER);
        self.link_table(b + 1, 1, b + 2, PTE_USER);
        let ghost linked = *self;
        let mut t: usize = 0;
        while t <= USER_IMAGE_PT_COUNT
            invariant
                self.wf(), self.same_layout(&*old(self)), old(self).wf(), b == task * TABLES_PER_TASK, task < USER_TASKS,
                t <= USER_IMAGE_PT_COUNT + 1,
                self.user_frames@ == old(self).user_frames@, self.free_frames@ == old(self).free_frames@,
                self.pending@ == old(self).pending@,
                linked.tables@ == old(self).tables@
                    .update(b * 512, (old(self).table_phys_spec(b + 1) as u64) | 3 | PTE_USER)
                    .update((b + 1) * 512 + 1, (old(self).table_phys_spec(b + 2) as u64) | 3 | PTE_USER),
                forall|i: int| 0 <= i < TABLE_ENTRIES ==> #[trigger] self.tables@[i] ==
                    if (b + 2) * 512 <= i < (b + 2) * 512 + t {
                        (old(self).table_phys_spec(b + 3 + (i - (b + 2) * 512)) as u64) | 3 | PTE_USER
                    } else { linked.tables@[i] },
            decreases USER_IMAGE_PT_COUNT + 1 - t,
        {
            self.link_table(b + 2, t, b + 3 + t, PTE_USER);
            t += 1;
        }
    }

    /// Links the kernel half of task `task`'s tables for a kernel at
    /// `indexes` (its table indexes).
    fn link_kernel_tables(&mut self, task: usize, indexes: (usize, usize, usize, usize))
        requires
            old(self).wf(), task < USER_TASKS,
            indexes.0 < 512, indexes.1 < 512, indexes.2 + KERNEL_PT_COUNT <= 512,
        ensures
            final(self).wf(),
            final(self).same_layout(&*old(self)),
            final(self).user_frames@ == old(self).user_frames@,
            final(self).free_frames@ == old(self).free_frames@,
            final(self).pending@ == old(self).pending@,
            forall|i: int| 0 <= i < TABLE_ENTRIES ==> #[trigger] final(self).tables@[i] ==
                kernel_link_entry(*old(self), task * TABLES_PER_TASK, indexes, i),
    {
        let b = task * TABLES_PER_TASK;
        self.link_table(b, indexes.0, b + 20, 0);
        self.link_table(b + 20, indexes.1, b + 21, 0);
        let ghost linked = *self;
        proof {
            lemma_or_zero(old(self).table_phys_spec(b + 20) as u64);
            lemma_or_zero(old(self).table_phys_spec(b + 21) as u64);
        }
        let mut t: usize = 0;
        while t < KERNEL_PT_COUNT
            invariant
                self.wf(), self.same_layout(&*old(self)), old(self).wf(), b == task * TABLES_PER_TASK, task < USER_TASKS,
                indexes.0 < 512, indexes.1 < 512, indexes.2 + KERNEL_PT_COUNT <= 512,
                t <= KERNEL_PT_COUNT,
                self.user_frames@ == old(self).user_frames@, self.free_frames@ == old(self).free_frames@,
                self.pending@ == old(self).pending@,
                linked.tables@ == old(self).tables@
                    .update(b * 512 + indexes.0, (old(self).table_phys_spec(b + 20) as u64) | 3)
                    .update((b + 20) * 512 + indexes.1, (old(self).table_phys_spec(b + 21) as u64) | 3),
                forall|i: int| 0 <= i < TABLE_ENTRIES ==> #[trigger] self.tables@[i] ==
                    if (b + 21) * 512 + indexes.2 <= i < (b + 21) * 512 + indexes.2 + t {
                        (old(self).table_phys_spec(b + 22 + (i - (b + 21) * 512 - indexes.2)) as u64) | 3
                    } else { linked.tables@[i] },
            decreases KERNEL_PT_COUNT - t,
        {
            proof { lemma_or_zero(old(self).table_phys_spec(b + 22 + t) as u64); }
            self.link_table(b + 21, indexes.2 + t, b + 22 + t, 0);
            t += 1;
        }
    }

    /// Maps the kernel image pages of task `task`'s tables, from table
    /// entry `first` on, to the kernel's physical pages.
    fn map_kernel_pages(&mut self, task: usize, first: usize)
        requires
            old(self).wf(), task < USER_TASKS, first < 512,
            old(self).kernel.physical_base + KERNEL_MAPPED_PAGES * 4096 <= u64::MAX,
        ensures
            final(self).wf(),
            final(self).same_layout(&*old(self)),
            final(self).user_frames@ == old(self).user_frames@,
            final(self).free_frames@ == old(self).free_frames@,
            final(self).pending@ == old(self).pending@,
            forall|i: int| 0 <= i < TABLE_ENTRIES ==> #[trigger] final(self).tables@[i] ==
                if (task * TABLES_PER_TASK + 22) * 512 + first <= i < (task * TABLES_PER_TASK + 22) * 512 + first + KERNEL_MAPPED_PAGES {
                    ((old(self).kernel.physical_base + (i - (task * TABLES_PER_TASK + 22) * 512 - first) * 4096) as u64) | 3
                } else { old(self).tables@[i] },
    {
        let start = (task * TABLES_PER_TASK + 22) * PAGE_ENTRIES + first;
        let base = self.kernel.physical_base;
        let mut page: usize = 0;
        while page < KERNEL_MAPPED_PAGES
            invariant
                self.wf(), self.same_layout(&*old(self)), old(self).wf(), task < USER_TASKS, first < 512,
                start == (task * TABLES_PER_TASK + 22) * 512 + first,
                base == old(self).kernel.physical_base,
                base + KERNEL_MAPPED_PAGES * 4096 <= u64::MAX,
                page <= KERNEL_MAPPED_PAGES,
                self.user_frames@ == old(self).user_frames@, self.free_frames@ == old(self).free_frames@,
                self.pending@ == old(self).pending@,
                forall|i: int| 0 <= i < TABLE_ENTRIES ==> #[trigger] self.tables@[i] ==
                    if start <= i < start + page {
                        ((base + (i - start) * 4096) as u64) | 3
                    } else { old(self).tables@[i] },
            decreases KERNEL_MAPPED_PAGES - page,
        {
            let phys = base + (page as u64) * PAGE_SIZE;
            self.tables.set(start + page, phys | PTE_PRESENT | PTE_WRITABLE);
            proof { assert(phys | PTE_PRESENT | PTE_WRITABLE == phys | 3) by (bit_vector); }
            page += 1;
        }
    }

    /// Builds the page tables of task `task`: its image and stack (empty),
    /// the kernel image, the framebuffer when there is one, and the direct
    /// map of low physical memory and of the 0xf000_0000 window. Returns the
    /// root; `None` for a task out of range.
    #[verifier::rlimit(80)]
    #[verifier::spinoff_prover]
    pub fn create_user_address_space(&mut self, task: usize, framebuffer: Option<FramebufferMapping>) -> (r: Option<PageTableRoot>)
        requires
            old(self).wf(),
            task < USER_TASKS ==> layout_fits(old(self).kernel, old(self).hhdm_offset, task, framebuffer),
        ensures
            final(self).wf(),
            final(self).same_layout(&*old(self)),
            final(self).user_frames@ == old(self).user_frames@,
            final(self).free_frames@ == old(self).free_frames@,
            final(self).pending@ == old(self).pending@,
            task >= USER_TASKS ==> r is None && *final(self) == *old(self),
            task < USER_TASKS ==> address_space_built(*old(self), *final(self), task, framebuffer, r),
    {
        if task >= USER_TASKS {
            return None;
        }
        let b = task * TABLES_PER_TASK;
        let ghost s0 = *self;
        self.link_user_tables(task);
        let ghost s1 = *self;
        let indexes = page_indexes(self.kernel.virtual_base);
        self.link_kernel_tables(task, indexes);
        let ghost s2 = *self;
        self.map_kernel_pages(task, indexes.3);
        let ghost s3 = *self;
        match framebuffer {
            Some(fb) => {
                self.map_range(b, b + 279, b + 280, b + 281, fb.virt, fb.phys, fb.len, PTE_NO_EXECUTE);
            },
            None => {},
        }
        let ghost s4 = *self;
        let hhdm = self.hhdm_offset;
        self.map_range(b, b + 297, b + 298, b + 299, hhdm, 0, MAPPED_PHYS_LIMIT, PTE_NO_EXECUTE);
        let ghost s5 = *self;
        self.map_range(b, b + 297, b + 556, b + 557, hhdm + HHDM_HIGH_BASE, HHDM_HIGH_BASE, HHDM_HIGH_LEN, PTE_NO_EXECUTE);
        let root = PageTableRoot { pml4_phys: self.table_phys(b) };
        proof {
            let f = *self;
            let hv = (hhdm + HHDM_HIGH_BASE) as u64;
            let fbv = match framebuffer { Some(fb) => fb.virt, None => 0 };
            let fbl = match framebuffer { Some(fb) => fb.len, None => 0 };
            lemma_indexes_bounded(hv);
            lemma_indexes_bounded(hhdm);
            lemma_indexes_bounded((hv - hv % 4096) as u64);
            lemma_indexes_bounded((hhdm - hhdm % 4096) as u64);
            lemma_indexes_bounded((fbv - fbv % 4096) as u64);
            assert(forall|i: int| 0 <= i < TABLE_ENTRIES ==> #[trigger] s4.tables@[i] == match framebuffer {
                Some(fb) => range_entry(s3, b, (b + 279) as usize, (b + 280) as usize, (b + 281) as usize, fb.virt, fb.phys, fb.len, PTE_NO_EXECUTE, i),
                None => s3.tables@[i],
            });
            // entries written after the kernel pages lie in the top-level table or past table b + 278
            assert forall|i: int| 0 <= i < TABLE_ENTRIES && (b + 1) * 512 <= i < (b + 279) * 512 implies
                #[trigger] f.tables@[i] == s3.tables@[i] by {
                assert(f.tables@[i] == s5.tables@[i]);
                assert(s5.tables@[i] == s4.tables@[i]);
            }
            assert forall|i: int| 0 <= i < TABLE_ENTRIES && !(b * 512 <= i < (b + TABLES_PER_TASK) * 512) implies
                #[trigger] f.tables@[i] == old(self).tables@[i] by {
                assert(f.tables@[i] == s5.tables@[i]);
                assert(s5.tables@[i] == s4.tables@[i]);
                assert(s4.tables@[i] == s3.tables@[i]);
                assert(s3.tables@[i] == s2.tables@[i]);
                assert(s2.tables@[i] == s1.tables@[i]);
            }
            assert(f.tables@[(b + 1) * 512 + 1] == s3.tables@[(b + 1) * 512 + 1]);
            assert(s3.tables@[(b + 1) * 512 + 1] == s2.tables@[(b + 1) * 512 + 1]);
            assert(s2.tables@[(b + 1) * 512 + 1] == s1.tables@[(b + 1) * 512 + 1]);
            assert forall|t: int| 0 <= t <= USER_IMAGE_PT_COUNT implies
                #[trigger] f.tables@[(b + 2) * 512 + t] == (old(self).table_phys_spec(b + 3 + t) as u64) | 3 | PTE_USER by {
                let i = (b + 2) * 512 + t;
                assert(f.tables@[i] == s3.tables@[i]);
                assert(s3.tables@[i] == s2.tables@[i]);
                assert(s2.tables@[i] == s1.tables@[i]);
            }
            assert forall|t: int| 0 <= t < KERNEL_PT_COUNT implies
                #[trigger] f.tables@[(b + 21) * 512 + indexes.2 + t] == (old(self).table_phys_spec(b + 22 + t) as u64) | 3 by {
                let i = (b + 21) * 512 + indexes.2 + t;
                assert(f.tables@[i] == s3.tables@[i]);
                assert(s3.tables@[i] == s2.tables@[i]);
            }
            assert forall|p: int| 0 <= p < KERNEL_MAPPED_PAGES implies #[trigger] f.tables@[(b + 22) * 512 + indexes.3 + p]
                == ((old(self).kernel.physical_base + p * 4096) as u64) | 3 by {
                let i = (b + 22) * 512 + indexes.3 + p;
                assert(f.tables@[i] == s3.tables@[i]);
            }
            assert(hhdm % 4096 == 0);
            assert forall|p: int| 0 <= p < KERNEL_MAPPED_PAGES implies #[trigger] f.tables@[(b + 299) * 512 + spec_page_indexes(hhdm).3 + p]
                == ((p * 4096) as u64) | 3 | PTE_NO_EXECUTE by {
                let i = (b + 299) * 512 + spec_page_indexes(hhdm).3 + p;
                assert(f.tables@[i] == s5.tables@[i]);
            }
            assert forall|p: int| 0 <= p < HHDM_HIGH_LEN / 4096 implies #[trigger] f.tables@[(b + 557) * 512 + spec_page_indexes(hv).3 + p]
                == ((HHDM_HIGH_BASE + p * 4096) as u64) | 3 | PTE_NO_EXECUTE by {
            }
            match framebuffer {
                Some(fb) => {
                    assert forall|p: int| 0 <= p < range_pages(fb.virt, fb.len) implies
                        #[trigger] f.tables@[(b + 281) * 512 + spec_page_indexes((fb.virt - fb.virt % 4096) as u64).3 + p]
                        == ((fb.phys - fb.virt % 4096 + p * 4096) as u64) | 3 | PTE_NO_EXECUTE by {
                        let i = (b + 281) * 512 + spec_page_indexes((fb.virt - fb.virt % 4096) as u64).3 + p;
                        assert(f.tables@[i] == s5.tables@[i]);
                        assert(s5.tables@[i] == s4.tables@[i]);
                    }
                },
                None => {},
            }
        }
        Some(root)
    }

}


/// When no frame is found, the whole free stack has been used up.
proof fn lemma_alloc_none_empties(free: Seq<u64>)
    ensures alloc_spec(free).0 is None ==> alloc_spec(free).1.len() == 0,
    decreases free.len(),
{
    if free.len() > 0 && !valid_frame(free.last()) {
        lemma_alloc_none_empties(free.drop_last());
    }
}

/// Mapping more of one page of a range after mapping more of the range is
/// mapping more of the range.
proof fn lemma_maps_more_trans(o: UserMemory, a: UserMemory, b: UserMemory, task: int, lo: int, hi: int, p: int, flags: u64)
    requires
        a.maps_more(&o, task, lo, hi, flags),
        b.maps_more(&a, task, p, p + 1, flags),
        lo <= p < hi,
        0 <= task < USER_TASKS,
        0 <= lo, hi <= USER_PAGES,
    ensures
        b.maps_more(&o, task, lo, hi, flags),
{
    assert forall|t: int, q: int| 0 <= t < USER_TASKS && 0 <= q < USER_PAGES && !(t == task && lo <= q < hi)
        implies #[trigger] b.frame(t, q) == o.frame(t, q) by {
        assert(b.frame(t, q) == a.frame(t, q));
    }
    assert forall|q: int| lo <= q < hi && o.frame(task, q) != 0 implies #[trigger] b.frame(task, q) == o.frame(task, q) by {
        assert(a.frame(task, q) == o.frame(task, q));
        if q != p {
            assert(0 <= q < USER_PAGES);
            assert(b.frame(task, q) == a.frame(task, q));
        }
    }
    assert forall|i: int| 0 <= i < TABLE_ENTRIES && !(pte_index(task, lo) <= i < pte_index(task, hi))
        implies #[trigger] b.tables@[i] == o.tables@[i] by {
        assert(b.tables@[i] == a.tables@[i]);
    }
    assert forall|q: int| lo <= q < hi implies {
        let e = #[trigger] b.tables@[pte_index(task, q)];
        &&& o.frame(task, q) != 0 ==> e == o.tables@[pte_index(task, q)]
        &&& o.frame(task, q) == 0 && b.frame(task, q) != 0 ==> e == b.frame(task, q) | USER_PTE_FLAGS | flags
    } by {
        let e = b.tables@[pte_index(task, q)];
        let ea = a.tables@[pte_index(task, q)];
        if q != p {
            assert(0 <= pte_index(task, q) < TABLE_ENTRIES);
            assert(e == ea);
            assert(0 <= q < USER_PAGES);
            assert(b.frame(task, q) == a.frame(task, q));
        } else {
            if a.frame(task, q) != 0 {
                assert(e == ea);
                assert(b.frame(task, q) == a.frame(task, q));
            }
        }
    }
    assert(b.pending@.subrange(0, o.pending@.len() as int) =~= o.pending@) by {
        assert(b.pending@.subrange(0, a.pending@.len() as int) == a.pending@);
        assert(a.pending@.subrange(0, o.pending@.len() as int) == o.pending@);
    }
}


/// The free stack after `frame` is returned: kept when valid and there is
/// room.
pub open spec fn release(free: Seq<u64>, frame: u64) -> Seq<u64> {
    if valid_frame(frame) && free.len() < MAX_FREE_FRAMES { free.push(frame) } else { free }
}

/// The free stack after each of `frames` is returned in turn (empty slots
/// return nothing).
pub open spec fn release_all(free: Seq<u64>, frames: Seq<u64>) -> Seq<u64>
    decreases frames.len(),
{
    if frames.len() == 0 { free } else {
        let before = release_all(free, frames.drop_last());
        if frames.last() == 0 { before } else { release(before, frames.last()) }
    }
}

/// Zeroes entries `from..to`.
fn zero_entries(v: &mut Vec<u64>, from: usize, to: usize)
    requires from <= to <= old(v)@.len(),
    ensures
        final(v)@.len() == old(v)@.len(),
        forall|i: int| 0 <= i < old(v)@.len() ==> #[trigger] final(v)@[i] == if from <= i < to { 0 } else { old(v)@[i] },
{
    let mut i = from;
    while i < to
        invariant
            from <= i <= to, to <= v@.len(), v@.len() == old(v)@.len(),
            forall|k: int| 0 <= k < v@.len() ==> #[trigger] v@[k] == if from <= k < i { 0 } else { old(v)@[k] },
        decreases to - i,
    {
        v.set(i, 0);
        i += 1;
    }
}

/// Where the two stack areas lie in user pages.
proof fn lemma_low_stack_pages()
    ensures
        user_range_ok(USER_STACK_LOW_BASE, USER_STACK_LOW_SIZE),
        user_range_ok(USER_STACK_BASE, USER_STACK_SIZE),
        first_page(USER_STACK_LOW_BASE as int) == 7936,
        end_page(USER_STACK_LOW_BASE + USER_STACK_LOW_SIZE) == 8192,
        first_page(USER_STACK_BASE as int) == 8192,
        end_page(USER_STACK_BASE + USER_STACK_SIZE) == 8196,
{
}


/// Whether a segment of `len` data bytes and `mem_size` bytes of memory at
/// `virt` fits task `index`'s image.
pub open spec fn segment_ok(index: usize, virt: u64, len: nat, mem_size: usize) -> bool {
    &&& index < USER_TASKS
    &&& USER_IMAGE_BASE <= virt < USER_STACK_BASE
    &&& virt + mem_size <= USER_STACK_BASE
    &&& len <= mem_size
    &&& virt - USER_IMAGE_BASE + mem_size <= USER_IMAGE_SIZE
}

/// `bytes` as stores at stack offsets from `off` on.
pub open spec fn bytes_at(off: int, bytes: Seq<u8>) -> Seq<(int, u8)> {
    Seq::new(bytes.len(), |j: int| (off + j, bytes[j]))
}

/// The frame stores that put each byte of `stores` at its offset of task
/// `index`'s stack, one store per byte, in `m`'s frames.
pub open spec fn stack_stores(m: UserMemory, index: int, stores: Seq<(int, u8)>) -> Seq<(u64, usize, Seq<u8>)> {
    Seq::new(stores.len(), |i: int| (m.frame(index, stack_page(stores[i].0)), (stores[i].0 % 4096) as usize, seq![stores[i].1]))
}

/// Mapping more pages twice maps more pages.
pub proof fn lemma_maps_more_chain(o: UserMemory, a: UserMemory, b: UserMemory, task: int, lo: int, hi: int, flags: u64)
    requires
        a.maps_more(&o, task, lo, hi, flags),
        b.maps_more(&a, task, lo, hi, flags),
    ensures
        b.maps_more(&o, task, lo, hi, flags),
{
    assert forall|p: int| lo <= p < hi implies {
        let e = #[trigger] b.tables@[pte_index(task, p)];
        &&& o.frame(task, p) != 0 ==> e == o.tables@[pte_index(task, p)]
        &&& o.frame(task, p) == 0 && b.frame(task, p) != 0 ==> e == b.frame(task, p) | USER_PTE_FLAGS | flags
    } by {
        let e = b.tables@[pte_index(task, p)];
        let ea = a.tables@[pte_index(task, p)];
    }
    assert(b.pending@.subrange(0, o.pending@.len() as int) =~= o.pending@) by {
        assert(b.pending@.subrange(0, o.pending@.len() as int) =~= b.pending@.subrange(0, a.pending@.len() as int).subrange(0, o.pending@.len() as int));
    }
}

/// The user page holding byte `offset` of the stack.
pub open spec fn stack_page(offset: int) -> int {
    USER_STACK_FIRST_PAGE + offset / 4096
}

/// The stores among `ops`, in order: frame, offset and bytes.
pub open spec fn write_ops(ops: Seq<FrameOp>) -> Seq<(u64, usize, Seq<u8>)>
    decreases ops.len(),
{
    if ops.len() == 0 {
        Seq::empty()
    } else {
        let rest = write_ops(ops.drop_last());
        match ops.last() {
            FrameOp::Write { frame, offset, bytes } => rest.push((frame, offset, bytes@)),
            _ => rest,
        }
    }
}

/// The bytes of `writes`, one after the other.
pub open spec fn write_bytes(writes: Seq<(u64, usize, Seq<u8>)>) -> Seq<u8>
    decreases writes.len(),
{
    if writes.len() == 0 { Seq::empty() } else { write_bytes(writes.drop_last()) + writes.last().2 }
}

/// The copies among `ops`, in order: source and target frame.
pub open spec fn copy_ops(ops: Seq<FrameOp>) -> Seq<(u64, u64)>
    decreases ops.len(),
{
    if ops.len() == 0 {
        Seq::empty()
    } else {
        let rest = copy_ops(ops.drop_last());
        match ops.last() {
            FrameOp::Copy { from, to } => rest.push((from, to)),
            _ => rest,
        }
    }
}

/// The frame copies that give each mapped page of `src` its counterpart
/// in `dst`, in page order.
pub open spec fn copies(src: Seq<u64>, dst: Seq<u64>) -> Seq<(u64, u64)>
    decreases src.len(),
{
    if src.len() == 0 || dst.len() == 0 {
        Seq::empty()
    } else {
        let rest = copies(src.drop_last(), dst.drop_last());
        if src.last() == 0 { rest } else { rest.push((src.last(), dst.last())) }
    }
}

/// Zeroing operations only hold no copies.
proof fn lemma_copy_ops_no_copies(ops: Seq<FrameOp>)
    requires forall|i: int| 0 <= i < ops.len() ==> #[trigger] ops[i] is Zero,
    ensures copy_ops(ops) == Seq::<(u64, u64)>::empty(),
    decreases ops.len(),
{
    if ops.len() > 0 {
        lemma_copy_ops_no_copies(ops.drop_last());
    }
}

/// The pages a segment covers grow with the bytes loaded.
proof fn lemma_segment_pages(virt: int, relative: int, count: int)
    requires
        virt >= USER_IMAGE_BASE, relative >= 0, count > 0,
        count <= 4096 - (virt + relative) % 4096,
    ensures
        end_page(virt + relative + count) <= end_page(virt + relative) + 1,
        end_page(virt + relative) >= first_page(virt),
        (virt + relative - USER_IMAGE_BASE) / 4096 >= end_page(virt + relative) - 1,
{
}


/// Pushing onto a sequence pushes onto every suffix of it.
proof fn lemma_skip_push<A>(s: Seq<A>, start: int, a: A)
    requires 0 <= start <= s.len(),
    ensures s.push(a).skip(start) == s.skip(start).push(a),
{
    assert(s.push(a).skip(start) =~= s.skip(start).push(a));
}

/// The copies of one more operation.
proof fn lemma_copy_ops_push(ops: Seq<FrameOp>, op: FrameOp)
    ensures copy_ops(ops.push(op)) == match op {
        FrameOp::Copy { from, to } => copy_ops(ops).push((from, to)),
        _ => copy_ops(ops),
    },
{
    assert(ops.push(op).drop_last() =~= ops);
}

/// The stores of one more operation.
proof fn lemma_write_ops_push(ops: Seq<FrameOp>, op: FrameOp)
    ensures write_ops(ops.push(op)) == match op {
        FrameOp::Write { frame, offset, bytes } => write_ops(ops).push((frame, offset, bytes@)),
        _ => write_ops(ops),
    },
{
    assert(ops.push(op).drop_last() =~= ops);
}

/// The bytes of one more store.
proof fn lemma_write_bytes_push(ws: Seq<(u64, usize, Seq<u8>)>, w: (u64, usize, Seq<u8>))
    ensures write_bytes(ws.push(w)) == write_bytes(ws) + w.2,
{
    assert(ws.push(w).drop_last() =~= ws);
}


/// The stores of two runs of operations are those of each, in order.
pub proof fn lemma_write_ops_concat(a: Seq<FrameOp>, b: Seq<FrameOp>)
    ensures write_ops(a + b) == write_ops(a) + write_ops(b),
    decreases b.len(),
{
    if b.len() == 0 {
        assert(a + b =~= a);
        assert(write_ops(a) + write_ops(b) =~= write_ops(a));
    } else {
        let c = b.drop_last();
        lemma_write_ops_concat(a, c);
        assert((a + b).drop_last() =~= a + c);
        assert((a + b).last() == b.last());
        match b.last() {
            FrameOp::Write { frame, offset, bytes } => {
                assert(write_ops(a) + write_ops(b) =~= (write_ops(a) + write_ops(c)).push((frame, offset, bytes@)));
            },
            _ => {},
        }
    }
}

/// The bytes of two runs of stores are those of each, in order.
pub proof fn lemma_write_bytes_concat(x: Seq<(u64, usize, Seq<u8>)>, y: Seq<(u64, usize, Seq<u8>)>)
    ensures write_bytes(x + y) == write_bytes(x) + write_bytes(y),
    decreases y.len(),
{
    if y.len() == 0 {
        assert(x + y =~= x);
        assert(write_bytes(x) + write_bytes(y) =~= write_bytes(x));
    } else {
        let z = y.drop_last();
        lemma_write_bytes_concat(x, z);
        assert((x + y).drop_last() =~= x + z);
        assert((x + y).last() == y.last());
        assert(write_bytes(x) + write_bytes(y) =~= (write_bytes(x) + write_bytes(z)) + y.last().2);
    }
}

/// Queuing more frame work keeps what `maps_more` says.
proof fn lemma_maps_more_queue(o: UserMemory, a: UserMemory, b: UserMemory, task: int, lo: int, hi: int, flags: u64)
    requires
        a.maps_more(&o, task, lo, hi, flags),
        b.tables@ == a.tables@,
        b.user_frames@ == a.user_frames@,
        b.pending@.subrange(0, a.pending@.len() as int) == a.pending@,
        b.pending@.len() >= a.pending@.len(),
    ensures
        b.maps_more(&o, task, lo, hi, flags),
{
    assert forall|t: int, p: int| 0 <= t < USER_TASKS && 0 <= p < USER_PAGES && !(t == task && lo <= p < hi)
        implies #[trigger] b.frame(t, p) == o.frame(t, p) by {
        assert(b.frame(t, p) == a.frame(t, p));
    }
    assert forall|p: int| lo <= p < hi && o.frame(task, p) != 0 implies #[trigger] b.frame(task, p) == o.frame(task, p) by {
        assert(b.frame(task, p) == a.frame(task, p));
    }
    assert forall|p: int| lo <= p < hi implies {
        let e = #[trigger] b.tables@[pte_index(task, p)];
        &&& o.frame(task, p) != 0 ==> e == o.tables@[pte_index(task, p)]
        &&& o.frame(task, p) == 0 && b.frame(task, p) != 0 ==> e == b.frame(task, p) | USER_PTE_FLAGS | flags
    } by {
        assert(b.frame(task, p) == a.frame(task, p));
        assert(b.tables@[pte_index(task, p)] == a.tables@[pte_index(task, p)]);
    }
    assert(b.pending@.subrange(0, o.pending@.len() as int) =~= o.pending@) by {
        assert(a.pending@.subrange(0, o.pending@.len() as int) == o.pending@);
    }
}


/// Pages mapped for `len` bytes from `virt`.
pub open spec fn range_pages(virt: u64, len: u64) -> int {
    (len + virt % 4096 + 4095) / 4096
}

/// Page tables used for `len` bytes from `virt`.
pub open spec fn range_tables(virt: u64, len: u64) -> int {
    (spec_page_indexes((virt - virt % 4096) as u64).3 + range_pages(virt, len) + 511) / 512
}

/// Whether a range can be mapped through the given tables: no arithmetic
/// overflows, the page tables fit in their directory and among all tables,
/// and the tables are distinct.
pub open spec fn range_fits(pml4: usize, pdpt: usize, pd: usize, pts_start: usize, virt: u64, phys: u64, len: u64) -> bool {
    let idx = spec_page_indexes((virt - virt % 4096) as u64);
    &&& phys >= virt % 4096
    &&& len + virt % 4096 + 4095 <= u64::MAX
    &&& phys - virt % 4096 + range_pages(virt, len) * 4096 <= u64::MAX
    &&& idx.2 + range_tables(virt, len) <= 512
    &&& pts_start + range_tables(virt, len) <= TABLE_COUNT
    &&& pml4 < TABLE_COUNT && pdpt < TABLE_COUNT && pd < TABLE_COUNT
    &&& pml4 != pdpt && pml4 != pd && pdpt != pd
    &&& pml4 < pts_start && pdpt < pts_start && pd < pts_start
}

/// Entry `i` of the tables after `map_range`.
pub open spec fn range_entry(m: UserMemory, pml4: usize, pdpt: usize, pd: usize, pts_start: usize,
    virt: u64, phys: u64, len: u64, extra_flags: u64, i: int) -> u64
{
    let idx = spec_page_indexes((virt - virt % 4096) as u64);
    let aligned_phys = phys - virt % 4096;
    if pts_start * 512 + idx.3 <= i < pts_start * 512 + idx.3 + range_pages(virt, len) {
        ((aligned_phys + (i - pts_start * 512 - idx.3) * 4096) as u64) | 3 | extra_flags
    } else if pd * 512 + idx.2 <= i < pd * 512 + idx.2 + range_tables(virt, len) {
        (m.table_phys_spec(pts_start + (i - pd * 512 - idx.2)) as u64) | 3
    } else if i == pdpt * 512 + idx.1 {
        (m.table_phys_spec(pd as int) as u64) | 3
    } else if i == pml4 * 512 + idx.0 {
        (m.table_phys_spec(pdpt as int) as u64) | 3
    } else {
        m.tables@[i]
    }
}

/// The indexes of an address rounded down to its page.
proof fn lemma_aligned_indexes(virt: u64)
    ensures
        (virt - virt % 4096) as u64 == virt - virt % 4096,
        virt % 4096 < 4096,
{
}

/// Adding no flags changes nothing.
proof fn lemma_or_zero(x: u64)
    ensures x | 3 | 0 == x | 3,
{
    assert(x | 3 | 0 == x | 3) by (bit_vector);
}


/// Entry `i` after the user half of the tables at `b` is linked.
pub open spec fn user_link_entry(m: UserMemory, b: int, i: int) -> u64 {
    if i == b * 512 {
        (m.table_phys_spec(b + 1) as u64) | 3 | PTE_USER
    } else if i == (b + 1) * 512 + 1 {
        (m.table_phys_spec(b + 2) as u64) | 3 | PTE_USER
    } else if (b + 2) * 512 <= i <= (b + 2) * 512 + USER_IMAGE_PT_COUNT {
        (m.table_phys_spec(b + 3 + (i - (b + 2) * 512)) as u64) | 3 | PTE_USER
    } else {
        m.tables@[i]
    }
}

/// Entry `i` after the kernel half of the tables at `b` is linked.
pub open spec fn kernel_link_entry(m: UserMemory, b: int, indexes: (usize, usize, usize, usize), i: int) -> u64 {
    if (b + 21) * 512 + indexes.2 <= i < (b + 21) * 512 + indexes.2 + KERNEL_PT_COUNT {
        (m.table_phys_spec(b + 22 + (i - (b + 21) * 512 - indexes.2)) as u64) | 3
    } else if i == (b + 20) * 512 + indexes.1 {
        (m.table_phys_spec(b + 21) as u64) | 3
    } else if i == b * 512 + indexes.0 {
        (m.table_phys_spec(b + 20) as u64) | 3
    } else {
        m.tables@[i]
    }
}

/// Whether the address space of task `task` fits its 800 tables: the
/// kernel's page tables fit in its directory and its pages in the address
/// range, and the framebuffer and the two direct-map windows can be mapped
/// in the tables set aside for them.
pub open spec fn layout_fits(kernel: KernelAddress, hhdm_offset: u64, task: usize, framebuffer: Option<FramebufferMapping>) -> bool {
    let b = (task * TABLES_PER_TASK) as usize;
    let k = spec_page_indexes(kernel.virtual_base);
    &&& k.2 + KERNEL_PT_COUNT <= 512
    &&& kernel.physical_base + KERNEL_MAPPED_PAGES * 4096 <= u64::MAX
    &&& (framebuffer matches Some(fb) ==> range_fits(b, (b + 279) as usize, (b + 280) as usize, (b + 281) as usize, fb.virt, fb.phys, fb.len)
            && range_tables(fb.virt, fb.len) <= FRAMEBUFFER_PT_COUNT)
    &&& range_fits(b, (b + 297) as usize, (b + 298) as usize, (b + 299) as usize, hhdm_offset, 0, MAPPED_PHYS_LIMIT)
    &&& range_tables(hhdm_offset, MAPPED_PHYS_LIMIT) <= KERNEL_PT_COUNT
    &&& hhdm_offset + HHDM_HIGH_BASE <= u64::MAX
    &&& range_fits(b, (b + 297) as usize, (b + 556) as usize, (b + 557) as usize, (hhdm_offset + HHDM_HIGH_BASE) as u64, HHDM_HIGH_BASE, HHDM_HIGH_LEN)
    &&& range_tables((hhdm_offset + HHDM_HIGH_BASE) as u64, HHDM_HIGH_LEN) <= 243
}

/// What building task `task`'s tables leaves: the root is its first table;
/// tables of other tasks are as they were; the user tables are linked; the
/// kernel, framebuffer and direct-map pages are mapped.
pub open spec fn address_space_built(m: UserMemory, f: UserMemory, task: usize, framebuffer: Option<FramebufferMapping>,
    r: Option<PageTableRoot>) -> bool
{
    let b = task * TABLES_PER_TASK;
    let k = spec_page_indexes(m.kernel.virtual_base);
    let h = spec_page_indexes(m.hhdm_offset);
    let hh = spec_page_indexes((m.hhdm_offset + HHDM_HIGH_BASE) as u64);
    &&& r == Some(PageTableRoot { pml4_phys: m.table_phys_spec(b as int) as u64 })
    &&& forall|i: int| 0 <= i < TABLE_ENTRIES && !(b * 512 <= i < (b + TABLES_PER_TASK) * 512) ==> #[trigger] f.tables@[i] == m.tables@[i]
    &&& f.tables@[(b + 1) * 512 + 1] == (m.table_phys_spec(b + 2) as u64) | 3 | PTE_USER
    &&& forall|t: int| 0 <= t <= USER_IMAGE_PT_COUNT ==> #[trigger] f.tables@[(b + 2) * 512 + t] == (m.table_phys_spec(b + 3 + t) as u64) | 3 | PTE_USER
    &&& forall|t: int| 0 <= t < KERNEL_PT_COUNT ==> #[trigger] f.tables@[(b + 21) * 512 + k.2 + t] == (m.table_phys_spec(b + 22 + t) as u64) | 3
    &&& forall|p: int| 0 <= p < KERNEL_MAPPED_PAGES ==> #[trigger] f.tables@[(b + 22) * 512 + k.3 + p]
            == ((m.kernel.physical_base + p * 4096) as u64) | 3
    &&& forall|p: int| 0 <= p < KERNEL_MAPPED_PAGES ==> #[trigger] f.tables@[(b + 299) * 512 + h.3 + p]
            == ((p * 4096) as u64) | 3 | PTE_NO_EXECUTE
    &&& forall|p: int| 0 <= p < HHDM_HIGH_LEN / 4096 ==> #[trigger] f.tables@[(b + 557) * 512 + hh.3 + p]
            == ((HHDM_HIGH_BASE + p * 4096) as u64) | 3 | PTE_NO_EXECUTE
    &&& (framebuffer matches Some(fb) ==> forall|p: int| 0 <= p < range_pages(fb.virt, fb.len) ==>
            #[trigger] f.tables@[(b + 281) * 512 + spec_page_indexes((fb.virt - fb.virt % 4096) as u64).3 + p]
            == ((fb.phys - fb.virt % 4096 + p * 4096) as u64) | 3 | PTE_NO_EXECUTE)
    // the directories and pointer tables above those pages
    &&& f.tables@[(b + 20) * 512 + k.1] == (m.table_phys_spec(b + 21) as u64) | 3
    &&& f.tables@[b * 512 + h.0] == (m.table_phys_spec(b + 297) as u64) | 3
    &&& f.tables@[b * 512 + hh.0] == (m.table_phys_spec(b + 297) as u64) | 3
    &&& f.tables@[(b + 297) * 512 + hh.1] == (m.table_phys_spec(b + 556) as u64) | 3
    &&& hh.1 != h.1 ==> f.tables@[(b + 297) * 512 + h.1] == (m.table_phys_spec(b + 298) as u64) | 3
    &&& forall|t: int| 0 <= t < range_tables(m.hhdm_offset, MAPPED_PHYS_LIMIT) ==>
            #[trigger] f.tables@[(b + 298) * 512 + h.2 + t] == (m.table_phys_spec(b + 299 + t) as u64) | 3
    &&& forall|t: int| 0 <= t < range_tables((m.hhdm_offset + HHDM_HIGH_BASE) as u64, HHDM_HIGH_LEN) ==>
            #[trigger] f.tables@[(b + 556) * 512 + hh.2 + t] == (m.table_phys_spec(b + 557 + t) as u64) | 3
    &&& (framebuffer matches Some(fb) ==> {
            let fi = spec_page_indexes((fb.virt - fb.virt % 4096) as u64);
            &&& fi.0 != h.0 && fi.0 != hh.0 ==> f.tables@[b * 512 + fi.0] == (m.table_phys_spec(b + 279) as u64) | 3
            &&& f.tables@[(b + 279) * 512 + fi.1] == (m.table_phys_spec(b + 280) as u64) | 3
            &&& forall|t: int| 0 <= t < range_tables(fb.virt, fb.len) ==>
                #[trigger] f.tables@[(b + 280) * 512 + fi.2 + t] == (m.table_phys_spec(b + 281 + t) as u64) | 3
        })
    &&& k.0 != h.0 && k.0 != hh.0 && !(framebuffer matches Some(fb) && spec_page_indexes((fb.virt - fb.virt % 4096) as u64).0 == k.0)
            ==> f.tables@[b * 512 + k.0] == (m.table_phys_spec(b + 20) as u64) | 3
    &&& k.0 != 0 && h.0 != 0 && hh.0 != 0 && !(framebuffer matches Some(fb) && spec_page_indexes((fb.virt - fb.virt % 4096) as u64).0 == 0)
            ==> f.tables@[b * 512] == (m.table_phys_spec(b + 1) as u64) | 3 | PTE_USER
}

/// Every table index is below 512.
proof fn lemma_indexes_bounded(v: u64)
    ensures
        spec_page_indexes(v).0 < 512, spec_page_indexes(v).1 < 512,
        spec_page_indexes(v).2 < 512, spec_page_indexes(v).3 < 512,
{
    assert((v >> 39u64) & 0x1ff < 512 && (v >> 30u64) & 0x1ff < 512
        && (v >> 21u64) & 0x1ff < 512 && (v >> 12u64) & 0x1ff < 512) by (bit_vector);
}


/// Where the frames of a usable region start: page-aligned, above the
/// first megabyte.
pub open spec fn region_start(r: MemoryRegion) -> int {
    let v = if r.base < 0x10_0000 { 0x10_0000 } else { r.base as int };
    if v % 4096 == 0 { v } else { v + (4096 - v % 4096) }
}

/// Where the frames of a region end: its end rounded down to a page, and
/// no further than the direct map reaches.
pub open spec fn region_end(r: MemoryRegion) -> int {
    let e = if r.base + r.length > u64::MAX { u64::MAX as int } else { r.base + r.length };
    let e2 = e - e % 4096;
    if e2 < MAPPED_PHYS_LIMIT { e2 } else { MAPPED_PHYS_LIMIT as int }
}

/// The frames a memory-map entry contributes: those of usable RAM.
pub open spec fn region_frames(r: MemoryRegion) -> Seq<u64> {
    if r.kind != LIMINE_MEMMAP_USABLE || region_start(r) >= region_end(r) {
        Seq::empty()
    } else {
        Seq::new(((region_end(r) - region_start(r)) / 4096) as nat, |i: int| (region_start(r) + i * 4096) as u64)
    }
}

/// The frames of the first `n` entries, in order.
pub open spec fn usable_frames(regions: Seq<MemoryRegion>, n: int) -> Seq<u64>
    decreases n,
{
    if n <= 0 { Seq::empty() } else { usable_frames(regions, n - 1) + region_frames(regions[n - 1]) }
}

/// At most the first `MAX_FREE_FRAMES` of `s`.
pub open spec fn capped(s: Seq<u64>) -> Seq<u64> {
    if s.len() <= MAX_FREE_FRAMES { s } else { s.take(MAX_FREE_FRAMES as int) }
}

/// Whether every usable region's start can be rounded up without overflow.
pub open spec fn regions_ok(regions: Seq<MemoryRegion>) -> bool {
    forall|i: int| 0 <= i < regions.len() && (#[trigger] regions[i]).kind == LIMINE_MEMMAP_USABLE
        ==> regions[i].base <= u64::MAX - 4096
}

/// Fills the free stack with the frames of the usable regions, in order,
/// up to `MAX_FREE_FRAMES`.
fn init_frame_allocator(regions: &[MemoryRegion]) -> (r: Vec<u64>)
    requires regions_ok(regions@),
    ensures r@ == capped(usable_frames(regions@, regions@.len() as int)),
{
    let mut free: Vec<u64> = Vec::new();
    let mut k: usize = 0;
    while k < regions.len()
        invariant
            k <= regions@.len(), regions_ok(regions@),
            free@ == capped(usable_frames(regions@, k as int)),
        decreases regions@.len() - k,
    {
        let region = regions[k];
        let ghost before = free@;
        if region.kind == LIMINE_MEMMAP_USABLE {
            let v = if region.base < 0x10_0000 { 0x10_0000 } else { region.base };
            let rem = v % PAGE_SIZE;
            let start = if rem == 0 { v } else { v + (PAGE_SIZE - rem) };
            let e = region.base.saturating_add(region.length);
            let e2 = e - e % PAGE_SIZE;
            let end = if e2 < MAPPED_PHYS_LIMIT { e2 } else { MAPPED_PHYS_LIMIT };
            let ghost rf = region_frames(region);
            let mut frame = start;
            let ghost mut j: int = 0;
            proof {
                if start < end { lemma_aligned_span(start as int, end as int); }
                assert(rf.take(0) =~= Seq::<u64>::empty());
                assert(before + rf.take(0) =~= before);
            }
            while frame < end && free.len() < MAX_FREE_FRAMES
                invariant
                    start == region_start(region), end == region_end(region),
                    start < end ==> rf.len() * 4096 == end - start,
                    start >= end ==> rf.len() == 0,
                    frame == start + j * 4096, 0 <= j,
                    start < end ==> j <= rf.len(),
                    start >= end ==> j == 0,
                    rf == region_frames(region), region.kind == LIMINE_MEMMAP_USABLE,
                    before == capped(usable_frames(regions@, k as int)),
                    free@ == capped(before + rf.take(j)),
                    free@.len() <= MAX_FREE_FRAMES,
                decreases end - frame,
            {
                free.push(frame);
                proof {
                    assert(j < rf.len());
                    assert(rf[j] == frame);
                    lemma_capped_push(before + rf.take(j), frame);
                    assert(rf.take(j + 1) =~= rf.take(j).push(frame));
                    assert((before + rf.take(j)).push(frame) =~= before + rf.take(j + 1));
                    j = j + 1;
                }
                frame = frame + PAGE_SIZE;
            }
            proof {
                if free@.len() >= MAX_FREE_FRAMES {
                    lemma_capped_full(before + rf.take(j), rf.skip(j));
                    assert(before + rf.take(j) + rf.skip(j) =~= before + rf);
                } else if start < end {
                    assert(j == rf.len());
                    assert(rf.take(j) =~= rf);
                } else {
                    assert(rf.take(0) =~= rf);
                }
                lemma_capped_append(usable_frames(regions@, k as int), rf);
                assert(usable_frames(regions@, k as int + 1) == usable_frames(regions@, k as int) + rf);
            }
        } else {
            proof {
                assert(region_frames(region) =~= Seq::<u64>::empty());
                assert(usable_frames(regions@, k as int + 1) =~= usable_frames(regions@, k as int));
            }
        }
        k += 1;
    }
    free
}

/// Capping after a push is capping before it, then pushing when there is room.
proof fn lemma_capped_push(s: Seq<u64>, x: u64)
    requires capped(s).len() < MAX_FREE_FRAMES,
    ensures capped(s).push(x) == capped(s.push(x)),
{
    assert(capped(s).push(x) =~= capped(s.push(x)));
}

/// Once full, capping ignores what follows.
proof fn lemma_capped_full(s: Seq<u64>, t: Seq<u64>)
    requires capped(s).len() >= MAX_FREE_FRAMES,
    ensures capped(s + t) == capped(s),
{
    assert(capped(s + t) =~= capped(s));
}

/// Capping a prefix first and then the whole gives the same as capping the whole.
proof fn lemma_capped_append(s: Seq<u64>, t: Seq<u64>)
    ensures capped(capped(s) + t) == capped(s + t),
{
    assert(capped(capped(s) + t) =~= capped(s + t));
}

/// Sets up user memory: all tables and user pages empty, the free stack
/// filled from the memory map, and the address spaces of the first four
/// tasks built. Returns the memory and one root per task slot.
pub fn create_user_address_spaces(tables_virt: u64, kernel: KernelAddress, hhdm_offset: u64, regions: &[MemoryRegion],
    framebuffer: Option<FramebufferMapping>) -> (r: (UserMemory, Vec<Option<PageTableRoot>>))
    requires
        tables_virt >= kernel.virtual_base,
        tables_virt - kernel.virtual_base + kernel.physical_base + TABLE_COUNT * 4096 <= u64::MAX,
        regions_ok(regions@),
        forall|t: usize| t < 4 ==> layout_fits(kernel, hhdm_offset, t, framebuffer),
    ensures
        r.0.wf(),
        r.0.tables_virt == tables_virt && r.0.kernel == kernel && r.0.hhdm_offset == hhdm_offset,
        r.0.free_frames@ == capped(usable_frames(regions@, regions@.len() as int)),
        forall|t: int, p: int| 0 <= t < USER_TASKS && 0 <= p < USER_PAGES ==> #[trigger] r.0.frame(t, p) == 0,
        r.0.pending@.len() == 0,
        r.1@.len() == USER_TASKS,
        forall|t: int| 0 <= t < USER_TASKS ==> #[trigger] r.1@[t] == if t < 4 {
            Some(PageTableRoot { pml4_phys: r.0.table_phys_spec(t * TABLES_PER_TASK) as u64 })
        } else { None },
{
    let free = init_frame_allocator(regions);
    let mut m = UserMemory {
        tables: vec![0u64; TABLE_ENTRIES],
        tables_virt,
        kernel,
        hhdm_offset,
        free_frames: free,
        user_frames: vec![FRAME_NONE; USER_FRAME_SLOTS],
        pending: Vec::new(),
    };
    let mut roots: Vec<Option<PageTableRoot>> = Vec::new();
    let mut task: usize = 0;
    while task < USER_TASKS
        invariant
            m.wf(), m.tables_virt == tables_virt, m.kernel == kernel, m.hhdm_offset == hhdm_offset,
            m.free_frames@ == capped(usable_frames(regions@, regions@.len() as int)),
            m.user_frames@ == Seq::new(USER_FRAME_SLOTS as nat, |i: int| 0u64),
            m.pending@.len() == 0,
            task <= USER_TASKS, roots@.len() == task,
            forall|t: usize| t < 4 ==> layout_fits(kernel, hhdm_offset, t, framebuffer),
            forall|t: int| 0 <= t < task ==> #[trigger] roots@[t] == if t < 4 {
                Some(PageTableRoot { pml4_phys: m.table_phys_spec(t * TABLES_PER_TASK) as u64 })
            } else { None },
        decreases USER_TASKS - task,
    {
        if task < 4 {
            let root = m.create_user_address_space(task, framebuffer);
            roots.push(root);
        } else {
            roots.push(None);
        }
        task += 1;
    }
    (m, roots)
}

/// A span between page-aligned addresses is a whole number of pages.
proof fn lemma_aligned_span(start: int, end: int)
    requires start % 4096 == 0, end % 4096 == 0, start < end, start >= 0,
    ensures ((end - start) / 4096) * 4096 == end - start,
{
    assert(((end - start) / 4096) * 4096 == end - start) by (nonlinear_arith)
        requires start % 4096 == 0, end % 4096 == 0, start < end, start >= 0;
}

} // verus!
