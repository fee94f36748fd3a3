//! User programs: the address-space model, ELF loading, the initial Linux
//! stack (arguments, environment and auxiliary vector), and the frames that
//! start a program in ring 3.
use vstd::prelude::*;
use crate::bytes::{le16, le32, le64, read_u16, read_u32, read_u64};
use crate::disk::Disk;
use crate::fat32;
use crate::gdt::{USER_CODE_SELECTOR, USER_DATA_SELECTOR, user_selectors};
use crate::memory::{FrameOp, PageTableRoot, UserMemory, USER_PAGES, USER_STACK_BASE, USER_STACK_FIRST_PAGE, USER_STACK_SIZE,
    PTE_NO_EXECUTE, user_stack_top, segment_ok, stack_page, stack_stores, bytes_at, write_bytes, write_ops,
    lemma_maps_more_chain, lemma_write_bytes_concat, lemma_write_ops_concat};
use crate::scheduler::{TrapFrame, UserAbi, UserScheduler, UserTask, USER_TASKS, empty_frame};

verus! {

/// The one syscall of the native ABI.
#[derive(Clone, Copy)]
pub enum Syscall {
    Yield,
}

impl Syscall {
    /// The syscall's number.
    pub fn number(self) -> (r: u64)
        ensures r == 0,
    {
        match self { Syscall::Yield => 0 }
    }
}

/// Access rights of a mapping, as bits.
#[derive(Clone, Copy)]
pub struct MappingFlags {
    pub bits: u64,
}

impl MappingFlags {
    /// Readable.
    pub fn read() -> (r: MappingFlags) ensures r.bits == 1, { MappingFlags { bits: 1 } }
    /// Writable.
    pub fn write() -> (r: MappingFlags) ensures r.bits == 2, { MappingFlags { bits: 2 } }
    /// Executable.
    pub fn execute() -> (r: MappingFlags) ensures r.bits == 4, { MappingFlags { bits: 4 } }
    /// Reachable from user mode.
    pub fn user() -> (r: MappingFlags) ensures r.bits == 8, { MappingFlags { bits: 8 } }

    /// The rights of both.
    pub fn union(self, other: MappingFlags) -> (r: MappingFlags)
        ensures r.bits == self.bits | other.bits,
    {
        MappingFlags { bits: self.bits | other.bits }
    }

    /// The bits.
    pub fn bits(self) -> (r: u64)
        ensures r == self.bits,
    {
        self.bits
    }
}

/// Union of rights is commutative, associative and idempotent, and the
/// empty set of rights is its unit.
pub proof fn lemma_union_laws(a: u64, b: u64, c: u64)
    ensures
        a | b == b | a,
        (a | b) | c == a | (b | c),
        a | a == a,
        a | 0 == a,
{
    assert(a | b == b | a) by (bit_vector);
    assert((a | b) | c == a | (b | c)) by (bit_vector);
    assert(a | a == a) by (bit_vector);
    assert(a | 0 == a) by (bit_vector);
}

/// A range of user memory and its rights.
#[derive(Clone, Copy)]
pub struct Mapping {
    pub virt: u64,
    pub phys: u64,
    pub len: u64,
    pub flags: MappingFlags,
}

/// Slots for mappings in the model.
pub const MAPPING_SLOTS: usize = 16;

/// The model of the user address spaces: mappings, page-table roots per
/// task, and the entry and stack of the task installed last.
pub struct AddressSpace {
    pub mappings: Vec<Option<Mapping>>,
    pub roots: Vec<Option<PageTableRoot>>,
    pub entry: u64,
    pub stack_top: u64,
}

/// The XOR of the fields of the first `n` mappings present.
pub open spec fn mappings_token(ms: Seq<Option<Mapping>>, n: int) -> u64
    decreases n,
{
    if n <= 0 { 0 } else {
        let t = mappings_token(ms, n - 1);
        match ms[n - 1] {
            Some(m) => t ^ m.virt ^ m.phys ^ m.len ^ m.flags.bits,
            None => t,
        }
    }
}

/// The XOR, onto `start`, of the first `n` roots present.
pub open spec fn roots_token(rs: Seq<Option<PageTableRoot>>, n: int, start: u64) -> u64
    decreases n,
{
    if n <= 0 { start } else {
        let t = roots_token(rs, n - 1, start);
        match rs[n - 1] {
            Some(r) => t ^ r.pml4_phys,
            None => t,
        }
    }
}

/// What one mapping contributes to the checksum.
pub open spec fn mapping_token(m: Mapping) -> u64 {
    m.virt ^ m.phys ^ m.len ^ m.flags.bits
}

proof fn lemma_mappings_token_update(ms: Seq<Option<Mapping>>, n: int, i: int, m: Mapping)
    requires 0 <= i < ms.len(), n <= ms.len(), ms[i] is None,
    ensures
        n <= i ==> mappings_token(ms.update(i, Some(m)), n) == mappings_token(ms, n),
        n > i ==> mappings_token(ms.update(i, Some(m)), n) == mappings_token(ms, n) ^ mapping_token(m),
    decreases n,
{
    if n > 0 {
        lemma_mappings_token_update(ms, n - 1, i, m);
        let u = ms.update(i, Some(m));
        let t = mappings_token(ms, n - 1);
        let (a, b, c, d) = (m.virt, m.phys, m.len, m.flags.bits);
        if n - 1 == i {
            assert(t ^ a ^ b ^ c ^ d == t ^ (a ^ b ^ c ^ d)) by (bit_vector);
        } else if n - 1 > i {
            assert(u[n - 1] == ms[n - 1]);
            match ms[n - 1] {
                Some(k) => {
                    let (kv, kp, kl, kf) = (k.virt, k.phys, k.len, k.flags.bits);
                    let x = a ^ b ^ c ^ d;
                    assert((t ^ x) ^ kv ^ kp ^ kl ^ kf == (t ^ kv ^ kp ^ kl ^ kf) ^ x) by (bit_vector);
                },
                None => {},
            }
        } else {
            assert(u[n - 1] == ms[n - 1]);
        }
    }
}

proof fn lemma_roots_token_shift(rs: Seq<Option<PageTableRoot>>, n: int, start: u64, x: u64)
    ensures roots_token(rs, n, start ^ x) == roots_token(rs, n, start) ^ x,
    decreases n,
{
    if n > 0 {
        lemma_roots_token_shift(rs, n - 1, start, x);
        let t = roots_token(rs, n - 1, start);
        match rs[n - 1] {
            Some(r) => {
                let p = r.pml4_phys;
                assert((t ^ x) ^ p == (t ^ p) ^ x) by (bit_vector);
            },
            None => {},
        }
    }
}

/// Taking a mapping into a free slot changes the checksum by exactly that
/// mapping's fields: the new checksum is the old one XOR the mapping's
/// address, frame, length and flags.
pub proof fn lemma_map_token(before: AddressSpace, after: AddressSpace, m: Mapping, i: int)
    requires
        before.wf(),
        0 <= i < MAPPING_SLOTS,
        before.mappings@[i] is None,
        after.mappings@ == before.mappings@.update(i, Some(m)),
        after.roots@ == before.roots@,
    ensures
        after.token() == before.token() ^ mapping_token(m),
{
    lemma_mappings_token_update(before.mappings@, MAPPING_SLOTS as int, i, m);
    lemma_roots_token_shift(before.roots@, USER_TASKS as int,
        mappings_token(before.mappings@, MAPPING_SLOTS as int), mapping_token(m));
}

/// The checksum is the XOR of two parts that do not touch each other: what
/// the mappings contribute and what the roots contribute. So installing
/// roots changes it by exactly the old roots' part XOR the new roots' part.
pub proof fn lemma_install_roots_token(before: AddressSpace, after: AddressSpace)
    requires after.mappings@ == before.mappings@,
    ensures
        before.token() == mappings_token(before.mappings@, MAPPING_SLOTS as int)
            ^ roots_token(before.roots@, USER_TASKS as int, 0),
        after.token() == before.token() ^ roots_token(before.roots@, USER_TASKS as int, 0)
            ^ roots_token(after.roots@, USER_TASKS as int, 0),
{
    let mt = mappings_token(before.mappings@, MAPPING_SLOTS as int);
    assert(0u64 ^ mt == mt) by (bit_vector);
    lemma_roots_token_shift(before.roots@, USER_TASKS as int, 0, mt);
    lemma_roots_token_shift(after.roots@, USER_TASKS as int, 0, mt);
    let rb = roots_token(before.roots@, USER_TASKS as int, 0);
    let ra = roots_token(after.roots@, USER_TASKS as int, 0);
    assert(rb ^ mt == mt ^ rb) by (bit_vector);
    assert(ra ^ mt == mt ^ rb ^ rb ^ ra) by (bit_vector);
}

impl AddressSpace {
    /// The checksum of the model: every field of every mapping and every
    /// root, XORed together.
    pub open spec fn token(&self) -> u64 {
        roots_token(self.roots@, USER_TASKS as int, mappings_token(self.mappings@, MAPPING_SLOTS as int))
    }

    /// The model's invariant.
    pub open spec fn wf(&self) -> bool {
        self.mappings@.len() == MAPPING_SLOTS && self.roots@.len() == USER_TASKS
    }

    /// No mappings, no roots.
    pub fn new() -> (r: AddressSpace)
        ensures
            r.wf(),
            forall|i: int| 0 <= i < MAPPING_SLOTS ==> r.mappings@[i] is None,
            forall|i: int| 0 <= i < USER_TASKS ==> r.roots@[i] is None,
            r.entry == 0 && r.stack_top == 0,
    {
        let mut mappings: Vec<Option<Mapping>> = Vec::new();
        let mut i: usize = 0;
        while i < MAPPING_SLOTS
            invariant i <= MAPPING_SLOTS, mappings@.len() == i, forall|k: int| 0 <= k < i ==> mappings@[k] is None,
            decreases MAPPING_SLOTS - i,
        {
            mappings.push(None);
            i += 1;
        }
        let mut roots: Vec<Option<PageTableRoot>> = Vec::new();
        let mut j: usize = 0;
        while j < USER_TASKS
            invariant j <= USER_TASKS, roots@.len() == j, forall|k: int| 0 <= k < j ==> roots@[k] is None,
            decreases USER_TASKS - j,
        {
            roots.push(None);
            j += 1;
        }
        AddressSpace { mappings, roots, entry: 0, stack_top: 0 }
    }

    /// Records `mapping` in the first free slot; fails when all are taken.
    pub fn map(&mut self, mapping: Mapping) -> (r: bool)
        requires old(self).wf(),
        ensures
            final(self).wf(),
            final(self).roots@ == old(self).roots@,
            final(self).entry == old(self).entry && final(self).stack_top == old(self).stack_top,
            r == exists|i: int| 0 <= i < MAPPING_SLOTS && #[trigger] old(self).mappings@[i] is None,
            r ==> exists|i: int| 0 <= i < MAPPING_SLOTS && old(self).mappings@[i] is None
                && (forall|j: int| 0 <= j < i ==> #[trigger] old(self).mappings@[j] is Some)
                && final(self).mappings@ == old(self).mappings@.update(i, Some(mapping)),
            !r ==> final(self).mappings@ == old(self).mappings@,
    {
        let mut i: usize = 0;
        while i < MAPPING_SLOTS
            invariant
                self.wf(), *self == *old(self), i <= MAPPING_SLOTS,
                forall|j: int| 0 <= j < i ==> #[trigger] self.mappings@[j] is Some,
            decreases MAPPING_SLOTS - i,
        {
            if self.mappings[i].is_none() {
                self.mappings.set(i, Some(mapping));
                return true;
            }
            i += 1;
        }
        false
    }

    /// The XOR of every field of every mapping and of every root: a
    /// checksum of the model.
    pub fn validation_token(&self) -> (r: u64)
        requires self.wf(),
        ensures r == self.token(),
    {
        let mut token: u64 = 0;
        let mut i: usize = 0;
        while i < MAPPING_SLOTS
            invariant self.wf(), i <= MAPPING_SLOTS, token == mappings_token(self.mappings@, i as int),
            decreases MAPPING_SLOTS - i,
        {
            match self.mappings[i] {
                Some(m) => { token = token ^ m.virt ^ m.phys ^ m.len ^ m.flags.bits(); },
                None => {},
            }
            i += 1;
        }
        let ghost mtoken = token;
        let mut j: usize = 0;
        while j < USER_TASKS
            invariant self.wf(), j <= USER_TASKS, mtoken == mappings_token(self.mappings@, MAPPING_SLOTS as int),
                token == roots_token(self.roots@, j as int, mtoken),
            decreases USER_TASKS - j,
        {
            match self.roots[j] {
                Some(r) => { token = token ^ r.pml4_phys(); },
                None => {},
            }
            j += 1;
        }
        token
    }

    /// Installs the page-table roots of all task slots.
    pub fn install_roots(&mut self, roots: Vec<Option<PageTableRoot>>)
        requires old(self).wf(), roots@.len() == USER_TASKS,
        ensures
            final(self).wf(),
            final(self).roots@ == roots@,
            final(self).mappings@ == old(self).mappings@,
            final(self).entry == old(self).entry && final(self).stack_top == old(self).stack_top,
    {
        self.roots = roots;
    }

    /// Records the entry point and stack of the task installed last.
    pub fn install_task(&mut self, entry: u64, stack_top: u64)
        ensures
            final(self).entry == entry && final(self).stack_top == stack_top,
            final(self).roots@ == old(self).roots@,
            final(self).mappings@ == old(self).mappings@,
    {
        self.entry = entry;
        self.stack_top = stack_top;
    }

    /// The root of task slot `index`.
    pub fn root(&self, index: usize) -> (r: Option<PageTableRoot>)
        requires self.wf(),
        ensures r == if index < USER_TASKS { self.roots@[index as int] } else { None },
    {
        if index >= USER_TASKS { None } else { self.roots[index] }
    }
}

/// The mapping the model starts with: one page of user code at 1 GiB.
pub open spec fn first_mapping() -> Mapping {
    Mapping { virt: 0x4000_0000, phys: 0, len: 0x1000, flags: MappingFlags { bits: 15 } }
}

/// Records the first mapping; returns whether the model is ready (it took
/// the mapping and its checksum is not zero).
pub fn init(space: &mut AddressSpace) -> (r: bool)
    requires old(space).wf(),
    ensures
        final(space).wf(),
        r ==> exists|i: int| 0 <= i < MAPPING_SLOTS && final(space).mappings@[i] == Some(first_mapping()),
        final(space).roots@ == old(space).roots@,
        final(space).entry == old(space).entry && final(space).stack_top == old(space).stack_top,
        (exists|i: int| 0 <= i < MAPPING_SLOTS && #[trigger] old(space).mappings@[i] is None) ==>
            exists|i: int| 0 <= i < MAPPING_SLOTS && old(space).mappings@[i] is None
                && (forall|j: int| 0 <= j < i ==> #[trigger] old(space).mappings@[j] is Some)
                && final(space).mappings@ == old(space).mappings@.update(i, Some(first_mapping())),
        !(exists|i: int| 0 <= i < MAPPING_SLOTS && #[trigger] old(space).mappings@[i] is None) ==>
            final(space).mappings@ == old(space).mappings@,
        r == ((exists|i: int| 0 <= i < MAPPING_SLOTS && #[trigger] old(space).mappings@[i] is None)
            && final(space).token() != 0),
{
    let flags = MappingFlags::read().union(MappingFlags::write()).union(MappingFlags::execute()).union(MappingFlags::user());
    assert(1u64 | 2 | 4 | 8 == 15) by (bit_vector);
    let mapping = Mapping { virt: 0x4000_0000, phys: 0, len: 0x1000, flags };
    assert(mapping == first_mapping());
    let mapped = space.map(mapping);
    proof {
        if mapped {
            let i = choose|i: int| 0 <= i < MAPPING_SLOTS && old(space).mappings@[i] is None
                && (forall|j: int| 0 <= j < i ==> #[trigger] old(space).mappings@[j] is Some)
                && space.mappings@ == old(space).mappings@.update(i, Some(mapping));
            assert(space.mappings@[i] == Some(first_mapping()));
        }
    }
    mapped && space.validation_token() != 0
}

/// Installs the page-table roots of all task slots.
pub fn install_page_table_roots(space: &mut AddressSpace, roots: Vec<Option<PageTableRoot>>)
    requires old(space).wf(), roots@.len() == USER_TASKS,
    ensures final(space).wf(), final(space).roots@ == roots@,
{
    space.install_roots(roots);
    let _ = user_selectors();
}

/// The frame that starts a program at `entry` with stack `stack_top` in
/// ring 3, interrupts enabled.
pub fn new_task_frame(abi: UserAbi, entry: u64, stack_top: u64) -> (r: TrapFrame)
    ensures
        r == (TrapFrame { rip: entry, cs: USER_CODE_SELECTOR as u64, rflags: 0x202, rsp: stack_top,
            ss: USER_DATA_SELECTOR as u64, ..empty_frame() }),
{
    let (code, data) = user_selectors();
    let mut frame = TrapFrame::empty();
    frame.rip = entry;
    frame.cs = code as u64;
    frame.rflags = 0x202;
    frame.rsp = stack_top;
    frame.ss = data as u64;
    frame
}

/// `value` rounded down to a multiple of the power of two `align`.
pub open spec fn spec_align_down(value: int, align: int) -> int {
    value - value % align
}

/// `value` rounded down to a multiple of the power of two `align`.
pub fn align_down(value: usize, align: usize) -> (r: usize)
    requires align > 0,
    ensures r == spec_align_down(value as int, align as int),
{
    assert(value % align <= value) by (nonlinear_arith) requires align > 0;
    value - value % align
}

/// Whether `image` starts with a 64-bit little-endian x86-64 executable
/// ELF header whose program headers are at least 56 bytes each.
pub open spec fn elf_header_ok(image: Seq<u8>) -> bool {
    &&& image.len() >= 64
    &&& image[0] == 0x7f && image[1] == 0x45 && image[2] == 0x4c && image[3] == 0x46
    &&& image[4] == 2 && image[5] == 1
    &&& le16(image, 16) == 2
    &&& le16(image, 18) == 0x3e
    &&& le16(image, 54) >= 56
}

/// The PT_LOAD segments of `image`, from program header `index` on, each
/// as its virtual address, file bytes and size in memory; `None` when a
/// program header, or the file bytes of a segment, lie outside the file.
pub open spec fn elf_segments(image: Seq<u8>, index: int) -> Option<Seq<(u64, Seq<u8>, usize)>>
    decreases le16(image, 56) - index,
{
    let phoff = le64(image, 32) as u64 as usize as int;
    let phentsize = le16(image, 54);
    if index < 0 || index >= le16(image, 56) {
        Some(Seq::empty())
    } else {
        let offset = phoff + index * phentsize;
        if offset + phentsize > image.len() {
            None
        } else if le32(image, offset) != 1 {
            elf_segments(image, index + 1)
        } else {
            let file_offset = le64(image, offset + 8) as u64 as usize as int;
            let file_size = le64(image, offset + 32) as u64 as usize as int;
            if file_offset + file_size > image.len() {
                None
            } else {
                match elf_segments(image, index + 1) {
                    Some(rest) => Some(seq![(le64(image, offset + 16) as u64, image.subrange(file_offset, file_offset + file_size),
                        le64(image, offset + 40) as u64 as usize)] + rest),
                    None => None,
                }
            }
        }
    }
}

/// Whether one of `segs` cannot be loaded into task `task`'s image.
pub open spec fn bad_segment(task: usize, segs: Seq<(u64, Seq<u8>, usize)>) -> bool {
    exists|j: int| 0 <= j < segs.len() && !segment_ok(task, #[trigger] segs[j].0, segs[j].1.len(), segs[j].2)
}

/// What loading `segs` stores, in order: each segment's file bytes, then
/// zeros up to its size in memory.
pub open spec fn segment_bytes(segs: Seq<(u64, Seq<u8>, usize)>) -> Seq<u8>
    decreases segs.len(),
{
    if segs.len() == 0 {
        Seq::empty()
    } else {
        let s = segs.last();
        segment_bytes(segs.drop_last()) + s.1 + Seq::new((s.2 - s.1.len()) as nat, |i: int| 0u8)
    }
}

/// Loads the PT_LOAD segments of the ELF `image` into task `task`'s image
/// and returns its entry point. Fails on a bad header, a program header or
/// segment outside the file, or a segment that cannot be loaded.
pub fn load_elf(mem: &mut UserMemory, task: usize, image: &[u8]) -> (r: Option<u64>)
    requires old(mem).wf(),
    ensures
        final(mem).wf(),
        final(mem).same_layout(&*old(mem)),
        !elf_header_ok(image@) ==> r is None && *final(mem) == *old(mem),
        elf_segments(image@, 0) is None ==> r is None,
        r matches Some(e) ==> elf_header_ok(image@) && e == le64(image@, 24),
        r is Some ==> (elf_segments(image@, 0) matches Some(segs) && {
            &&& forall|j: int| 0 <= j < segs.len() ==> segment_ok(task, #[trigger] segs[j].0, segs[j].1.len(), segs[j].2)
            &&& final(mem).pending@.subrange(0, old(mem).pending@.len() as int) == old(mem).pending@
            &&& write_bytes(write_ops(final(mem).pending@.skip(old(mem).pending@.len() as int))) == segment_bytes(segs)
        }),
        r is None ==> !elf_header_ok(image@) || elf_segments(image@, 0) is None
            || (elf_segments(image@, 0) matches Some(segs) && bad_segment(task, segs))
            || final(mem).free_frames@.len() == 0,
{
    if image.len() < 64 || image[0] != 0x7f || image[1] != 0x45 || image[2] != 0x4c || image[3] != 0x46 {
        return None;
    }
    if image[4] != 2 || image[5] != 1 || read_u16(image, 16).unwrap() != 2 {
        return None;
    }
    if read_u16(image, 18).unwrap() != 0x3e {
        return None;
    }
    let entry = read_u64(image, 24).unwrap();
    let phoff = read_u64(image, 32).unwrap() as usize;
    let phentsize = read_u16(image, 54).unwrap() as usize;
    let phnum = read_u16(image, 56).unwrap() as usize;
    if phentsize < 56 {
        return None;
    }
    let ghost start = mem.pending@.len() as int;
    let ghost mut done: Seq<(u64, Seq<u8>, usize)> = Seq::empty();
    proof {
        assert(mem.pending@.subrange(0, start) =~= old(mem).pending@);
        assert(mem.pending@.skip(start) =~= Seq::<FrameOp>::empty());
        assert(elf_segments(image@, 0) == match elf_segments(image@, 0) { Some(rest) => Some(done + rest), None => None }) by {
            if let Some(rest) = elf_segments(image@, 0) { assert(done + rest =~= rest); }
        }
    }
    let mut index: usize = 0;
    while index < phnum
        invariant
            mem.wf(), mem.same_layout(&*old(mem)), elf_header_ok(image@), entry == le64(image@, 24),
            phentsize >= 56, phentsize == le16(image@, 54), phnum == le16(image@, 56),
            phoff == le64(image@, 32) as u64 as usize,
            index <= phnum,
            start == old(mem).pending@.len(),
            mem.pending@.len() >= start,
            mem.pending@.subrange(0, start) == old(mem).pending@,
            elf_segments(image@, 0) == match elf_segments(image@, index as int) { Some(rest) => Some(done + rest), None => None },
            forall|j: int| 0 <= j < done.len() ==> segment_ok(task, #[trigger] done[j].0, done[j].1.len(), done[j].2),
            write_bytes(write_ops(mem.pending@.skip(start))) == segment_bytes(done),
        decreases phnum - index,
    {
        let n: usize = image.len();
        let ghost len = image@.len();
        assert(len == n);
        let step = match index.checked_mul(phentsize) {
            Some(v) => v,
            None => {
                proof {
                    assert(phoff + index * phentsize + phentsize > len) by (nonlinear_arith)
                        requires index * phentsize > usize::MAX, len <= usize::MAX, phoff >= 0, phentsize >= 0;
                }
                return None;
            },
        };
        let offset = match phoff.checked_add(step) { Some(v) => v, None => return None };
        let header_end = match offset.checked_add(phentsize) { Some(v) => v, None => return None };
        if header_end > image.len() {
            return None;
        }
        if read_u32(image, offset).unwrap() != 1 {
            index += 1;
            continue;
        }
        let file_offset = read_u64(image, offset + 8).unwrap() as usize;
        let virt = read_u64(image, offset + 16).unwrap();
        let file_size = read_u64(image, offset + 32).unwrap() as usize;
        let mem_size = read_u64(image, offset + 40).unwrap() as usize;
        let file_end = match file_offset.checked_add(file_size) { Some(v) => v, None => return None };
        if file_end > image.len() {
            return None;
        }
        let segment = slice_copy(image, file_offset, file_end);
        let ghost before = *mem;
        if !mem.copy_user_segment(task, virt, &segment, mem_size) {
            proof {
                let seg = (virt, segment@, mem_size);
                if !segment_ok(task, virt, segment@.len(), mem_size) {
                    if let Some(rest) = elf_segments(image@, index as int + 1) {
                        let segs = done + (seq![seg] + rest);
                        let j = done.len() as int;
                        assert(segs[j] == seg);
                        assert(elf_segments(image@, index as int) == Some(seq![seg] + rest));
                        assert(elf_segments(image@, 0) == Some(segs));
                        assert(!segment_ok(task, segs[j].0, segs[j].1.len(), segs[j].2));
                        assert(bad_segment(task, segs));
                    } else {
                        assert(elf_segments(image@, index as int) is None);
                        assert(elf_segments(image@, 0) is None);
                    }
                } else {
                    assert(mem.free_frames@.len() == 0);
                }
            }
            return None;
        }
        proof {
            let seg = (virt, segment@, mem_size);
            let p1 = before.pending@;
            let p2 = mem.pending@;
            assert(p2.skip(start) =~= p1.skip(start) + p2.skip(p1.len() as int));
            lemma_write_ops_concat(p1.skip(start), p2.skip(p1.len() as int));
            lemma_write_bytes_concat(write_ops(p1.skip(start)), write_ops(p2.skip(p1.len() as int)));
            assert(p2.subrange(0, start) =~= p1.subrange(0, start));
            let nd = done.push(seg);
            assert(nd.drop_last() =~= done);
            if let Some(rest) = elf_segments(image@, index as int + 1) {
                assert(done + (seq![seg] + rest) =~= nd + rest);
            }
            done = nd;
        }
        index += 1;
    }
    proof {
        assert(done + Seq::<(u64, Seq<u8>, usize)>::empty() =~= done);
    }
    Some(entry)
}

/// `s[from..to]`.
pub fn slice_copy(s: &[u8], from: usize, to: usize) -> (r: Vec<u8>)
    requires from <= to <= s@.len(),
    ensures r@ == s@.subrange(from as int, to as int),
{
    let mut out: Vec<u8> = Vec::new();
    let mut i = from;
    while i < to
        invariant from <= i <= to, to <= s@.len(), out@ == s@.subrange(from as int, i as int),
        decreases to - i,
    {
        out.push(s[i]);
        i += 1;
        proof { assert(out@ =~= s@.subrange(from as int, i as int)); }
    }
    out
}

/// `TERM=vt100` and `PATH=/`: the environment every Linux program gets.
pub open spec fn env_spec() -> Seq<Seq<u8>> {
    seq![seq![84u8, 69, 82, 77, 61, 118, 116, 49, 48, 48], seq![80u8, 65, 84, 72, 61, 47]]
}

/// The environment every Linux program gets.
fn environment() -> (r: Vec<Vec<u8>>)
    ensures r@.len() == 2, r@[0]@ == env_spec()[0], r@[1]@ == env_spec()[1],
{
    let term: Vec<u8> = vec![84u8, 69, 82, 77, 61, 118, 116, 49, 48, 48];
    let path: Vec<u8> = vec![80u8, 65, 84, 72, 61, 47];
    proof {
        assert(term@ =~= env_spec()[0]);
        assert(path@ =~= env_spec()[1]);
    }
    vec![term, path]
}

/// Places the first `n` of `strs` (each with a terminating zero) below
/// stack offset `cursor`, the last one highest, each start 8-byte aligned:
/// the offset below them, the offset of each, and the byte stores in the
/// order they are made; `None` when they do not fit.
pub open spec fn place_strings(strs: Seq<Seq<u8>>, n: int, cursor: int) -> Option<(int, Seq<int>, Seq<(int, u8)>)>
    decreases n,
{
    if n <= 0 {
        Some((cursor, Seq::empty(), Seq::empty()))
    } else {
        let need = strs[n - 1].len() + 1;
        if cursor - need < 0 {
            None
        } else {
            let c = spec_align_down(cursor - need, 8);
            match place_strings(strs, n - 1, c) {
                Some((low, offs, stores)) => Some((low, offs.push(c), bytes_at(c, strs[n - 1].push(0u8)) + stores)),
                None => None,
            }
        }
    }
}

/// The eight little-endian bytes of `v`.
pub open spec fn le_bytes_of(v: u64) -> Seq<u8> {
    Seq::new(8, |k: int| ((v >> (8 * k) as u64) & 0xff) as u8)
}

/// The stores of `words` at consecutive 8-byte slots from offset `at`.
pub open spec fn words_stores(words: Seq<u64>, at: int) -> Seq<(int, u8)>
    decreases words.len(),
{
    if words.len() == 0 {
        Seq::empty()
    } else {
        words_stores(words.drop_last(), at) + bytes_at(at + 8 * (words.len() - 1), le_bytes_of(words.last()))
    }
}

/// The sixteen bytes offered as `AT_RANDOM`.
pub open spec fn stack_random() -> Seq<u8> {
    seq![0x31u8, 0x41, 0x59, 0x26, 0x53, 0x58, 0x97, 0x93, 0x23, 0x84, 0x62, 0x64, 0x33, 0x83, 0x27, 0x95]
}

/// The auxiliary vector: page size, the user and group ids, secure mode,
/// where the random bytes are, and the end.
pub open spec fn auxv_spec(random_addr: u64) -> Seq<u64> {
    seq![6u64, 4096, 11, 0, 12, 0, 13, 0, 14, 0, 23, 0, 25, random_addr, 0, 0]
}

/// The words at the stack pointer: `argc`, the argument pointers, a zero,
/// the environment pointers, a zero, then the auxiliary vector.
pub open spec fn stack_words(argc: nat, argv_addrs: Seq<u64>, env_addrs: Seq<u64>, random_addr: u64) -> Seq<u64> {
    seq![argc as u64] + argv_addrs + seq![0u64] + env_addrs + seq![0u64] + auxv_spec(random_addr)
}

/// Stack addresses of stack offsets.
pub open spec fn stack_addrs(offs: Seq<int>) -> Seq<u64> {
    offs.map_values(|o: int| (USER_STACK_BASE + o) as u64)
}

/// The initial stack of a Linux program started with `argv`: its stack
/// pointer (as a stack offset) and the byte stores that build it, in order;
/// `None` when it does not fit.
pub open spec fn initial_stack(argv: Seq<Seq<u8>>) -> Option<(int, Seq<(int, u8)>)> {
    match place_strings(argv, argv.len() as int, USER_STACK_SIZE as int) {
        None => None,
        Some((c1, argv_offs, s1)) => match place_strings(env_spec(), 2, c1) {
            None => None,
            Some((c2, env_offs, s2)) => if c2 - 16 < 0 {
                None
            } else {
                let c3 = spec_align_down(c2 - 16, 16);
                let words = stack_words(argv.len(), stack_addrs(argv_offs), stack_addrs(env_offs), (USER_STACK_BASE + c3) as u64);
                if c3 - words.len() * 8 < 0 {
                    None
                } else {
                    let c4 = spec_align_down(c3 - words.len() * 8, 16);
                    Some((c4, s1 + s2 + bytes_at(c3, stack_random()) + words_stores(words, c4)))
                }
            },
        },
    }
}

/// Queued work `p2` that extends `p1` stores, from `from` on, what `p1`
/// stores from there and then what was added.
proof fn lemma_pending_split(p1: Seq<FrameOp>, p2: Seq<FrameOp>, from: int)
    requires
        0 <= from <= p1.len() <= p2.len(),
        p2.subrange(0, p1.len() as int) == p1,
    ensures
        write_ops(p2.skip(from)) == write_ops(p1.skip(from)) + write_ops(p2.skip(p1.len() as int)),
{
    assert(p2.skip(from) =~= p1.skip(from) + p2.skip(p1.len() as int));
    lemma_write_ops_concat(p1.skip(from), p2.skip(p1.len() as int));
}

/// The stores of two runs of bytes are those of each.
proof fn lemma_stack_stores_concat(m: UserMemory, index: int, a: Seq<(int, u8)>, b: Seq<(int, u8)>)
    ensures stack_stores(m, index, a + b) == stack_stores(m, index, a) + stack_stores(m, index, b),
{
    assert(stack_stores(m, index, a + b) =~= stack_stores(m, index, a) + stack_stores(m, index, b));
}

/// Stores to stack pages that already had frames go to the same frames
/// after more stack pages are mapped.
proof fn lemma_stack_stores_kept(m1: UserMemory, m2: UserMemory, index: int, stores: Seq<(int, u8)>)
    requires
        m2.maps_more(&m1, index, USER_STACK_FIRST_PAGE as int, USER_PAGES as int, PTE_NO_EXECUTE),
        forall|i: int| 0 <= i < stores.len() ==> 0 <= #[trigger] stores[i].0 < USER_STACK_SIZE
            && m1.frame(index, stack_page(stores[i].0)) != 0,
    ensures
        stack_stores(m2, index, stores) == stack_stores(m1, index, stores),
        forall|i: int| 0 <= i < stores.len() ==> m2.frame(index, stack_page(#[trigger] stores[i].0)) != 0,
{
    assert forall|i: int| 0 <= i < stores.len() implies
        m2.frame(index, stack_page(#[trigger] stores[i].0)) == m1.frame(index, stack_page(stores[i].0)) by {
        assert(USER_STACK_FIRST_PAGE <= stack_page(stores[i].0) < USER_PAGES);
    }
    assert(stack_stores(m2, index, stores) =~= stack_stores(m1, index, stores));
}

/// Stores `bytes` and a terminating zero at `cursor` of task `index`'s stack.
fn write_cstr(mem: &mut UserMemory, index: usize, cursor: usize, bytes: &[u8]) -> (r: bool)
    requires
        old(mem).wf(),
        index < USER_TASKS,
        cursor + bytes@.len() + 1 <= USER_STACK_SIZE,
    ensures
        final(mem).wf(), final(mem).same_layout(&*old(mem)),
        final(mem).maps_more(&*old(mem), index as int, USER_STACK_FIRST_PAGE as int, USER_PAGES as int, PTE_NO_EXECUTE),
        r ==> write_ops(final(mem).pending@.skip(old(mem).pending@.len() as int))
            == stack_stores(*final(mem), index as int, bytes_at(cursor as int, bytes@.push(0u8))),
        r ==> forall|j: int| 0 <= j < bytes@.len() + 1 ==> #[trigger] final(mem).frame(index as int, stack_page(cursor + j)) != 0,
        !r ==> final(mem).free_frames@.len() == 0,
{
    let ghost m0 = *mem;
    if !mem.write_user_stack(index, cursor, bytes) {
        return false;
    }
    let ghost m1 = *mem;
    let end = cursor + bytes.len();
    let zero: [u8; 1] = [0u8];
    let ok = mem.write_user_stack(index, end, &zero);
    proof {
        lemma_maps_more_chain(m0, m1, *mem, index as int, USER_STACK_FIRST_PAGE as int, USER_PAGES as int, PTE_NO_EXECUTE);
        if ok {
            let a = bytes_at(cursor as int, bytes@);
            let b = bytes_at(end as int, zero@);
            assert forall|i: int| 0 <= i < a.len() implies 0 <= #[trigger] a[i].0 < USER_STACK_SIZE
                && m1.frame(index as int, stack_page(a[i].0)) != 0 by {
                assert(m1.frame(index as int, stack_page(cursor + i)) != 0);
            }
            lemma_stack_stores_kept(m1, *mem, index as int, a);
            lemma_pending_split(m1.pending@, mem.pending@, m0.pending@.len() as int);
            lemma_stack_stores_concat(*mem, index as int, a, b);
            assert(a + b =~= bytes_at(cursor as int, bytes@.push(0u8)));
            assert forall|j: int| 0 <= j < bytes@.len() + 1 implies #[trigger] mem.frame(index as int, stack_page(cursor + j)) != 0 by {
                if j < bytes@.len() {
                    assert(a[j].0 == cursor + j);
                } else {
                    assert(mem.frame(index as int, stack_page(end + 0)) != 0);
                }
            }
        }
    }
    ok
}

/// Builds a fresh Linux initial stack for task `index`: the argument and
/// environment strings, sixteen random bytes, then `argc`, the argument and
/// environment pointers and the auxiliary vector (page size, user and group
/// ids, secure mode, the random bytes). Returns the stack pointer, 16-byte
/// aligned within the stack; `None` for more than eight arguments, strings
/// that do not fit, or when stack pages cannot be mapped.
pub fn linux_stack_top(mem: &mut UserMemory, index: usize, argv: &[Vec<u8>]) -> (r: Option<u64>)
    requires old(mem).wf(),
    ensures
        final(mem).wf(),
        final(mem).same_layout(&*old(mem)),
        argv@.len() > 8 || index >= USER_TASKS ==> r is None,
        r matches Some(sp) ==> sp % 16 == 0 && USER_STACK_BASE <= sp < USER_STACK_BASE + USER_STACK_SIZE,
        initial_stack(argv@.map_values(|a: Vec<u8>| a@)) is None ==> r is None,
        r is None ==> argv@.len() > 8 || index >= USER_TASKS || initial_stack(argv@.map_values(|a: Vec<u8>| a@)) is None
            || final(mem).free_frames@.len() == 0,
        r matches Some(sp) ==> (initial_stack(argv@.map_values(|a: Vec<u8>| a@)) matches Some((c, stores)) && {
            &&& sp == USER_STACK_BASE + c
            &&& exists|from: int| old(mem).pending@.len() <= from <= final(mem).pending@.len()
                && #[trigger] write_ops(final(mem).pending@.skip(from)) == stack_stores(*final(mem), index as int, stores)
        }),
{
    let ghost args = argv@.map_values(|a: Vec<u8>| a@);
    let stack_base = user_stack_top(index) - USER_STACK_SIZE as u64;
    let env = environment();
    if !mem.clear_user_stack(index) {
        return None;
    }
    if argv.len() > 8 {
        return None;
    }
    let ghost mc = *mem;
    let ghost from = mem.pending@.len() as int;
    let ghost mut done_offs: Seq<int> = Seq::empty();
    let ghost mut stores: Seq<(int, u8)> = Seq::empty();
    proof {
        assert(mem.pending@.skip(from) =~= Seq::<FrameOp>::empty());
        assert(stack_stores(*mem, index as int, stores) =~= Seq::<(u64, usize, Seq<u8>)>::empty());
        assert(mem.maps_more(&mc, index as int, USER_STACK_FIRST_PAGE as int, USER_PAGES as int, PTE_NO_EXECUTE)) by {
            assert(mem.pending@.subrange(0, mc.pending@.len() as int) =~= mc.pending@);
        }
        if let Some((c, offs, st)) = place_strings(args, argv@.len() as int, USER_STACK_SIZE as int) {
            assert(offs + done_offs =~= offs);
            assert(stores + st =~= st);
        }
    }
    let mut cursor: usize = USER_STACK_SIZE;
    let mut argv_addrs: Vec<u64> = vec![0u64; 8];
    let mut i = argv.len();
    while i > 0
        invariant
            mem.wf(), mem.same_layout(&*old(mem)), cursor <= USER_STACK_SIZE, argv_addrs@.len() == 8,
            i <= argv@.len(), argv@.len() <= 8, stack_base == USER_STACK_BASE, index < USER_TASKS,
            args == argv@.map_values(|a: Vec<u8>| a@),
            mem.maps_more(&mc, index as int, USER_STACK_FIRST_PAGE as int, USER_PAGES as int, PTE_NO_EXECUTE),
            from == mc.pending@.len(), mc.pending@.len() >= old(mem).pending@.len(),
            done_offs.len() == argv@.len() - i,
            forall|j: int| i <= j < argv@.len() ==> argv_addrs@[j] == (USER_STACK_BASE + done_offs[j - i]) as u64,
            place_strings(args, argv@.len() as int, USER_STACK_SIZE as int) == match place_strings(args, i as int, cursor as int) {
                Some((c, offs, st)) => Some((c, offs + done_offs, stores + st)),
                None => None,
            },
            forall|k: int| 0 <= k < stores.len() ==> 0 <= #[trigger] stores[k].0 < USER_STACK_SIZE
                && mem.frame(index as int, stack_page(stores[k].0)) != 0,
            write_ops(mem.pending@.skip(from)) == stack_stores(*mem, index as int, stores),
        decreases i,
    {
        i -= 1;
        let arg = &argv[i];
        assert(args[i as int] == arg@);
        let need = match arg.len().checked_add(1) { Some(n) => n, None => return None };
        let below = match cursor.checked_sub(need) { Some(c) => c, None => return None };
        let ghost prev = cursor;
        cursor = align_down(below, 8);
        argv_addrs.set(i, stack_base + cursor as u64);
        let ghost m1 = *mem;
        if !write_cstr(mem, index, cursor, arg.as_slice()) {
            return None;
        }
        proof {
            let new_stores = bytes_at(cursor as int, arg@.push(0u8));
            assert(args[i as int] == arg@);
            lemma_stack_stores_kept(m1, *mem, index as int, stores);
            lemma_maps_more_chain(mc, m1, *mem, index as int, USER_STACK_FIRST_PAGE as int, USER_PAGES as int, PTE_NO_EXECUTE);
            lemma_pending_split(m1.pending@, mem.pending@, from);
            lemma_stack_stores_concat(*mem, index as int, stores, new_stores);
            assert forall|k: int| 0 <= k < new_stores.len() implies 0 <= #[trigger] new_stores[k].0 < USER_STACK_SIZE
                && mem.frame(index as int, stack_page(new_stores[k].0)) != 0 by {
                assert(mem.frame(index as int, stack_page(cursor + k)) != 0);
            }
            if let Some((c, offs, st)) = place_strings(args, i as int, cursor as int) {
                assert(offs.push(cursor as int) + done_offs =~= offs + (seq![cursor as int] + done_offs));
                assert(stores + (new_stores + st) =~= (stores + new_stores) + st);
            }
            done_offs = seq![cursor as int] + done_offs;
            stores = stores + new_stores;
        }
    }
    let ghost argv_offs = done_offs;
    let ghost c1 = cursor as int;
    let ghost s1 = stores;
    proof {
        assert(place_strings(args, argv@.len() as int, USER_STACK_SIZE as int) == Some((c1, argv_offs, s1))) by {
            assert(argv_offs =~= Seq::<int>::empty() + done_offs);
            assert(s1 =~= stores + Seq::<(int, u8)>::empty());
        }
        done_offs = Seq::empty();
        if let Some((c, offs, st)) = place_strings(env_spec(), 2, cursor as int) {
            assert(offs + done_offs =~= offs);
            assert(stores + st =~= stores + st);
        }
    }
    let mut env_addrs: Vec<u64> = vec![0u64; 2];
    let mut e: usize = 2;
    while e > 0
        invariant
            mem.wf(), mem.same_layout(&*old(mem)), cursor <= USER_STACK_SIZE, env_addrs@.len() == 2,
            env@.len() == 2, env@[0]@ == env_spec()[0], env@[1]@ == env_spec()[1],
            e <= 2, stack_base == USER_STACK_BASE, index < USER_TASKS,
            args == argv@.map_values(|a: Vec<u8>| a@), argv@.len() <= 8,
            place_strings(args, argv@.len() as int, USER_STACK_SIZE as int) == Some((c1, argv_offs, s1)),
            mem.maps_more(&mc, index as int, USER_STACK_FIRST_PAGE as int, USER_PAGES as int, PTE_NO_EXECUTE),
            from == mc.pending@.len(), mc.pending@.len() >= old(mem).pending@.len(),
            done_offs.len() == 2 - e,
            forall|j: int| e <= j < 2 ==> env_addrs@[j] == (USER_STACK_BASE + done_offs[j - e]) as u64,
            place_strings(env_spec(), 2, c1) == match place_strings(env_spec(), e as int, cursor as int) {
                Some((c, offs, st)) => Some((c, offs + done_offs, stores.subrange(s1.len() as int, stores.len() as int) + st)),
                None => None,
            },
            s1.len() <= stores.len(), stores.subrange(0, s1.len() as int) == s1,
            forall|k: int| 0 <= k < stores.len() ==> 0 <= #[trigger] stores[k].0 < USER_STACK_SIZE
                && mem.frame(index as int, stack_page(stores[k].0)) != 0,
            write_ops(mem.pending@.skip(from)) == stack_stores(*mem, index as int, stores),
        decreases e,
    {
        e -= 1;
        let value = &env[e];
        assert(env_spec()[e as int] == value@);
        let need = match value.len().checked_add(1) { Some(n) => n, None => return None };
        let below = match cursor.checked_sub(need) { Some(c) => c, None => return None };
        cursor = align_down(below, 8);
        env_addrs.set(e, stack_base + cursor as u64);
        let ghost m1 = *mem;
        if !write_cstr(mem, index, cursor, value.as_slice()) {
            return None;
        }
        proof {
            let new_stores = bytes_at(cursor as int, value@.push(0u8));
            assert(env_spec()[e as int] == value@);
            lemma_stack_stores_kept(m1, *mem, index as int, stores);
            lemma_maps_more_chain(mc, m1, *mem, index as int, USER_STACK_FIRST_PAGE as int, USER_PAGES as int, PTE_NO_EXECUTE);
            lemma_pending_split(m1.pending@, mem.pending@, from);
            lemma_stack_stores_concat(*mem, index as int, stores, new_stores);
            assert forall|k: int| 0 <= k < new_stores.len() implies 0 <= #[trigger] new_stores[k].0 < USER_STACK_SIZE
                && mem.frame(index as int, stack_page(new_stores[k].0)) != 0 by {
                assert(mem.frame(index as int, stack_page(cursor + k)) != 0);
            }
            let ns = stores + new_stores;
            assert(ns.subrange(0, s1.len() as int) =~= s1);
            assert(ns.subrange(s1.len() as int, ns.len() as int) =~= stores.subrange(s1.len() as int, stores.len() as int) + new_stores);
            if let Some((c, offs, st)) = place_strings(env_spec(), e as int, cursor as int) {
                assert(offs.push(cursor as int) + done_offs =~= offs + (seq![cursor as int] + done_offs));
                assert(stores.subrange(s1.len() as int, stores.len() as int) + (new_stores + st)
                    =~= ns.subrange(s1.len() as int, ns.len() as int) + st);
            }
            done_offs = seq![cursor as int] + done_offs;
            stores = ns;
        }
    }
    let ghost env_offs = done_offs;
    let ghost c2 = cursor as int;
    let ghost s2 = stores.subrange(s1.len() as int, stores.len() as int);
    proof {
        assert(place_strings(env_spec(), 2, c1) == Some((c2, env_offs, s2))) by {
            assert(env_offs =~= Seq::<int>::empty() + done_offs);
            assert(s2 =~= s2 + Seq::<(int, u8)>::empty());
        }
        assert(stores =~= s1 + s2);
    }
    let below = match cursor.checked_sub(16) { Some(c) => c, None => return None };
    cursor = align_down(below, 16);
    let random_addr = stack_base + cursor as u64;
    let random: [u8; 16] = [0x31, 0x41, 0x59, 0x26, 0x53, 0x58, 0x97, 0x93, 0x23, 0x84, 0x62, 0x64, 0x33, 0x83, 0x27, 0x95];
    let ghost m2 = *mem;
    if !mem.write_user_stack(index, cursor, &random) {
        return None;
    }
    let ghost c3 = cursor as int;
    proof {
        let new_stores = bytes_at(cursor as int, random@);
        assert(random@ =~= stack_random());
        lemma_stack_stores_kept(m2, *mem, index as int, stores);
        lemma_maps_more_chain(mc, m2, *mem, index as int, USER_STACK_FIRST_PAGE as int, USER_PAGES as int, PTE_NO_EXECUTE);
        lemma_pending_split(m2.pending@, mem.pending@, from);
        lemma_stack_stores_concat(*mem, index as int, stores, new_stores);
        assert forall|k: int| 0 <= k < new_stores.len() implies 0 <= #[trigger] new_stores[k].0 < USER_STACK_SIZE
            && mem.frame(index as int, stack_page(new_stores[k].0)) != 0 by {
            assert(mem.frame(index as int, stack_page(cursor + k)) != 0);
        }
        stores = stores + new_stores;
    }
    let mut words: Vec<u64> = Vec::new();
    words.push(argv.len() as u64);
    let mut a: usize = 0;
    while a < argv.len()
        invariant
            a <= argv@.len(), argv@.len() <= 8, argv_addrs@.len() == 8,
            words@ == seq![argv@.len() as u64] + argv_addrs@.take(a as int),
        decreases argv@.len() - a,
    {
        words.push(argv_addrs[a]);
        a += 1;
        proof { assert(words@ =~= seq![argv@.len() as u64] + argv_addrs@.take(a as int)); }
    }
    words.push(0);
    words.push(env_addrs[0]);
    words.push(env_addrs[1]);
    words.push(0);
    let auxv: [u64; 16] = [6, 4096, 11, 0, 12, 0, 13, 0, 14, 0, 23, 0, 25, random_addr, 0, 0];
    let ghost head = words@;
    let mut k: usize = 0;
    while k < 16
        invariant k <= 16, words@ == head + auxv@.take(k as int), head.len() == argv@.len() + 5, argv@.len() <= 8,
        decreases 16 - k,
    {
        words.push(auxv[k]);
        k += 1;
        proof { assert(words@ =~= head + auxv@.take(k as int)); }
    }
    proof {
        assert(argv_addrs@.take(argv@.len() as int) =~= stack_addrs(argv_offs));
        assert(env_addrs@ =~= stack_addrs(env_offs));
        assert(auxv@.take(16) =~= auxv_spec((USER_STACK_BASE + c3) as u64));
        assert(words@ =~= stack_words(args.len(), stack_addrs(argv_offs), stack_addrs(env_offs), (USER_STACK_BASE + c3) as u64));
    }
    let below = match cursor.checked_sub(words.len() * 8) { Some(c) => c, None => return None };
    cursor = align_down(below, 16);
    let ghost s3 = stores;
    let mut w: usize = 0;
    while w < words.len()
        invariant
            mem.wf(), mem.same_layout(&*old(mem)), cursor <= USER_STACK_SIZE, cursor % 16 == 0,
            words@.len() <= 29, stack_base == USER_STACK_BASE, index < USER_TASKS,
            cursor + words@.len() * 8 <= c3, w <= words@.len(), c3 <= USER_STACK_SIZE, words@.len() >= 21,
            mem.maps_more(&mc, index as int, USER_STACK_FIRST_PAGE as int, USER_PAGES as int, PTE_NO_EXECUTE),
            from == mc.pending@.len(), mc.pending@.len() >= old(mem).pending@.len(),
            stores == s3 + words_stores(words@.take(w as int), cursor as int),
            forall|k: int| 0 <= k < stores.len() ==> 0 <= #[trigger] stores[k].0 < USER_STACK_SIZE
                && mem.frame(index as int, stack_page(stores[k].0)) != 0,
            write_ops(mem.pending@.skip(from)) == stack_stores(*mem, index as int, stores),
        decreases words@.len() - w,
    {
        let bytes = u64_le_bytes(words[w]);
        let ghost m3 = *mem;
        assert(w * 8 + 8 <= words@.len() * 8) by (nonlinear_arith) requires w < words@.len();
        if !mem.write_user_stack(index, cursor + w * 8, &bytes) {
            return None;
        }
        proof {
            let new_stores = bytes_at(cursor + w * 8, bytes@);
            assert(bytes@ =~= le_bytes_of(words@[w as int]));
            lemma_stack_stores_kept(m3, *mem, index as int, stores);
            lemma_maps_more_chain(mc, m3, *mem, index as int, USER_STACK_FIRST_PAGE as int, USER_PAGES as int, PTE_NO_EXECUTE);
            lemma_pending_split(m3.pending@, mem.pending@, from);
            lemma_stack_stores_concat(*mem, index as int, stores, new_stores);
            assert forall|q: int| 0 <= q < new_stores.len() implies 0 <= #[trigger] new_stores[q].0 < USER_STACK_SIZE
                && mem.frame(index as int, stack_page(new_stores[q].0)) != 0 by {
                assert(mem.frame(index as int, stack_page(cursor + w * 8 + q)) != 0);
            }
            let t = words@.take(w as int + 1);
            assert(t.drop_last() =~= words@.take(w as int));
            assert(t.last() == words@[w as int]);
            assert(words_stores(t, cursor as int) == words_stores(words@.take(w as int), cursor as int) + new_stores);
            stores = stores + new_stores;
            assert(stores =~= s3 + words_stores(t, cursor as int));
        }
        w += 1;
    }
    if cursor >= USER_STACK_SIZE {
        return None;
    }
    proof {
        assert(words@.take(words@.len() as int) =~= words@);
        assert(write_ops(mem.pending@.skip(from)) == stack_stores(*mem, index as int, stores));
    }
    Some(stack_base + cursor as u64)
}

/// The eight little-endian bytes of `v`.
pub fn u64_le_bytes(v: u64) -> (r: [u8; 8])
    ensures forall|k: int| 0 <= k < 8 ==> #[trigger] r@[k] == ((v >> (8 * k) as u64) & 0xff) as u8,
{
    let r = [(v & 0xff) as u8, ((v >> 8) & 0xff) as u8, ((v >> 16) & 0xff) as u8, ((v >> 24) & 0xff) as u8,
        ((v >> 32) & 0xff) as u8, ((v >> 40) & 0xff) as u8, ((v >> 48) & 0xff) as u8, ((v >> 56) & 0xff) as u8];
    proof {
        assert forall|k: int| 0 <= k < 8 implies #[trigger] r@[k] == ((v >> (8 * k) as u64) & 0xff) as u8 by {
            if k == 0 { assert(v >> 0u64 == v) by (bit_vector); }
        }
    }
    r
}

/// Why starting `image` in task `index` cannot succeed whatever memory is
/// free: no such task, a bad ELF header, segments that cannot be loaded,
/// or (for a Linux program) an initial stack that does not fit.
pub open spec fn exec_refused(index: usize, abi: UserAbi, image: Seq<u8>, argv: Seq<Seq<u8>>) -> bool {
    ||| index >= USER_TASKS
    ||| !elf_header_ok(image)
    ||| elf_segments(image, 0) is None
    ||| (elf_segments(image, 0) matches Some(segs) && bad_segment(index, segs))
    ||| (abi is Linux && (argv.len() > 8 || initial_stack(argv) is None))
}

/// Replaces the program of task `index` with the ELF `image`: its memory
/// is cleared, the image loaded, a stack made (from `argv` for Linux
/// programs), and the task restarted at the entry point as `task_name`
/// (`frame` becomes the new frame).
pub fn exec_image(mem: &mut UserMemory, sched: &mut UserScheduler, index: usize, task_name: &'static str,
    abi: UserAbi, image: &[u8], argv: &[Vec<u8>], frame: &mut TrapFrame) -> (r: bool)
    requires old(mem).wf(), old(sched).wf(),
    ensures
        final(mem).wf(), final(sched).wf(),
        final(mem).same_layout(&*old(mem)),
        !r ==> *final(frame) == *old(frame),
        r ==> final(frame).cs == USER_CODE_SELECTOR as u64 && final(frame).ss == USER_DATA_SELECTOR as u64
            && final(frame).rflags == 0x202,
        r ==> elf_header_ok(image@) && elf_segments(image@, 0) is Some && final(frame).rip == le64(image@, 24),
        r && abi is Native ==> final(frame).rsp == USER_STACK_BASE + USER_STACK_SIZE,
        r && abi is Linux ==> (initial_stack(argv@.map_values(|a: Vec<u8>| a@)) matches Some((c, stores))
            && final(frame).rsp == USER_STACK_BASE + c),
        !r ==> *final(sched) == *old(sched),
        !r ==> exec_refused(index, abi, image@, argv@.map_values(|a: Vec<u8>| a@)) || final(mem).free_frames@.len() == 0,
        r && old(sched).initialized && index < old(sched).installed ==> {
            let t = final(sched).slot(index as int);
            &&& t.abi == abi
            &&& t.name == task_name
            &&& t.initial_frame == *final(frame)
            &&& t.pid == old(sched).slot(index as int).pid
        },
{
    if !mem.clear_user_image(index) {
        return false;
    }
    let entry = match load_elf(mem, index, image) { Some(e) => e, None => return false };
    let stack_top = match abi {
        UserAbi::Linux => match linux_stack_top(mem, index, argv) { Some(s) => s, None => return false },
        UserAbi::Native => user_stack_top(index),
    };
    let new_frame = new_task_frame(abi, entry, stack_top);
    sched.replace_frame(index, task_name, abi, new_frame);
    *frame = new_frame;
    true
}

/// `execve` of a Linux program from the boot volume in task `index`: its
/// image is replaced, the ELF loaded, a stack built from `argv`, and the
/// task restarted at the entry point (`frame` becomes the new frame).
pub fn exec_linux_elf(mem: &mut UserMemory, sched: &mut UserScheduler, disk: &Disk, index: usize, task_name: &'static str,
    fat_name: &[u8; 11], argv: &[Vec<u8>], frame: &mut TrapFrame) -> (r: bool)
    requires old(mem).wf(), old(sched).wf(),
    ensures
        final(mem).wf(), final(sched).wf(),
        final(mem).same_layout(&*old(mem)),
        !r ==> *final(frame) == *old(frame),
        r ==> final(frame).cs == USER_CODE_SELECTOR as u64 && final(frame).ss == USER_DATA_SELECTOR as u64
            && final(frame).rflags == 0x202,
        r ==> (fat32::file_spec(disk@, fat_name@) matches Some(image) && elf_header_ok(image)
            && final(frame).rip == le64(image, 24)),
        !r ==> match fat32::file_spec(disk@, fat_name@) {
            None => *final(mem) == *old(mem) && *final(sched) == *old(sched),
            Some(image) => exec_refused(index, UserAbi::Linux, image, argv@.map_values(|a: Vec<u8>| a@))
                || final(mem).free_frames@.len() == 0,
        },
{
    let image = match fat32::read_file(disk, fat_name) { Some(i) => i, None => return false };
    exec_image(mem, sched, index, task_name, UserAbi::Linux, &image, argv, frame)
}

/// Installs the program `fat_name` from the boot volume in task slot
/// `index`; Linux programs get an initial stack with their standard
/// arguments. Returns whether it was installed.
pub fn install_user_elf(mem: &mut UserMemory, sched: &mut UserScheduler, space: &mut AddressSpace, disk: &Disk,
    index: usize, name: &'static str, abi: UserAbi, fat_name: &[u8; 11]) -> (r: bool)
    requires old(mem).wf(), old(sched).wf(), old(space).wf(),
    ensures
        final(mem).wf(), final(sched).wf(), final(space).wf(), final(mem).same_layout(&*old(mem)),
        final(space).roots@ == old(space).roots@,
        final(space).mappings@ == old(space).mappings@,
        fat32::file_spec(disk@, fat_name@) is None ==> !r && *final(mem) == *old(mem) && *final(sched) == *old(sched)
            && *final(space) == *old(space),
        !old(sched).initialized ==> *final(sched) == *old(sched),
        !r ==> *final(sched) == *old(sched),
        final(sched).initialized == old(sched).initialized,
        final(sched).installed >= old(sched).installed,
        r && old(sched).initialized ==> final(sched).installed > index,
        final(sched).tasks@.len() == old(sched).tasks@.len(),
        forall|j: int| 0 <= j < old(sched).tasks@.len() && j != index ==> #[trigger] final(sched).tasks@[j] == old(sched).tasks@[j],
        !r ==> match fat32::file_spec(disk@, fat_name@) {
            None => true,
            Some(image) => exec_refused(index, UserAbi::Native, image, Seq::empty())
                || old(space).roots@[index as int] is None || final(mem).free_frames@.len() == 0,
        },
        r ==> (fat32::file_spec(disk@, fat_name@) matches Some(image) && {
            &&& elf_header_ok(image)
            &&& index < USER_TASKS
            &&& old(space).roots@[index as int] is Some
            &&& final(space).entry == le64(image, 24)
            &&& abi is Native ==> final(space).stack_top == USER_STACK_BASE + USER_STACK_SIZE
            &&& old(sched).initialized ==> {
                let t = final(sched).slot(index as int);
                &&& t.name == name && t.abi == abi && t.active
                &&& t.pml4_phys == old(space).roots@[index as int].unwrap().pml4_phys
                &&& t.initial_frame == t.frame
                &&& t.frame.rip == le64(image, 24) && t.frame.rsp == final(space).stack_top
                &&& t.frame.rflags == 0x202
            }
        }),
{
    let image = match fat32::read_file(disk, fat_name) { Some(i) => i, None => return false };
    if !mem.clear_user_image(index) {
        return false;
    }
    let entry = match load_elf(mem, index, &image) { Some(e) => e, None => return false };
    let stack_top = match abi {
        UserAbi::Linux => {
            let name_bytes: Vec<u8> = slice_copy(name.as_bytes(), 0, name.as_bytes().len());
            let args: Vec<Vec<u8>> = vec![
                name_bytes,
                vec![45u8, 45, 110, 111, 112, 114, 111, 102, 105, 108, 101],
                vec![45u8, 45, 110, 111, 114, 99],
                vec![45u8, 105],
            ];
            match linux_stack_top(mem, index, &args) { Some(s) => s, None => user_stack_top(index) }
        },
        UserAbi::Native => user_stack_top(index),
    };
    space.install_task(entry, stack_top);
    match space.root(index) {
        Some(root) => {
            let frame = new_task_frame(abi, entry, stack_top);
            sched.install(index, name, abi, root.pml4_phys(), frame);
            true
        },
        None => false,
    }
}

/// The 8.3 name of bash on the boot volume.
pub open spec fn bash_file() -> Seq<u8> {
    seq![66u8, 65, 83, 72, 32, 32, 32, 32, 69, 76, 70]
}

/// Installs the boot programs: the GUI in slot 0, bash (or the native
/// shell when bash is missing) in slot 1, the task viewer in slot 2 and
/// `cat` in slot 3. Returns whether bash was installed.
#[verifier::rlimit(60)]
#[verifier::spinoff_prover]
pub fn install_first_task(mem: &mut UserMemory, sched: &mut UserScheduler, space: &mut AddressSpace, disk: &Disk) -> (r: bool)
    requires old(mem).wf(), old(sched).wf(), old(space).wf(),
    ensures
        final(mem).wf(), final(sched).wf(), final(space).wf(),
        final(space).roots@ == old(space).roots@,
        fat32::file_spec(disk@, bash_file()) is None ==> !r,
        r ==> (fat32::file_spec(disk@, bash_file()) matches Some(image) && elf_header_ok(image)),
        r && old(sched).initialized ==> final(sched).slot(1).name == "bash" && final(sched).slot(1).abi == UserAbi::Linux
            && final(sched).slot(1).active,
        old(sched).initialized ==> {
            let t = *final(sched);
            &&& t.slot(0) == old(sched).slot(0) || (t.slot(0).name == "gui" && t.slot(0).abi == UserAbi::Native && t.slot(0).active)
            &&& t.slot(1) == old(sched).slot(1)
                || (t.slot(1).name == "bash" && t.slot(1).abi == UserAbi::Linux && t.slot(1).active)
                || (!r && t.slot(1).name == "terminal" && t.slot(1).abi == UserAbi::Native && t.slot(1).active)
            &&& t.slot(2) == old(sched).slot(2)
                || (t.slot(2).name == "taskviewer" && t.slot(2).abi == UserAbi::Native && t.slot(2).active)
            &&& t.slot(3) == old(sched).slot(3) || t.slot(3) == (UserTask { active: false, ..old(sched).slot(3) })
                || (t.slot(3).name == "cat" && t.slot(3).abi == UserAbi::Linux && !t.slot(3).active)
            &&& 3 < t.installed ==> !t.slot(3).active
        },
        !old(sched).initialized ==> *final(sched) == *old(sched),
{
    let gui: [u8; 11] = [71, 85, 73, 32, 32, 32, 32, 32, 69, 76, 70];
    let bash: [u8; 11] = [66, 65, 83, 72, 32, 32, 32, 32, 69, 76, 70];
    proof { assert(bash@ =~= bash_file()); }
    let shell: [u8; 11] = [83, 72, 69, 76, 76, 32, 32, 32, 69, 76, 70];
    let taskview: [u8; 11] = [84, 65, 83, 75, 86, 73, 69, 87, 69, 76, 70];
    let cat: [u8; 11] = [67, 65, 84, 32, 32, 32, 32, 32, 69, 76, 70];
    let ghost s0 = *sched;
    install_user_elf(mem, sched, space, disk, 0, "gui", UserAbi::Native, &gui);
    let ghost s1 = *sched;
    let bash_ok = install_user_elf(mem, sched, space, disk, 1, "bash", UserAbi::Linux, &bash);
    let ghost s2 = *sched;
    if !bash_ok {
        install_user_elf(mem, sched, space, disk, 1, "terminal", UserAbi::Native, &shell);
    }
    let ghost s3 = *sched;
    install_user_elf(mem, sched, space, disk, 2, "taskviewer", UserAbi::Native, &taskview);
    let ghost s4 = *sched;
    install_user_elf(mem, sched, space, disk, 3, "cat", UserAbi::Linux, &cat);
    let ghost s5 = *sched;
    sched.set_task_active(3, false);
    proof {
        if s0.initialized {
            assert(s5.slot(0) == s1.slot(0));
            assert(s5.slot(1) == s3.slot(1));
            assert(s5.slot(2) == s4.slot(2));
            assert(s4.slot(3) == s0.slot(3));
        }
    }
    bash_ok
}

} // verus!
