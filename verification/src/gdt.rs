//! The global descriptor table: flat code and data segments for the kernel
//! and for user mode, and the task-state segment.
use vstd::prelude::*;

verus! {

/// Kernel code segment selector.
pub const KERNEL_CODE_SELECTOR: u16 = 0x08;
/// Kernel data segment selector.
pub const KERNEL_DATA_SELECTOR: u16 = 0x10;
/// User data segment selector (ring 3).
pub const USER_DATA_SELECTOR: u16 = 0x1b;
/// User code segment selector (ring 3).
pub const USER_CODE_SELECTOR: u16 = 0x23;
/// Task-state segment selector.
pub const TSS_SELECTOR: u16 = 0x28;
/// Size of the task-state segment.
pub const TSS_SIZE: u32 = 104;

/// A 64-bit code segment descriptor for privilege level `dpl`.
pub open spec fn spec_code_descriptor(dpl: u64) -> u64 {
    (1u64 << 43u64) | (1u64 << 44u64) | (dpl << 45u64) | (1u64 << 47u64) | (1u64 << 53u64)
}

/// A data segment descriptor for privilege level `dpl`.
pub open spec fn spec_data_descriptor(dpl: u64) -> u64 {
    (1u64 << 41u64) | (1u64 << 44u64) | (dpl << 45u64) | (1u64 << 47u64)
}

/// The two descriptor words of an available 64-bit TSS at `base` with `limit`.
pub open spec fn spec_tss_descriptor(base: u64, limit: u32) -> (u64, u64) {
    (((limit as u64) & 0xffff) | ((base & 0x00ff_ffff) << 16u64) | (0x89u64 << 40u64)
        | ((((limit as u64) >> 16u64) & 0x0f) << 48u64) | (((base >> 24u64) & 0xff) << 56u64),
     base >> 32u64)
}

/// A 64-bit code segment descriptor for privilege level `dpl`.
pub fn code_descriptor(dpl: u64) -> (r: u64)
    ensures r == spec_code_descriptor(dpl),
{
    (1u64 << 43) | (1u64 << 44) | (dpl << 45) | (1u64 << 47) | (1u64 << 53)
}

/// A data segment descriptor for privilege level `dpl`.
pub fn data_descriptor(dpl: u64) -> (r: u64)
    ensures r == spec_data_descriptor(dpl),
{
    (1u64 << 41) | (1u64 << 44) | (dpl << 45) | (1u64 << 47)
}

/// The two descriptor words of the TSS at `base` with `limit`.
pub fn tss_descriptor(base: u64, limit: u32) -> (r: (u64, u64))
    ensures r == spec_tss_descriptor(base, limit),
{
    let l = limit as u64;
    ((l & 0xffff) | ((base & 0x00ff_ffff) << 16) | (0x89u64 << 40) | (((l >> 16) & 0x0f) << 48)
        | (((base >> 24) & 0xff) << 56),
     base >> 32)
}

/// The table: null, kernel code, kernel data, user data, user code, then
/// the TSS at `tss_base` over two entries.
pub fn build_gdt(tss_base: u64) -> (r: Vec<u64>)
    ensures
        r@ == seq![0u64, spec_code_descriptor(0), spec_data_descriptor(0), spec_data_descriptor(3),
            spec_code_descriptor(3), spec_tss_descriptor(tss_base, (TSS_SIZE - 1) as u32).0,
            spec_tss_descriptor(tss_base, (TSS_SIZE - 1) as u32).1],
{
    let (tss_low, tss_high) = tss_descriptor(tss_base, TSS_SIZE - 1);
    let r = vec![0u64, code_descriptor(0), data_descriptor(0), data_descriptor(3), code_descriptor(3), tss_low, tss_high];
    proof {
        assert(r@ =~= seq![0u64, spec_code_descriptor(0), spec_data_descriptor(0), spec_data_descriptor(3),
            spec_code_descriptor(3), spec_tss_descriptor(tss_base, (TSS_SIZE - 1) as u32).0,
            spec_tss_descriptor(tss_base, (TSS_SIZE - 1) as u32).1]);
    }
    r
}

/// The user code and data selectors.
pub fn user_selectors() -> (r: (u16, u16))
    ensures r == (USER_CODE_SELECTOR, USER_DATA_SELECTOR),
{
    (USER_CODE_SELECTOR, USER_DATA_SELECTOR)
}

} // verus!
