//! What the bootloader reports about the machine.
use vstd::prelude::*;

verus! {

/// Where the kernel image was loaded.
#[derive(Clone, Copy)]
pub struct KernelAddress {
    pub physical_base: u64,
    pub virtual_base: u64,
}

/// One entry of the bootloader's memory map.
#[derive(Clone, Copy)]
pub struct MemoryRegion {
    pub base: u64,
    pub length: u64,
    pub kind: u64,
}

} // verus!
