//! nk: the verified core of a small x86-64 microkernel.
use vstd::prelude::*;

pub mod blockdev;
pub mod bytes;
pub mod desktop;
pub mod directory;
pub mod disk;
pub mod editor;
pub mod fat32;
pub mod font;
pub mod framebuffer;
pub mod gdt;
pub mod gui;
pub mod interrupts;
pub mod ipc;
pub mod kernel;
pub mod keyboard;
pub mod limine;
pub mod linux_abi;
pub mod linux_calls;
pub mod memory;
pub mod mouse;
pub mod nsh;
pub mod nkfs;
pub mod pci;
pub mod ring;
pub mod scheduler;
pub mod serial;
pub mod text;
pub mod services;
pub mod tty;
pub mod userland;

verus! {

} // verus!
