use std::collections::HashMap;

use nk::limine::{KernelAddress, MemoryRegion};
use nk::memory::{
    create_user_address_spaces, FrameOp, UserMemory, LIMINE_MEMMAP_USABLE, USER_PAGES, USER_STACK_BASE,
    USER_STACK_FIRST_PAGE, USER_STACK_SIZE,
};
use nk::scheduler::USER_TASKS;
use nk::userland::linux_stack_top;

fn memory() -> UserMemory {
    let kernel = KernelAddress { physical_base: 0x20_0000, virtual_base: 0xffff_ffff_8000_0000 };
    let regions = [MemoryRegion { base: 0x100_0000, length: 0x100_0000, kind: LIMINE_MEMMAP_USABLE }];
    let (mem, roots) =
        create_user_address_spaces(kernel.virtual_base + 0x10_0000, kernel, 0xffff_8000_0000_0000, &regions, None);
    assert!(roots[..4].iter().all(|r| r.is_some()));
    assert!(roots[4..].iter().all(|r| r.is_none()));
    mem
}

/// Applies the queued stores, byte by byte, to a map of (frame, offset).
fn stored_bytes(mem: &UserMemory) -> HashMap<(u64, usize), u8> {
    let mut bytes = HashMap::new();
    for op in &mem.pending {
        if let FrameOp::Write { frame, offset, bytes: data } = op {
            for (i, b) in data.iter().enumerate() {
                bytes.insert((*frame, offset + i), *b);
            }
        }
    }
    bytes
}

fn stack_byte(mem: &UserMemory, bytes: &HashMap<(u64, usize), u8>, task: usize, addr: u64) -> u8 {
    let offset = (addr - USER_STACK_BASE) as usize;
    let frame = mem.user_frames[task * USER_PAGES + USER_STACK_FIRST_PAGE + offset / 4096];
    *bytes.get(&(frame, offset % 4096)).unwrap_or(&0)
}

fn stack_word(mem: &UserMemory, bytes: &HashMap<(u64, usize), u8>, task: usize, addr: u64) -> u64 {
    let mut v = 0u64;
    for k in 0..8 {
        v |= (stack_byte(mem, bytes, task, addr + k) as u64) << (8 * k);
    }
    v
}

fn stack_string(mem: &UserMemory, bytes: &HashMap<(u64, usize), u8>, task: usize, mut addr: u64) -> Vec<u8> {
    let mut out = Vec::new();
    loop {
        let b = stack_byte(mem, bytes, task, addr);
        if b == 0 {
            return out;
        }
        out.push(b);
        addr += 1;
    }
}

#[test]
fn linux_stack_holds_argc_argv_environment_and_auxv() {
    let mut mem = memory();
    let argv = vec![b"prog".to_vec(), b"-x".to_vec()];
    let sp = linux_stack_top(&mut mem, 1, &argv).unwrap();
    assert_eq!(sp % 16, 0);
    assert!(USER_STACK_BASE <= sp && sp < USER_STACK_BASE + USER_STACK_SIZE as u64);
    let bytes = stored_bytes(&mem);
    assert_eq!(stack_word(&mem, &bytes, 1, sp), 2);
    let arg0 = stack_word(&mem, &bytes, 1, sp + 8);
    let arg1 = stack_word(&mem, &bytes, 1, sp + 16);
    assert_eq!(stack_string(&mem, &bytes, 1, arg0), b"prog".to_vec());
    assert_eq!(stack_string(&mem, &bytes, 1, arg1), b"-x".to_vec());
    assert_eq!(arg0 % 8, 0);
    assert!(arg0 < arg1);
    assert_eq!(stack_word(&mem, &bytes, 1, sp + 24), 0);
    let env0 = stack_word(&mem, &bytes, 1, sp + 32);
    let env1 = stack_word(&mem, &bytes, 1, sp + 40);
    assert_eq!(stack_string(&mem, &bytes, 1, env0), b"TERM=vt100".to_vec());
    assert_eq!(stack_string(&mem, &bytes, 1, env1), b"PATH=/".to_vec());
    assert_eq!(stack_word(&mem, &bytes, 1, sp + 48), 0);
    assert_eq!(stack_word(&mem, &bytes, 1, sp + 56), 6);
    assert_eq!(stack_word(&mem, &bytes, 1, sp + 64), 4096);
    assert_eq!(stack_word(&mem, &bytes, 1, sp + 56 + 12 * 8), 25);
    let random = stack_word(&mem, &bytes, 1, sp + 56 + 13 * 8);
    assert_eq!(random % 16, 0);
    assert_eq!(stack_byte(&mem, &bytes, 1, random), 0x31);
    assert_eq!(stack_byte(&mem, &bytes, 1, random + 15), 0x95);
    assert_eq!(stack_word(&mem, &bytes, 1, sp + 56 + 14 * 8), 0);
}

#[test]
fn linux_stack_refuses_too_many_arguments() {
    let mut mem = memory();
    let argv: Vec<Vec<u8>> = (0..9).map(|_| b"a".to_vec()).collect();
    assert_eq!(linux_stack_top(&mut mem, 1, &argv), None);
    assert_eq!(linux_stack_top(&mut mem, USER_TASKS, &[]), None);
}

#[test]
fn linux_stack_refuses_arguments_that_do_not_fit() {
    let mut mem = memory();
    let argv = vec![vec![b'a'; USER_STACK_SIZE]];
    assert_eq!(linux_stack_top(&mut mem, 0, &argv), None);
}
