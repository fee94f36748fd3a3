use nk::desktop::{Desktop, DESKTOP_BG};
use nk::framebuffer::{Color, Framebuffer};
use nk::gui::{
    classify_command, command_output, drag_position, hit_taskbar, hit_title, panel_click_target, pointer_hits_window,
    shell_click_target, unpack_mouse, Mouse, TASK_CAT, TASK_SHELL, TASK_TASKVIEW,
};
use nk::interrupts::{
    build_idt, eoi_second_controller, idt_limit, packed_task_info, pit_divisor, pit_divisor_bytes, star_value,
    unmask_irq, IdtEntry, IdtHandlers, KERNEL_GATE, USER_GATE,
};
use nk::kernel::{framebuffer_mapping, Kernel};
use nk::memory::{align_up_u64, page_indexes, user_page_index, user_stack_top};
use nk::pci::{address, read_bar, scan, visit_capabilities, Device, Visitor};
use nk::scheduler::{wait_status_word, UserScheduler};
use nk::userland::{align_down, new_task_frame, MappingFlags, Syscall};
use nk::scheduler::UserAbi;

#[test]
fn idt_gates_split_handler_addresses() {
    let e = IdtEntry::with_options(0xffff_8000_1234_5678, KERNEL_GATE);
    assert_eq!((e.offset_low, e.offset_mid, e.offset_high), (0x5678, 0x1234, 0xffff_8000));
    assert_eq!((e.selector, e.options, e.reserved), (0x08, 0x8e00, 0));
    let u = IdtEntry::new_user(0x1000);
    assert_eq!(u.options, USER_GATE);
    let m = IdtEntry::missing();
    assert_eq!((m.offset_low, m.options), (0, 0));
}

#[test]
fn idt_routes_vectors() {
    let h = IdtHandlers { default: 1, general_protection: 2, page_fault: 3, timer: 4, keyboard: 5, mouse: 6, syscall: 7 };
    let idt = build_idt(&h);
    assert_eq!(idt.len(), 256);
    assert_eq!(idt[0].offset_low, 1);
    assert_eq!(idt[13].offset_low, 2);
    assert_eq!(idt[14].offset_low, 3);
    assert_eq!(idt[32].offset_low, 4);
    assert_eq!(idt[33].offset_low, 5);
    assert_eq!(idt[44].offset_low, 6);
    assert_eq!((idt[0x80].offset_low, idt[0x80].options), (7, USER_GATE));
    assert_eq!(idt[255].options, KERNEL_GATE);
    assert_eq!(idt_limit(), 4095);
}

#[test]
fn timer_and_interrupt_controller_settings() {
    assert_eq!(pit_divisor(100), 11931);
    assert_eq!(pit_divisor(1), (1_193_182u32 % 65536) as u16);
    assert_eq!(pit_divisor_bytes(11931), (0x9b, 0x2e));
    assert_eq!(unmask_irq(1, 0xff), (false, 0xfd));
    assert_eq!(unmask_irq(12, 0xff), (true, 0xef));
    assert!(eoi_second_controller(12));
    assert!(!eoi_second_controller(0));
    assert_eq!(star_value(), 0x0013_0008_0000_0000);
}

#[test]
fn task_info_packs_flags_and_ticks() {
    let sched = UserScheduler::new();
    assert_eq!(packed_task_info(&sched, 0), 0);
}

#[test]
fn framebuffer_draws_inside_the_screen() {
    let mut fb = Framebuffer::new(0xfd00_0000, 4, 3, 16, 32);
    fb.pixel(1, 1, Color(0x00aa_bbcc));
    assert_eq!(&fb.bytes[16 + 4..16 + 8], &[0xcc, 0xbb, 0xaa, 0]);
    fb.pixel(9, 9, Color(0xffff_ffff));
    fb.rect(2, 0, 10, 1, Color(0x0001_0203));
    assert_eq!(&fb.bytes[8..12], &[3, 2, 1, 0]);
    assert_eq!(&fb.bytes[12..16], &[3, 2, 1, 0]);
    assert_eq!(&fb.bytes[0..4], &[0, 0, 0, 0]);
    assert_eq!(fb.byte_len(), 48);
    assert_eq!((fb.width(), fb.height(), fb.address()), (4, 3, 0xfd00_0000));
}

#[test]
fn framebuffer_clear_and_scroll() {
    let mut fb = Framebuffer::new(0, 2, 3, 8, 32);
    fb.clear(Color(0x0000_0011));
    assert!(fb.bytes.chunks(4).all(|p| p == [0x11, 0, 0, 0]));
    fb.pixel(0, 1, Color(0x0000_0022));
    fb.scroll_up(1, Color(0x0000_0033));
    assert_eq!(&fb.bytes[0..4], &[0x22, 0, 0, 0]);
    assert_eq!(&fb.bytes[16..20], &[0x33, 0, 0, 0]);
}

#[test]
fn desktop_paints_background() {
    let mut fb = Framebuffer::new(0, 40, 40, 160, 32);
    Desktop::new().draw(&mut fb);
    let bg = DESKTOP_BG.to_le_bytes();
    assert_eq!(&fb.bytes[39 * 160..39 * 160 + 4], &bg);
    assert_eq!(&fb.bytes[0..4], &0x0028_2f3au32.to_le_bytes());
    assert_eq!(&fb.bytes[12 * 160 + 20 * 4..12 * 160 + 20 * 4 + 4], &0x0000_b894u32.to_le_bytes());
}

#[test]
fn kernel_boots_with_two_services() {
    let mut k = Kernel::bootstrap();
    k.start_services();
    assert!(k.ipc.last.is_some());
    let m = framebuffer_mapping(0xffff_8000_fd00_0000, 4096, Some(0xffff_8000_0000_0000)).unwrap();
    assert_eq!((m.virt, m.phys, m.len), (0xffff_8000_fd00_0000, 0xfd00_0000, 4096));
    assert!(framebuffer_mapping(0x1000, 4096, None).is_none());
}

#[test]
fn shell_and_panel_hit_tests() {
    let m = unpack_mouse(100 + 65536 * 20 + 4294967296 * 1 + 1099511627776 * 9);
    assert_eq!((m.x, m.y, m.buttons, m.seq), (100, 20, 1, 9));
    assert!(hit_taskbar(m));
    assert_eq!(panel_click_target(100), 1);
    assert_eq!(panel_click_target(200), 2);
    assert_eq!(panel_click_target(300), 3);
    assert_eq!(panel_click_target(500), 0);
    assert_eq!(shell_click_target(Mouse { x: 155, y: 0, buttons: 1, seq: 0 }), 0);
    assert_eq!(shell_click_target(Mouse { x: 60, y: 0, buttons: 1, seq: 0 }), TASK_SHELL);
    assert_eq!(shell_click_target(Mouse { x: 200, y: 0, buttons: 1, seq: 0 }), TASK_TASKVIEW);
    assert_eq!(shell_click_target(Mouse { x: 300, y: 0, buttons: 1, seq: 0 }), TASK_CAT);
    let p = Mouse { x: 120, y: 90, buttons: 1, seq: 0 };
    assert!(hit_title(p, 100, 80, TASK_SHELL));
    assert!(!hit_title(p, 100, 80, TASK_CAT));
    assert!(pointer_hits_window(p, 100, 80));
    assert!(!pointer_hits_window(p, 900, 80));
    let _ = drag_position(500, 20, 0, 600);
    let _ = command_output(classify_command(b"help"), false);
}

#[test]
fn user_memory_geometry() {
    assert_eq!(align_up_u64(4097, 4096), 8192);
    assert_eq!(page_indexes(0xffff_8000_0000_0000), (256, 0, 0, 0));
    assert_eq!(page_indexes(0x4020_3000), (0, 1, 1, 3));
    assert_eq!(user_page_index(0), None);
    assert!(user_stack_top(0) > 0);
    assert_eq!(align_down(4097, 4096), 4096);
}

#[test]
fn mapping_flags_combine() {
    let f = MappingFlags::read().union(MappingFlags::write()).union(MappingFlags::user());
    assert_eq!(f.bits(), 11);
    assert_eq!(MappingFlags::execute().bits(), 4);
    assert_eq!(Syscall::Yield.number(), 0);
}

#[test]
fn new_tasks_start_in_ring_three() {
    let f = new_task_frame(UserAbi::Linux, 0x40_1000, 0x7fff_f000);
    assert_eq!((f.rip, f.rsp, f.cs, f.ss, f.rflags), (0x40_1000, 0x7fff_f000, 0x23, 0x1b, 0x202));
    assert_eq!(f.rax, 0);
}

#[test]
fn exit_status_words() {
    assert_eq!(wait_status_word(0), 0);
    assert_eq!(wait_status_word(3), 0x300);
}

struct Recorder(Vec<(u8, u8)>);

impl Visitor for Recorder {
    fn visit(&mut self, device: Device) {
        self.0.push((device.slot, device.function));
    }
}

/// One virtio block device at slot 3, with a capability list.
fn config_space(addr: u32) -> u32 {
    let slot = (addr >> 11) & 0x1f;
    let bus = (addr >> 16) & 0xff;
    let function = (addr >> 8) & 7;
    let reg = addr & 0xfc;
    if bus != 0 || slot != 3 || function != 0 {
        return 0xffff_ffff;
    }
    match reg {
        0x00 => 0x1001_1af4,
        0x04 => 0x0010_0000,
        0x08 => 0x0100_0000,
        0x0c => 0,
        0x10 => 0xc041,
        0x34 => 0x40,
        0x40 => 0x0000_5009,
        0x50 => 0x0000_0011,
        _ => 0,
    }
}

#[test]
fn pci_scan_finds_the_device() {
    assert_eq!(address(0, 3, 0, 0x10), 0x8000_1810);
    let mut r = Recorder(Vec::new());
    let found = scan(&config_space, &mut r);
    assert_eq!(found.len(), 1);
    assert_eq!((found[0].vendor_id, found[0].device_id, found[0].class, found[0].subclass), (0x1af4, 0x1001, 1, 0));
    assert_eq!(r.0, vec![(3, 0)]);
    let bar = read_bar(&config_space, found[0], 0);
    assert_eq!((bar.base, bar.is_io), (0xc040, true));
    let caps = visit_capabilities(&config_space, found[0]);
    assert_eq!(caps.iter().map(|c| (c.id, c.offset)).collect::<Vec<_>>(), vec![(9, 0x40), (0x11, 0x50)]);
}

use nk::blockdev::{
    ata_setup, choose_backend, classify_device, completion, cap_kind_name, drq_status, legacy_block_usable,
    legacy_status_sequence, next_available, queue_pfn, read_allowed, request_chain, request_header, words_to_bytes,
    Backend, Completion, DrqStatus, VirtioKind,
};
use nk::interrupts::{native_syscall, NativeEffect, TimerState};
use nk::keyboard::KeyboardBuffer;
use nk::mouse::MouseState;
use nk::scheduler::{Scheduler, TrapFrame};
use nk::services::Gui;

#[test]
fn ata_command_registers() {
    let w = ata_setup(0x0123_4567, 2, 1024).unwrap();
    assert_eq!(w, vec![(0x1f6, 0xe1), (0x1f2, 2), (0x1f3, 0x67), (0x1f4, 0x45), (0x1f5, 0x23), (0x1f7, 0x20)]);
    assert!(ata_setup(0, 0, 512).is_none());
    assert!(ata_setup(0, 256, 512 * 256).is_none());
    assert!(ata_setup(0, 2, 1023).is_none());
    assert!(drq_status(0x01) == DrqStatus::Error);
    assert!(drq_status(0x08) == DrqStatus::Ready);
    assert!(drq_status(0x88) == DrqStatus::Busy);
    assert_eq!(words_to_bytes(&[0x1234, 0xabcd]), vec![0x34, 0x12, 0xcd, 0xab]);
}

#[test]
fn block_backend_choice() {
    assert!(choose_backend(true, true, true) == Backend::Virtio);
    assert!(choose_backend(true, false, true) == Backend::Ata);
    assert!(choose_backend(false, false, false) == Backend::Missing);
}

#[test]
fn virtio_block_request() {
    assert!(classify_device(0x1001) == VirtioKind::Block);
    assert!(classify_device(0x1052) == VirtioKind::Input);
    assert!(classify_device(0x1000) == VirtioKind::Generic);
    let chain = request_chain(0x1000, 0x2000, 0x3000, 4);
    assert_eq!((chain[0].addr, chain[0].len, chain[0].flags, chain[0].next), (0x1000, 16, 1, 1));
    assert_eq!((chain[1].addr, chain[1].len, chain[1].flags, chain[1].next), (0x2000, 2048, 3, 2));
    assert_eq!((chain[2].addr, chain[2].len, chain[2].flags, chain[2].next), (0x3000, 1, 2, 0));
    let h = request_header(0x55);
    assert_eq!(&h[0..8], &[0; 8]);
    assert_eq!(&h[8..16], &0x55u64.to_le_bytes());
    assert_eq!(next_available(257), (1, 258));
    assert_eq!(next_available(u16::MAX), (255, 0));
    assert!(completion(3, 3, 0) == Completion::Pending);
    assert!(completion(4, 3, 0) == Completion::Done(true));
    assert!(completion(4, 3, 1) == Completion::Done(false));
    assert_eq!(legacy_status_sequence(), vec![0, 3, 11, 15]);
    assert!(legacy_block_usable(0x1001, true, 0xc040, 256));
    assert!(!legacy_block_usable(0x1001, true, 0xc040, 128));
    assert!(!legacy_block_usable(0x1001, false, 0xc040, 256));
    assert_eq!(queue_pfn(0x12_3000), 0x123);
    assert!(read_allowed(true, 2, 1024));
    assert!(!read_allowed(true, 129, 1 << 20));
    assert!(!read_allowed(false, 1, 512));
    assert_eq!(cap_kind_name(1), " common");
    assert_eq!(cap_kind_name(9), " other");
}

#[test]
fn native_calls_read_devices() {
    let mut gui = Gui::new();
    let mut keyboard = KeyboardBuffer::new();
    let mouse = MouseState::new();
    let mut sched = UserScheduler::new();
    keyboard.push(b'k');
    let mut frame = TrapFrame::empty();
    frame.rax = 19;
    assert!(native_syscall(&mut gui, &mut keyboard, &mouse, &mut sched, &mut frame, &[]) == NativeEffect::Done);
    assert_eq!(frame.rax, b'k' as u64);
    frame.rax = 19;
    native_syscall(&mut gui, &mut keyboard, &mouse, &mut sched, &mut frame, &[]);
    assert_eq!(frame.rax, 0);
    frame.rax = 20;
    native_syscall(&mut gui, &mut keyboard, &mouse, &mut sched, &mut frame, &[]);
    assert_eq!(frame.rax, mouse.packed());
    frame.rax = 24;
    frame.rdi = 0;
    native_syscall(&mut gui, &mut keyboard, &mouse, &mut sched, &mut frame, &[]);
    assert_eq!(frame.rax, 1);
    frame.rax = 32;
    assert!(native_syscall(&mut gui, &mut keyboard, &mouse, &mut sched, &mut frame, &[]) == NativeEffect::Shutdown);
    frame.rax = 0x163;
    assert!(native_syscall(&mut gui, &mut keyboard, &mouse, &mut sched, &mut frame, &[]) == NativeEffect::Unknown(0x63));
    assert_eq!(frame.rax, 0);
}

#[test]
fn timer_ticks_are_counted() {
    let mut timer = TimerState::new();
    let mut kernel = Scheduler::new();
    let mut sched = UserScheduler::new();
    let mut frame = TrapFrame::empty();
    let first = timer.on_timer(&mut kernel, &mut sched, &mut frame, 0);
    assert!(first.log_tick);
    assert!(first.switch.is_none());
    let second = timer.on_timer(&mut kernel, &mut sched, &mut frame, 0);
    assert!(!second.log_tick);
    assert_eq!(timer.ticks, 2);
    assert_eq!(kernel.ticks(), 2);
}

#[test]
fn pci_sixteen_bit_writes_keep_the_other_half() {
    let (addr, dword) = nk::pci::write_u16(&config_space, 0, 3, 0, 0x04, 0x0005);
    assert_eq!(addr, 0x8000_1804);
    assert_eq!(dword, 0x0010_0005);
    let (_, dword) = nk::pci::write_u16(&config_space, 0, 3, 0, 0x06, 0xabcd);
    assert_eq!(dword, 0xabcd_0000);
}

#[test]
fn pic_remap_restores_masks() {
    let w = nk::interrupts::pic_remap(0xb8, 0x8e);
    assert_eq!(w.len(), 18);
    assert_eq!(w[0], (0x20, 0x11));
    assert_eq!(w[4], (0x21, 0x20));
    assert_eq!(w[6], (0xa1, 0x28));
    assert_eq!(w[16], (0x21, 0xb8));
    assert_eq!(w[17], (0xa1, 0x8e));
}

use nk::memory::PageTableRoot;
use nk::userland::{init, AddressSpace, Mapping};

#[test]
fn taking_a_mapping_xors_its_fields_into_the_checksum() {
    let mut space = AddressSpace::new();
    assert_eq!(space.validation_token(), 0);
    let m = Mapping { virt: 0x4000_0000, phys: 0x20_0000, len: 0x1000, flags: MappingFlags { bits: 3 } };
    assert!(space.map(m));
    assert_eq!(space.validation_token(), 0x4000_0000 ^ 0x20_0000 ^ 0x1000 ^ 3);
    let before = space.validation_token();
    let m2 = Mapping { virt: 0x5000, phys: 0x7000, len: 0x2000, flags: MappingFlags { bits: 15 } };
    assert!(space.map(m2));
    assert_eq!(space.validation_token(), before ^ 0x5000 ^ 0x7000 ^ 0x2000 ^ 15);
}

#[test]
fn installing_roots_swaps_their_part_of_the_checksum() {
    let mut space = AddressSpace::new();
    let m = Mapping { virt: 0x1000, phys: 0x2000, len: 0x1000, flags: MappingFlags { bits: 1 } };
    assert!(space.map(m));
    let mapped = space.validation_token();
    let mut roots = vec![None; 16];
    roots[0] = Some(PageTableRoot { pml4_phys: 0x10_0000 });
    roots[3] = Some(PageTableRoot { pml4_phys: 0x30_0000 });
    space.install_roots(roots);
    assert_eq!(space.validation_token(), mapped ^ 0x10_0000 ^ 0x30_0000);
    let mut roots2 = vec![None; 16];
    roots2[1] = Some(PageTableRoot { pml4_phys: 0x40_0000 });
    space.install_roots(roots2);
    assert_eq!(space.validation_token(), mapped ^ 0x40_0000);
}

#[test]
fn init_takes_the_first_free_slot_and_reports_a_nonzero_checksum() {
    let mut space = AddressSpace::new();
    assert!(init(&mut space));
    assert_eq!(space.validation_token(), 0x4000_0000 ^ 0x1000 ^ 15);
    for _ in 0..15 {
        assert!(space.map(Mapping { virt: 0, phys: 0, len: 0, flags: MappingFlags { bits: 0 } }));
    }
    assert!(!init(&mut space));
}

use nk::gui::{edit_line, step_pointer, Drag, PointerAction, ShellCommand};

#[test]
fn the_command_line_is_edited_by_keys() {
    let mut line = Vec::new();
    for k in b"cat" {
        assert!(edit_line(&mut line, *k, TASK_SHELL).is_none());
    }
    assert_eq!(line, b"cat".to_vec());
    assert!(edit_line(&mut line, b'X', TASK_SHELL).is_none());
    assert!(edit_line(&mut line, b'q', TASK_CAT).is_none());
    assert!(edit_line(&mut line, 0, TASK_SHELL).is_none());
    assert_eq!(line, b"cat".to_vec());
    assert!(edit_line(&mut line, b'\n', TASK_SHELL) == Some(ShellCommand::Cat));
    assert!(line.is_empty());
    assert!(edit_line(&mut line, 8, TASK_SHELL).is_none());
    assert!(line.is_empty());
    for _ in 0..40 {
        edit_line(&mut line, b'a', TASK_SHELL);
    }
    assert_eq!(line.len(), 32);
    edit_line(&mut line, 8, TASK_SHELL);
    assert_eq!(line.len(), 31);
    assert!(edit_line(&mut line, b'\n', TASK_SHELL) == Some(ShellCommand::Unknown));
}

#[test]
fn the_shell_window_is_dragged_by_its_title_bar() {
    let d = Drag::new();
    let press = Mouse { x: 200, y: 100, buttons: 1, seq: 1 };
    let (d, action) = step_pointer(d, press, TASK_SHELL);
    assert!(action == PointerAction::Redraw);
    assert!(d.dragging && d.grab_x == 50 && d.grab_y == 4);
    assert_eq!((d.x, d.y), (150, 96));
    let (d, _) = step_pointer(d, Mouse { x: 400, y: 300, buttons: 1, seq: 2 }, TASK_SHELL);
    assert_eq!((d.x, d.y), (350, 296));
    let (d, _) = step_pointer(d, Mouse { x: 5, y: 1000, buttons: 1, seq: 3 }, TASK_SHELL);
    assert_eq!((d.x, d.y), (20, 420));
    let (d, action) = step_pointer(d, Mouse { x: 5, y: 1000, buttons: 0, seq: 4 }, TASK_SHELL);
    assert!(action == PointerAction::Repair && !d.dragging);
    let (_, action) = step_pointer(d, Mouse { x: 200, y: 10, buttons: 1, seq: 5 }, TASK_SHELL);
    assert!(action == PointerAction::Focus(TASK_TASKVIEW));
    let (d2, action) = step_pointer(Drag::new(), press, TASK_CAT);
    assert!(action == PointerAction::Repair && !d2.dragging);
}
