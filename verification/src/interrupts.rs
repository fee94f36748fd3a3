//! Interrupt handling: the descriptor table, the programmable interrupt
//! controller and timer settings, what a timer tick decides, and the
//! native system calls.
use vstd::prelude::*;
use crate::gdt::{KERNEL_CODE_SELECTOR, USER_DATA_SELECTOR};
use crate::keyboard::KeyboardBuffer;
use crate::mouse::MouseState;
use crate::scheduler::{Scheduler, UserScheduler, UserSwitch, TrapFrame, alive};
use crate::services::Gui;

verus! {

/// Entries of the descriptor table.
pub const IDT_ENTRIES: usize = 256;
pub const GENERAL_PROTECTION_VECTOR: usize = 13;
pub const PAGE_FAULT_VECTOR: usize = 14;
pub const TIMER_VECTOR: usize = 32;
pub const KEYBOARD_VECTOR: usize = 33;
pub const MOUSE_VECTOR: usize = 44;
pub const SYSCALL_VECTOR: usize = 0x80;

/// Options of a kernel interrupt gate (present, ring 0).
pub const KERNEL_GATE: u16 = 0x8e00;
/// Options of a gate user code may raise (present, ring 3).
pub const USER_GATE: u16 = 0xee00;

/// Input clock of the interval timer, in Hz.
pub const PIT_FREQUENCY: u32 = 1_193_182;
/// Timer interrupts per second.
pub const TIMER_HZ: u32 = 100;

/// One gate of the interrupt descriptor table.
#[derive(Clone, Copy, PartialEq, Eq, Structural)]
pub struct IdtEntry {
    pub offset_low: u16,
    pub selector: u16,
    pub options: u16,
    pub offset_mid: u16,
    pub offset_high: u32,
    pub reserved: u32,
}

impl IdtEntry {
    /// Where the entry sends the interrupt.
    pub open spec fn handler(self) -> int {
        self.offset_low + 65536 * self.offset_mid + 4294967296 * self.offset_high
    }

    /// An empty gate.
    pub fn missing() -> (r: IdtEntry)
        ensures r == (IdtEntry { offset_low: 0, selector: 0, options: 0, offset_mid: 0, offset_high: 0, reserved: 0 }),
    {
        IdtEntry { offset_low: 0, selector: 0, options: 0, offset_mid: 0, offset_high: 0, reserved: 0 }
    }

    /// A gate to the handler at `address` in kernel code with `options`.
    pub fn with_options(address: u64, options: u16) -> (r: IdtEntry)
        ensures
            r.handler() == address,
            r.selector == KERNEL_CODE_SELECTOR,
            r.options == options,
            r.reserved == 0,
            r.offset_low == address % 65536,
            r.offset_mid == (address / 65536) % 65536,
            r.offset_high == address / 4294967296,
    {
        proof { lemma_split_address(address); }
        IdtEntry {
            offset_low: (address % 65536) as u16,
            selector: KERNEL_CODE_SELECTOR,
            options,
            offset_mid: ((address / 65536) % 65536) as u16,
            offset_high: (address / 4294967296) as u32,
            reserved: 0,
        }
    }

    /// A kernel interrupt gate.
    pub fn new(address: u64) -> (r: IdtEntry)
        ensures r == IdtEntry::with_options_spec(address, KERNEL_GATE),
    {
        IdtEntry::with_options(address, KERNEL_GATE)
    }

    /// A gate user code may raise with `int`.
    pub fn new_user(address: u64) -> (r: IdtEntry)
        ensures r == IdtEntry::with_options_spec(address, USER_GATE),
    {
        IdtEntry::with_options(address, USER_GATE)
    }

    /// The entry `with_options` makes.
    pub open spec fn with_options_spec(address: u64, options: u16) -> IdtEntry {
        IdtEntry {
            offset_low: (address % 65536) as u16,
            selector: KERNEL_CODE_SELECTOR,
            options,
            offset_mid: ((address / 65536) % 65536) as u16,
            offset_high: (address / 4294967296) as u32,
            reserved: 0,
        }
    }
}

/// The three parts of an address put back together give the address.
proof fn lemma_split_address(a: u64)
    ensures a == a % 65536 + 65536 * ((a / 65536) % 65536) + 4294967296 * (a / 4294967296),
{
    let x = a as int;
    vstd::arithmetic::div_mod::lemma_fundamental_div_mod(x, 65536);
    vstd::arithmetic::div_mod::lemma_fundamental_div_mod(x / 65536, 65536);
    vstd::arithmetic::div_mod::lemma_div_denominator(x, 65536, 65536);
    assert(x == x % 65536 + 65536 * ((x / 65536) % 65536) + 65536 * (65536 * ((x / 65536) / 65536))) by (nonlinear_arith)
        requires x == 65536 * (x / 65536) + x % 65536, x / 65536 == 65536 * ((x / 65536) / 65536) + (x / 65536) % 65536;
    assert(65536 * (65536 * ((x / 65536) / 65536)) == 4294967296 * (x / 4294967296)) by (nonlinear_arith)
        requires (x / 65536) / 65536 == x / (65536int * 65536int);
}

/// Handler addresses of the entries the kernel installs.
pub struct IdtHandlers {
    pub default: u64,
    pub general_protection: u64,
    pub page_fault: u64,
    pub timer: u64,
    pub keyboard: u64,
    pub mouse: u64,
    pub syscall: u64,
}

/// The entry the kernel installs at `vector`: the faults, timer, keyboard
/// and mouse go to their handlers, `int 0x80` to the system-call handler
/// (raisable from user mode), everything else to the default handler.
pub open spec fn idt_gate(h: IdtHandlers, vector: int) -> IdtEntry {
    if vector == GENERAL_PROTECTION_VECTOR { IdtEntry::with_options_spec(h.general_protection, KERNEL_GATE) }
    else if vector == PAGE_FAULT_VECTOR { IdtEntry::with_options_spec(h.page_fault, KERNEL_GATE) }
    else if vector == TIMER_VECTOR { IdtEntry::with_options_spec(h.timer, KERNEL_GATE) }
    else if vector == KEYBOARD_VECTOR { IdtEntry::with_options_spec(h.keyboard, KERNEL_GATE) }
    else if vector == MOUSE_VECTOR { IdtEntry::with_options_spec(h.mouse, KERNEL_GATE) }
    else if vector == SYSCALL_VECTOR { IdtEntry::with_options_spec(h.syscall, USER_GATE) }
    else { IdtEntry::with_options_spec(h.default, KERNEL_GATE) }
}

/// The descriptor table of the kernel.
pub fn build_idt(h: &IdtHandlers) -> (r: Vec<IdtEntry>)
    ensures
        r@.len() == IDT_ENTRIES,
        forall|v: int| 0 <= v < IDT_ENTRIES ==> #[trigger] r@[v] == idt_gate(*h, v),
{
    let mut idt: Vec<IdtEntry> = Vec::new();
    let mut v: usize = 0;
    while v < IDT_ENTRIES
        invariant v <= IDT_ENTRIES, idt@.len() == v,
            forall|k: int| 0 <= k < v ==> (#[trigger] idt@[k]) == IdtEntry::with_options_spec(h.default, KERNEL_GATE),
        decreases IDT_ENTRIES - v,
    {
        idt.push(IdtEntry::new(h.default));
        v += 1;
    }
    idt.set(GENERAL_PROTECTION_VECTOR, IdtEntry::new(h.general_protection));
    idt.set(PAGE_FAULT_VECTOR, IdtEntry::new(h.page_fault));
    idt.set(TIMER_VECTOR, IdtEntry::new(h.timer));
    idt.set(KEYBOARD_VECTOR, IdtEntry::new(h.keyboard));
    idt.set(MOUSE_VECTOR, IdtEntry::new(h.mouse));
    idt.set(SYSCALL_VECTOR, IdtEntry::new_user(h.syscall));
    idt
}

/// The `lidt` limit of the table: its size in bytes minus one.
pub fn idt_limit() -> (r: u16)
    ensures r == IDT_ENTRIES * 16 - 1,
{
    (IDT_ENTRIES * 16 - 1) as u16
}

/// The `STAR` value for `syscall`/`sysret`: the kernel code selector in
/// bits 32..48, the user base selector (user data minus 8) in bits 48..64.
pub fn star_value() -> (r: u64)
    ensures r == (USER_DATA_SELECTOR - 8) as u64 * 0x1_0000_0000_0000 + KERNEL_CODE_SELECTOR as u64 * 0x1_0000_0000,
{
    let kernel_code = KERNEL_CODE_SELECTOR as u64;
    let user_star = (USER_DATA_SELECTOR as u64) - 8;
    let r = (user_star << 48) | (kernel_code << 32);
    assert(((0x13u64 << 48u64) | (0x08u64 << 32u64)) == 0x13u64 * 0x1_0000_0000_0000 + 0x08u64 * 0x1_0000_0000) by (bit_vector);
    r
}

/// The timer divisor for `hz` interrupts per second (the low 16 bits of
/// the quotient are programmed).
pub fn pit_divisor(hz: u32) -> (r: u16)
    requires hz > 0,
    ensures r == (PIT_FREQUENCY / hz) % 65536,
{
    ((PIT_FREQUENCY / hz) % 65536) as u16
}

/// The two bytes of a timer divisor, low first.
pub fn pit_divisor_bytes(divisor: u16) -> (r: (u8, u8))
    ensures r.0 == divisor % 256, r.1 == divisor / 256,
{
    ((divisor % 256) as u8, (divisor / 256) as u8)
}

/// Unmasking interrupt line `irq`: whether the second controller holds it,
/// and the new mask given the controller's mask `mask`.
pub fn unmask_irq(irq: u8, mask: u8) -> (r: (bool, u8))
    requires irq < 16,
    ensures
        r.0 == (irq >= 8),
        r.1 == mask & !(1u8 << (if irq < 8 { irq } else { (irq - 8) as u8 })),
{
    let line: u8 = if irq < 8 { irq } else { irq - 8 };
    (irq >= 8, mask & !(1u8 << line))
}

/// Whether ending interrupt `irq` needs an end-of-interrupt at the second
/// controller too (the first always gets one).
pub fn eoi_second_controller(irq: u8) -> (r: bool)
    ensures r == (irq >= 8),
{
    irq >= 8
}

/// What the task viewer's info call packs for slot `index`: `index + 1`,
/// the flags (running or waiting 1, current 2) in bits 8..16 and the low
/// 32 bits of the ticks in bits 16..48; 0 for an empty slot.
pub open spec fn packed_info_spec(sched: UserScheduler, index: int) -> int {
    if index >= sched.installed { 0 } else {
        let t = sched.slot(index);
        let flags = (if alive(t) { 1int } else { 0 }) + (if index == sched.current { 2int } else { 0 });
        (index + 1) + 256 * flags + 65536 * (t.ticks % 4294967296)
    }
}

/// The task viewer's info word for slot `index` (see `packed_info_spec`).
pub fn packed_task_info(sched: &UserScheduler, index: usize) -> (r: u64)
    requires sched.wf(),
    ensures r == packed_info_spec(*sched, index as int),
{
    let info = match sched.task_info(index) { Some(i) => i, None => return 0 };
    let name_id = index as u64 + 1;
    let mut flags: u64 = 0;
    if info.active {
        flags = flags | 1;
    }
    if info.current {
        flags = flags | 2;
    }
    let ticks = info.ticks;
    proof {
        assert(name_id < 256);
        assert((0u64 | 1u64) == 1u64 && (0u64 | 2u64) == 2u64 && (1u64 | 2u64) == 3u64) by (bit_vector);
    }
    let r = name_id | (flags << 8) | ((ticks & 0x0000_ffff_ffff) << 16);
    proof {
        assert(name_id < 256 && flags < 4 ==> (name_id | (flags << 8u64) | ((ticks & 0xffff_ffffu64) << 16u64))
            == name_id + 256 * flags + 65536 * (ticks % 0x1_0000_0000)) by (bit_vector);
    }
    r
}

/// The counters the timer handler keeps for its log lines.
pub struct TimerState {
    pub ticks: u64,
    pub switch_logs: u64,
}

/// What one timer interrupt decided.
pub struct TimerOutcome {
    /// Log the tick (the first, then every 100th).
    pub log_tick: bool,
    /// The task to switch to.
    pub switch: Option<UserSwitch>,
    /// Log the switch (the first 16, then every 100th).
    pub log_switch: bool,
}

impl TimerState {
    /// Nothing counted yet.
    pub fn new() -> (r: TimerState)
        ensures r.ticks == 0 && r.switch_logs == 0,
    {
        TimerState { ticks: 0, switch_logs: 0 }
    }

    /// One timer interrupt: the kernel clock advances, sleepers whose time
    /// has come are woken, and the user scheduler picks the next task
    /// (`frame` is the interrupted one, `fs_base` its FS base).
    pub fn on_timer(&mut self, kernel: &mut Scheduler, sched: &mut UserScheduler, frame: &mut TrapFrame, fs_base: u64) -> (r: TimerOutcome)
        requires old(kernel).wf(), old(sched).wf(),
        ensures
            final(kernel).wf(), final(sched).wf(),
            final(self).ticks == old(self).ticks.wrapping_add(1),
            r.log_tick == (final(self).ticks == 1 || final(self).ticks % 100 == 0),
            final(kernel).ticks == old(kernel).ticks.wrapping_add(1),
            r.switch is None ==> final(self).switch_logs == old(self).switch_logs && !r.log_switch,
            r.switch is Some ==> final(self).switch_logs == old(self).switch_logs.wrapping_add(1)
                && r.log_switch == !(final(self).switch_logs > 16 && final(self).switch_logs % 100 != 0),
    {
        self.ticks = self.ticks.wrapping_add(1);
        kernel.tick();
        let now = kernel.ticks();
        sched.wake_timeouts(now);
        let log_tick = self.ticks == 1 || self.ticks % 100 == 0;
        let switch = sched.schedule(frame, fs_base);
        let log_switch = match switch {
            Some(_) => {
                self.switch_logs = self.switch_logs.wrapping_add(1);
                !(self.switch_logs > 16 && self.switch_logs % 100 != 0)
            },
            None => false,
        };
        TimerOutcome { log_tick, switch, log_switch }
    }
}

/// What a native system call leaves for the kernel to do outside.
#[derive(Clone, Copy, PartialEq, Eq, Structural)]
pub enum NativeEffect {
    /// Nothing more.
    Done,
    /// Power the machine off.
    Shutdown,
    /// Log an unknown call number (its low byte).
    Unknown(u8),
}

/// The text colour of call 18.
pub const TEXT_COLOR: u32 = 0x001a202c;

/// Native system call numbers.
pub const NATIVE_YIELD: u64 = 0;
pub const NATIVE_CLEAR: u64 = 16;
pub const NATIVE_RECT: u64 = 17;
pub const NATIVE_TEXT: u64 = 18;
pub const NATIVE_POP_KEY: u64 = 19;
pub const NATIVE_MOUSE: u64 = 20;
pub const NATIVE_TEXT_COLOR: u64 = 21;
pub const NATIVE_TASK_COUNT: u64 = 22;
pub const NATIVE_TASK_INFO: u64 = 23;
pub const NATIVE_RESTART: u64 = 24;
pub const NATIVE_SET_FOCUS: u64 = 25;
pub const NATIVE_FOCUS: u64 = 26;
pub const NATIVE_SHUTDOWN: u64 = 32;

/// Whether native call `nr` draws text from user memory (at `rdx`, `r10`
/// bytes long), so the kernel reads it first.
pub fn native_reads_text(nr: u64) -> (r: bool)
    ensures r == (nr == NATIVE_TEXT || nr == NATIVE_TEXT_COLOR),
{
    nr == NATIVE_TEXT || nr == NATIVE_TEXT_COLOR
}

/// A native system call (number in `rax`, arguments in `rdi`, `rsi`,
/// `rdx`, `r10`, `r8`): drawing calls paint through the GUI (`text` holds
/// the bytes the kernel read for the text calls), the others read the
/// keyboard, the mouse or the task table, restart or focus a task. The
/// result goes to `rax` (0 for calls without one).
pub fn native_syscall(gui: &mut Gui, keyboard: &mut KeyboardBuffer, mouse: &MouseState, sched: &mut UserScheduler,
    frame: &mut TrapFrame, text: &[u8]) -> (r: NativeEffect)
    requires old(gui).wf(), old(keyboard).wf(), mouse.wf(), old(sched).wf(),
    ensures
        final(gui).wf(), final(keyboard).wf(), final(sched).wf(),
        final(frame).rax == match old(frame).rax {
            19 => if old(keyboard)@.len() == 0 { 0u64 } else { old(keyboard)@[0] as u64 },
            20 => crate::mouse::spec_packed(mouse.x as int, mouse.y as int, mouse.buttons as int, mouse.sequence as int) as u64,
            22 => old(sched).installed as u64,
            23 => packed_info_spec(*old(sched), old(frame).rdi as usize as int) as u64,
            24 => if (old(frame).rdi as usize) < old(sched).installed { 0u64 } else { 1u64 },
            26 => old(sched).focus as u64,
            _ => 0u64,
        },
        r == match old(frame).rax {
            0 | 16 | 17 | 18 | 19 | 20 | 21 | 22 | 23 | 24 | 25 | 26 => NativeEffect::Done,
            32 => NativeEffect::Shutdown,
            n => NativeEffect::Unknown((n % 256) as u8),
        },
        old(frame).rax != 19 ==> final(keyboard)@ == old(keyboard)@,
        old(frame).rax == 19 ==> final(keyboard)@ == if old(keyboard)@.len() == 0 { old(keyboard)@ } else { old(keyboard)@.drop_first() },
        ({ let f = *final(frame); f == TrapFrame { rax: f.rax, ..*old(frame) } }),
{
    let nr = frame.rax;
    let mut effect = NativeEffect::Done;
    let mut result: u64 = 0;
    if nr == NATIVE_YIELD {
    } else if nr == NATIVE_CLEAR {
        gui.clear(frame.rdi as u32);
    } else if nr == NATIVE_RECT {
        let x = frame.rdi as usize;
        let y = frame.rsi as usize;
        let w = frame.rdx as usize;
        let h = frame.r10 as usize;
        if x <= usize::MAX - w && y <= usize::MAX - h {
            gui.rect(x, y, w, h, frame.r8 as u32);
        }
    } else if nr == NATIVE_TEXT || nr == NATIVE_TEXT_COLOR {
        let x = frame.rdi as usize;
        let y = frame.rsi as usize;
        let color = if nr == NATIVE_TEXT { TEXT_COLOR } else { frame.r8 as u32 };
        if x <= usize::MAX - (256 * 33 + 32) && y <= usize::MAX - 32 {
            gui.text(x, y, text, color);
        }
    } else if nr == NATIVE_POP_KEY {
        result = match keyboard.pop() { Some(b) => b as u64, None => 0 };
    } else if nr == NATIVE_MOUSE {
        result = mouse.packed();
    } else if nr == NATIVE_TASK_COUNT {
        result = sched.task_count() as u64;
    } else if nr == NATIVE_TASK_INFO {
        result = packed_task_info(sched, frame.rdi as usize);
    } else if nr == NATIVE_RESTART {
        gui.reset_console();
        result = if sched.restart(frame.rdi as usize) { 0 } else { 1 };
    } else if nr == NATIVE_SET_FOCUS {
        sched.set_focus(frame.rdi as usize);
    } else if nr == NATIVE_FOCUS {
        result = sched.focus() as u64;
    } else if nr == NATIVE_SHUTDOWN {
        effect = NativeEffect::Shutdown;
    } else {
        effect = NativeEffect::Unknown((nr % 256) as u8);
    }
    frame.rax = result;
    effect
}

/// Ports of the two interrupt controllers.
pub const PIC1_COMMAND: u16 = 0x20;
pub const PIC1_DATA: u16 = 0x21;
pub const PIC2_COMMAND: u16 = 0xa0;
pub const PIC2_DATA: u16 = 0xa1;
/// The port written to wait a moment between controller commands.
pub const IO_WAIT_PORT: u16 = 0x80;

/// The port writes that move the controllers' interrupts to vectors 32
/// and 40 (initialise, vector bases, cascade wiring, 8086 mode, each
/// followed by a wait) and then restore the masks `mask1` and `mask2`
/// read before.
pub open spec fn pic_remap_spec(mask1: u8, mask2: u8) -> Seq<(u16, u8)> {
    seq![
        (PIC1_COMMAND, 0x11u8), (IO_WAIT_PORT, 0u8), (PIC2_COMMAND, 0x11u8), (IO_WAIT_PORT, 0u8),
        (PIC1_DATA, 0x20u8), (IO_WAIT_PORT, 0u8), (PIC2_DATA, 0x28u8), (IO_WAIT_PORT, 0u8),
        (PIC1_DATA, 0x04u8), (IO_WAIT_PORT, 0u8), (PIC2_DATA, 0x02u8), (IO_WAIT_PORT, 0u8),
        (PIC1_DATA, 0x01u8), (IO_WAIT_PORT, 0u8), (PIC2_DATA, 0x01u8), (IO_WAIT_PORT, 0u8),
        (PIC1_DATA, mask1), (PIC2_DATA, mask2)
    ]
}

/// The port writes of the controller remapping (see `pic_remap_spec`).
pub fn pic_remap(mask1: u8, mask2: u8) -> (r: Vec<(u16, u8)>)
    ensures r@ == pic_remap_spec(mask1, mask2),
{
    let r = vec![
        (PIC1_COMMAND, 0x11u8), (IO_WAIT_PORT, 0u8), (PIC2_COMMAND, 0x11u8), (IO_WAIT_PORT, 0u8),
        (PIC1_DATA, 0x20u8), (IO_WAIT_PORT, 0u8), (PIC2_DATA, 0x28u8), (IO_WAIT_PORT, 0u8),
        (PIC1_DATA, 0x04u8), (IO_WAIT_PORT, 0u8), (PIC2_DATA, 0x02u8), (IO_WAIT_PORT, 0u8),
        (PIC1_DATA, 0x01u8), (IO_WAIT_PORT, 0u8), (PIC2_DATA, 0x01u8), (IO_WAIT_PORT, 0u8),
        (PIC1_DATA, mask1), (PIC2_DATA, mask2)
    ];
    proof { assert(r@ =~= pic_remap_spec(mask1, mask2)); }
    r
}

} // verus!
