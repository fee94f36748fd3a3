//! Pointer and window geometry of the user-space desktop programs: the
//! taskbar panel and the draggable shell window.
use vstd::prelude::*;
use crate::mouse::spec_packed;

verus! {

/// Taskbar height in pixels.
pub const TASKBAR_HEIGHT: u64 = 36;
/// Shell window width (without its shadow).
pub const WINDOW_WIDTH: u64 = 680;
/// Shell window height (without its shadow).
pub const WINDOW_HEIGHT: u64 = 340;
/// Shell window title bar height.
pub const TITLE_HEIGHT: u64 = 40;
/// Process slot of the terminal.
pub const TASK_SHELL: u64 = 1;
/// Process slot of the task viewer.
pub const TASK_TASKVIEW: u64 = 2;
/// Process slot of `cat`.
pub const TASK_CAT: u64 = 3;

/// The pointer as a program sees it.
#[derive(Clone, Copy)]
pub struct Mouse {
    pub x: u64,
    pub y: u64,
    pub buttons: u8,
    pub seq: u8,
}

/// Decodes the word of the pointer syscall.
pub fn unpack_mouse(packed: u64) -> (r: Mouse)
    ensures
        r.x == packed % 65536,
        r.y == (packed / 65536) % 65536,
        r.buttons == (packed / 4294967296) % 256,
        r.seq == (packed / 1099511627776) % 256,
{
    Mouse {
        x: packed % 65536,
        y: (packed / 65536) % 65536,
        buttons: ((packed / 4294967296) % 256) as u8,
        seq: ((packed / 1099511627776) % 256) as u8,
    }
}

/// Decoding the word the kernel packs gives back the pointer state it packed.
pub proof fn lemma_pointer_roundtrip(x: u16, y: u16, buttons: u8, seq: u8)
    ensures ({
        let p = spec_packed(x as int, y as int, buttons as int, seq as int);
        &&& p % 65536 == x
        &&& (p / 65536) % 65536 == y
        &&& (p / 4294967296) % 256 == buttons
        &&& (p / 1099511627776) % 256 == seq
    }),
{
    let p = spec_packed(x as int, y as int, buttons as int, seq as int);
    let x64 = x as u64;
    let y64 = y as u64;
    let b64 = buttons as u64;
    let s64 = seq as u64;
    assert((x64 + y64 * 65536 + b64 * 4294967296 + s64 * 1099511627776) % 65536 == x64
        && ((x64 + y64 * 65536 + b64 * 4294967296 + s64 * 1099511627776) / 65536) % 65536 == y64
        && ((x64 + y64 * 65536 + b64 * 4294967296 + s64 * 1099511627776) / 4294967296) % 256 == b64
        && ((x64 + y64 * 65536 + b64 * 4294967296 + s64 * 1099511627776) / 1099511627776) % 256 == s64)
        by (bit_vector)
        requires x64 < 65536, y64 < 65536, b64 < 256, s64 < 256;
}

/// Whether the pointer is on the taskbar.
pub fn hit_taskbar(mouse: Mouse) -> (r: bool)
    ensures r == (mouse.y < TASKBAR_HEIGHT),
{
    mouse.y < TASKBAR_HEIGHT
}

/// The slot whose taskbar tab of the panel program lies under column `x`
/// (0 when none).
pub fn panel_click_target(x: u64) -> (r: u64)
    ensures
        r == if 52 <= x < 160 { 1u64 } else if 170 <= x < 278 { 2u64 } else if 288 <= x < 396 { 3u64 } else { 0u64 },
{
    if x >= 52 && x < 160 {
        1
    } else if x >= 170 && x < 278 {
        2
    } else if x >= 288 && x < 396 {
        3
    } else {
        0
    }
}

/// The slot whose tab of the shell window's taskbar lies under the pointer
/// (0 when none).
pub fn shell_click_target(mouse: Mouse) -> (r: u64)
    ensures
        r == if 52 <= mouse.x < 152 { TASK_SHELL } else if 170 <= mouse.x < 270 { TASK_TASKVIEW }
            else if 288 <= mouse.x < 388 { TASK_CAT } else { 0 },
{
    if mouse.x >= 52 && mouse.x < 152 {
        TASK_SHELL
    } else if mouse.x >= 170 && mouse.x < 270 {
        TASK_TASKVIEW
    } else if mouse.x >= 288 && mouse.x < 388 {
        TASK_CAT
    } else {
        0
    }
}

/// Whether the pointer is on the title bar of the shell window at (`x`, `y`),
/// given which slot has the focus.
pub fn hit_title(mouse: Mouse, x: u64, y: u64, focus: u64) -> (r: bool)
    requires
        x + WINDOW_WIDTH <= u64::MAX,
        y + TITLE_HEIGHT <= u64::MAX,
    ensures
        r == (focus == TASK_SHELL && x <= mouse.x < x + WINDOW_WIDTH && y <= mouse.y < y + TITLE_HEIGHT),
{
    focus == TASK_SHELL && mouse.x >= x && mouse.x < x + WINDOW_WIDTH && mouse.y >= y && mouse.y < y + TITLE_HEIGHT
}

/// Whether the pointer's sprite overlaps the shell window (with its shadow).
pub fn pointer_hits_window(mouse: Mouse, x: u64, y: u64) -> (r: bool)
    requires
        mouse.x + 14 <= u64::MAX,
        mouse.y + 22 <= u64::MAX,
        x + 688 <= u64::MAX,
        y + 348 <= u64::MAX,
    ensures
        r == (mouse.x + 14 >= x && mouse.x < x + 688 && mouse.y + 22 >= y && mouse.y < y + 348),
{
    mouse.x + 14 >= x && mouse.x < x + 688 && mouse.y + 22 >= y && mouse.y < y + 348
}

/// Where a dragged window goes: the pointer minus the grab offset, kept
/// inside the desktop.
pub fn drag_position(pointer: u64, grab: u64, lo: u64, hi: u64) -> (r: u64)
    requires lo <= hi,
    ensures
        r == if pointer >= grab {
            if pointer - grab < lo { lo as int } else if pointer - grab > hi { hi as int } else { pointer - grab }
        } else { lo as int },
        lo <= r <= hi,
{
    let v = if pointer >= grab { pointer - grab } else { 0 };
    if v < lo { lo } else if v > hi { hi } else { v }
}

/// What the shell window's one-line command did.
#[derive(Clone, Copy, PartialEq, Eq)]
pub enum Output {
    Ready,
    Version,
    Cat,
    CatMissing,
    Shutdown,
    Unknown,
}

/// The shell window's commands.
#[derive(Clone, Copy, PartialEq, Eq)]
pub enum ShellCommand {
    Version,
    Cat,
    Shutdown,
    Unknown,
}

/// Whether `s` spells the ASCII word `w`.
pub open spec fn spells(s: Seq<u8>, w: Seq<u8>) -> bool {
    s == w
}

/// "version"
pub open spec fn word_version() -> Seq<u8> { seq![118u8, 101, 114, 115, 105, 111, 110] }
/// "cat"
pub open spec fn word_cat() -> Seq<u8> { seq![99u8, 97, 116] }
/// "shutdown"
pub open spec fn word_shutdown() -> Seq<u8> { seq![115u8, 104, 117, 116, 100, 111, 119, 110] }

/// Whether two byte strings are equal.
pub fn bytes_equal(a: &[u8], b: &[u8]) -> (r: bool)
    ensures r == (a@ == b@),
{
    if a.len() != b.len() {
        return false;
    }
    let mut i: usize = 0;
    while i < a.len()
        invariant
            a@.len() == b@.len(),
            0 <= i <= a@.len(),
            forall|j: int| 0 <= j < i ==> a@[j] == b@[j],
        decreases a@.len() - i,
    {
        if a[i] != b[i] {
            return false;
        }
        i += 1;
    }
    assert(a@ =~= b@);
    true
}

/// Classifies the shell window's command line.
pub fn classify_command(command: &[u8]) -> (r: ShellCommand)
    ensures
        r == if command@ == word_version() { ShellCommand::Version }
            else if command@ == word_cat() { ShellCommand::Cat }
            else if command@ == word_shutdown() { ShellCommand::Shutdown }
            else { ShellCommand::Unknown },
{
    let version: [u8; 7] = [118, 101, 114, 115, 105, 111, 110];
    let cat: [u8; 3] = [99, 97, 116];
    let shutdown: [u8; 8] = [115, 104, 117, 116, 100, 111, 119, 110];
    proof {
        assert(version@ =~= word_version());
        assert(cat@ =~= word_cat());
        assert(shutdown@ =~= word_shutdown());
    }
    if bytes_equal(command, &version) {
        ShellCommand::Version
    } else if bytes_equal(command, &cat) {
        ShellCommand::Cat
    } else if bytes_equal(command, &shutdown) {
        ShellCommand::Shutdown
    } else {
        ShellCommand::Unknown
    }
}

/// The output line a command leads to; `cat_started` is what the kernel
/// answered to starting `cat`.
pub fn command_output(command: ShellCommand, cat_started: bool) -> (r: Output)
    ensures
        r == match command {
            ShellCommand::Version => Output::Version,
            ShellCommand::Cat => if cat_started { Output::Cat } else { Output::CatMissing },
            ShellCommand::Shutdown => Output::Shutdown,
            ShellCommand::Unknown => Output::Unknown,
        },
{
    match command {
        ShellCommand::Version => Output::Version,
        ShellCommand::Cat => if cat_started { Output::Cat } else { Output::CatMissing },
        ShellCommand::Shutdown => Output::Shutdown,
        ShellCommand::Unknown => Output::Unknown,
    }
}

/// The command a command line names.
pub open spec fn command_of(line: Seq<u8>) -> ShellCommand {
    if line == word_version() { ShellCommand::Version }
    else if line == word_cat() { ShellCommand::Cat }
    else if line == word_shutdown() { ShellCommand::Shutdown }
    else { ShellCommand::Unknown }
}

/// Room of the shell window's command line.
pub const INPUT_CAP: usize = 32;

/// Whether the command line takes `key`: a lower-case letter, a digit or a
/// space.
pub open spec fn typed_key(key: u8) -> bool {
    (97 <= key <= 122) || (48 <= key <= 57) || key == 32
}

/// The command line after `key`: Enter empties it, backspace drops its
/// last byte, a typed key is added while there is room; other keys leave
/// it as it is.
pub open spec fn edited_line(line: Seq<u8>, key: u8) -> Seq<u8> {
    if key == 10 {
        Seq::empty()
    } else if key == 8 {
        if line.len() == 0 { line } else { line.drop_last() }
    } else if typed_key(key) && line.len() < INPUT_CAP {
        line.push(key)
    } else {
        line
    }
}

/// The shell window's handling of a key (0 when none came) while slot
/// `focus` has the focus: only with the focus does a key edit the command
/// line, and Enter hands back the command the line named.
pub fn edit_line(line: &mut Vec<u8>, key: u8, focus: u64) -> (r: Option<ShellCommand>)
    requires old(line)@.len() <= INPUT_CAP,
    ensures
        final(line)@.len() <= INPUT_CAP,
        key == 0 || focus != TASK_SHELL ==> final(line)@ == old(line)@ && r is None,
        key != 0 && focus == TASK_SHELL ==> final(line)@ == edited_line(old(line)@, key)
            && r == (if key == 10 { Some(command_of(old(line)@)) } else { None }),
{
    if key == 0 || focus != TASK_SHELL {
        return None;
    }
    if key == 10 {
        let command = classify_command(line.as_slice());
        line.clear();
        return Some(command);
    }
    if key == 8 {
        if line.len() > 0 {
            line.pop();
        }
        return None;
    }
    let typed = (key >= 97 && key <= 122) || (key >= 48 && key <= 57) || key == 32;
    if typed && line.len() < INPUT_CAP {
        line.push(key);
    }
    None
}

/// Where the shell window stands and whether it is being dragged (with the
/// pointer's offset from its corner).
#[derive(Clone, Copy)]
pub struct Drag {
    pub x: u64,
    pub y: u64,
    pub dragging: bool,
    pub grab_x: u64,
    pub grab_y: u64,
}

/// The window's left edge stays in 20..=720.
pub const DRAG_MIN_X: u64 = 20;
/// See `DRAG_MIN_X`.
pub const DRAG_MAX_X: u64 = 720;
/// The window's top edge stays in 50..=420.
pub const DRAG_MIN_Y: u64 = 50;
/// See `DRAG_MIN_Y`.
pub const DRAG_MAX_Y: u64 = 420;

impl Drag {
    /// The window where the shell first draws it, not dragged.
    pub fn new() -> (r: Drag)
        ensures r.x == 150 && r.y == 96 && !r.dragging && r.grab_x == 0 && r.grab_y == 0, r.wf(),
    {
        Drag { x: 150, y: 96, dragging: false, grab_x: 0, grab_y: 0 }
    }

    /// The window lies where dragging can put it (its first place does too).
    pub open spec fn wf(&self) -> bool {
        self.x <= DRAG_MAX_X && self.y <= DRAG_MAX_Y
    }
}

/// What the shell does after the pointer changed.
#[derive(Clone, Copy, PartialEq, Eq)]
pub enum PointerAction {
    /// A click on the taskbar: give the focus to this slot (0: none) and
    /// redraw.
    Focus(u64),
    /// The window moved: redraw the desktop and the window.
    Redraw,
    /// Only the pointer moved: repair what it uncovered.
    Repair,
}

/// `a - b`, or 0 below zero.
pub open spec fn sat_sub(a: u64, b: u64) -> u64 {
    if a >= b { (a - b) as u64 } else { 0 }
}

/// Where dragging puts an edge: the pointer minus the grab offset, kept in
/// `lo..=hi`.
pub open spec fn dragged(pointer: u64, grab: u64, lo: u64, hi: u64) -> u64 {
    let v = sat_sub(pointer, grab);
    if v < lo { lo } else if v > hi { hi } else { v }
}

/// The slot of the taskbar tab under the pointer (0 when none).
pub open spec fn tab_under(mouse: Mouse) -> u64 {
    if 52 <= mouse.x < 152 { TASK_SHELL } else if 170 <= mouse.x < 270 { TASK_TASKVIEW }
    else if 288 <= mouse.x < 388 { TASK_CAT } else { 0 }
}

/// The shell window's handling of a new pointer state `mouse` while slot
/// `focus` has the focus: a press on the taskbar picks the focus; a press
/// on the focused window's title bar starts a drag (a drag ends when the
/// button is up); while dragging, the window follows the pointer.
pub open spec fn pointer_step(d: Drag, mouse: Mouse, focus: u64) -> (Drag, PointerAction) {
    let down = mouse.buttons % 2 == 1;
    if down && mouse.y < TASKBAR_HEIGHT {
        (d, PointerAction::Focus(tab_under(mouse)))
    } else {
        let grab = down && !d.dragging && focus == TASK_SHELL
            && d.x <= mouse.x < d.x + WINDOW_WIDTH && d.y <= mouse.y < d.y + TITLE_HEIGHT;
        let d1 = if grab {
            Drag { dragging: true, grab_x: sat_sub(mouse.x, d.x), grab_y: sat_sub(mouse.y, d.y), ..d }
        } else if !down {
            Drag { dragging: false, ..d }
        } else {
            d
        };
        if d1.dragging {
            (Drag { x: dragged(mouse.x, d1.grab_x, DRAG_MIN_X, DRAG_MAX_X), y: dragged(mouse.y, d1.grab_y, DRAG_MIN_Y, DRAG_MAX_Y), ..d1 },
                PointerAction::Redraw)
        } else {
            (d1, PointerAction::Repair)
        }
    }
}

/// Applies `pointer_step`.
pub fn step_pointer(d: Drag, mouse: Mouse, focus: u64) -> (r: (Drag, PointerAction))
    requires d.wf(),
    ensures r == pointer_step(d, mouse, focus), r.0.wf(),
{
    let down = mouse.buttons % 2 == 1;
    if down && hit_taskbar(mouse) {
        return (d, PointerAction::Focus(shell_click_target(mouse)));
    }
    let mut d1 = d;
    if down && !d.dragging && hit_title(mouse, d.x, d.y, focus) {
        d1.dragging = true;
        d1.grab_x = if mouse.x >= d.x { mouse.x - d.x } else { 0 };
        d1.grab_y = if mouse.y >= d.y { mouse.y - d.y } else { 0 };
    } else if !down {
        d1.dragging = false;
    }
    if d1.dragging {
        d1.x = drag_position(mouse.x, d1.grab_x, DRAG_MIN_X, DRAG_MAX_X);
        d1.y = drag_position(mouse.y, d1.grab_y, DRAG_MIN_Y, DRAG_MAX_Y);
        (d1, PointerAction::Redraw)
    } else {
        (d1, PointerAction::Repair)
    }
}

/// Colour of the focused program's taskbar entry.
pub const ACTIVE: u32 = 0x005f6f86;
/// Colour of the other taskbar entries.
pub const INACTIVE: u32 = 0x00343d4a;
/// Text colour of the focused entry.
pub const LIGHT: u32 = 0x00f3f5f7;
/// Text colour of the other entries.
pub const DIM: u32 = 0x00d2d8e2;

/// The name the panel shows for program `index`.
pub fn label(index: u64) -> (r: &'static str)
    ensures
        index == 1 ==> r@ == "shell"@,
        index == 2 ==> r@ == "tasks"@,
        index == 3 ==> r@ == "cat"@,
        !(1 <= index <= 3) ==> r@ == "gui"@,
{
    if index == 1 { "shell" } else if index == 2 { "tasks" } else if index == 3 { "cat" } else { "gui" }
}

/// Background and text colour of a taskbar entry.
pub fn entry_colors(active: bool) -> (r: (u32, u32))
    ensures r == if active { (ACTIVE, LIGHT) } else { (INACTIVE, DIM) },
{
    if active { (ACTIVE, LIGHT) } else { (INACTIVE, DIM) }
}

} // verus!
