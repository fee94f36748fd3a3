//! The terminal line discipline: keys are collected into a line (with
//! backspace and Ctrl-C) and handed to readers a line at a time, or byte by
//! byte for tasks in raw mode.
use vstd::prelude::*;
use crate::ring::{ByteRing, offered, offered_all};
use crate::scheduler::{UserScheduler, TrapFrame, UserSwitch, StdinWake, BlockReason, USER_TASKS};
use crate::services::Gui;

verus! {

/// Longest line collected (one cell stays free).
pub const LINE_CAP: usize = 1024;
/// Cells of the queue of bytes ready for readers.
pub const READY_CAP: usize = 4096;
/// `read` with nothing to return: try again.
pub const EAGAIN: i64 = -11;

/// The terminal.
pub struct Tty {
    pub line: Vec<u8>,
    pub ready: ByteRing,
    pub raw: Vec<bool>,
    pub foreground_pgid: u64,
}

/// What a `read` of the terminal did: the result for the reader (`None`
/// when it now waits and `switch` names the task to run), and the bytes to
/// copy to its buffer.
pub struct TtyRead {
    pub result: Option<i64>,
    pub bytes: Vec<u8>,
    pub switch: Option<UserSwitch>,
}

/// What a key did: whether it was Ctrl-C (the foreground group is
/// interrupted), the stdin reader it woke, and the byte that reader gets.
pub struct TtyInput {
    pub interrupt: bool,
    pub woken: Option<StdinWake>,
    pub byte: Option<u8>,
}

/// The line, the ready queue, the echo and whether it was Ctrl-C and
/// whether a reader should be woken, after a key in line mode.
pub open spec fn line_step(line: Seq<u8>, ready: Seq<u8>, byte: u8) -> (Seq<u8>, Seq<u8>, Seq<u8>, bool, bool) {
    if byte == 3 {
        (Seq::empty(), ready, seq![94u8, 67u8, 10u8], true, false)
    } else if byte == 8 || byte == 127 {
        if line.len() > 0 { (line.drop_last(), ready, seq![8u8], false, false) } else { (line, ready, Seq::empty(), false, false) }
    } else if byte == 10 || byte == 13 {
        (Seq::empty(), offered_all(ready, READY_CAP as nat, line.push(10u8)), seq![10u8], false, true)
    } else if byte >= 0x20 && line.len() < LINE_CAP - 1 {
        (line.push(byte), ready, seq![byte], false, false)
    } else {
        (line, ready, Seq::empty(), false, false)
    }
}

/// Backspace (8 or 127) erases the last typed byte: a non-empty line loses
/// exactly its last byte (what remains is its prefix one shorter) and the
/// terminal echoes a backspace; an empty line stays empty with no echo.
/// Nothing goes to readers.
pub proof fn lemma_backspace_erases_last(line: Seq<u8>, ready: Seq<u8>, byte: u8)
    requires byte == 8 || byte == 127,
    ensures ({
        let (l, q, echo, interrupt, wake) = line_step(line, ready, byte);
        &&& line.len() > 0 ==> l.len() == line.len() - 1 && l == line.subrange(0, line.len() - 1)
            && echo == seq![8u8]
        &&& line.len() == 0 ==> l.len() == 0 && echo.len() == 0
        &&& q == ready && !interrupt && !wake
    }),
{
}

/// Typing a byte and then backspace leaves the line as it was, whenever
/// the byte was taken (a printable byte, with room on the line).
pub proof fn lemma_type_then_backspace(line: Seq<u8>, ready: Seq<u8>, byte: u8, erase: u8)
    requires
        0x20 <= byte, byte != 127,
        line.len() < LINE_CAP - 1,
        erase == 8 || erase == 127,
    ensures ({
        let typed = line_step(line, ready, byte);
        &&& typed.0 == line.push(byte)
        &&& line_step(typed.0, typed.1, erase).0 == line
    }),
{
    assert(line.push(byte).drop_last() =~= line);
}

/// The task keys go to: the stdin reader, else the current task, else slot 0.
pub open spec fn key_task(s: UserScheduler) -> int {
    if s.initialized && exists|i: int| 0 <= i < s.installed && #[trigger] s.slot(i).waiting_stdin {
        choose|i: int| 0 <= i < s.installed && #[trigger] s.slot(i).waiting_stdin
            && forall|j: int| 0 <= j < i ==> !(#[trigger] s.slot(j)).waiting_stdin
    } else if s.initialized && s.installed > 0 {
        s.current as int
    } else {
        0
    }
}

impl Tty {
    /// The terminal's invariant.
    pub open spec fn wf(&self) -> bool {
        &&& self.line@.len() < LINE_CAP
        &&& self.ready.wf()
        &&& self.ready.cap() == READY_CAP
        &&& self.raw@.len() == USER_TASKS
    }

    /// An empty line and queue, no raw task, foreground group 1.
    pub fn new() -> (r: Tty)
        ensures
            r.wf(),
            r.line@ == Seq::<u8>::empty(),
            r.ready@ == Seq::<u8>::empty(),
            forall|i: int| 0 <= i < USER_TASKS ==> !r.raw@[i],
            r.foreground_pgid == 1,
    {
        Tty { line: Vec::new(), ready: ByteRing::new(READY_CAP), raw: vec![false; USER_TASKS], foreground_pgid: 1 }
    }

    /// Returns task `index` to line mode.
    pub fn reset_task(&mut self, index: usize)
        requires old(self).wf(),
        ensures
            final(self).wf(),
            final(self).raw@ == if index < USER_TASKS { old(self).raw@.update(index as int, false) } else { old(self).raw@ },
            final(self).line@ == old(self).line@,
            final(self).ready@ == old(self).ready@,
            final(self).foreground_pgid == old(self).foreground_pgid,
    {
        if index < USER_TASKS {
            self.raw.set(index, false);
        }
    }

    /// Puts task `index` in raw mode or line mode.
    pub fn set_raw(&mut self, index: usize, raw: bool)
        requires old(self).wf(),
        ensures
            final(self).wf(),
            final(self).raw@ == if index < USER_TASKS { old(self).raw@.update(index as int, raw) } else { old(self).raw@ },
            final(self).line@ == old(self).line@,
            final(self).ready@ == old(self).ready@,
            final(self).foreground_pgid == old(self).foreground_pgid,
    {
        if index < USER_TASKS {
            self.raw.set(index, raw);
        }
    }

    /// Whether task `index` is in raw mode.
    pub fn is_raw(&self, index: usize) -> (r: bool)
        requires self.wf(),
        ensures r == (index < USER_TASKS && self.raw@[index as int]),
    {
        index < USER_TASKS && self.raw[index]
    }

    /// Whether bytes are ready for a reader.
    pub fn has_input(&self) -> (r: bool)
        requires self.wf(),
        ensures r == (self.ready@.len() > 0),
    {
        self.ready.has_data()
    }

    /// The process group in the foreground.
    pub fn foreground_pgid(&self) -> (r: u64)
        ensures r == self.foreground_pgid,
    {
        self.foreground_pgid
    }

    /// Makes `pgid` the foreground group; group 0 is refused.
    pub fn set_foreground_pgid(&mut self, pgid: u64) -> (r: bool)
        ensures
            r == (pgid != 0),
            final(self).foreground_pgid == if pgid != 0 { pgid } else { old(self).foreground_pgid },
            final(self).line@ == old(self).line@,
            final(self).ready@ == old(self).ready@,
            final(self).raw@ == old(self).raw@,
            final(self).ready.wf() == old(self).ready.wf(),
            final(self).ready.cap() == old(self).ready.cap(),
    {
        if pgid == 0 {
            return false;
        }
        self.foreground_pgid = pgid;
        true
    }

    /// `read` of up to `len` bytes by task `task_index` into `buffer`: raw
    /// tasks get what is queued or `EAGAIN`; others get what is queued or
    /// wait for a line (`EAGAIN` when no other task can run).
    pub fn read(&mut self, sched: &mut UserScheduler, frame: &mut TrapFrame, task_index: usize, buffer: u64,
        len: usize, fs_base: u64) -> (r: TtyRead)
        requires old(self).wf(), old(sched).wf(),
        ensures
            final(self).wf(),
            final(sched).wf(),
            final(self).line@ == old(self).line@,
            final(self).raw@ == old(self).raw@,
            final(self).foreground_pgid == old(self).foreground_pgid,
            len == 0 ==> r.result == Some(0i64) && r.bytes@.len() == 0 && final(self).ready@ == old(self).ready@
                && *final(sched) == *old(sched) && *final(frame) == *old(frame),
            len > 0 && old(self).ready@.len() > 0 ==> {
                let n = if len < old(self).ready@.len() { len as int } else { old(self).ready@.len() as int };
                &&& r.bytes@ == old(self).ready@.take(n)
                &&& final(self).ready@ == old(self).ready@.skip(n)
                &&& r.result == Some(n as i64)
                &&& *final(sched) == *old(sched) && *final(frame) == *old(frame)
            },
            len > 0 && old(self).ready@.len() == 0 && task_index < USER_TASKS && old(self).raw@[task_index as int] ==>
                r.result == Some(EAGAIN) && r.bytes@.len() == 0 && final(self).ready@ == old(self).ready@
                && *final(sched) == *old(sched) && *final(frame) == *old(frame),
            len > 0 && old(self).ready@.len() == 0 && !(task_index < USER_TASKS && old(self).raw@[task_index as int]) ==> {
                &&& r.bytes@.len() == 0
                &&& final(self).ready@ == old(self).ready@
                &&& old(sched).block_outcome(*old(frame), fs_base, BlockReason::Stdin { buffer }, *final(sched), *final(frame), r.switch)
                &&& r.result == if r.switch is Some { None } else { Some(EAGAIN) }
            },
    {
        if len == 0 {
            return TtyRead { result: Some(0), bytes: Vec::new(), switch: None };
        }
        if self.ready.has_data() {
            let bytes = self.ready.pop_up_to(len);
            let count = bytes.len();
            return TtyRead { result: Some(count as i64), bytes, switch: None };
        }
        if task_index < USER_TASKS && self.raw[task_index] {
            return TtyRead { result: Some(EAGAIN), bytes: Vec::new(), switch: None };
        }
        let switch = sched.block_current_for_stdin(frame, buffer, fs_base);
        match switch {
            Some(s) => TtyRead { result: None, bytes: Vec::new(), switch: Some(s) },
            None => TtyRead { result: Some(EAGAIN), bytes: Vec::new(), switch: None },
        }
    }

    /// The task keys go to.
    pub fn key_task_index(sched: &UserScheduler) -> (r: usize)
        requires sched.wf(),
        ensures r == key_task(*sched), r < USER_TASKS,
    {
        match sched.stdin_waiter_index() {
            Some(i) => {
                proof {
                    let s = *sched;
                    let c = choose|k: int| 0 <= k < s.installed && #[trigger] s.slot(k).waiting_stdin
                        && forall|j: int| 0 <= j < k ==> !(#[trigger] s.slot(j)).waiting_stdin;
                    assert(s.slot(i as int).waiting_stdin);
                    if c < i { assert(!s.slot(c).waiting_stdin); }
                    if i < c { assert(!s.slot(i as int).waiting_stdin); }
                }
                i
            },
            None => match sched.current_index() {
                Some(i) => i,
                None => 0,
            },
        }
    }

    /// Wakes the stdin reader, if there is one, and takes the byte its read
    /// returns.
    fn wake_stdin_reader(&mut self, sched: &mut UserScheduler) -> (r: (Option<StdinWake>, Option<u8>))
        requires old(self).wf(), old(sched).wf(),
        ensures
            final(self).wf(),
            final(sched).wf(),
            old(sched).stdin_wake_outcome(*final(sched), r.0),
            final(self).line@ == old(self).line@,
            final(self).raw@ == old(self).raw@,
            final(self).foreground_pgid == old(self).foreground_pgid,
            r.0 is None || old(self).ready@.len() == 0 ==> r.1 is None && final(self).ready@ == old(self).ready@,
            r.0 is Some && old(self).ready@.len() > 0 ==> r.1 == Some(old(self).ready@[0])
                && final(self).ready@ == old(self).ready@.drop_first(),
    {
        let wake = sched.wake_stdin_waiter();
        match wake {
            Some(w) => {
                let b = self.ready.pop();
                (Some(w), b)
            },
            None => (None, None),
        }
    }

    /// A key from the keyboard. Raw tasks get it as it is; otherwise it
    /// edits the line (with echo), Ctrl-C drops the line and interrupts the
    /// foreground group, and Enter hands the line to readers.
    pub fn input_byte(&mut self, sched: &mut UserScheduler, gui: &mut Gui, byte: u8) -> (r: TtyInput)
        requires
            old(self).wf(), old(sched).wf(), old(gui).wf(),
            old(gui).console_write + 3 <= usize::MAX,
        ensures
            final(self).wf(),
            final(sched).wf(),
            final(gui).wf(),
            final(self).raw@ == old(self).raw@,
            final(self).foreground_pgid == old(self).foreground_pgid,
            ({
                let task = key_task(*old(sched));
                let raw = task < USER_TASKS && old(self).raw@[task];
                let (line, ready, echo, interrupt, wake) = if raw {
                    (old(self).line@, offered(old(self).ready@, READY_CAP as nat, byte), Seq::<u8>::empty(), false, true)
                } else {
                    line_step(old(self).line@, old(self).ready@, byte)
                };
                &&& final(self).line@ == line
                &&& final(gui).written@ == old(gui).written@ + echo
                &&& r.interrupt == interrupt
                &&& !wake ==> *final(sched) == *old(sched) && r.woken is None && r.byte is None && final(self).ready@ == ready
                &&& wake ==> old(sched).stdin_wake_outcome(*final(sched), r.woken)
                &&& wake && (r.woken is None || ready.len() == 0) ==> r.byte is None && final(self).ready@ == ready
                &&& wake && r.woken is Some && ready.len() > 0 ==> r.byte == Some(ready[0]) && final(self).ready@ == ready.drop_first()
            }),
    {
        let task = Self::key_task_index(sched);
        if self.raw[task] {
            self.ready.push(byte);
            let (woken, b) = self.wake_stdin_reader(sched);
            return TtyInput { interrupt: false, woken, byte: b };
        }
        if byte == 3 {
            self.line.clear();
            gui.console_write(&[94u8, 67u8, 10u8]);
            proof { assert(self.line@ =~= Seq::<u8>::empty()); }
            return TtyInput { interrupt: true, woken: None, byte: None };
        } else if byte == 8 || byte == 127 {
            if self.line.len() > 0 {
                self.line.pop();
                gui.console_write(&[8u8]);
                proof { assert(gui.written@ =~= old(gui).written@ + seq![8u8]); }
            } else {
                proof { assert(old(gui).written@ + Seq::<u8>::empty() =~= old(gui).written@); }
            }
            return TtyInput { interrupt: false, woken: None, byte: None };
        } else if byte == 10 || byte == 13 {
            gui.console_write(&[10u8]);
            proof { assert(gui.written@ =~= old(gui).written@ + seq![10u8]); }
            let ghost q0 = self.ready@;
            self.ready.push_bytes(self.line.as_slice());
            self.ready.push(10);
            proof {
                let l = old(self).line@;
                assert(l.push(10u8).drop_last() =~= l);
                assert(l.push(10u8).last() == 10u8);
                assert(offered_all(q0, READY_CAP as nat, l.push(10u8))
                    == offered(offered_all(q0, READY_CAP as nat, l), READY_CAP as nat, 10u8));
                assert(self.ready@ == offered_all(q0, READY_CAP as nat, l.push(10u8)));
            }
            self.line.clear();
            let (woken, b) = self.wake_stdin_reader(sched);
            proof { assert(self.line@ =~= Seq::<u8>::empty()); }
            return TtyInput { interrupt: false, woken, byte: b };
        } else if byte >= 0x20 && self.line.len() < LINE_CAP - 1 {
            self.line.push(byte);
            gui.console_write(&[byte]);
            proof { assert(gui.written@ =~= old(gui).written@ + seq![byte]); }
            return TtyInput { interrupt: false, woken: None, byte: None };
        }
        proof { assert(old(gui).written@ + Seq::<u8>::empty() =~= old(gui).written@); }
        TtyInput { interrupt: false, woken: None, byte: None }
    }
}

} // verus!
