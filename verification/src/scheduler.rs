//! The kernel task table and the user process table: which task runs next,
//! how tasks block and wake, and how processes are forked, exited and reaped.
//!
//! The process table decides; the interrupt and syscall paths outside the
//! library carry out what it decides (loading CR3, writing the FS base MSR,
//! storing a wait status into user memory).
use vstd::prelude::*;

verus! {

/// Number of user process slots.
pub const MAX_USER_TASKS: usize = 16;
/// Number of user process slots (the name the other modules use).
pub const USER_TASKS: usize = MAX_USER_TASKS;
/// Number of kernel task slots.
pub const KERNEL_TASKS: usize = 8;

/// Saved user register state, in the order the interrupt stubs push it.
#[derive(Clone, Copy)]
pub struct TrapFrame {
    pub r15: u64,
    pub r14: u64,
    pub r13: u64,
    pub r12: u64,
    pub r11: u64,
    pub r10: u64,
    pub r9: u64,
    pub r8: u64,
    pub rdi: u64,
    pub rsi: u64,
    pub rbp: u64,
    pub rbx: u64,
    pub rdx: u64,
    pub rcx: u64,
    pub rax: u64,
    pub rip: u64,
    pub cs: u64,
    pub rflags: u64,
    pub rsp: u64,
    pub ss: u64,
}

impl TrapFrame {
    /// A frame with every register zero.
    pub fn empty() -> (r: TrapFrame)
        ensures r == empty_frame(),
    {
        TrapFrame {
            r15: 0, r14: 0, r13: 0, r12: 0, r11: 0, r10: 0, r9: 0, r8: 0, rdi: 0, rsi: 0,
            rbp: 0, rbx: 0, rdx: 0, rcx: 0, rax: 0, rip: 0, cs: 0, rflags: 0, rsp: 0, ss: 0,
        }
    }
}

/// The all-zero frame.
pub open spec fn empty_frame() -> TrapFrame {
    TrapFrame {
        r15: 0, r14: 0, r13: 0, r12: 0, r11: 0, r10: 0, r9: 0, r8: 0, rdi: 0, rsi: 0,
        rbp: 0, rbx: 0, rdx: 0, rcx: 0, rax: 0, rip: 0, cs: 0, rflags: 0, rsp: 0, ss: 0,
    }
}

/// A frame that was interrupted while running in ring 3.
pub open spec fn from_user(frame: TrapFrame) -> bool {
    frame.cs % 4 == 3
}

/// A kernel task.
#[derive(Clone, Copy)]
pub struct Task {
    pub name: &'static str,
    pub ticks: u64,
}

/// The round-robin kernel task table.
pub struct Scheduler {
    pub tasks: [Option<Task>; 8],
    pub cursor: usize,
    pub ticks: u64,
}

/// Which system call convention a user task speaks.
#[derive(Clone, Copy, PartialEq, Eq)]
pub enum UserAbi {
    Native,
    Linux,
}

/// One slot of the user process table.
#[derive(Clone, Copy)]
pub struct UserTask {
    pub name: &'static str,
    pub pid: u64,
    pub parent_pid: u64,
    pub process_group: u64,
    pub session: u64,
    pub session_leader: bool,
    pub abi: UserAbi,
    pub pml4_phys: u64,
    pub initial_frame: TrapFrame,
    pub frame: TrapFrame,
    pub fs_base: u64,
    pub ticks: u64,
    pub active: bool,
    pub waiting_stdin: bool,
    pub stdin_buffer: u64,
    pub waiting_pipe_read: bool,
    pub pipe_id: u16,
    pub pipe_buffer: u64,
    pub waiting_child: bool,
    pub wait_pid: i32,
    pub wait_status: u64,
    pub waiting_timeout: bool,
    pub wake_tick: u64,
    pub zombie: bool,
    pub exit_status: i32,
}

/// The empty process slot.
pub open spec fn empty_task() -> UserTask {
    UserTask {
        name: "",
        pid: 0,
        parent_pid: 0,
        process_group: 0,
        session: 0,
        session_leader: false,
        abi: UserAbi::Native,
        pml4_phys: 0,
        initial_frame: empty_frame(),
        frame: empty_frame(),
        fs_base: 0,
        ticks: 0,
        active: false,
        waiting_stdin: false,
        stdin_buffer: 0,
        waiting_pipe_read: false,
        pipe_id: 0,
        pipe_buffer: 0,
        waiting_child: false,
        wait_pid: 0,
        wait_status: 0,
        waiting_timeout: false,
        wake_tick: 0,
        zombie: false,
        exit_status: 0,
    }
}

impl UserTask {
    /// The empty process slot.
    pub fn empty() -> (r: UserTask)
        ensures r == empty_task(),
    {
        UserTask {
            name: "",
            pid: 0,
            parent_pid: 0,
            process_group: 0,
            session: 0,
            session_leader: false,
            abi: UserAbi::Native,
            pml4_phys: 0,
            initial_frame: TrapFrame::empty(),
            frame: TrapFrame::empty(),
            fs_base: 0,
            ticks: 0,
            active: false,
            waiting_stdin: false,
            stdin_buffer: 0,
            waiting_pipe_read: false,
            pipe_id: 0,
            pipe_buffer: 0,
            waiting_child: false,
            wait_pid: 0,
            wait_status: 0,
            waiting_timeout: false,
            wake_tick: 0,
            zombie: false,
            exit_status: 0,
        }
    }
}

/// The FS base a freshly started program begins with.
pub fn initial_fs_base(frame: TrapFrame) -> (r: u64)
    ensures r == 0,
{
    0
}

/// The task to switch to: its name, its address space, and the FS base to load.
#[derive(Clone, Copy)]
pub struct UserSwitch {
    pub name: &'static str,
    pub pml4_phys: u64,
    pub fs_base: u64,
}

/// Where the byte read for a woken stdin reader goes.
#[derive(Clone, Copy)]
pub struct StdinWake {
    pub pml4_phys: u64,
    pub buffer: u64,
}

/// Where the data read for a woken pipe reader goes.
#[derive(Clone, Copy)]
pub struct PipeWake {
    pub pml4_phys: u64,
    pub buffer: u64,
}

/// A 32-bit store into a process's memory that the caller must perform.
#[derive(Clone, Copy)]
pub struct StatusWrite {
    pub pml4_phys: u64,
    pub address: u64,
    pub value: i32,
}

/// What the task viewer learns of a slot.
#[derive(Clone, Copy)]
pub struct UserTaskSnapshot {
    pub ticks: u64,
    pub active: bool,
    pub current: bool,
}

/// The outcome of `wait4`.
pub enum WaitResult {
    Exited(u64),
    Blocked(UserSwitch),
    NoChild,
}

/// The user process table.
pub struct UserScheduler {
    pub tasks: Vec<UserTask>,
    pub current: usize,
    pub installed: usize,
    pub focus: usize,
    pub next_pid: u64,
    pub initialized: bool,
}

/// A task that is runnable or blocked (not free and not a zombie).
pub open spec fn running_or_waiting(t: UserTask) -> bool {
    t.active || t.waiting_stdin || t.waiting_pipe_read || t.waiting_child || t.waiting_timeout
}

/// A task that is alive in any state, zombies included.
pub open spec fn alive(t: UserTask) -> bool {
    running_or_waiting(t) || t.zombie
}

/// Whether a `wait4` pid argument selects the child `child_pid`.
pub open spec fn wait_pid_selects(requested_pid: i32, child_pid: u64) -> bool {
    requested_pid <= 0 || child_pid == requested_pid as u64
}

/// Whether a `wait4` pid argument selects the child `child_pid`.
pub fn wait_pid_matches(requested_pid: i32, child_pid: u64) -> (r: bool)
    ensures r == wait_pid_selects(requested_pid, child_pid),
{
    requested_pid <= 0 || child_pid == requested_pid as u64
}

/// The first active slot met walking cyclically from `start`, looking at
/// `steps` slots among the first `installed`.
pub open spec fn next_active_spec(tasks: Seq<UserTask>, installed: int, start: int, steps: nat) -> Option<usize>
    decreases steps,
{
    if steps == 0 || installed <= 0 {
        None
    } else if 0 <= start < tasks.len() && tasks[start].active {
        Some(start as usize)
    } else {
        next_active_spec(tasks, installed, (start + 1) % installed, (steps - 1) as nat)
    }
}

/// The slot is a child of `parent_pid` that `wait4(requested_pid)` may collect
/// (a zombie), or, unless `zombie_only`, may wait for.
pub open spec fn waitable(t: UserTask, parent_pid: u64, requested_pid: i32, zombie_only: bool) -> bool {
    &&& t.pid != 0
    &&& t.parent_pid == parent_pid
    &&& !(requested_pid > 0 && t.pid != requested_pid as u64)
    &&& (t.zombie || (!zombie_only && running_or_waiting(t)))
}

/// A slot that `fork` may reuse.
pub open spec fn reusable(t: UserTask) -> bool {
    t.pid == 0 || !alive(t)
}

/// The slot after blocking: inactive with the given wait fields, frame saved.
pub open spec fn saved(t: UserTask, frame: TrapFrame, fs_base: u64) -> UserTask {
    UserTask { frame: frame, fs_base: fs_base, ..t }
}

impl UserScheduler {
    /// The table's invariant.
    pub open spec fn wf(&self) -> bool {
        &&& self.initialized ==> self.tasks.len() == USER_TASKS
        &&& !self.initialized ==> self.tasks.len() == 0 && self.installed == 0
        &&& self.installed <= USER_TASKS
        &&& self.current < USER_TASKS
        &&& self.installed > 0 ==> self.current < self.installed
        &&& self.installed == 0 ==> self.current == 0
        &&& self.focus < USER_TASKS
        &&& self.next_pid >= 2
    }

    /// The task in slot `i`.
    pub open spec fn slot(&self, i: int) -> UserTask {
        self.tasks@[i]
    }

    /// `self` with slot `i` replaced by `t` and every other field unchanged.
    pub open spec fn with_slot(&self, i: int, t: UserTask) -> Seq<UserTask> {
        self.tasks@.update(i, t)
    }

    /// The pid `alloc_pid` hands out next.
    pub open spec fn pid_after(p: u64) -> u64 {
        if p == u64::MAX { 2 } else if p + 1 < 2 { 2 } else { (p + 1) as u64 }
    }

    /// An empty, uninitialized table.
    pub fn new() -> (r: Self)
        ensures
            r.wf(),
            r.tasks@.len() == 0,
            r.current == 0,
            r.installed == 0,
            r.focus == 0,
            r.next_pid == 2,
            !r.initialized,
    {
        UserScheduler { tasks: Vec::new(), current: 0, installed: 0, focus: 0, next_pid: 2, initialized: false }
    }

    /// Creates the process slots, each empty. Idempotent.
    pub fn init_process_table(&mut self) -> (r: bool)
        requires
            old(self).wf(),
        ensures
            r,
            final(self).wf(),
            final(self).initialized,
            old(self).initialized ==> *final(self) == *old(self),
            !old(self).initialized ==> final(self).tasks@ == Seq::new(USER_TASKS as nat, |i: int| empty_task())
                && final(self).current == old(self).current
                && final(self).installed == old(self).installed
                && final(self).focus == old(self).focus
                && final(self).next_pid == old(self).next_pid,
    {
        if self.initialized {
            return true;
        }
        let mut index: usize = 0;
        while index < USER_TASKS
            invariant
                0 <= index <= USER_TASKS,
                self.tasks@ == Seq::new(index as nat, |i: int| empty_task()),
                self.current == old(self).current,
                self.installed == old(self).installed,
                self.focus == old(self).focus,
                self.next_pid == old(self).next_pid,
                !self.initialized,
            decreases USER_TASKS - index,
        {
            self.tasks.push(UserTask::empty());
            index += 1;
            assert(self.tasks@ =~= Seq::new(index as nat, |i: int| empty_task()));
        }
        self.initialized = true;
        true
    }

    /// Whether the slots exist.
    pub fn is_ready(&self) -> (r: bool)
        ensures r == self.initialized,
    {
        self.initialized
    }

    /// A copy of slot `index`, if the slot exists.
    pub fn task(&self, index: usize) -> (r: Option<UserTask>)
        requires self.wf(),
        ensures
            r is Some <==> index < self.tasks@.len(),
            r matches Some(t) ==> t == self.tasks@[index as int],
    {
        if index >= self.tasks.len() {
            None
        } else {
            Some(self.tasks[index])
        }
    }

    /// Hands out the next pid; pids wrap around but never fall below 2.
    pub fn alloc_pid(&mut self) -> (pid: u64)
        requires old(self).wf(),
        ensures
            final(self).wf(),
            pid == old(self).next_pid,
            pid >= 2,
            final(self).next_pid == Self::pid_after(old(self).next_pid),
            final(self).tasks == old(self).tasks,
            final(self).current == old(self).current,
            final(self).installed == old(self).installed,
            final(self).focus == old(self).focus,
            final(self).initialized == old(self).initialized,
    {
        let pid = self.next_pid;
        let next = pid.wrapping_add(1);
        self.next_pid = if next < 2 { 2 } else { next };
        pid
    }
}


/// `x + 1`, wrapping to zero.
pub open spec fn spec_wrap_inc(x: u64) -> u64 {
    if x == u64::MAX { 0 } else { (x + 1) as u64 }
}

/// `x + 1`, wrapping to zero.
pub fn wrap_inc(x: u64) -> (r: u64)
    ensures r == spec_wrap_inc(x),
{
    if x == u64::MAX { 0 } else { x + 1 }
}

/// The switch that resumes task `t`.
pub open spec fn switch_to(t: UserTask) -> UserSwitch {
    UserSwitch { name: t.name, pml4_phys: t.pml4_phys, fs_base: t.fs_base }
}

/// The slot as freshly installed.
pub open spec fn installed_task(
    name: &'static str, pid: u64, parent_pid: u64, session: u64, leader: bool,
    abi: UserAbi, pml4_phys: u64, frame: TrapFrame,
) -> UserTask {
    UserTask {
        name: name,
        pid: pid,
        parent_pid: parent_pid,
        process_group: pid,
        session: session,
        session_leader: leader,
        abi: abi,
        pml4_phys: pml4_phys,
        initial_frame: frame,
        frame: frame,
        fs_base: 0,
        ticks: 0,
        active: true,
        ..empty_task()
    }
}

/// The slot with every wait cleared and the task made runnable afresh.
pub open spec fn restarted(t: UserTask, frame: TrapFrame) -> UserTask {
    UserTask {
        frame: frame,
        active: true,
        waiting_stdin: false,
        stdin_buffer: 0,
        waiting_pipe_read: false,
        pipe_id: 0,
        pipe_buffer: 0,
        waiting_child: false,
        wait_pid: 0,
        wait_status: 0,
        waiting_timeout: false,
        wake_tick: 0,
        zombie: false,
        exit_status: 0,
        ..t
    }
}

/// The slot as released by reaping a zombie.
pub open spec fn reaped(t: UserTask) -> UserTask {
    UserTask {
        zombie: false,
        active: false,
        waiting_stdin: false,
        waiting_pipe_read: false,
        pipe_id: 0,
        pipe_buffer: 0,
        waiting_child: false,
        wait_pid: 0,
        waiting_timeout: false,
        wake_tick: 0,
        pid: 0,
        parent_pid: 0,
        process_group: 0,
        session: 0,
        session_leader: false,
        ..t
    }
}

impl UserScheduler {
    /// The pid of the current task, if the table holds one.
    pub open spec fn current_pid_spec(&self) -> Option<u64> {
        if !self.initialized || self.installed == 0 || self.slot(self.current as int).pid == 0 {
            None
        } else {
            Some(self.slot(self.current as int).pid)
        }
    }

    /// The session of the current task, if the table holds one.
    pub open spec fn current_session_spec(&self) -> Option<u64> {
        if !self.initialized || self.installed == 0 || self.slot(self.current as int).session == 0 {
            None
        } else {
            Some(self.slot(self.current as int).session)
        }
    }

    /// The slot that holds `pid` (the current slot for pid 0).
    pub open spec fn index_of_pid(&self, pid: u64) -> Option<usize> {
        if pid == 0 { Some(self.current) } else { find_pid(self.tasks@, pid, 0, self.installed as int) }
    }

    /// The pid of the current task, if the table holds one.
    pub fn current_pid(&self) -> (r: Option<u64>)
        requires self.wf(),
        ensures r == self.current_pid_spec(),
    {
        if !self.is_ready() || self.installed == 0 {
            None
        } else {
            let pid = self.tasks[self.current].pid;
            if pid == 0 { None } else { Some(pid) }
        }
    }

    /// The parent pid of the current task, if the table holds one.
    pub fn current_parent_pid(&self) -> (r: Option<u64>)
        requires self.wf(),
        ensures r == if self.current_pid_spec() is Some { Some(self.slot(self.current as int).parent_pid) } else { None },
    {
        if !self.is_ready() || self.installed == 0 {
            None
        } else {
            let task = self.tasks[self.current];
            if task.pid == 0 { None } else { Some(task.parent_pid) }
        }
    }

    /// The process group of the current task, if it has one.
    pub fn current_process_group(&self) -> (r: Option<u64>)
        requires self.wf(),
        ensures
            r == if !self.initialized || self.installed == 0 || self.slot(self.current as int).process_group == 0 {
                None } else { Some(self.slot(self.current as int).process_group) },
    {
        if !self.is_ready() || self.installed == 0 {
            None
        } else {
            let pgid = self.tasks[self.current].process_group;
            if pgid == 0 { None } else { Some(pgid) }
        }
    }

    /// The session of the current task, if it has one.
    pub fn current_session(&self) -> (r: Option<u64>)
        requires self.wf(),
        ensures r == self.current_session_spec(),
    {
        if !self.is_ready() || self.installed == 0 {
            None
        } else {
            let session = self.tasks[self.current].session;
            if session == 0 { None } else { Some(session) }
        }
    }

    /// The ABI of the current task, while it is runnable.
    pub fn current_abi(&self) -> (r: Option<UserAbi>)
        requires self.wf(),
        ensures
            r == if !self.initialized || self.installed == 0 || !self.slot(self.current as int).active {
                None } else { Some(self.slot(self.current as int).abi) },
    {
        if !self.is_ready() || self.installed == 0 || !self.tasks[self.current].active {
            None
        } else {
            Some(self.tasks[self.current].abi)
        }
    }

    /// The page-table root of the current task, if it has one.
    pub fn current_pml4(&self) -> (r: Option<u64>)
        requires self.wf(),
        ensures
            r == if !self.initialized || self.installed == 0 || self.slot(self.current as int).pml4_phys == 0 {
                None } else { Some(self.slot(self.current as int).pml4_phys) },
    {
        if !self.is_ready() || self.installed == 0 {
            None
        } else {
            let pml4 = self.tasks[self.current].pml4_phys;
            if pml4 == 0 { None } else { Some(pml4) }
        }
    }

    /// The slot of the current task, once any task is installed.
    pub fn current_index(&self) -> (r: Option<usize>)
        requires self.wf(),
        ensures
            r == if !self.initialized || self.installed == 0 { None } else { Some(self.current) },
            r matches Some(i) ==> i < self.installed,
    {
        if !self.is_ready() || self.installed == 0 { None } else { Some(self.current) }
    }

    /// The slot holding `pid`; pid 0 means the current task.
    pub fn task_index_by_pid(&self, pid: u64) -> (r: Option<usize>)
        requires self.wf(),
        ensures
            r == self.index_of_pid(pid),
            r matches Some(i) ==> i < USER_TASKS,
            pid != 0 ==> (r matches Some(i) ==> i < self.installed && self.slot(i as int).pid == pid),
    {
        if pid == 0 {
            return Some(self.current);
        }
        proof { lemma_find_pid_sound(self.tasks@, pid, 0, self.installed as int); }
        let mut index: usize = 0;
        while index < self.installed
            invariant
                self.wf(),
                pid != 0,
                0 <= index <= self.installed,
                find_pid(self.tasks@, pid, 0, self.installed as int) == find_pid(self.tasks@, pid, index as int, self.installed as int),
            decreases self.installed - index,
        {
            if self.tasks[index].pid == pid {
                assert(find_pid(self.tasks@, pid, index as int, self.installed as int) == Some(index));
                return Some(index);
            }
            index += 1;
        }
        None
    }

    /// The pid in slot `index`, if it holds a process.
    pub fn task_pid(&self, index: usize) -> (r: Option<u64>)
        requires self.wf(),
        ensures
            r == if index < self.tasks@.len() && self.slot(index as int).pid != 0 {
                Some(self.slot(index as int).pid) } else { None },
    {
        match self.task(index) {
            Some(t) => if t.pid == 0 { None } else { Some(t.pid) },
            None => None,
        }
    }

    /// The process group in slot `index`, if it has one.
    pub fn task_process_group(&self, index: usize) -> (r: Option<u64>)
        requires self.wf(),
        ensures
            r == if index < self.tasks@.len() && self.slot(index as int).process_group != 0 {
                Some(self.slot(index as int).process_group) } else { None },
    {
        match self.task(index) {
            Some(t) => if t.process_group == 0 { None } else { Some(t.process_group) },
            None => None,
        }
    }

    /// The process group of the process `pid` (0: the current one).
    pub fn process_group_for_pid(&self, pid: u64) -> (r: Option<u64>)
        requires self.wf(),
        ensures
            r == match self.index_of_pid(pid) {
                Some(i) => if i < self.tasks@.len() && self.slot(i as int).process_group != 0 {
                    Some(self.slot(i as int).process_group) } else { None },
                None => None,
            },
    {
        let index = match self.task_index_by_pid(pid) { Some(i) => i, None => return None };
        self.task_process_group(index)
    }

    /// The session of the process `pid` (0: the current one).
    pub fn session_for_pid(&self, pid: u64) -> (r: Option<u64>)
        requires self.wf(),
        ensures
            r == match self.index_of_pid(pid) {
                Some(i) => if i < self.tasks@.len() && self.slot(i as int).session != 0 {
                    Some(self.slot(i as int).session) } else { None },
                None => None,
            },
    {
        let index = match self.task_index_by_pid(pid) { Some(i) => i, None => return None };
        match self.task(index) {
            Some(t) => if t.session == 0 { None } else { Some(t.session) },
            None => None,
        }
    }

    /// The saved frame of the init slot, while it is runnable.
    pub fn first_frame(&self) -> (r: Option<TrapFrame>)
        requires self.wf(),
        ensures
            r == if !self.initialized || self.installed == 0 || !self.slot(0).active { None }
                else { Some(self.slot(0).frame) },
    {
        if !self.is_ready() || self.installed == 0 || !self.tasks[0].active {
            None
        } else {
            Some(self.tasks[0].frame)
        }
    }

    /// The page-table root of the init slot, while it is runnable.
    pub fn first_pml4(&self) -> (r: Option<u64>)
        requires self.wf(),
        ensures
            r == if !self.initialized || self.installed == 0 || !self.slot(0).active { None }
                else { Some(self.slot(0).pml4_phys) },
    {
        if !self.is_ready() || self.installed == 0 || !self.tasks[0].active {
            None
        } else {
            Some(self.tasks[0].pml4_phys)
        }
    }

    /// Number of slots in use (the highest installed slot plus one).
    pub fn task_count(&self) -> (r: usize)
        ensures r == self.installed,
    {
        self.installed
    }

    /// What the task viewer shows of slot `index`.
    pub fn task_info(&self, index: usize) -> (r: Option<UserTaskSnapshot>)
        requires self.wf(),
        ensures
            r == if index >= self.installed { None } else {
                Some(UserTaskSnapshot {
                    ticks: self.slot(index as int).ticks,
                    active: alive(self.slot(index as int)),
                    current: index == self.current,
                }) },
    {
        if index >= self.installed {
            return None;
        }
        let task = self.tasks[index];
        Some(UserTaskSnapshot {
            ticks: task.ticks,
            active: task.active || task.waiting_stdin || task.waiting_pipe_read || task.waiting_child
                || task.waiting_timeout || task.zombie,
            current: index == self.current,
        })
    }

    /// Whether slot `index` is installed and runnable or blocked.
    pub fn task_running_or_waiting(&self, index: usize) -> (r: bool)
        requires self.wf(),
        ensures r == (index < self.installed && running_or_waiting(self.slot(index as int))),
    {
        if index >= self.installed {
            return false;
        }
        let task = self.tasks[index];
        task.active || task.waiting_stdin || task.waiting_pipe_read || task.waiting_child || task.waiting_timeout
    }

    /// Gives the keyboard focus to an installed slot; other indexes are ignored.
    pub fn set_focus(&mut self, index: usize)
        requires old(self).wf(),
        ensures
            final(self).wf(),
            final(self).focus == if index < old(self).installed { index } else { old(self).focus },
            final(self).tasks == old(self).tasks,
            final(self).current == old(self).current,
            final(self).installed == old(self).installed,
            final(self).next_pid == old(self).next_pid,
            final(self).initialized == old(self).initialized,
    {
        if index < self.installed {
            self.focus = index;
        }
    }

    /// The slot holding the keyboard focus.
    pub fn focus(&self) -> (r: usize)
        ensures r == self.focus,
    {
        self.focus
    }

    /// The first installed slot blocked on stdin.
    pub fn stdin_waiter_index(&self) -> (r: Option<usize>)
        requires self.wf(),
        ensures
            !self.initialized ==> r is None,
            self.initialized ==> match r {
                Some(i) => i < self.installed && self.slot(i as int).waiting_stdin
                    && forall|j: int| 0 <= j < i ==> !(#[trigger] self.slot(j)).waiting_stdin,
                None => forall|j: int| 0 <= j < self.installed ==> !(#[trigger] self.slot(j)).waiting_stdin,
            },
    {
        if !self.is_ready() {
            return None;
        }
        let mut index: usize = 0;
        while index < self.installed
            invariant
                self.wf(),
                self.initialized,
                0 <= index <= self.installed,
                forall|j: int| 0 <= j < index ==> !(#[trigger] self.slot(j)).waiting_stdin,
            decreases self.installed - index,
        {
            if self.tasks[index].waiting_stdin {
                return Some(index);
            }
            index += 1;
        }
        None
    }

    /// Installs a program in slot `index`. Slot 0 is the init process (pid 1,
    /// its own session leader); other slots get a fresh pid and join the
    /// current task's session as its children.
    pub fn install(&mut self, index: usize, name: &'static str, abi: UserAbi, pml4_phys: u64, frame: TrapFrame)
        requires old(self).wf(),
        ensures
            final(self).wf(),
            !old(self).initialized || index >= USER_TASKS ==> *final(self) == *old(self),
            old(self).initialized && index < USER_TASKS ==> {
                let pid = if index == 0 { 1 } else { old(self).next_pid };
                let parent = if index == 0 { 0 } else {
                    match old(self).current_pid_spec() { Some(p) => p, None => 0 } };
                let session = if index == 0 { pid } else {
                    match old(self).current_session_spec() { Some(s) => s, None => pid } };
                &&& final(self).tasks@ == old(self).tasks@.update(index as int,
                        installed_task(name, pid, parent, session, index == 0, abi, pml4_phys, frame))
                &&& final(self).installed == if old(self).installed > index + 1 { old(self).installed } else { (index + 1) as usize }
                &&& final(self).next_pid == if index == 0 { old(self).next_pid } else { Self::pid_after(old(self).next_pid) }
                &&& final(self).current == old(self).current
                &&& final(self).focus == old(self).focus
                &&& final(self).initialized
            },
    {
        if !self.is_ready() || index >= USER_TASKS {
            return;
        }
        let parent_pid = if index == 0 { 0 } else {
            match self.current_pid() { Some(p) => p, None => 0 }
        };
        let pid = if index == 0 { 1 } else { self.alloc_pid() };
        let session = if index == 0 { pid } else {
            match self.current_session() { Some(s) => s, None => pid }
        };
        let mut task = UserTask::empty();
        task.name = name;
        task.pid = pid;
        task.parent_pid = parent_pid;
        task.process_group = pid;
        task.session = session;
        task.session_leader = index == 0;
        task.abi = abi;
        task.pml4_phys = pml4_phys;
        task.initial_frame = frame;
        task.frame = frame;
        task.fs_base = initial_fs_base(frame);
        task.active = true;
        self.tasks.set(index, task);
        if self.installed < index + 1 {
            self.installed = index + 1;
        }
    }

    /// Replaces the program of an installed slot (exec): new name, ABI and
    /// entry frame; every wait is cleared. Pid and process links are kept.
    pub fn replace_frame(&mut self, index: usize, name: &'static str, abi: UserAbi, frame: TrapFrame)
        requires old(self).wf(),
        ensures
            final(self).wf(),
            !old(self).initialized || index >= old(self).installed ==> *final(self) == *old(self),
            old(self).initialized && index < old(self).installed ==> {
                &&& final(self).tasks@ == old(self).tasks@.update(index as int,
                    UserTask { name: name, abi: abi, initial_frame: frame, fs_base: 0,
                        ..restarted(old(self).slot(index as int), frame) })
                &&& final(self).current == old(self).current
                &&& final(self).installed == old(self).installed
                &&& final(self).focus == old(self).focus
                &&& final(self).next_pid == old(self).next_pid
                &&& final(self).initialized == old(self).initialized
            },
    {
        if !self.is_ready() || index >= self.installed {
            return;
        }
        let mut task = self.tasks[index];
        task.name = name;
        task.abi = abi;
        task.initial_frame = frame;
        task.frame = frame;
        task.fs_base = initial_fs_base(frame);
        task.active = true;
        task.waiting_stdin = false;
        task.stdin_buffer = 0;
        task.waiting_pipe_read = false;
        task.pipe_id = 0;
        task.pipe_buffer = 0;
        task.waiting_child = false;
        task.wait_pid = 0;
        task.wait_status = 0;
        task.waiting_timeout = false;
        task.wake_tick = 0;
        task.zombie = false;
        task.exit_status = 0;
        self.tasks.set(index, task);
    }

    /// Marks installed slot `index` runnable or not; nothing else changes.
    pub fn set_task_active(&mut self, index: usize, active: bool)
        requires old(self).wf(),
        ensures
            final(self).wf(),
            !old(self).initialized || index >= old(self).installed ==> *final(self) == *old(self),
            old(self).initialized && index < old(self).installed ==> {
                &&& final(self).tasks@ == old(self).tasks@.update(index as int, UserTask { active: active, ..old(self).slot(index as int) })
                &&& final(self).current == old(self).current
                &&& final(self).installed == old(self).installed
                &&& final(self).focus == old(self).focus
                &&& final(self).next_pid == old(self).next_pid
                &&& final(self).initialized == old(self).initialized
            },
    {
        if !self.is_ready() || index >= self.installed {
            return;
        }
        let mut task = self.tasks[index];
        task.active = active;
        self.tasks.set(index, task);
    }

    /// The first slot that `fork` may put a child in.
    pub fn allocate_child_slot(&self) -> (r: Option<usize>)
        requires self.wf(),
        ensures
            !self.initialized ==> r is None,
            self.initialized ==> match r {
                Some(i) => i < USER_TASKS && reusable(self.slot(i as int))
                    && forall|j: int| 0 <= j < i ==> !reusable(#[trigger] self.slot(j)),
                None => forall|j: int| 0 <= j < USER_TASKS ==> !reusable(#[trigger] self.slot(j)),
            },
    {
        if !self.is_ready() {
            return None;
        }
        let mut index: usize = 0;
        while index < USER_TASKS
            invariant
                self.wf(),
                self.initialized,
                0 <= index <= USER_TASKS,
                forall|j: int| 0 <= j < index ==> !reusable(#[trigger] self.slot(j)),
            decreases USER_TASKS - index,
        {
            let task = self.tasks[index];
            if task.pid == 0
                || (!task.active && !task.waiting_stdin && !task.waiting_pipe_read
                    && !task.waiting_child && !task.waiting_timeout && !task.zombie)
            {
                return Some(index);
            }
            index += 1;
        }
        None
    }

    /// The first active slot walking cyclically from `start`.
    pub fn next_active_from(&self, start: usize) -> (r: Option<usize>)
        requires
            self.wf(),
            self.installed > 0 ==> start < self.installed,
        ensures
            r == next_active_spec(self.tasks@, self.installed as int, start as int, self.installed as nat),
            r matches Some(i) ==> i < self.installed && self.slot(i as int).active,
    {
        let mut next = start;
        let mut i: usize = 0;
        proof { lemma_next_active_sound(self.tasks@, self.installed as int, start as int, self.installed as nat); }
        while i < self.installed
            invariant
                self.wf(),
                0 <= i <= self.installed,
                self.installed > 0 ==> next < self.installed,
                next_active_spec(self.tasks@, self.installed as int, start as int, self.installed as nat)
                    == next_active_spec(self.tasks@, self.installed as int, next as int, (self.installed - i) as nat),
            decreases self.installed - i,
        {
            if next < self.tasks.len() && self.tasks[next].active {
                return Some(next);
            }
            next = (next + 1) % self.installed;
            i += 1;
        }
        None
    }
}

/// The first slot in `i..n` that holds `pid`.
pub open spec fn find_pid(tasks: Seq<UserTask>, pid: u64, i: int, n: int) -> Option<usize>
    decreases n - i,
{
    if i >= n || i < 0 {
        None
    } else if i < tasks.len() && tasks[i].pid == pid {
        Some(i as usize)
    } else {
        find_pid(tasks, pid, i + 1, n)
    }
}

/// A slot found by `find_pid` lies in range and holds the pid.
proof fn lemma_find_pid_sound(tasks: Seq<UserTask>, pid: u64, i: int, n: int)
    requires 0 <= i, n <= usize::MAX,
    ensures
        find_pid(tasks, pid, i, n) matches Some(k) ==> i <= k < n && k < tasks.len() && tasks[k as int].pid == pid,
    decreases n - i,
{
    if i < n && !(i < tasks.len() && tasks[i].pid == pid) {
        lemma_find_pid_sound(tasks, pid, i + 1, n);
    }
}

/// A slot found by `next_active_spec` is an installed, active slot.
proof fn lemma_next_active_sound(tasks: Seq<UserTask>, installed: int, start: int, steps: nat)
    requires
        installed > 0 ==> 0 <= start < installed,
        installed <= usize::MAX,
    ensures
        next_active_spec(tasks, installed, start, steps) matches Some(i)
            ==> 0 <= i < installed && i < tasks.len() && tasks[i as int].active,
    decreases steps,
{
    if steps > 0 && installed > 0 {
        lemma_next_active_sound(tasks, installed, (start + 1) % installed, (steps - 1) as nat);
    }
}


/// The word `wait4` stores for a child that exited with `status`.
pub open spec fn spec_wait_status_word(status: i32) -> i32 {
    (status & 0xff) << 8
}

/// The word `wait4` stores for a child that exited with `status`.
pub fn wait_status_word(status: i32) -> (r: i32)
    ensures r == spec_wait_status_word(status),
{
    (status & 0xff) << 8
}


/// Why a task stops running.
#[derive(Clone, Copy)]
pub enum BlockReason {
    Stdin { buffer: u64 },
    PipeRead { pipe_id: u16, buffer: u64 },
    Child { wait_pid: i32, wait_status: u64 },
    Timeout { wake_tick: u64 },
}

/// The slot after it blocks for `reason`.
pub open spec fn blocked(t: UserTask, reason: BlockReason) -> UserTask {
    match reason {
        BlockReason::Stdin { buffer } => UserTask { active: false, waiting_stdin: true, stdin_buffer: buffer, ..t },
        BlockReason::PipeRead { pipe_id, buffer } =>
            UserTask { active: false, waiting_pipe_read: true, pipe_id: pipe_id, pipe_buffer: buffer, ..t },
        BlockReason::Child { wait_pid, wait_status } =>
            UserTask { active: false, waiting_child: true, wait_pid: wait_pid, wait_status: wait_status, ..t },
        BlockReason::Timeout { wake_tick } => UserTask { active: false, waiting_timeout: true, wake_tick: wake_tick, ..t },
    }
}

/// The tick at which a sleep of `ticks` started at `now` ends.
pub open spec fn spec_wake_tick(now: u64, ticks: u64) -> u64 {
    if now as int + ticks as int > u64::MAX { u64::MAX } else { (now + ticks) as u64 }
}

/// The slot as it exits: a zombie holding `status`, all waits cleared.
pub open spec fn exited(t: UserTask, fs_base: u64, status: i32) -> UserTask {
    UserTask {
        fs_base: fs_base,
        active: false,
        waiting_stdin: false,
        stdin_buffer: 0,
        waiting_pipe_read: false,
        pipe_id: 0,
        pipe_buffer: 0,
        waiting_child: false,
        wait_pid: 0,
        wait_status: 0,
        waiting_timeout: false,
        wake_tick: 0,
        zombie: true,
        exit_status: status,
        ..t
    }
}

/// A zombie whose exit was collected: its slot no longer names any process.
pub open spec fn released(t: UserTask) -> UserTask {
    UserTask { zombie: false, pid: 0, parent_pid: 0, process_group: 0, session: 0, session_leader: false, ..t }
}

/// The parent task woken because its child `child_pid` exited.
pub open spec fn resumed_parent(t: UserTask, child_pid: u64) -> UserTask {
    UserTask {
        waiting_child: false,
        wait_pid: 0,
        active: true,
        wait_status: 0,
        frame: TrapFrame { rax: child_pid, ..t.frame },
        ..t
    }
}

/// The slot is a parent blocked in `wait4` for the exiting process.
pub open spec fn waits_for(t: UserTask, parent_pid: u64, child_pid: u64) -> bool {
    t.pid == parent_pid && t.waiting_child && wait_pid_selects(t.wait_pid, child_pid)
}

/// `wait4`'s pid argument: zero or a negative value selects every child,
/// a positive one exactly the child of that pid.
pub proof fn lemma_wait_pid_selection(requested_pid: i32, child_pid: u64)
    ensures
        requested_pid <= 0 ==> wait_pid_selects(requested_pid, child_pid),
        requested_pid > 0 ==> (wait_pid_selects(requested_pid, child_pid) <==> child_pid == requested_pid),
{
}

/// A parent blocked in `wait4(-1, ..)` waits for whichever of its children
/// exits.
pub proof fn lemma_wait_any_child(t: UserTask, child_pid: u64)
    requires t.waiting_child, t.wait_pid == -1,
    ensures waits_for(t, t.pid, child_pid),
{
}

/// The store of a collected exit status, when the waiter gave an address.
pub open spec fn status_write_for(waiter: UserTask, status: i32) -> Option<StatusWrite> {
    if waiter.wait_status == 0 {
        None
    } else {
        Some(StatusWrite { pml4_phys: waiter.pml4_phys, address: waiter.wait_status, value: spec_wait_status_word(status) })
    }
}

/// What an exit leads to: the task to resume and a status store to perform.
pub struct ExitOutcome {
    pub resume: Option<UserSwitch>,
    pub status_write: Option<StatusWrite>,
}

/// The child created by `fork`.
pub open spec fn forked_child(parent: UserTask, pid: u64, pml4_phys: u64, frame: TrapFrame) -> UserTask {
    let f = TrapFrame { rax: 0, ..frame };
    UserTask {
        name: "child",
        pid: pid,
        parent_pid: parent.pid,
        session_leader: false,
        pml4_phys: pml4_phys,
        frame: f,
        initial_frame: f,
        active: true,
        waiting_stdin: false,
        stdin_buffer: 0,
        waiting_pipe_read: false,
        pipe_id: 0,
        pipe_buffer: 0,
        waiting_child: false,
        wait_pid: 0,
        wait_status: 0,
        waiting_timeout: false,
        wake_tick: 0,
        zombie: false,
        exit_status: 0,
        ..parent
    }
}

impl UserScheduler {
    /// The slot after the current task's frame and FS base are saved.
    pub open spec fn saved_current(&self, frame: TrapFrame, fs_base: u64) -> Seq<UserTask> {
        self.tasks@.update(self.current as int, saved(self.slot(self.current as int), frame, fs_base))
    }

    /// The slot `schedule`, a block or an exit moves to, looking from the
    /// slot after the current one.
    pub open spec fn next_after_current(&self, tasks: Seq<UserTask>) -> Option<usize> {
        next_active_spec(tasks, self.installed as int, (self.current as int + 1) % (self.installed as int), self.installed as nat)
    }

    /// Other fields than the slots, the current slot and the focus are kept.
    pub open spec fn same_counters(&self, other: &Self) -> bool {
        &&& self.installed == other.installed
        &&& self.next_pid == other.next_pid
        &&& self.initialized == other.initialized
    }

    /// Timer preemption: saves the interrupted task and moves to the next
    /// active one. Only ring-3 frames are switched, and only when at least two
    /// slots are in use.
    pub fn schedule(&mut self, frame: &mut TrapFrame, fs_base: u64) -> (r: Option<UserSwitch>)
        requires old(self).wf(),
        ensures
            final(self).wf(),
            final(self).same_counters(old(self)),
            final(self).focus == old(self).focus,
            !old(self).initialized || old(self).installed < 2 || !from_user(*old(frame)) ==> {
                &&& *final(self) == *old(self)
                &&& *final(frame) == *old(frame)
                &&& r is None
            },
            old(self).initialized && old(self).installed >= 2 && from_user(*old(frame)) ==> {
                let cur = old(self).current as int;
                let t = old(self).slot(cur);
                let tasks = old(self).tasks@.update(cur, UserTask {
                    frame: *old(frame), fs_base: fs_base, ticks: spec_wrap_inc(t.ticks), ..t });
                &&& final(self).tasks@ == tasks
                &&& match old(self).next_after_current(tasks) {
                    None => r is None && final(self).current == old(self).current && *final(frame) == *old(frame),
                    Some(n) => final(self).current == n && *final(frame) == tasks[n as int].frame
                        && r == Some(switch_to(tasks[n as int])),
                }
            },
    {
        if !self.is_ready() || self.installed < 2 || frame.cs % 4 != 3 {
            return None;
        }
        let cur = self.current;
        let mut task = self.tasks[cur];
        task.frame = *frame;
        task.fs_base = fs_base;
        task.ticks = wrap_inc(task.ticks);
        self.tasks.set(cur, task);
        let next = match self.next_active_from((cur + 1) % self.installed) {
            Some(n) => n,
            None => return None,
        };
        self.current = next;
        let task = self.tasks[next];
        *frame = task.frame;
        Some(UserSwitch { name: task.name, pml4_phys: task.pml4_phys, fs_base: task.fs_base })
    }

    /// Blocks the current task for `reason` and moves to the next active one.
    fn block_current(&mut self, frame: &mut TrapFrame, fs_base: u64, reason: BlockReason) -> (r: Option<UserSwitch>)
        requires old(self).wf(),
        ensures
            final(self).wf(),
            final(self).same_counters(old(self)),
            final(self).focus == old(self).focus,
            old(self).block_outcome(*old(frame), fs_base, reason, *final(self), *final(frame), r),
    {
        if !self.is_ready() || self.installed < 2 || frame.cs % 4 != 3 {
            return None;
        }
        let cur = self.current;
        let next = match self.next_active_from((cur + 1) % self.installed) {
            Some(n) => n,
            None => return None,
        };
        let mut task = self.tasks[cur];
        task.frame = *frame;
        task.fs_base = fs_base;
        task.active = false;
        match reason {
            BlockReason::Stdin { buffer } => {
                task.waiting_stdin = true;
                task.stdin_buffer = buffer;
            },
            BlockReason::PipeRead { pipe_id, buffer } => {
                task.waiting_pipe_read = true;
                task.pipe_id = pipe_id;
                task.pipe_buffer = buffer;
            },
            BlockReason::Child { wait_pid, wait_status } => {
                task.waiting_child = true;
                task.wait_pid = wait_pid;
                task.wait_status = wait_status;
            },
            BlockReason::Timeout { wake_tick } => {
                task.waiting_timeout = true;
                task.wake_tick = wake_tick;
            },
        }
        self.tasks.set(cur, task);
        self.current = next;
        let task = self.tasks[next];
        *frame = task.frame;
        Some(UserSwitch { name: task.name, pml4_phys: task.pml4_phys, fs_base: task.fs_base })
    }

    /// What blocking the current task for `reason` does: nothing when the
    /// table cannot switch (not ready, fewer than two slots, a kernel frame,
    /// or no active slot to go to); otherwise the current slot saves the frame
    /// and FS base and blocks, and the next active slot (chosen before the
    /// block) becomes current and is resumed.
    pub open spec fn block_outcome(&self, frame: TrapFrame, fs_base: u64, reason: BlockReason,
        after: Self, frame_after: TrapFrame, r: Option<UserSwitch>) -> bool
    {
        if !self.initialized || self.installed < 2 || !from_user(frame)
            || self.next_after_current(self.tasks@) is None {
            after == *self && frame_after == frame && r is None
        } else {
            let n = self.next_after_current(self.tasks@).unwrap();
            let cur = self.current as int;
            let tasks = self.tasks@.update(cur, blocked(saved(self.slot(cur), frame, fs_base), reason));
            &&& after.tasks@ == tasks
            &&& after.current == n
            &&& frame_after == tasks[n as int].frame
            &&& r == Some(switch_to(tasks[n as int]))
        }
    }

    /// `read(0)` with no input ready: the current task waits for a line.
    pub fn block_current_for_stdin(&mut self, frame: &mut TrapFrame, buffer: u64, fs_base: u64) -> (r: Option<UserSwitch>)
        requires old(self).wf(),
        ensures
            final(self).wf(),
            final(self).same_counters(old(self)),
            final(self).focus == old(self).focus,
            old(self).block_outcome(*old(frame), fs_base, BlockReason::Stdin { buffer }, *final(self), *final(frame), r),
    {
        self.block_current(frame, fs_base, BlockReason::Stdin { buffer })
    }

    /// A read of an empty pipe: the current task waits for data on `pipe_id`.
    pub fn block_current_for_pipe_read(&mut self, frame: &mut TrapFrame, pipe_id: u16, buffer: u64, fs_base: u64)
        -> (r: Option<UserSwitch>)
        requires old(self).wf(),
        ensures
            final(self).wf(),
            final(self).same_counters(old(self)),
            final(self).focus == old(self).focus,
            old(self).block_outcome(*old(frame), fs_base, BlockReason::PipeRead { pipe_id, buffer }, *final(self), *final(frame), r),
    {
        self.block_current(frame, fs_base, BlockReason::PipeRead { pipe_id, buffer })
    }

    /// `wait4` with no exited child yet: the current task waits for a child.
    pub fn block_current_for_child(&mut self, frame: &mut TrapFrame, wait_pid: i32, wait_status: u64, fs_base: u64)
        -> (r: Option<UserSwitch>)
        requires old(self).wf(),
        ensures
            final(self).wf(),
            final(self).same_counters(old(self)),
            final(self).focus == old(self).focus,
            old(self).block_outcome(*old(frame), fs_base, BlockReason::Child { wait_pid, wait_status }, *final(self), *final(frame), r),
    {
        self.block_current(frame, fs_base, BlockReason::Child { wait_pid, wait_status })
    }

    /// A sleep of `ticks` timer ticks from `now`; a sleep of zero does nothing.
    pub fn block_current_for_timeout(&mut self, frame: &mut TrapFrame, ticks: u64, now: u64, fs_base: u64)
        -> (r: Option<UserSwitch>)
        requires old(self).wf(),
        ensures
            final(self).wf(),
            final(self).same_counters(old(self)),
            final(self).focus == old(self).focus,
            ticks == 0 ==> *final(self) == *old(self) && *final(frame) == *old(frame) && r is None,
            ticks != 0 ==> old(self).block_outcome(*old(frame), fs_base,
                BlockReason::Timeout { wake_tick: spec_wake_tick(now, ticks) }, *final(self), *final(frame), r),
    {
        if ticks == 0 {
            return None;
        }
        let wake_tick = now.saturating_add(ticks);
        self.block_current(frame, fs_base, BlockReason::Timeout { wake_tick })
    }
}


/// The slot woken from its stdin wait, reporting one byte read.
pub open spec fn woken_stdin(t: UserTask) -> UserTask {
    UserTask { waiting_stdin: false, active: true, frame: TrapFrame { rax: 1, ..t.frame }, ..t }
}

/// The slot woken from its pipe wait with the read's `result`.
pub open spec fn woken_pipe(t: UserTask, result: i64) -> UserTask {
    UserTask { waiting_pipe_read: false, active: true, frame: TrapFrame { rax: result as u64, ..t.frame }, ..t }
}

/// The slot after a timer tick at `now`.
pub open spec fn after_tick(t: UserTask, now: u64) -> UserTask {
    if t.waiting_timeout && now >= t.wake_tick {
        UserTask { waiting_timeout: false, wake_tick: 0, active: true, frame: TrapFrame { rax: 0, ..t.frame }, ..t }
    } else {
        t
    }
}

impl UserScheduler {
    /// What waking the first stdin reader does: the first installed slot
    /// blocked on stdin becomes ready with a one-byte read, and its address
    /// space and buffer are reported; with no such slot nothing changes.
    pub open spec fn stdin_wake_outcome(&self, after: Self, r: Option<StdinWake>) -> bool {
        &&& !self.initialized ==> after == *self && r is None
        &&& self.initialized ==> match r {
            Some(w) => exists|i: int| #![auto] 0 <= i < self.installed && self.slot(i).waiting_stdin
                && (forall|j: int| 0 <= j < i ==> !(#[trigger] self.slot(j)).waiting_stdin)
                && after.tasks@ == self.tasks@.update(i, woken_stdin(self.slot(i)))
                && w == (StdinWake { pml4_phys: self.slot(i).pml4_phys, buffer: self.slot(i).stdin_buffer }),
            None => after == *self
                && forall|j: int| 0 <= j < self.installed ==> !(#[trigger] self.slot(j)).waiting_stdin,
        }
    }

    /// Wakes the first slot waiting on stdin; its read returns one byte.
    pub fn wake_stdin_waiter(&mut self) -> (r: Option<StdinWake>)
        requires old(self).wf(),
        ensures
            final(self).wf(),
            final(self).same_counters(old(self)),
            final(self).current == old(self).current,
            final(self).focus == old(self).focus,
            old(self).stdin_wake_outcome(*final(self), r),
    {
        if !self.is_ready() {
            return None;
        }
        let mut index: usize = 0;
        while index < self.installed
            invariant
                self.wf(),
                *self == *old(self),
                self.initialized,
                0 <= index <= self.installed,
                forall|j: int| 0 <= j < index ==> !(#[trigger] self.slot(j)).waiting_stdin,
            decreases self.installed - index,
        {
            let mut task = self.tasks[index];
            if task.waiting_stdin {
                task.waiting_stdin = false;
                task.active = true;
                task.frame.rax = 1;
                self.tasks.set(index, task);
                assert(self.tasks@ =~= old(self).tasks@.update(index as int, woken_stdin(old(self).slot(index as int))));
                assert(old(self).slot(index as int).waiting_stdin);
                return Some(StdinWake { pml4_phys: task.pml4_phys, buffer: task.stdin_buffer });
            }
            index += 1;
        }
        None
    }

    /// Wakes the first slot waiting to read `pipe_id`; its read returns `result`.
    pub fn wake_pipe_reader(&mut self, pipe_id: u16, result: i64) -> (r: Option<PipeWake>)
        requires old(self).wf(),
        ensures
            final(self).wf(),
            final(self).same_counters(old(self)),
            final(self).current == old(self).current,
            final(self).focus == old(self).focus,
            !old(self).initialized ==> *final(self) == *old(self) && r is None,
            old(self).initialized ==> match r {
                Some(w) => exists|i: int| #![auto] 0 <= i < old(self).installed
                    && old(self).slot(i).waiting_pipe_read && old(self).slot(i).pipe_id == pipe_id
                    && (forall|j: int| 0 <= j < i ==> !((#[trigger] old(self).slot(j)).waiting_pipe_read
                        && old(self).slot(j).pipe_id == pipe_id))
                    && final(self).tasks@ == old(self).tasks@.update(i, woken_pipe(old(self).slot(i), result))
                    && w == (PipeWake { pml4_phys: old(self).slot(i).pml4_phys, buffer: old(self).slot(i).pipe_buffer }),
                None => *final(self) == *old(self)
                    && forall|j: int| 0 <= j < old(self).installed ==> !((#[trigger] old(self).slot(j)).waiting_pipe_read
                        && old(self).slot(j).pipe_id == pipe_id),
            },
    {
        if !self.is_ready() {
            return None;
        }
        let mut index: usize = 0;
        while index < self.installed
            invariant
                self.wf(),
                *self == *old(self),
                self.initialized,
                0 <= index <= self.installed,
                forall|j: int| 0 <= j < index ==> !((#[trigger] self.slot(j)).waiting_pipe_read
                    && self.slot(j).pipe_id == pipe_id),
            decreases self.installed - index,
        {
            let mut task = self.tasks[index];
            if task.waiting_pipe_read && task.pipe_id == pipe_id {
                task.waiting_pipe_read = false;
                task.active = true;
                task.frame.rax = result as u64;
                self.tasks.set(index, task);
                assert(self.tasks@ =~= old(self).tasks@.update(index as int, woken_pipe(old(self).slot(index as int), result)));
                assert(old(self).slot(index as int).waiting_pipe_read);
                return Some(PipeWake { pml4_phys: task.pml4_phys, buffer: task.pipe_buffer });
            }
            index += 1;
        }
        None
    }

    /// Wakes every installed slot whose sleep has ended by `now`.
    pub fn wake_timeouts(&mut self, now: u64)
        requires old(self).wf(),
        ensures
            final(self).wf(),
            final(self).same_counters(old(self)),
            final(self).current == old(self).current,
            final(self).focus == old(self).focus,
            final(self).tasks@.len() == old(self).tasks@.len(),
            forall|i: int| 0 <= i < old(self).tasks@.len() ==> #[trigger] final(self).slot(i) ==
                if i < old(self).installed { after_tick(old(self).slot(i), now) } else { old(self).slot(i) },
    {
        if !self.is_ready() {
            return;
        }
        let mut index: usize = 0;
        while index < self.installed
            invariant
                self.wf(),
                self.initialized,
                self.same_counters(old(self)),
                self.current == old(self).current,
                self.focus == old(self).focus,
                0 <= index <= self.installed,
                self.tasks@.len() == old(self).tasks@.len(),
                forall|i: int| 0 <= i < old(self).tasks@.len() ==> #[trigger] self.slot(i) ==
                    if i < index { after_tick(old(self).slot(i), now) } else { old(self).slot(i) },
            decreases self.installed - index,
        {
            let mut task = self.tasks[index];
            if task.waiting_timeout && now >= task.wake_tick {
                task.waiting_timeout = false;
                task.wake_tick = 0;
                task.active = true;
                task.frame.rax = 0;
                self.tasks.set(index, task);
            }
            index += 1;
        }
    }

    /// `fork`: the current task is copied into slot `child`, which runs from
    /// `frame` with `rax` zero in the address space `child_pml4`. Returns the
    /// child's pid.
    pub fn fork_current_to(&mut self, child: usize, child_pml4: u64, frame: &TrapFrame, fs_base: u64) -> (r: Option<u64>)
        requires old(self).wf(),
        ensures
            final(self).wf(),
            final(self).current == old(self).current,
            final(self).focus == old(self).focus,
            final(self).initialized == old(self).initialized,
            !old(self).initialized || child >= USER_TASKS || old(self).installed == 0 ==> *final(self) == *old(self) && r is None,
            old(self).initialized && child < USER_TASKS && old(self).installed > 0 ==> {
                let cur = old(self).current as int;
                let parent = UserTask { fs_base: fs_base, ..old(self).slot(cur) };
                &&& r == Some(old(self).next_pid)
                &&& final(self).tasks@ == old(self).tasks@.update(cur, parent)
                        .update(child as int, forked_child(parent, old(self).next_pid, child_pml4, *frame))
                &&& final(self).installed == if old(self).installed > child + 1 { old(self).installed } else { (child + 1) as usize }
                &&& final(self).next_pid == Self::pid_after(old(self).next_pid)
            },
    {
        if !self.is_ready() || child >= USER_TASKS || self.installed == 0 {
            return None;
        }
        let cur = self.current;
        let mut parent = self.tasks[cur];
        parent.fs_base = fs_base;
        self.tasks.set(cur, parent);
        let child_pid = self.alloc_pid();
        let mut child_task = parent;
        child_task.name = "child";
        child_task.pid = child_pid;
        child_task.parent_pid = parent.pid;
        child_task.process_group = parent.process_group;
        child_task.session = parent.session;
        child_task.session_leader = false;
        child_task.pml4_phys = child_pml4;
        child_task.frame = *frame;
        child_task.frame.rax = 0;
        child_task.initial_frame = child_task.frame;
        child_task.active = true;
        child_task.waiting_stdin = false;
        child_task.stdin_buffer = 0;
        child_task.waiting_pipe_read = false;
        child_task.pipe_id = 0;
        child_task.pipe_buffer = 0;
        child_task.waiting_child = false;
        child_task.wait_pid = 0;
        child_task.wait_status = 0;
        child_task.waiting_timeout = false;
        child_task.wake_tick = 0;
        child_task.zombie = false;
        child_task.exit_status = 0;
        self.tasks.set(child, child_task);
        if self.installed < child + 1 {
            self.installed = child + 1;
        }
        Some(child_pid)
    }

    /// `setpgid(pid, pgid)`: moves a process of the caller's session (not a
    /// session leader) into process group `pgid` (its own pid when 0).
    pub fn set_process_group(&mut self, pid: u64, pgid: u64) -> (r: bool)
        requires old(self).wf(),
        ensures
            final(self).wf(),
            final(self).same_counters(old(self)),
            final(self).current == old(self).current,
            final(self).focus == old(self).focus,
            !r ==> *final(self) == *old(self),
            r <==> old(self).initialized && match old(self).index_of_pid(pid) {
                Some(i) => {
                    let t = old(self).slot(i as int);
                    let target = if pgid == 0 { t.pid } else { pgid };
                    target != 0 && !t.session_leader
                        && t.session == match old(self).current_session_spec() { Some(s) => s, None => 0 }
                },
                None => false,
            },
            r ==> {
                let i = old(self).index_of_pid(pid).unwrap() as int;
                let t = old(self).slot(i);
                final(self).tasks@ == old(self).tasks@.update(i,
                    UserTask { process_group: if pgid == 0 { t.pid } else { pgid }, ..t })
            },
    {
        if !self.is_ready() {
            return false;
        }
        let index = match self.task_index_by_pid(pid) { Some(i) => i, None => return false };
        let target = if pgid == 0 { self.tasks[index].pid } else { pgid };
        let current_session = match self.current_session() { Some(s) => s, None => 0 };
        let mut task = self.tasks[index];
        if target == 0 || task.session != current_session || task.session_leader {
            return false;
        }
        task.process_group = target;
        self.tasks.set(index, task);
        true
    }

    /// `setsid`: the current process, unless it already leads a process
    /// group, becomes the leader of a new session and group named by its pid.
    pub fn create_session(&mut self) -> (r: Option<u64>)
        requires old(self).wf(),
        ensures
            final(self).wf(),
            final(self).same_counters(old(self)),
            final(self).current == old(self).current,
            final(self).focus == old(self).focus,
            r is None ==> *final(self) == *old(self),
            ({
                let t = old(self).slot(old(self).current as int);
                r is Some <==> old(self).initialized && old(self).installed > 0 && t.pid != 0 && t.process_group != t.pid
            }),
            r matches Some(pid) ==> {
                let t = old(self).slot(old(self).current as int);
                &&& pid == t.pid
                &&& final(self).tasks@ == old(self).tasks@.update(old(self).current as int,
                    UserTask { session: pid, process_group: pid, session_leader: true, ..t })
            },
    {
        if !self.is_ready() || self.installed == 0 {
            return None;
        }
        let mut task = self.tasks[self.current];
        let pid = task.pid;
        if pid == 0 || task.process_group == pid {
            return None;
        }
        task.session = pid;
        task.process_group = pid;
        task.session_leader = true;
        self.tasks.set(self.current, task);
        Some(pid)
    }

    /// Restarts an installed slot from its initial frame and focuses it.
    pub fn restart(&mut self, index: usize) -> (r: bool)
        requires old(self).wf(),
        ensures
            final(self).wf(),
            final(self).same_counters(old(self)),
            final(self).current == old(self).current,
            r == (index < old(self).installed),
            !r ==> *final(self) == *old(self),
            r ==> final(self).focus == index
                && final(self).tasks@ == old(self).tasks@.update(index as int,
                    restarted(old(self).slot(index as int), old(self).slot(index as int).initial_frame)),
    {
        if index < self.installed {
            let mut task = self.tasks[index];
            task.frame = task.initial_frame;
            task.active = true;
            task.waiting_stdin = false;
            task.stdin_buffer = 0;
            task.waiting_pipe_read = false;
            task.pipe_id = 0;
            task.pipe_buffer = 0;
            task.waiting_child = false;
            task.wait_pid = 0;
            task.wait_status = 0;
            task.waiting_timeout = false;
            task.wake_tick = 0;
            task.zombie = false;
            task.exit_status = 0;
            self.tasks.set(index, task);
            self.focus = index;
            true
        } else {
            false
        }
    }

    /// Releases an installed zombie slot; other slots are left alone.
    pub fn reap_task(&mut self, index: usize)
        requires old(self).wf(),
        ensures
            final(self).wf(),
            final(self).same_counters(old(self)),
            final(self).current == old(self).current,
            final(self).focus == old(self).focus,
            final(self).tasks@ == if index < old(self).installed && old(self).slot(index as int).zombie {
                old(self).tasks@.update(index as int, reaped(old(self).slot(index as int)))
            } else {
                old(self).tasks@
            },
    {
        if index >= self.installed {
            return;
        }
        let mut task = self.tasks[index];
        if task.zombie {
            task.zombie = false;
            task.active = false;
            task.waiting_stdin = false;
            task.waiting_pipe_read = false;
            task.pipe_id = 0;
            task.pipe_buffer = 0;
            task.waiting_child = false;
            task.wait_pid = 0;
            task.waiting_timeout = false;
            task.wake_tick = 0;
            task.pid = 0;
            task.parent_pid = 0;
            task.process_group = 0;
            task.session = 0;
            task.session_leader = false;
            self.tasks.set(index, task);
        }
    }
}


/// The slot as collected by `wait4`: free, its process forgotten.
pub open spec fn collected(t: UserTask) -> UserTask {
    UserTask {
        zombie: false,
        active: false,
        waiting_stdin: false,
        waiting_pipe_read: false,
        waiting_child: false,
        waiting_timeout: false,
        wake_tick: 0,
        pid: 0,
        parent_pid: 0,
        process_group: 0,
        session: 0,
        session_leader: false,
        ..t
    }
}

impl UserScheduler {
    /// The first installed slot blocked in `wait4` for `child_pid`, among
    /// the processes with pid `parent_pid`.
    pub fn find_waiting_parent(&self, parent_pid: u64, child_pid: u64) -> (r: Option<usize>)
        requires self.wf(),
        ensures
            match r {
                Some(i) => i < self.installed && waits_for(self.slot(i as int), parent_pid, child_pid)
                    && forall|j: int| 0 <= j < i ==> !waits_for(#[trigger] self.slot(j), parent_pid, child_pid),
                None => forall|j: int| 0 <= j < self.installed ==> !waits_for(#[trigger] self.slot(j), parent_pid, child_pid),
            },
    {
        let mut index: usize = 0;
        while index < self.installed
            invariant
                self.wf(),
                0 <= index <= self.installed,
                forall|j: int| 0 <= j < index ==> !waits_for(#[trigger] self.slot(j), parent_pid, child_pid),
            decreases self.installed - index,
        {
            let t = self.tasks[index];
            if t.pid == parent_pid && t.waiting_child && wait_pid_matches(t.wait_pid, child_pid) {
                return Some(index);
            }
            index += 1;
        }
        None
    }

    /// The first installed child of the current process that `wait4` may
    /// collect (`zombie_only`) or wait for.
    pub fn find_waitable_child(&self, requested_pid: i32, zombie_only: bool) -> (r: Option<usize>)
        requires self.wf(),
        ensures
            !self.initialized || self.slot(self.current as int).pid == 0 ==> r is None,
            self.initialized && self.slot(self.current as int).pid != 0 ==> {
                let parent = self.slot(self.current as int).pid;
                match r {
                    Some(i) => i < self.installed && waitable(self.slot(i as int), parent, requested_pid, zombie_only)
                        && forall|j: int| 0 <= j < i ==> !waitable(#[trigger] self.slot(j), parent, requested_pid, zombie_only),
                    None => forall|j: int| 0 <= j < self.installed ==>
                        !waitable(#[trigger] self.slot(j), parent, requested_pid, zombie_only),
                }
            },
    {
        if !self.is_ready() {
            return None;
        }
        let parent_pid = self.tasks[self.current].pid;
        if parent_pid == 0 {
            return None;
        }
        let mut index: usize = 0;
        while index < self.installed
            invariant
                self.wf(),
                self.initialized,
                parent_pid != 0,
                parent_pid == self.slot(self.current as int).pid,
                0 <= index <= self.installed,
                forall|j: int| 0 <= j < index ==> !waitable(#[trigger] self.slot(j), parent_pid, requested_pid, zombie_only),
            decreases self.installed - index,
        {
            let task = self.tasks[index];
            if task.pid == 0 || task.parent_pid != parent_pid {
                index += 1;
                continue;
            }
            if requested_pid > 0 && task.pid != requested_pid as u64 {
                index += 1;
                continue;
            }
            let waitable = task.zombie
                || (!zombie_only && (task.active || task.waiting_stdin || task.waiting_pipe_read
                    || task.waiting_timeout || task.waiting_child));
            if waitable {
                return Some(index);
            }
            index += 1;
        }
        None
    }

    /// Moves to the next active slot after the current one.
    fn switch_to_next(&mut self, frame: &mut TrapFrame) -> (r: Option<UserSwitch>)
        requires
            old(self).wf(),
            old(self).installed > 0,
        ensures
            final(self).wf(),
            final(self).same_counters(old(self)),
            final(self).tasks == old(self).tasks,
            match old(self).next_after_current(old(self).tasks@) {
                None => r is None && final(self).current == old(self).current
                    && final(self).focus == old(self).focus && *final(frame) == *old(frame),
                Some(n) => final(self).current == n && final(self).focus == n
                    && *final(frame) == old(self).slot(n as int).frame && r == Some(switch_to(old(self).slot(n as int))),
            },
    {
        let next = match self.next_active_from((self.current + 1) % self.installed) {
            Some(n) => n,
            None => return None,
        };
        self.current = next;
        self.focus = next;
        let task = self.tasks[next];
        *frame = task.frame;
        Some(UserSwitch { name: task.name, pml4_phys: task.pml4_phys, fs_base: task.fs_base })
    }

    /// What `exit(status)` does, given the table before it.
    pub open spec fn exit_spec(&self, frame: TrapFrame, fs_base: u64, status: i32,
        after: Self, frame_after: TrapFrame, r: ExitOutcome) -> bool
    {
        let cur = self.current as int;
        let et = self.slot(cur);
        let tasks1 = self.tasks@.update(cur, exited(et, fs_base, status));
        if exists|p: int| 0 <= p < self.installed && waits_for(#[trigger] tasks1[p], et.parent_pid, et.pid) {
            let p = choose|p: int| 0 <= p < self.installed && waits_for(#[trigger] tasks1[p], et.parent_pid, et.pid)
                && forall|j: int| 0 <= j < p ==> !waits_for(#[trigger] tasks1[j], et.parent_pid, et.pid);
            let tasks2 = tasks1.update(p, resumed_parent(tasks1[p], et.pid)).update(cur, released(exited(et, fs_base, status)));
            &&& after.tasks@ == tasks2
            &&& after.current == p
            &&& after.focus == p
            &&& frame_after == tasks2[p].frame
            &&& r.resume == Some(switch_to(tasks2[p]))
            &&& r.status_write == status_write_for(tasks1[p], status)
        } else if cur != 0 && tasks1[0].active {
            &&& after.tasks@ == tasks1
            &&& after.current == 0
            &&& after.focus == 0
            &&& frame_after == tasks1[0].frame
            &&& r.resume == Some(switch_to(tasks1[0]))
            &&& r.status_write is None
        } else {
            &&& after.tasks@ == tasks1
            &&& r.status_write is None
            &&& match next_active_spec(tasks1, self.installed as int, (cur + 1) % (self.installed as int), self.installed as nat) {
                None => r.resume is None && after.current == self.current && after.focus == self.focus
                    && frame_after == frame,
                Some(n) => after.current == n && after.focus == n && frame_after == tasks1[n as int].frame
                    && r.resume == Some(switch_to(tasks1[n as int])),
            }
        }
    }

    /// `exit(status)` of the current task. It becomes a zombie; a parent
    /// blocked in a matching `wait4` collects it at once and runs next (with
    /// the exit status stored at the address it gave); otherwise the init
    /// slot resumes if it is runnable, else the next active slot.
    pub fn exit_current(&mut self, frame: &mut TrapFrame, status: i32, fs_base: u64) -> (r: ExitOutcome)
        requires old(self).wf(),
        ensures
            final(self).wf(),
            final(self).same_counters(old(self)),
            !old(self).initialized || old(self).installed == 0 ==> *final(self) == *old(self)
                && *final(frame) == *old(frame) && r.resume is None && r.status_write is None,
            old(self).initialized && old(self).installed > 0 ==>
                old(self).exit_spec(*old(frame), fs_base, status, *final(self), *final(frame), r),
    {
        if !self.is_ready() || self.installed == 0 {
            return ExitOutcome { resume: None, status_write: None };
        }
        let exiting = self.current;
        let et = self.tasks[exiting];
        let exiting_pid = et.pid;
        let parent_pid = et.parent_pid;
        let mut task = et;
        task.fs_base = fs_base;
        task.active = false;
        task.waiting_stdin = false;
        task.stdin_buffer = 0;
        task.waiting_pipe_read = false;
        task.pipe_id = 0;
        task.pipe_buffer = 0;
        task.waiting_child = false;
        task.wait_pid = 0;
        task.wait_status = 0;
        task.waiting_timeout = false;
        task.wake_tick = 0;
        task.zombie = true;
        task.exit_status = status;
        self.tasks.set(exiting, task);
        let ghost tasks1 = self.tasks@;

        let found = self.find_waiting_parent(parent_pid, exiting_pid);
        proof {
            match found {
                Some(parent) => {
                    assert forall|j: int| 0 <= j < parent implies !waits_for(#[trigger] tasks1[j], parent_pid, exiting_pid) by {
                        assert(!waits_for(self.slot(j), parent_pid, exiting_pid));
                    }
                    assert(waits_for(tasks1[parent as int], parent_pid, exiting_pid));
                },
                None => {
                    assert forall|j: int| 0 <= j < self.installed implies !waits_for(#[trigger] tasks1[j], parent_pid, exiting_pid) by {
                        assert(!waits_for(self.slot(j), parent_pid, exiting_pid));
                    }
                },
            }
        }
        match found {
            Some(parent) => {
                let waiter = self.tasks[parent];
                let mut pt = waiter;
                pt.waiting_child = false;
                pt.wait_pid = 0;
                pt.active = true;
                pt.frame.rax = exiting_pid;
                let status_write = if waiter.wait_status == 0 {
                    None
                } else {
                    Some(StatusWrite { pml4_phys: waiter.pml4_phys, address: waiter.wait_status, value: wait_status_word(status) })
                };
                pt.wait_status = 0;
                self.tasks.set(parent, pt);
                let mut done = task;
                done.zombie = false;
                done.pid = 0;
                done.parent_pid = 0;
                done.process_group = 0;
                done.session = 0;
                done.session_leader = false;
                self.tasks.set(exiting, done);
                self.current = parent;
                self.focus = parent;
                let resumed = self.tasks[parent];
                *frame = resumed.frame;
                proof {
                    let p = choose|p: int| 0 <= p < old(self).installed && waits_for(#[trigger] tasks1[p], parent_pid, exiting_pid)
                        && forall|j: int| 0 <= j < p ==> !waits_for(#[trigger] tasks1[j], parent_pid, exiting_pid);
                    assert(waits_for(tasks1[parent as int], parent_pid, exiting_pid));
                    if p < parent { assert(!waits_for(tasks1[p], parent_pid, exiting_pid)); }
                    if parent < p { assert(!waits_for(tasks1[parent as int], parent_pid, exiting_pid)); }
                    assert(p == parent);
                }
                return ExitOutcome {
                    resume: Some(UserSwitch { name: resumed.name, pml4_phys: resumed.pml4_phys, fs_base: resumed.fs_base }),
                    status_write,
                };
            },
            None => {},
        }

        if exiting != 0 && self.tasks[0].active {
            self.current = 0;
            self.focus = 0;
            let t0 = self.tasks[0];
            *frame = t0.frame;
            return ExitOutcome {
                resume: Some(UserSwitch { name: t0.name, pml4_phys: t0.pml4_phys, fs_base: t0.fs_base }),
                status_write: None,
            };
        }
        let resume = self.switch_to_next(frame);
        ExitOutcome { resume, status_write: None }
    }

    /// Whether the current process has a child `wait4(requested_pid)` may
    /// collect (`zombie_only`) or wait for.
    pub open spec fn has_waitable(&self, requested_pid: i32, zombie_only: bool) -> bool {
        let parent = self.slot(self.current as int).pid;
        &&& self.initialized
        &&& parent != 0
        &&& exists|i: int| 0 <= i < self.installed && waitable(#[trigger] self.slot(i), parent, requested_pid, zombie_only)
    }

    /// The first such child's slot.
    pub open spec fn first_waitable(&self, requested_pid: i32, zombie_only: bool) -> int {
        let parent = self.slot(self.current as int).pid;
        choose|i: int| 0 <= i < self.installed && waitable(#[trigger] self.slot(i), parent, requested_pid, zombie_only)
            && forall|j: int| 0 <= j < i ==> !waitable(#[trigger] self.slot(j), parent, requested_pid, zombie_only)
    }

    /// `wait4(pid)`: collects an exited child (its pid, with the status stored
    /// at the address in `rsi`), or blocks the caller while a matching child
    /// still runs, or reports that there is no such child.
    pub fn wait_for_child(&mut self, frame: &mut TrapFrame, pid: i32, fs_base: u64) -> (r: (WaitResult, Option<StatusWrite>))
        requires old(self).wf(),
        ensures
            final(self).wf(),
            final(self).same_counters(old(self)),
            old(self).has_waitable(pid, true) ==> {
                let z = old(self).first_waitable(pid, true);
                let cur = old(self).current as int;
                let tasks_a = old(self).tasks@.update(z, collected(old(self).slot(z)));
                &&& r.0 == WaitResult::Exited(old(self).slot(z).pid)
                &&& r.1 == status_write_for(tasks_a[cur], old(self).slot(z).exit_status)
                &&& final(self).tasks@ == if tasks_a[cur].wait_status == 0 { tasks_a }
                        else { tasks_a.update(cur, UserTask { wait_status: 0, ..tasks_a[cur] }) }
                &&& final(self).current == old(self).current
                &&& final(self).focus == old(self).focus
                &&& *final(frame) == *old(frame)
            },
            !old(self).has_waitable(pid, true) && old(self).has_waitable(pid, false) ==> {
                &&& r.1 is None
                &&& old(self).block_outcome(*old(frame), fs_base,
                    BlockReason::Child { wait_pid: pid, wait_status: old(frame).rsi }, *final(self), *final(frame),
                    match r.0 { WaitResult::Blocked(sw) => Some(sw), _ => None })
                &&& (r.0 is Blocked || r.0 is NoChild)
                &&& final(self).focus == old(self).focus
            },
            !old(self).has_waitable(pid, true) && !old(self).has_waitable(pid, false) ==> {
                &&& r.0 is NoChild
                &&& r.1 is None
                &&& *final(self) == *old(self)
                &&& *final(frame) == *old(frame)
            },
    {
        let ghost parent = self.slot(self.current as int).pid;
        let found = self.find_waitable_child(pid, true);
        proof {
            match found {
                Some(z) => {
                    assert(waitable(self.slot(z as int), parent, pid, true));
                    assert(self.has_waitable(pid, true));
                    let c = self.first_waitable(pid, true);
                    if c < z { assert(!waitable(self.slot(c), parent, pid, true)); }
                    if z < c { assert(!waitable(self.slot(z as int), parent, pid, true)); }
                    assert(c == z);
                },
                None => {
                    if self.has_waitable(pid, true) {
                        let c = choose|i: int| 0 <= i < self.installed && waitable(#[trigger] self.slot(i), parent, pid, true);
                        assert(!waitable(self.slot(c), parent, pid, true));
                    }
                },
            }
        }
        let child = match found {
            Some(c) => c,
            None => {
                let any = self.find_waitable_child(pid, false);
                proof {
                    if any is None && self.has_waitable(pid, false) {
                        let c = choose|i: int| 0 <= i < self.installed && waitable(#[trigger] self.slot(i), parent, pid, false);
                        assert(!waitable(self.slot(c), parent, pid, false));
                    }
                    if any is Some {
                        assert(waitable(self.slot(any.unwrap() as int), parent, pid, false));
                    }
                }
                if any.is_some() {
                    let status_address = frame.rsi;
                    match self.block_current_for_child(frame, pid, status_address, fs_base) {
                        Some(sw) => return (WaitResult::Blocked(sw), None),
                        None => {},
                    }
                }
                return (WaitResult::NoChild, None);
            },
        };
        let child_task = self.tasks[child];
        let child_pid = child_task.pid;
        let status = child_task.exit_status;
        let mut t = child_task;
        t.zombie = false;
        t.active = false;
        t.waiting_stdin = false;
        t.waiting_pipe_read = false;
        t.waiting_child = false;
        t.waiting_timeout = false;
        t.wake_tick = 0;
        t.pid = 0;
        t.parent_pid = 0;
        t.process_group = 0;
        t.session = 0;
        t.session_leader = false;
        self.tasks.set(child, t);
        let waiter = self.tasks[self.current];
        let status_write = if waiter.wait_status == 0 {
            None
        } else {
            let mut w = waiter;
            w.wait_status = 0;
            self.tasks.set(self.current, w);
            Some(StatusWrite { pml4_phys: waiter.pml4_phys, address: waiter.wait_status, value: wait_status_word(status) })
        };
        (WaitResult::Exited(child_pid), status_write)
    }
}


impl Scheduler {
    /// The table's invariant.
    pub open spec fn wf(&self) -> bool {
        self.cursor < KERNEL_TASKS
    }

    /// An empty table.
    pub fn new() -> (r: Self)
        ensures
            r.wf(),
            r.cursor == 0,
            r.ticks == 0,
            forall|i: int| 0 <= i < KERNEL_TASKS ==> r.tasks@[i] is None,
    {
        Scheduler { tasks: [None, None, None, None, None, None, None, None], cursor: 0, ticks: 0 }
    }

    /// Puts a task named `name` in the first free slot; a full table is left as it is.
    pub fn spawn(&mut self, name: &'static str)
        ensures
            final(self).cursor == old(self).cursor,
            final(self).ticks == old(self).ticks,
            (forall|i: int| 0 <= i < KERNEL_TASKS ==> (#[trigger] old(self).tasks@[i]) is Some) ==> final(self).tasks@ == old(self).tasks@,
            forall|i: int| 0 <= i < KERNEL_TASKS && (#[trigger] old(self).tasks@[i]) is None
                && (forall|j: int| 0 <= j < i ==> (#[trigger] old(self).tasks@[j]) is Some)
                ==> final(self).tasks@ == old(self).tasks@.update(i, Some(Task { name: name, ticks: 0 })),
    {
        let mut i: usize = 0;
        while i < KERNEL_TASKS
            invariant
                0 <= i <= KERNEL_TASKS,
                *self == *old(self),
                forall|j: int| 0 <= j < i ==> (#[trigger] self.tasks@[j]) is Some,
            decreases KERNEL_TASKS - i,
        {
            if self.tasks[i].is_none() {
                self.tasks[i] = Some(Task { name, ticks: 0 });
                proof {
                    assert forall|k: int| 0 <= k < KERNEL_TASKS && (#[trigger] old(self).tasks@[k]) is None
                        && (forall|j: int| 0 <= j < k ==> (#[trigger] old(self).tasks@[j]) is Some)
                        implies k == i by {
                        if k > i { assert(old(self).tasks@[i as int] is Some); }
                    }
                }
                return;
            }
            i += 1;
        }
    }

    /// One timer tick: the clock advances and the next slot's task is charged.
    pub fn tick(&mut self)
        requires old(self).wf(),
        ensures
            final(self).wf(),
            final(self).ticks == spec_wrap_inc(old(self).ticks),
            final(self).cursor == (old(self).cursor + 1) % (KERNEL_TASKS as int),
            final(self).tasks@ == match old(self).tasks@[final(self).cursor as int] {
                Some(t) => old(self).tasks@.update(final(self).cursor as int, Some(Task { ticks: spec_wrap_inc(t.ticks), ..t })),
                None => old(self).tasks@,
            },
    {
        self.ticks = wrap_inc(self.ticks);
        self.cursor = (self.cursor + 1) % KERNEL_TASKS;
        match self.tasks[self.cursor] {
            Some(t) => {
                let c = self.cursor;
                self.tasks[c] = Some(Task { name: t.name, ticks: wrap_inc(t.ticks) });
            },
            None => {},
        }
    }

    /// The number of ticks so far.
    pub fn ticks(&self) -> (r: u64)
        ensures r == self.ticks,
    {
        self.ticks
    }
}

/// The pid counter never reaches 0 or 1 (init's): from any pid of 2 or
/// more, the next one handed out is 2 or more, also when it wraps.
pub proof fn lemma_alloc_pid_never_init(p: u64)
    requires p >= 2,
    ensures
        UserScheduler::pid_after(p) >= 2,
{
}

} // verus!
