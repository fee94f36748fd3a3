use nk::linux_abi::{
    classify, note_unknown_syscall, write_outcome, LinuxAbi, SyscallKind, EBADF, EFAULT, EINVAL, ENODATA, ENOENT,
    ENOSYS, EPIPE, USER_BRK_START, USER_MMAP_START,
};
use nk::linux_calls::{
    arch_prctl, clock_gettime, exec_arguments, getrandom, gettimeofday, ioctl_reads_lflag, prlimit64, readlink,
    uname, write_rlimit, writev_result, FsBaseRequest, TCGETS, TCSETS, TIOCGWINSZ,
};
use nk::scheduler::UserScheduler;
use nk::services::Gui;

#[test]
fn syscall_numbers_are_classified() {
    assert!(classify(0) == SyscallKind::Read);
    assert!(classify(1) == SyscallKind::Write);
    assert!(classify(4) == SyscallKind::Stat);
    assert!(classify(6) == SyscallKind::Stat);
    assert!(classify(257) == SyscallKind::OpenAt);
    assert!(classify(60) == SyscallKind::Exit);
    assert!(classify(231) == SyscallKind::Exit);
    assert!(classify(11) == SyscallKind::Fixed(0));
    assert!(classify(22) == SyscallKind::Fixed(ENOSYS));
    assert!(classify(191) == SyscallKind::Fixed(ENODATA));
    assert!(classify(218) == SyscallKind::Fixed(4));
    assert!(classify(999) == SyscallKind::Unknown);
}

#[test]
fn unknown_syscalls_are_logged_sparsely() {
    assert_eq!(note_unknown_syscall(0), (1, true));
    assert_eq!(note_unknown_syscall(31), (32, true));
    assert_eq!(note_unknown_syscall(32), (33, false));
    assert_eq!(note_unknown_syscall(127), (128, true));
    assert_eq!(note_unknown_syscall(u64::MAX), (0, true));
}

#[test]
fn uname_fields() {
    let u = uname(false).unwrap();
    assert_eq!(u.len(), 325);
    assert_eq!(&u[0..6], b"Linux\0");
    assert_eq!(&u[65..68], b"nk\0");
    assert_eq!(&u[130..136], b"0.1.0\0");
    assert_eq!(&u[195..204], b"nk-posix\0");
    assert_eq!(&u[260..267], b"x86_64\0");
    assert_eq!(uname(true), Err(EFAULT));
}

#[test]
fn readlink_of_the_executable() {
    assert_eq!(readlink(false, b"/proc/self/exe", false, 64), Ok(b"/bin/bash".to_vec()));
    assert_eq!(readlink(false, b"/proc/curproc/file", false, 4), Ok(b"/bin".to_vec()));
    assert_eq!(readlink(false, b"/etc/passwd", false, 64), Err(ENOENT));
    assert_eq!(readlink(true, b"", false, 64), Err(EFAULT));
}

#[test]
fn getrandom_pattern() {
    let r = getrandom(false, 5).unwrap();
    assert_eq!(r, vec![11, 48, 85, 122, 159]);
    assert_eq!(getrandom(false, 1000).unwrap().len(), 64);
    assert_eq!(getrandom(false, 1000).unwrap()[7], ((7 * 37 + 11) % 256) as u8);
    assert_eq!(getrandom(true, 4), Err(EFAULT));
}

#[test]
fn limits_and_clocks() {
    assert_eq!(write_rlimit(false), Ok(vec![0xff; 16]));
    assert_eq!(write_rlimit(true), Err(EFAULT));
    assert_eq!(prlimit64(false, false), Err(EINVAL));
    assert_eq!(prlimit64(true, true), Ok(vec![]));
    assert_eq!(prlimit64(true, false), Ok(vec![0xff; 16]));
    let mut one = vec![0u8; 16];
    one[0] = 1;
    assert_eq!(gettimeofday(false), Ok(one.clone()));
    assert_eq!(gettimeofday(true), Ok(vec![]));
    assert_eq!(clock_gettime(false), Ok(one));
    assert_eq!(clock_gettime(true), Err(EFAULT));
}

#[test]
fn arch_prctl_requests() {
    assert!(arch_prctl(0x1002, 0x7000) == FsBaseRequest::Load(0x7000));
    assert!(arch_prctl(0x1003, 0x8000) == FsBaseRequest::Store(0x8000));
    assert!(arch_prctl(0x1003, 0) == FsBaseRequest::Refused(EFAULT));
    assert!(arch_prctl(0x1001, 5) == FsBaseRequest::Refused(EINVAL));
}

#[test]
fn terminal_ioctls() {
    let mut abi = LinuxAbi::new();
    let (r, rec) = abi.ioctl(1, 0, TCGETS, false, 0);
    assert_eq!(r, 0);
    assert_eq!(rec.len(), 64);
    assert_eq!(&rec[12..16], &0x8a3bu32.to_le_bytes());
    assert_eq!(rec[19], 8);
    assert!(ioctl_reads_lflag(TCSETS));
    assert!(!ioctl_reads_lflag(TCGETS));
    assert_eq!(abi.ioctl(1, 0, TCSETS, false, 0).0, 0);
    assert!(abi.stdin_raw[1]);
    let (_, raw) = abi.ioctl(1, 0, TCGETS, false, 0);
    assert_eq!(&raw[12..16], &[0, 0, 0, 0]);
    abi.ioctl(1, 0, TCSETS, false, 0x0a);
    assert!(!abi.stdin_raw[1]);
    assert_eq!(abi.ioctl(1, 1, TIOCGWINSZ, false, 0), (0, vec![24, 0, 80, 0, 0, 0, 0, 0]));
    assert_eq!(abi.ioctl(1, 5, TCGETS, false, 0), (EBADF, vec![]));
    assert_eq!(abi.ioctl(1, 0, TCGETS, true, 0), (EFAULT, vec![]));
    assert_eq!(abi.ioctl(1, 0, 0x1234, false, 0), (0, vec![]));
}

#[test]
fn poll_reports_ready_streams() {
    let abi = LinuxAbi::new();
    let entries = [(0, 1i16), (1, 4i16), (5, 1i16), (0, 0i16)];
    let (n, revents) = abi.poll(0, false, 4, &entries, true);
    assert_eq!(n, 2);
    assert_eq!(revents, vec![1, 4, 0, 0]);
    let (n, revents) = abi.poll(0, false, 4, &entries, false);
    assert_eq!((n, revents), (1, vec![0, 4, 0, 0]));
    assert_eq!(abi.poll(0, true, 4, &entries, false).0, EFAULT);
    assert_eq!(abi.poll(0, false, 0, &[], false), (0, vec![]));
}

#[test]
fn writev_sums_until_an_error() {
    assert_eq!(writev_result(&[3, 4, 5]), 12);
    assert_eq!(writev_result(&[3, EPIPE, 5]), EPIPE);
    assert_eq!(writev_result(&[]), 0);
    assert_eq!(write_outcome(10, 0, false), 10);
    assert_eq!(write_outcome(10, 4, true), 4);
    assert_eq!(write_outcome(10, 0, true), EFAULT);
}

#[test]
fn exec_arguments_fall_back_to_the_program_name() {
    assert_eq!(exec_arguments(b"/bin/ls", &[]), vec![b"ls".to_vec()]);
    assert_eq!(exec_arguments(b"cat", &[]), vec![b"cat".to_vec()]);
    let argv = vec![b"ls".to_vec(), b"-l".to_vec()];
    assert_eq!(exec_arguments(b"/bin/ls", &argv), argv);
}

#[test]
fn stdout_budget_runs_out() {
    let mut abi = LinuxAbi::new();
    assert_eq!(abi.stdout_allowance(2, 1, 100), Ok(100));
    abi.set_stdout_budget_for(2, 5);
    assert_eq!(abi.stdout_allowance(2, 1, 3), Ok(3));
    assert_eq!(abi.stdout_allowance(2, 1, 3), Ok(2));
    assert_eq!(abi.stdout_allowance(2, 1, 3), Err(EPIPE));
    assert_eq!(abi.stdout_allowance(2, 2, 3), Ok(3));
}

#[test]
fn process_state_resets_and_forks() {
    let mut abi = LinuxAbi::new();
    abi.set_stdout_budget_for(1, 9);
    abi.program_breaks[1] = USER_BRK_START + 4096;
    abi.cwds[1] = b"/bin".to_vec();
    abi.copy_process_state(1, 4);
    assert_eq!(abi.stdout_budgets[4], 9);
    assert_eq!(abi.program_breaks[4], USER_BRK_START + 4096);
    assert_eq!(abi.current_cwd(4), b"/bin".to_vec());
    abi.reset_process_state(4);
    assert_eq!(abi.stdout_budgets[4], -1);
    assert_eq!(abi.program_breaks[4], USER_BRK_START);
    assert_eq!(abi.mmap_cursors[4], USER_MMAP_START);
    assert_eq!(abi.current_cwd(4), b"/bin".to_vec());
}

#[test]
fn stdin_line_is_released_on_enter() {
    let mut abi = LinuxAbi::new();
    let mut sched = UserScheduler::new();
    let mut gui = Gui::new();
    for b in b"lx" {
        abi.handle_stdin_key(&mut sched, &mut gui, *b);
    }
    abi.handle_stdin_key(&mut sched, &mut gui, 8);
    abi.handle_stdin_key(&mut sched, &mut gui, b's');
    assert_eq!(abi.input_line, b"ls".to_vec());
    assert!(!abi.ready.has_data());
    abi.handle_stdin_key(&mut sched, &mut gui, b'\n');
    assert!(abi.input_line.is_empty());
    assert_eq!(abi.ready.pop_up_to(10), b"ls\n".to_vec());
    assert_eq!(gui.console_len(), 5);
}

use nk::linux_calls::{iovec_entry, poll_entry, resid_targets, writev_entry_result};

#[test]
fn pollfd_entries_are_decoded() {
    assert_eq!(poll_entry(&[3, 0, 0, 0, 1, 0, 0, 0]), (3, 1));
    assert_eq!(poll_entry(&[0xff; 8]), (-1, -1));
    assert_eq!(poll_entry(&[0, 1, 0, 0, 4, 0x80, 9, 9]), (256, -32764));
}

#[test]
fn iovecs_are_decoded() {
    let mut raw = Vec::new();
    raw.extend_from_slice(&0x4000_1000u64.to_le_bytes());
    raw.extend_from_slice(&37u64.to_le_bytes());
    assert_eq!(iovec_entry(&raw), (0x4000_1000, 37));
}

#[test]
fn writev_results_are_capped() {
    assert_eq!(writev_entry_result(12), 12);
    assert_eq!(writev_entry_result(EFAULT), EFAULT);
    assert_eq!(writev_entry_result(i64::MAX), i64::MAX / 16);
    let sixteen = vec![writev_entry_result(i64::MAX); 16];
    assert_eq!(writev_result(&sixteen), (i64::MAX / 16) * 16);
}

#[test]
fn resid_stores_go_to_non_null_pointers() {
    assert_eq!(resid_targets(0x10, 0, 0x30), vec![0x10, 0x30]);
    assert_eq!(resid_targets(0, 0, 0), Vec::<u64>::new());
    assert_eq!(resid_targets(1, 2, 3), vec![1, 2, 3]);
}

use nk::linux_calls::next_exec_argument;

#[test]
fn execve_follows_at_most_four_argument_pointers() {
    assert_eq!(next_exec_argument(0, &0x4000_2000u64.to_le_bytes()), Some(0x4000_2000));
    assert_eq!(next_exec_argument(3, &0x10u64.to_le_bytes()), Some(0x10));
    assert_eq!(next_exec_argument(4, &0x10u64.to_le_bytes()), None);
    assert_eq!(next_exec_argument(0, &0u64.to_le_bytes()), None);
    assert_eq!(next_exec_argument(0, &[]), None);
}
