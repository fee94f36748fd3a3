use nk::editor::{command, copy_path, display_path, ends_append, read_line_key, EditCommand, Editor, BUFFER_CAP};
use nk::gui::{entry_colors, label, ACTIVE, DIM, INACTIVE, LIGHT};
use nk::nsh::{external_arg, line_key, resolve_arg, resolve_command, run_line, NshAction};
use nk::text::{split_first, trim};

#[test]
fn trimming_blanks() {
    assert_eq!(trim(b"  ls /bin  ", false), b"ls /bin".to_vec());
    assert_eq!(trim(b"\t a\t", false), b"\t a\t".to_vec());
    assert_eq!(trim(b"\t a\t", true), b"a".to_vec());
    assert_eq!(trim(b"    ", false), Vec::<u8>::new());
}

#[test]
fn splitting_command_lines() {
    assert_eq!(split_first(b"ls"), (b"ls".to_vec(), None));
    assert_eq!(split_first(b"cat  /hello.txt "), (b"cat".to_vec(), Some(b"/hello.txt".to_vec())));
    assert_eq!(split_first(b"cd   "), (b"cd".to_vec(), None));
}

#[test]
fn shell_paths() {
    assert_eq!(resolve_arg(b"/", b"bin"), b"/bin".to_vec());
    assert_eq!(resolve_arg(b"/home", b"./notes/"), b"/home/notes".to_vec());
    assert_eq!(resolve_arg(b"/home", b"."), b"/home".to_vec());
    assert_eq!(resolve_arg(b"/home", b"/etc//"), b"/etc".to_vec());
    assert_eq!(resolve_command(b"/home", b"ls"), b"/bin/ls".to_vec());
    assert_eq!(resolve_command(b"/home", b"./run"), b"/home/run".to_vec());
    assert_eq!(external_arg(b"/home", &Some(b"-l".to_vec())), b"-l".to_vec());
    assert_eq!(external_arg(b"/home", &Some(b"./a".to_vec())), b"/home/a".to_vec());
    assert_eq!(external_arg(b"/home", &None), Vec::<u8>::new());
    let long = vec![b'x'; 300];
    assert_eq!(resolve_arg(b"/", &long).len(), 256);
}

#[test]
fn shell_command_lines() {
    assert!(matches!(run_line(b"/", b"   "), NshAction::Nothing));
    assert!(matches!(run_line(b"/", b"help"), NshAction::Help));
    assert!(matches!(run_line(b"/", b" version "), NshAction::Version));
    assert!(matches!(run_line(b"/", b"pwd"), NshAction::Pwd));
    assert!(matches!(run_line(b"/", b"shutdown"), NshAction::Shutdown));
    match run_line(b"/home", b"ls") {
        NshAction::List(p) => assert_eq!(p, b"/home".to_vec()),
        _ => panic!("ls lists"),
    }
    match run_line(b"/home", b"cd") {
        NshAction::ChangeDir(p) => assert_eq!(p, b"/".to_vec()),
        _ => panic!("cd changes directory"),
    }
    match run_line(b"/home", b"cat ./a.txt") {
        NshAction::Run(prog, arg) => {
            assert_eq!(prog, b"/bin/cat".to_vec());
            assert_eq!(arg, b"/home/a.txt".to_vec());
        }
        _ => panic!("cat runs"),
    }
    match run_line(b"/", b"echo ok") {
        NshAction::Run(prog, arg) => assert_eq!((prog, arg), (b"/bin/echo".to_vec(), b"ok".to_vec())),
        _ => panic!("echo runs"),
    }
}

#[test]
fn shell_line_editing() {
    let mut line = Vec::new();
    assert_eq!(line_key(&mut line, b'l'), (Some(b'l'), false));
    assert_eq!(line_key(&mut line, b'x'), (Some(b'x'), false));
    assert_eq!(line_key(&mut line, 127), (Some(8), false));
    assert_eq!(line_key(&mut line, b's'), (Some(b's'), false));
    assert_eq!(line_key(&mut line, 1), (None, false));
    assert_eq!(line_key(&mut line, b'\r'), (Some(b'\n'), true));
    assert_eq!(line, b"ls".to_vec());
    let mut empty = Vec::new();
    assert_eq!(line_key(&mut empty, 8), (None, false));
}

#[test]
fn editor_commands() {
    assert!(command(b" a") == EditCommand::Append);
    assert!(command(b"\tc") == EditCommand::Clear);
    assert!(command(b"p") == EditCommand::Print);
    assert!(command(b"q") == EditCommand::Quit);
    assert!(command(b"Q") == EditCommand::ForceQuit);
    assert!(command(b"w") == EditCommand::Write);
    assert!(command(b"?") == EditCommand::Help);
    assert!(command(b"x") == EditCommand::Help);
    assert!(command(b"  ") == EditCommand::Nothing);
    assert!(ends_append(b" . "));
    assert!(!ends_append(b".."));
}

#[test]
fn editor_buffer() {
    let path = copy_path(b"/home/root/a.txt").unwrap();
    assert_eq!(path.last(), Some(&0));
    assert_eq!(display_path(&path), b"/home/root/a.txt".to_vec());
    assert!(copy_path(b"").is_none());
    let mut e = Editor::new(path);
    assert_eq!(e.print(), b"----- buffer -----\n(empty)\n------------------\n".to_vec());
    assert!(e.append_line(b"hello"));
    assert!(e.dirty);
    assert!(!e.may_quit());
    assert_eq!(e.print(), b"----- buffer -----\nhello\n------------------\n".to_vec());
    e.saved();
    assert!(e.may_quit());
    e.clear();
    e.load(b"no newline");
    assert_eq!(e.print(), b"----- buffer -----\nno newline\n------------------\n".to_vec());
    assert_eq!(e.room(), BUFFER_CAP - 10);
    let big = vec![b'x'; BUFFER_CAP];
    assert!(!e.append_line(&big));
    e.load(&big);
    assert_eq!(e.buffer.len(), BUFFER_CAP);
}

#[test]
fn editor_reads_lines() {
    let mut line = Vec::new();
    assert!(!read_line_key(&mut line, b'h'));
    assert!(!read_line_key(&mut line, b'i'));
    assert!(read_line_key(&mut line, b'\n'));
    assert_eq!(line, b"hi".to_vec());
}

#[test]
fn panel_labels() {
    assert_eq!(label(1), "shell");
    assert_eq!(label(2), "tasks");
    assert_eq!(label(3), "cat");
    assert_eq!(label(9), "gui");
    assert_eq!(entry_colors(true), (ACTIVE, LIGHT));
    assert_eq!(entry_colors(false), (INACTIVE, DIM));
}
