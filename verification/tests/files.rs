use nk::disk::Disk;
use nk::linux_abi::{canonicalize_path, LinuxAbi, AT_FDCWD, EBADF, EINVAL, ENOENT, O_CREAT, O_WRONLY};
use nk::linux_calls::{stat_record, statx_record, STREAM_MODE};
use nk::nkfs::{parse_superblock, Nkfs, KIND_DIR, KIND_FILE};

fn put32(b: &mut [u8], at: usize, v: u32) {
    b[at..at + 4].copy_from_slice(&v.to_le_bytes());
}

fn dir_record(out: &mut Vec<u8>, inode: u32, name: &[u8], kind: u16) {
    out.extend_from_slice(&inode.to_le_bytes());
    out.extend_from_slice(&(name.len() as u16).to_le_bytes());
    out.extend_from_slice(&kind.to_le_bytes());
    out.extend_from_slice(name);
    while out.len() % 4 != 0 {
        out.push(0);
    }
}

fn inode(b: &mut [u8], n: usize, kind: u16, size: u64, start: u32, blocks: u32) {
    let at = 512 + (n - 1) * 128;
    b[at..at + 2].copy_from_slice(&kind.to_le_bytes());
    b[at + 8..at + 16].copy_from_slice(&size.to_le_bytes());
    put32(b, at + 16, start);
    put32(b, at + 20, blocks);
}

/// A volume: `/hello.txt` ("hello\n"), the empty directory `/bin`, and
/// room for eight more blocks.
fn volume() -> Vec<u8> {
    let mut b = vec![0u8; 64 * 512];
    b[0..8].copy_from_slice(b"NKFSv1\0\0");
    put32(&mut b, 8, 1);
    put32(&mut b, 12, 512);
    put32(&mut b, 16, 16);
    put32(&mut b, 20, 1);
    put32(&mut b, 24, 4);
    put32(&mut b, 28, 5);
    put32(&mut b, 32, 1);
    put32(&mut b, 36, 8);
    put32(&mut b, 40, 64);
    let mut root = Vec::new();
    dir_record(&mut root, 1, b".", KIND_DIR);
    dir_record(&mut root, 1, b"..", KIND_DIR);
    dir_record(&mut root, 2, b"hello.txt", KIND_FILE);
    dir_record(&mut root, 3, b"bin", KIND_DIR);
    let mut bin = Vec::new();
    dir_record(&mut bin, 3, b".", KIND_DIR);
    dir_record(&mut bin, 1, b"..", KIND_DIR);
    inode(&mut b, 1, KIND_DIR, root.len() as u64, 5, 1);
    inode(&mut b, 2, KIND_FILE, 6, 6, 1);
    inode(&mut b, 3, KIND_DIR, bin.len() as u64, 7, 1);
    b[5 * 512..5 * 512 + root.len()].copy_from_slice(&root);
    b[6 * 512..6 * 512 + 6].copy_from_slice(b"hello\n");
    b[7 * 512..7 * 512 + bin.len()].copy_from_slice(&bin);
    b
}

#[test]
fn superblock_is_parsed() {
    let sb = parse_superblock(&volume()[..512]).unwrap();
    assert_eq!((sb.inode_count, sb.inode_table_start, sb.data_start, sb.root_inode, sb.total_blocks), (16, 1, 5, 1, 64));
    let mut bad = volume();
    bad[0] = b'X';
    assert!(parse_superblock(&bad[..512]).is_none());
}

#[test]
fn files_are_read_by_path() {
    let mut fs = Nkfs::new(Disk::from_image(volume()));
    assert_eq!(fs.read_file(b"/hello.txt"), Some(b"hello\n".to_vec()));
    assert_eq!(fs.read_file(b"/missing"), None);
    assert!(fs.path_exists(b"/bin"));
    assert!(!fs.path_exists(b"/bin/true"));
    let m = fs.metadata(b"/hello.txt").unwrap();
    assert_eq!((m.kind, m.size), (KIND_FILE, 6));
    let d = fs.metadata(b"/bin").unwrap();
    assert_eq!(d.kind, KIND_DIR);
}

#[test]
fn unformatted_disk_has_no_files() {
    let mut fs = Nkfs::new(Disk::from_image(vec![0u8; 4096]));
    assert_eq!(fs.read_file(b"/hello.txt"), None);
    assert!(fs.metadata(b"/").is_none());
}

#[test]
fn paths_are_canonicalized() {
    assert_eq!(canonicalize_path(b"/a/./b/../c//"), Some(b"/a/c".to_vec()));
    assert_eq!(canonicalize_path(b"/../.."), Some(b"/".to_vec()));
    assert_eq!(canonicalize_path(b"/usr/bin/"), Some(b"/usr/bin".to_vec()));
    assert_eq!(canonicalize_path(b"relative"), None);
    let long = [b'a'; 300];
    let mut p = vec![b'/'];
    p.extend_from_slice(&long);
    assert_eq!(canonicalize_path(&p), None);
}

#[test]
fn open_read_close_a_file() {
    let mut fs = Nkfs::new(Disk::from_image(volume()));
    let mut abi = LinuxAbi::new();
    let fd = abi.open_at(&mut fs, 1, AT_FDCWD, b"/hello.txt", 0);
    assert_eq!(fd, 3);
    let (n, bytes) = abi.read_fd(1, 3, 4, false);
    assert_eq!((n, bytes), (4, b"hell".to_vec()));
    let (n, bytes) = abi.read_fd(1, 3, 100, false);
    assert_eq!((n, bytes), (2, b"o\n".to_vec()));
    assert_eq!(abi.read_fd(1, 3, 100, false).0, 0);
    assert_eq!(abi.lseek(&fs, 1, 3, 1, 0), 1);
    assert_eq!(abi.read_fd(1, 3, 2, false).1, b"el".to_vec());
    assert_eq!(abi.read_fd(1, 4, 2, false).0, EBADF);
    assert_eq!(abi.read_fd(2, 3, 2, false).0, EBADF);
    assert_eq!(abi.close(1, 3), 0);
    assert_eq!(abi.close(1, 3), EBADF);
}

#[test]
fn open_missing_file_fails() {
    let mut fs = Nkfs::new(Disk::from_image(volume()));
    let mut abi = LinuxAbi::new();
    assert_eq!(abi.open_at(&mut fs, 0, AT_FDCWD, b"/nope", 0), ENOENT);
    assert_eq!(abi.open_at(&mut fs, 0, AT_FDCWD, b"", 0), ENOENT);
}

#[test]
fn relative_paths_follow_the_working_directory() {
    let mut fs = Nkfs::new(Disk::from_image(volume()));
    let mut abi = LinuxAbi::new();
    assert_eq!(abi.chdir(&mut fs, Some(2), b"bin"), 0);
    assert_eq!(abi.current_cwd(2), b"/bin".to_vec());
    assert_eq!(abi.getcwd(2, false, 64), Ok(b"/bin\0".to_vec()));
    assert_eq!(abi.getcwd(2, false, 4), Err(EINVAL));
    assert_eq!(abi.open_at(&mut fs, 2, AT_FDCWD, b"../hello.txt", 0), 3);
    assert_eq!(abi.chdir(&mut fs, Some(2), b"/hello.txt"), ENOENT);
    assert_eq!(abi.chdir(&mut fs, None, b"/bin"), EINVAL);
    assert_eq!(abi.current_cwd(0), b"/".to_vec());
}

#[test]
fn stat_reports_mode_and_size() {
    let mut fs = Nkfs::new(Disk::from_image(volume()));
    let abi = LinuxAbi::new();
    assert_eq!(abi.stat_path_at(&mut fs, 0, AT_FDCWD, b"/hello.txt", false), Ok(stat_record(0o100555, 6)));
    let dir = abi.stat_path_at(&mut fs, 0, AT_FDCWD, b"/bin", false).unwrap();
    assert_eq!(&dir[24..28], &0o040555u32.to_le_bytes());
    assert_eq!(abi.stat_path_at(&mut fs, 0, AT_FDCWD, b"/nope", false), Err(ENOENT));
    assert_eq!(abi.stat_fd(0, 1, false), Ok(stat_record(STREAM_MODE, 0)));
    assert_eq!(abi.stat_fd(0, 7, false), Err(EBADF));
    let x = abi.statx(&mut fs, 0, AT_FDCWD, false, b"/hello.txt", false).unwrap();
    assert_eq!(x, statx_record(0o100555, 6));
    assert_eq!(&x[40..48], &6u64.to_le_bytes());
    assert_eq!(abi.access_at(&mut fs, 0, AT_FDCWD, b"/bin"), 0);
    assert_eq!(abi.access_at(&mut fs, 0, AT_FDCWD, b"/nope"), ENOENT);
}

#[test]
fn stat_record_layout() {
    let r = stat_record(0o100644, 0x1122);
    assert_eq!(r.len(), 144);
    assert_eq!(&r[24..28], &0o100644u32.to_le_bytes());
    assert_eq!(&r[48..56], &0x1122u64.to_le_bytes());
    assert!(r[..24].iter().all(|b| *b == 0));
    let x = statx_record(0o040555, 9);
    assert_eq!(x.len(), 256);
    assert_eq!(&x[0..4], &0x17ffu32.to_le_bytes());
    assert_eq!(&x[4..8], &4096u32.to_le_bytes());
    assert_eq!(&x[28..30], &0o040555u16.to_le_bytes());
}

#[test]
fn directory_listing_through_getdents() {
    let mut fs = Nkfs::new(Disk::from_image(volume()));
    let mut abi = LinuxAbi::new();
    let fd = abi.open_at(&mut fs, 0, AT_FDCWD, b"/", 0);
    assert_eq!(fd, 3);
    let recs = abi.getdents64(0, 3, false, 4096).unwrap();
    // ".", "..", "hello.txt", "bin": 24 + 24 + 32 + 24 bytes.
    assert_eq!(recs.len(), 104);
    assert_eq!(&recs[0..8], &1u64.to_le_bytes());
    assert_eq!(&recs[16..18], &24u16.to_le_bytes());
    assert_eq!(recs[18], 4);
    assert_eq!(&recs[19..21], b".\0");
    assert_eq!(&recs[48 + 19..48 + 28], b"hello.txt");
    assert_eq!(recs[48 + 18], 8);
    assert!(abi.getdents64(0, 3, false, 4096).unwrap().is_empty());
    assert_eq!(abi.getdents64(0, 3, true, 4096), Err(EINVAL));
    assert_eq!(abi.getdents64(0, 1, false, 4096), Err(EBADF));
}

#[test]
fn getdents_stops_when_buffer_is_full() {
    let mut fs = Nkfs::new(Disk::from_image(volume()));
    let mut abi = LinuxAbi::new();
    abi.open_at(&mut fs, 0, AT_FDCWD, b"/", 0);
    assert_eq!(abi.getdents64(0, 3, false, 30).unwrap().len(), 24);
    assert_eq!(abi.getdents64(0, 3, false, 30).unwrap().len(), 24);
    assert_eq!(abi.getdents64(0, 3, false, 30).unwrap().len(), 0);
    assert_eq!(abi.getdents64(0, 3, false, 32).unwrap().len(), 32);
}

#[test]
fn created_file_is_written_and_read_back() {
    let mut fs = Nkfs::new(Disk::from_image(volume()));
    let mut abi = LinuxAbi::new();
    let fd = abi.open_at(&mut fs, 1, AT_FDCWD, b"/notes.txt", O_CREAT | O_WRONLY);
    assert!(fd >= 3);
    assert_eq!(abi.write_regular_file(&mut fs, 1, fd as i32, b"abc", false), 3);
    assert_eq!(abi.close(1, fd as i32), 0);
    assert_eq!(fs.read_file(b"/notes.txt"), Some(b"abc".to_vec()));
    assert_eq!(abi.write_regular_file(&mut fs, 1, 9, b"abc", false), EBADF);
}

#[test]
fn canonical_paths_are_fixed_points() {
    for p in [&b"/a/./b/../c//"[..], b"/", b"/x/y/../../z/", b"/..."] {
        let once = canonicalize_path(p).unwrap();
        assert_eq!(canonicalize_path(&once), Some(once.clone()));
    }
    assert_eq!(canonicalize_path(b"/..."), Some(b"/...".to_vec()));
}

#[test]
fn written_bytes_are_read_back_at_their_offset() {
    let mut fs = Nkfs::new(Disk::from_image(volume()));
    let index = fs.open_writable_file(b"/hello.txt", false).unwrap();
    assert_eq!(fs.write_ram_file(index, 2, b"XY"), Some(2));
    assert_eq!(fs.ram_file_slice(index), Some(b"heXYo\n".to_vec()));
    assert_eq!(fs.read_file(b"/hello.txt"), Some(b"heXYo\n".to_vec()));
    assert_eq!(fs.write_ram_file(index, 6, b"!"), Some(1));
    assert_eq!(fs.read_file(b"/hello.txt"), Some(b"heXYo\n!".to_vec()));
}

#[test]
fn written_file_survives_on_the_disk() {
    let mut fs = Nkfs::new(Disk::from_image(volume()));
    let index = fs.open_writable_file(b"/hello.txt", false).unwrap();
    assert_eq!(fs.write_ram_file(index, 5, b", world\n"), Some(8));
    let mut reopened = Nkfs::new(Disk::from_image(fs.volume.disk.bytes.clone()));
    assert_eq!(reopened.read_file(b"/hello.txt"), Some(b"hello, world\n".to_vec()));

    let mut fs = Nkfs::new(Disk::from_image(volume()));
    let index = fs.open_writable_file(b"/bin/new.txt", false).unwrap();
    let long = vec![b'z'; 700];
    assert_eq!(fs.write_ram_file(index, 0, &long), Some(700));
    let mut reopened = Nkfs::new(Disk::from_image(fs.volume.disk.bytes.clone()));
    assert_eq!(reopened.read_file(b"/bin/new.txt"), Some(long));
    assert_eq!(reopened.read_file(b"/hello.txt"), Some(b"hello\n".to_vec()));
}
