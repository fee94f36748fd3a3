use nk::disk::Disk;
use nk::fat32::{cluster_lba, fat_entry, find_root_entry, mount, read_chain, read_file, smoke_test, MAX_FILE_SIZE};

const NAME: [u8; 11] = *b"HELLO   TXT";

fn put16(image: &mut [u8], at: usize, v: u16) {
    image[at..at + 2].copy_from_slice(&v.to_le_bytes());
}

fn put32(image: &mut [u8], at: usize, v: u32) {
    image[at..at + 4].copy_from_slice(&v.to_le_bytes());
}

/// One sector per cluster, one reserved sector, one FAT of one sector: the
/// FAT at sector 1, cluster 2 (the root directory) at sector 2, cluster 3
/// at sector 3 and cluster 4 at sector 4. HELLO.TXT is 600 bytes on the
/// chain 3 -> 4.
fn volume(size: u32) -> Vec<u8> {
    let mut image = vec![0u8; 5 * 512];
    put16(&mut image, 11, 512);
    image[13] = 1;
    put16(&mut image, 14, 1);
    image[16] = 1;
    put32(&mut image, 36, 1);
    put32(&mut image, 44, 2);
    image[510] = 0x55;
    image[511] = 0xaa;
    put32(&mut image, 512 + 2 * 4, 0x0fff_ffff);
    put32(&mut image, 512 + 3 * 4, 4);
    put32(&mut image, 512 + 4 * 4, 0xffff_ffff);
    // A deleted entry first, then a long-name entry, then the file.
    image[1024] = 0xe5;
    image[1024 + 1..1024 + 11].copy_from_slice(&NAME[1..]);
    image[1024 + 32..1024 + 43].copy_from_slice(&NAME);
    image[1024 + 32 + 11] = 0x0f;
    let entry = 1024 + 64;
    image[entry..entry + 11].copy_from_slice(&NAME);
    image[entry + 11] = 0x20;
    put16(&mut image, entry + 26, 3);
    put32(&mut image, entry + 28, size);
    for b in &mut image[3 * 512..4 * 512] {
        *b = b'a';
    }
    for b in &mut image[4 * 512..5 * 512] {
        *b = b'b';
    }
    image
}

#[test]
fn fat_mounts_a_volume() {
    let disk = Disk::from_image(volume(600));
    let fs = mount(&disk).unwrap();
    assert_eq!(fs.sectors_per_cluster, 1);
    assert_eq!(fs.root_cluster, 2);
    assert_eq!(fs.fat_start, 1);
    assert_eq!(fs.data_start, 2);
    assert!(smoke_test(&disk));
    assert_eq!(cluster_lba(fs, 3), 3);
}

#[test]
fn fat_refuses_a_volume_without_signature() {
    let mut image = volume(600);
    image[511] = 0;
    let disk = Disk::from_image(image);
    assert!(mount(&disk).is_none());
    assert!(!smoke_test(&disk));
    assert!(!smoke_test(&Disk::from_image(vec![0u8; 100])));
}

#[test]
fn fat_entries_keep_the_low_28_bits() {
    let disk = Disk::from_image(volume(600));
    let fs = mount(&disk).unwrap();
    assert_eq!(fat_entry(&disk, fs, 3), Some(4));
    assert_eq!(fat_entry(&disk, fs, 4), Some(0x0fff_ffff));
    assert_eq!(fat_entry(&disk, fs, 1000), None);
}

#[test]
fn fat_finds_the_live_entry() {
    let disk = Disk::from_image(volume(600));
    let fs = mount(&disk).unwrap();
    let e = find_root_entry(&disk, fs, &NAME).unwrap();
    assert_eq!(e.cluster, 3);
    assert_eq!(e.size, 600);
    assert!(find_root_entry(&disk, fs, b"OTHER   TXT").is_none());
}

#[test]
fn fat_reads_a_file_along_its_chain() {
    let disk = Disk::from_image(volume(600));
    let data = read_file(&disk, &NAME).unwrap();
    assert_eq!(data.len(), 600);
    assert!(data[..512].iter().all(|&b| b == b'a'));
    assert!(data[512..].iter().all(|&b| b == b'b'));
}

#[test]
fn fat_chain_that_ends_early_gives_fewer_bytes() {
    let disk = Disk::from_image(volume(600));
    let fs = mount(&disk).unwrap();
    let data = read_chain(&disk, fs, 3, 5000).unwrap();
    assert_eq!(data.len(), 1024);
    assert_eq!(read_chain(&disk, fs, 3, 10).unwrap(), vec![b'a'; 10]);
    assert!(read_chain(&disk, fs, 3, MAX_FILE_SIZE + 1).is_none());
}

#[test]
fn fat_refuses_too_large_a_file() {
    let disk = Disk::from_image(volume(MAX_FILE_SIZE as u32 + 1));
    assert!(read_file(&disk, &NAME).is_none());
}
