use marx_os::archive::{build_image, can_pack, PackFile, MAX_FILES};
use marx_os::ata::Drive;
use marx_os::fs::{init, list, read, table_fits_in, Fs, FsError, SECTOR};

fn sector0(entries: &[(&str, u32, u32)]) -> Vec<u8> {
    let mut s = vec![0u8; SECTOR];
    s[0..8].copy_from_slice(b"MARXARCH");
    s[8..12].copy_from_slice(&1u32.to_le_bytes());
    s[12..16].copy_from_slice(&(entries.len() as u32).to_le_bytes());
    for (i, (name, lba, size)) in entries.iter().enumerate() {
        let off = 16 + i * 32;
        s[off..off + name.len()].copy_from_slice(name.as_bytes());
        s[off + 24..off + 28].copy_from_slice(&lba.to_le_bytes());
        s[off + 28..off + 32].copy_from_slice(&size.to_le_bytes());
    }
    s
}

#[test]
fn mounts_and_lists_the_table() {
    let mut fs = Fs::new();
    let s = sector0(&[("welcome.txt", 1, 11), ("hello.elf", 2, 1000)]);
    assert!(init(&mut fs, Drive::Slave, &s).is_ok());
    let t = list(&fs).unwrap();
    assert_eq!(t.len(), 2);
    assert_eq!(t[0].name, "welcome.txt");
    assert_eq!(t[0].lba, 1);
    assert_eq!(t[0].size, 11);
    assert_eq!(t[1].name, "hello.elf");
    assert_eq!(t[1].lba, 2);
    assert_eq!(t[1].size, 1000);
}

#[test]
fn unmounted_archive_is_not_initialised() {
    let fs = Fs::new();
    assert!(matches!(list(&fs), Err(FsError::NotInit)));
    assert!(matches!(read(&fs, "x"), Err(FsError::NotInit)));
}

#[test]
fn wrong_magic_is_refused() {
    let mut fs = Fs::new();
    let mut s = sector0(&[]);
    s[0] = b'X';
    assert_eq!(init(&mut fs, Drive::Master, &s), Err(FsError::BadMagic));
    assert!(!fs.is_mounted());
}

#[test]
fn second_init_keeps_the_first_table() {
    let mut fs = Fs::new();
    assert!(init(&mut fs, Drive::Slave, &sector0(&[("a", 1, 1)])).is_ok());
    let mut other = sector0(&[]);
    other[0] = 0;
    assert!(init(&mut fs, Drive::Master, &other).is_ok());
    assert_eq!(list(&fs).unwrap().len(), 1);
}

#[test]
fn invalid_utf8_names_read_as_empty() {
    let mut fs = Fs::new();
    let mut s = sector0(&[("ab", 3, 4)]);
    s[16] = 0xFF;
    assert!(init(&mut fs, Drive::Slave, &s).is_ok());
    assert_eq!(list(&fs).unwrap()[0].name, "");
}

#[test]
fn reads_a_file_across_sectors_and_strips_padding() {
    let mut fs = Fs::new();
    assert!(init(&mut fs, Drive::Slave, &sector0(&[("big.bin", 5, 600)])).is_ok());
    let mut job = read(&fs, "big.bin").unwrap();
    assert_eq!(job.next_sector(), Some((Drive::Slave, 5)));
    job.feed(&vec![1u8; SECTOR]);
    assert_eq!(job.next_sector(), Some((Drive::Slave, 6)));
    job.feed(&vec![2u8; SECTOR]);
    assert_eq!(job.next_sector(), None);
    let bytes = job.finish();
    assert_eq!(bytes.len(), 600);
    assert!(bytes[..512].iter().all(|&b| b == 1));
    assert!(bytes[512..].iter().all(|&b| b == 2));
}

#[test]
fn empty_file_needs_no_sector() {
    let mut fs = Fs::new();
    assert!(init(&mut fs, Drive::Slave, &sector0(&[("empty", 9, 0)])).is_ok());
    let job = read(&fs, "empty").unwrap();
    assert_eq!(job.next_sector(), None);
    assert!(job.finish().is_empty());
}

#[test]
fn missing_file_is_not_found() {
    let mut fs = Fs::new();
    assert!(init(&mut fs, Drive::Slave, &sector0(&[("a", 1, 1)])).is_ok());
    assert!(matches!(read(&fs, "b"), Err(FsError::NotFound)));
}

#[test]
fn table_must_fit_in_sector_zero() {
    let good = sector0(&[("a.txt", 1, 3)]);
    assert!(table_fits_in(&good));
    // 15 entries fill the sector exactly; 16 would not fit.
    let mut full = sector0(&[]);
    full[12..16].copy_from_slice(&15u32.to_le_bytes());
    assert!(table_fits_in(&full));
    full[12..16].copy_from_slice(&16u32.to_le_bytes());
    assert!(!table_fits_in(&full));
    // Without the magic the sector is simply rejected later.
    let mut other = vec![0u8; SECTOR];
    other[12..16].copy_from_slice(&1000u32.to_le_bytes());
    assert!(table_fits_in(&other));
    let mut fs = Fs::new();
    assert_eq!(init(&mut fs, Drive::Master, &other), Err(FsError::BadMagic));
}

fn read_back(image: &[u8], fs: &Fs, name: &str) -> Vec<u8> {
    let mut job = read(fs, name).expect("file listed");
    while let Some((_, lba)) = job.next_sector() {
        let at = lba as usize * SECTOR;
        job.feed(&image[at..at + SECTOR]);
    }
    job.finish()
}

#[test]
fn packed_image_reads_back() {
    let files = vec![
        PackFile { name: b"readme.md".to_vec(), data: b"hello disk".to_vec() },
        PackFile { name: b"empty.txt".to_vec(), data: Vec::new() },
        PackFile { name: b"big.bin".to_vec(), data: (0..1300u32).map(|i| (i % 251) as u8).collect() },
    ];
    assert!(can_pack(&files));
    let image = build_image(&files);
    // sector 0, then 1 + 1 + 3 sectors of data
    assert_eq!(image.len(), 6 * SECTOR);
    let mut fs = Fs::new();
    assert_eq!(init(&mut fs, Drive::Slave, &image[..SECTOR]), Ok(()));
    let table: Vec<(String, u32, u32)> = list(&fs).unwrap().iter().map(|e| (e.name.clone(), e.lba, e.size)).collect();
    assert_eq!(
        table,
        vec![("readme.md".to_string(), 1, 10), ("empty.txt".to_string(), 2, 0), ("big.bin".to_string(), 3, 1300)]
    );
    for f in &files {
        let name = String::from_utf8(f.name.clone()).unwrap();
        assert_eq!(read_back(&image, &fs, &name), f.data);
    }
}

#[test]
fn packing_limits() {
    let long = vec![PackFile { name: vec![b'a'; 25], data: Vec::new() }];
    assert!(!can_pack(&long));
    let exact = vec![PackFile { name: vec![b'a'; 24], data: Vec::new() }];
    assert!(can_pack(&exact));
    let many: Vec<PackFile> = (0..=MAX_FILES).map(|i| PackFile { name: vec![b'a' + i as u8], data: Vec::new() }).collect();
    assert!(!can_pack(&many));
    // a full-length name has no NUL after it and still reads back
    let image = build_image(&exact);
    let mut fs = Fs::new();
    init(&mut fs, Drive::Master, &image[..SECTOR]).unwrap();
    assert_eq!(list(&fs).unwrap()[0].name, "a".repeat(24));
}
