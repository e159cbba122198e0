use marx_os::elf::{image_span, load, ElfError};

fn put16(b: &mut [u8], off: usize, v: u16) {
    b[off..off + 2].copy_from_slice(&v.to_le_bytes());
}
fn put32(b: &mut [u8], off: usize, v: u32) {
    b[off..off + 4].copy_from_slice(&v.to_le_bytes());
}
fn put64(b: &mut [u8], off: usize, v: u64) {
    b[off..off + 8].copy_from_slice(&v.to_le_bytes());
}

/// A file with a header, `phdrs` program headers at offset 64 and room up
/// to `len` bytes.
fn elf(len: usize, phdrs: u16, entry: u64) -> Vec<u8> {
    let mut b = vec![0u8; len];
    b[0..4].copy_from_slice(&[0x7f, b'E', b'L', b'F']);
    b[4] = 2;
    b[5] = 1;
    put16(&mut b, 18, 0x3E);
    put64(&mut b, 24, entry);
    put64(&mut b, 32, 64);
    put16(&mut b, 54, 56);
    put16(&mut b, 56, phdrs);
    b
}

fn phdr(b: &mut [u8], i: usize, ty: u32, off: u64, vaddr: u64, filesz: u64, memsz: u64) {
    let at = 64 + i * 56;
    put32(b, at, ty);
    put64(b, at + 8, off);
    put64(b, at + 16, vaddr);
    put64(b, at + 32, filesz);
    put64(b, at + 40, memsz);
}

/// Where the image sits in the loaded buffer: the buffer is 16 bytes longer
/// than `image`, holds it at one offset below 16, and is zero elsewhere.
fn image_offset(memory: &[u8], image: &[u8]) -> usize {
    assert_eq!(memory.len(), image.len() + 16);
    let p = (0..16)
        .find(|&p| &memory[p..p + image.len()] == image)
        .expect("image inside the buffer");
    assert!(memory[..p].iter().all(|&b| b == 0));
    assert!(memory[p + image.len()..].iter().all(|&b| b == 0));
    p
}

#[test]
fn loads_a_segment_and_zeroes_bss() {
    let mut b = elf(256, 1, 0x1002);
    phdr(&mut b, 0, 1, 200, 0x1000, 4, 8);
    b[200..204].copy_from_slice(&[1, 2, 3, 4]);
    assert_eq!(image_span(&b), Ok((0x1000, 8)));
    let app = load(&b).unwrap();
    image_offset(&app.memory, &[1, 2, 3, 4, 0, 0, 0, 0]);
    // the entry keeps its distance (2) from the 16-aligned image start
    assert_eq!((app.entry - 2) % 16, 0);
}

#[test]
fn image_spans_all_loadable_segments() {
    let mut b = elf(400, 3, 0x2000);
    phdr(&mut b, 0, 1, 300, 0x3000, 2, 0x10);
    phdr(&mut b, 1, 1, 310, 0x2000, 3, 4);
    phdr(&mut b, 2, 6, 0, 0x100, 0, 0x10);
    b[300..302].copy_from_slice(&[9, 8]);
    b[310..313].copy_from_slice(&[7, 6, 5]);
    assert_eq!(image_span(&b), Ok((0x2000, 0x1010)));
    let app = load(&b).unwrap();
    let mut image = vec![0u8; 0x1010];
    image[0..3].copy_from_slice(&[7, 6, 5]);
    image[0x1000..0x1002].copy_from_slice(&[9, 8]);
    image_offset(&app.memory, &image);
    assert_eq!(app.entry % 16, 0);
}

#[test]
fn applies_relative_relocations() {
    // One PT_LOAD covering the whole file at vaddr 0, one PT_DYNAMIC.
    let mut b = elf(512, 2, 0x10);
    phdr(&mut b, 0, 1, 0, 0, 512, 512);
    phdr(&mut b, 1, 2, 0, 0x100, 0x40, 0x40);
    // Dynamic table at 0x100: DT_RELA = 0x180, DT_RELASZ = 48, DT_RELAENT = 24, DT_NULL.
    put64(&mut b, 0x100, 7);
    put64(&mut b, 0x108, 0x180);
    put64(&mut b, 0x110, 8);
    put64(&mut b, 0x118, 48);
    put64(&mut b, 0x120, 9);
    put64(&mut b, 0x128, 24);
    put64(&mut b, 0x130, 0);
    // Relocation 0: R_X86_64_RELATIVE at 0x1C0, addend 0x44.
    put64(&mut b, 0x180, 0x1C0);
    put64(&mut b, 0x188, 8);
    put64(&mut b, 0x190, 0x44);
    // Relocation 1: another type, ignored.
    put64(&mut b, 0x198, 0x1C8);
    put64(&mut b, 0x1A0, 1);
    put64(&mut b, 0x1A8, 0x99);
    let app = load(&b).unwrap();
    // entry = base + 0x10, with base the 16-aligned image start
    let base = app.entry as u64 - 0x10;
    assert_eq!(base % 16, 0);
    let mut image = b.clone();
    image[0x1C0..0x1C8].copy_from_slice(&(base + 0x44).to_le_bytes());
    image_offset(&app.memory, &image);
}

#[test]
fn rejects_short_files() {
    assert!(matches!(load(&[0u8; 10]), Err(ElfError::TooSmall)));
    assert_eq!(image_span(&[0x7f; 63]), Err(ElfError::TooSmall));
}

#[test]
fn rejects_bad_magic() {
    let mut b = elf(128, 0, 0);
    b[1] = b'X';
    assert!(matches!(load(&b), Err(ElfError::BadMagic)));
}

#[test]
fn rejects_32_bit_or_big_endian() {
    let mut b = elf(128, 0, 0);
    b[4] = 1;
    assert!(matches!(load(&b), Err(ElfError::NotElf64Le)));
    let mut b = elf(128, 0, 0);
    b[5] = 2;
    assert!(matches!(load(&b), Err(ElfError::NotElf64Le)));
}

#[test]
fn rejects_other_machines() {
    let mut b = elf(128, 0, 0);
    put16(&mut b, 18, 0x28);
    assert!(matches!(load(&b), Err(ElfError::NotX86_64)));
}

#[test]
fn rejects_files_without_loadable_segments() {
    let mut b = elf(256, 2, 0);
    phdr(&mut b, 0, 1, 0, 0x1000, 0, 0);
    phdr(&mut b, 1, 4, 0, 0x1000, 4, 4);
    assert!(matches!(load(&b), Err(ElfError::NoLoadable)));
}

#[test]
fn segment_past_the_end_of_the_file_is_too_small() {
    let mut b = elf(256, 1, 0);
    phdr(&mut b, 0, 1, 250, 0x1000, 16, 16);
    assert!(matches!(load(&b), Err(ElfError::TooSmall)));
}

#[test]
fn headers_outside_the_file_are_malformed() {
    let b = elf(100, 1, 0);
    assert_eq!(image_span(&b), Err(ElfError::Malformed));
    let mut b = elf(256, 1, 0);
    phdr(&mut b, 0, 1, 0, u64::MAX - 4, 8, 8);
    assert!(matches!(load(&b), Err(ElfError::Malformed)));
}

#[test]
fn unterminated_dynamic_table_is_malformed() {
    let mut b = elf(256, 2, 0);
    phdr(&mut b, 0, 1, 0, 0, 256, 256);
    phdr(&mut b, 1, 2, 0, 0xF8, 16, 16);
    put64(&mut b, 0xF8, 5);
    assert!(matches!(load(&b), Err(ElfError::Malformed)));
}
