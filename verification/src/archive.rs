//! Building a MARXARCH image from a list of files: sector 0 holds the
//! table, and each file follows from sector 1 on, padded to whole sectors
//! (an empty file still takes one sector). Reading the table and the
//! files back gives what was packed (see the round-trip lemmas below).

use vstd::prelude::*;
use crate::bytes::{le_seq, le_val, pow256, lemma_le_seq_len, lemma_pow256_8};
use crate::fs::{SECTOR, HEADER_SIZE, ENTRY_SIZE, NAME_LEN, has_magic, table_count, entry_at, name_at, first_nul, table_spec, FsError};

verus! {

/// Most files an archive holds.
pub const MAX_FILES: usize = 15;

/// A file to pack: its name (UTF-8 bytes) and contents.
pub struct PackFile {
    pub name: Vec<u8>,
    pub data: Vec<u8>,
}

/// Sectors a file of `len` bytes takes.
pub open spec fn file_sectors(len: nat) -> nat {
    if len == 0 { 1 } else { ((len + 511) / 512) as nat }
}

/// First sector of file `i` (and, for `i` = the count, the first free one).
pub open spec fn lba_at(files: Seq<PackFile>, i: int) -> nat
    decreases i,
{
    if i <= 0 { 1 } else { lba_at(files, i - 1) + file_sectors(files[i - 1].data@.len()) }
}

pub open spec fn zeros(n: nat) -> Seq<u8> {
    Seq::new(n, |k: int| 0u8)
}

/// A table entry: NUL-padded name, first sector, size.
pub open spec fn entry_bytes(f: PackFile, lba: nat) -> Seq<u8> {
    f.name@ + zeros((NAME_LEN - f.name@.len()) as nat) + le_seq(lba, 4) + le_seq(f.data@.len(), 4)
}

/// The entries of the first `k` files.
pub open spec fn entries_bytes(files: Seq<PackFile>, k: nat) -> Seq<u8>
    decreases k,
{
    if k == 0 { Seq::empty() } else { entries_bytes(files, (k - 1) as nat) + entry_bytes(files[k - 1], lba_at(files, k - 1)) }
}

pub open spec fn magic() -> Seq<u8> {
    seq![0x4du8, 0x41u8, 0x52u8, 0x58u8, 0x41u8, 0x52u8, 0x43u8, 0x48u8]
}

/// Magic, version 1, file count and the entries.
pub open spec fn table_head(files: Seq<PackFile>) -> Seq<u8> {
    magic() + le_seq(1, 4) + le_seq(files.len(), 4) + entries_bytes(files, files.len())
}

/// Sector 0: the table, zero-filled to the sector's end.
pub open spec fn sector0_spec(files: Seq<PackFile>) -> Seq<u8> {
    table_head(files) + zeros((SECTOR - table_head(files).len()) as nat)
}

/// A file's bytes zero-filled to whole sectors.
pub open spec fn padded(data: Seq<u8>) -> Seq<u8> {
    data + zeros((file_sectors(data.len()) * SECTOR - data.len()) as nat)
}

/// The padded contents of the first `k` files, back to back.
pub open spec fn bodies(files: Seq<PackFile>, k: nat) -> Seq<u8>
    decreases k,
{
    if k == 0 { Seq::empty() } else { bodies(files, (k - 1) as nat) + padded(files[k - 1].data@) }
}

/// The whole image.
pub open spec fn image_spec(files: Seq<PackFile>) -> Seq<u8> {
    sector0_spec(files) + bodies(files, files.len())
}

/// Files an archive can hold: at most `MAX_FILES`, names of at most
/// `NAME_LEN` bytes, sizes and sector numbers that fit 32 bits.
pub open spec fn pack_ok(files: Seq<PackFile>) -> bool {
    &&& files.len() <= MAX_FILES
    &&& forall|i: int| 0 <= i < files.len() ==> (#[trigger] files[i]).name@.len() <= NAME_LEN
    &&& forall|i: int| 0 <= i < files.len() ==> (#[trigger] files[i]).data@.len() <= u32::MAX
    &&& lba_at(files, files.len() as int) <= u32::MAX
}

proof fn lemma_lba_mono(files: Seq<PackFile>, i: int, j: int)
    requires
        0 <= i <= j,
    ensures
        lba_at(files, i) <= lba_at(files, j),
        lba_at(files, i) >= 1,
    decreases j,
{
    if i < j {
        lemma_lba_mono(files, i, j - 1);
    }
    if i > 0 {
        lemma_lba_mono(files, 0, i - 1);
    }
}

proof fn lemma_entries_len(files: Seq<PackFile>, k: nat)
    requires
        k <= files.len(),
        forall|i: int| 0 <= i < files.len() ==> (#[trigger] files[i]).name@.len() <= NAME_LEN,
    ensures
        entries_bytes(files, k).len() == ENTRY_SIZE * k,
    decreases k,
{
    if k > 0 {
        lemma_entries_len(files, (k - 1) as nat);
        let f = files[k - 1];
        assert(f.name@.len() <= NAME_LEN);
        lemma_le_seq_len(lba_at(files, k - 1), 4);
        lemma_le_seq_len(f.data@.len(), 4);
    }
}

proof fn lemma_padded_len(data: Seq<u8>)
    ensures
        padded(data).len() == file_sectors(data.len()) * SECTOR,
        data.len() <= file_sectors(data.len()) * SECTOR,
{
    let n = data.len();
    if n > 0 {
        assert(n <= ((n + 511) / 512) * 512) by (nonlinear_arith);
    }
}

proof fn lemma_bodies_len(files: Seq<PackFile>, k: nat)
    requires
        k <= files.len(),
    ensures
        bodies(files, k).len() == (lba_at(files, k as int) - 1) * SECTOR,
    decreases k,
{
    if k > 0 {
        lemma_bodies_len(files, (k - 1) as nat);
        lemma_padded_len(files[k - 1].data@);
        assert((lba_at(files, k - 1) - 1) * 512 + file_sectors(files[k - 1].data@.len()) * 512
            == (lba_at(files, k - 1) + file_sectors(files[k - 1].data@.len()) - 1) * 512) by (nonlinear_arith);
    }
}

/// Append `x` as 4 little-endian bytes.
fn push_le32(v: &mut Vec<u8>, x: u32)
    ensures
        final(v)@ == old(v)@ + le_seq(x as nat, 4),
{
    let b0 = (x % 256) as u8;
    let x1 = x / 256;
    let b1 = (x1 % 256) as u8;
    let x2 = x1 / 256;
    let b2 = (x2 % 256) as u8;
    let x3 = x2 / 256;
    let b3 = (x3 % 256) as u8;
    v.push(b0);
    v.push(b1);
    v.push(b2);
    v.push(b3);
    proof {
        reveal_with_fuel(le_seq, 5);
        assert(le_seq(x as nat, 4) =~= seq![b0, b1, b2, b3]);
    }
}

/// Append `n` zero bytes.
fn push_zeros(v: &mut Vec<u8>, n: usize)
    ensures
        final(v)@ == old(v)@ + zeros(n as nat),
{
    let ghost start = v@;
    let mut k: usize = 0;
    while k < n
        invariant
            k <= n,
            v@ == start + zeros(k as nat),
        decreases n - k,
    {
        v.push(0u8);
        k = k + 1;
        assert(v@ =~= start + zeros(k as nat));
    }
}

/// Append the bytes of `s`.
fn push_all(v: &mut Vec<u8>, s: &[u8])
    ensures
        final(v)@ == old(v)@ + s@,
{
    let ghost start = v@;
    let mut k: usize = 0;
    while k < s.len()
        invariant
            k <= s@.len(),
            v@ == start + s@.subrange(0, k as int),
        decreases s@.len() - k,
    {
        v.push(s[k]);
        k = k + 1;
        assert(v@ =~= start + s@.subrange(0, k as int));
    }
    assert(s@.subrange(0, s@.len() as int) =~= s@);
}

/// Sectors a file of `len` bytes takes.
fn sectors_of(len: usize) -> (n: u64)
    requires
        len <= u32::MAX,
    ensures
        n == file_sectors(len as nat),
{
    if len == 0 { 1 } else { (len as u64 + 511) / 512 }
}

/// Whether `files` can be packed into one image in memory (see
/// [`pack_ok`]).
pub fn can_pack(files: &[PackFile]) -> (b: bool)
    ensures
        b == (pack_ok(files@) && lba_at(files@, files@.len() as int) * SECTOR <= usize::MAX),
{
    let n = files.len();
    if n > MAX_FILES {
        return false;
    }
    let mut lba: u64 = 1;
    let mut i: usize = 0;
    while i < n
        invariant
            i <= n,
            n == files@.len(),
            n <= MAX_FILES,
            lba == lba_at(files@, i as int),
            lba <= u32::MAX,
            forall|k: int| 0 <= k < i ==> (#[trigger] files@[k]).name@.len() <= NAME_LEN,
            forall|k: int| 0 <= k < i ==> (#[trigger] files@[k]).data@.len() <= u32::MAX,
        decreases n - i,
    {
        let f = &files[i];
        if f.name.len() > NAME_LEN || f.data.len() > u32::MAX as usize {
            assert(!pack_ok(files@)) by {
                assert(files@[i as int] == *f);
            }
            return false;
        }
        let next = lba + sectors_of(f.data.len());
        if next > u32::MAX as u64 {
            proof {
                lemma_lba_mono(files@, i + 1, n as int);
            }
            return false;
        }
        lba = next;
        i = i + 1;
    }
    proof {
        assert forall|k: int| 0 <= k < files@.len() implies (#[trigger] files@[k]).name@.len() <= NAME_LEN by {}
    }
    (lba as usize) <= usize::MAX / SECTOR
}

/// The image holding `files`, in the given order.
pub fn build_image(files: &[PackFile]) -> (img: Vec<u8>)
    requires
        pack_ok(files@),
        lba_at(files@, files@.len() as int) * SECTOR <= usize::MAX,
    ensures
        img@ == image_spec(files@),
{
    let n = files.len();
    let mut img: Vec<u8> = Vec::new();
    img.push(0x4d);
    img.push(0x41);
    img.push(0x52);
    img.push(0x58);
    img.push(0x41);
    img.push(0x52);
    img.push(0x43);
    img.push(0x48);
    assert(img@ =~= magic());
    push_le32(&mut img, 1);
    push_le32(&mut img, n as u32);
    let ghost head0 = img@;
    let mut lba: u64 = 1;
    let mut i: usize = 0;
    while i < n
        invariant
            i <= n,
            n == files@.len(),
            pack_ok(files@),
            lba == lba_at(files@, i as int),
            img@ == head0 + entries_bytes(files@, i as nat),
        decreases n - i,
    {
        let f = &files[i];
        assert(f.name@.len() <= NAME_LEN);
        assert(f.data@.len() <= u32::MAX);
        proof {
            lemma_lba_mono(files@, i as int, n as int);
            lemma_lba_mono(files@, i + 1, n as int);
        }
        push_all(&mut img, f.name.as_slice());
        push_zeros(&mut img, NAME_LEN - f.name.len());
        push_le32(&mut img, lba as u32);
        push_le32(&mut img, f.data.len() as u32);
        assert(img@ =~= head0 + entries_bytes(files@, (i + 1) as nat));
        lba = lba + sectors_of(f.data.len());
        i = i + 1;
    }
    proof {
        lemma_entries_len(files@, n as nat);
        lemma_le_seq_len(1, 4);
        lemma_le_seq_len(n as nat, 4);
    }
    assert(img@ =~= table_head(files@));
    let head_len = img.len();
    push_zeros(&mut img, SECTOR - head_len);
    let ghost sec0 = img@;
    assert(sec0 == sector0_spec(files@));
    let mut j: usize = 0;
    while j < n
        invariant
            j <= n,
            n == files@.len(),
            pack_ok(files@),
            lba_at(files@, n as int) * SECTOR <= usize::MAX,
            img@ == sec0 + bodies(files@, j as nat),
            sec0.len() == SECTOR,
        decreases n - j,
    {
        let f = &files[j];
        proof {
            lemma_bodies_len(files@, (j + 1) as nat);
            lemma_lba_mono(files@, j + 1, n as int);
            lemma_padded_len(f.data@);
            assert(f.data@.len() <= u32::MAX);
        }
        push_all(&mut img, f.data.as_slice());
        let total = (sectors_of(f.data.len()) as usize) * SECTOR;
        push_zeros(&mut img, total - f.data.len());
        assert(img@ =~= sec0 + bodies(files@, (j + 1) as nat));
        j = j + 1;
    }
    img
}


// ---- reading the image back ----

/// A stored name as the table reader decodes it.
pub open spec fn name_text(b: Seq<u8>) -> Seq<char> {
    if vstd::utf8::valid_utf8(b) { vstd::utf8::decode_utf8(b) } else { Seq::empty() }
}

/// The table the reader should find: each file's name, first sector and size.
pub open spec fn packed_table(files: Seq<PackFile>) -> Seq<(Seq<char>, u32, u32)> {
    Seq::new(files.len(), |i: int| (name_text(files[i].name@), lba_at(files, i) as u32, files[i].data@.len() as u32))
}

/// Bytes that spell `le_seq(v, n)` hold `v`.
proof fn lemma_le_round_trip(s: Seq<u8>, off: int, v: nat, n: nat)
    requires
        v < pow256(n),
        forall|k: int| 0 <= k < n ==> #[trigger] s[off + k] == le_seq(v, n)[k],
    ensures
        le_val(s, off, n) == v,
    decreases n,
{
    if n > 0 {
        lemma_le_seq_len(v, n);
        lemma_le_seq_len(v / 256, (n - 1) as nat);
        assert(s[off + 0] == le_seq(v, n)[0]);
        assert(le_seq(v, n) == seq![(v % 256) as u8] + le_seq(v / 256, (n - 1) as nat));
        assert forall|k: int| 0 <= k < n - 1 implies #[trigger] s[off + 1 + k] == le_seq(v / 256, (n - 1) as nat)[k] by {
            assert(s[off + (k + 1)] == le_seq(v, n)[k + 1]);
        }
        assert(v / 256 < pow256((n - 1) as nat)) by (nonlinear_arith)
            requires
                v < pow256(n),
                pow256(n) == 256 * pow256((n - 1) as nat);
        lemma_le_round_trip(s, off + 1, v / 256, (n - 1) as nat);
    }
}

/// Byte `j` of entry `i` in the first `k` entries.
proof fn lemma_entry_byte(files: Seq<PackFile>, k: nat, i: int, j: int)
    requires
        0 <= i < k <= files.len(),
        0 <= j < ENTRY_SIZE,
        forall|m: int| 0 <= m < files.len() ==> (#[trigger] files[m]).name@.len() <= NAME_LEN,
    ensures
        entries_bytes(files, k)[ENTRY_SIZE * i + j] == entry_bytes(files[i], lba_at(files, i))[j],
    decreases k,
{
    lemma_entries_len(files, (k - 1) as nat);
    let f = files[k - 1];
    assert(f.name@.len() <= NAME_LEN);
    lemma_le_seq_len(lba_at(files, k - 1), 4);
    lemma_le_seq_len(f.data@.len(), 4);
    if i < k - 1 {
        lemma_entry_byte(files, (k - 1) as nat, i, j);
    }
}

/// Scanning a NUL-padded name from `from` stops at its end.
proof fn lemma_first_nul_padded(name: Seq<u8>, raw: Seq<u8>, from: int)
    requires
        0 <= from <= name.len() <= raw.len(),
        raw.subrange(0, name.len() as int) == name,
        !name.contains(0u8),
        name.len() < raw.len() ==> raw[name.len() as int] == 0,
    ensures
        first_nul(raw, from) == name.len(),
    decreases raw.len() - from,
{
    if from < name.len() {
        assert(raw[from] == name[from]);
        if raw[from] == 0 {
            assert(name.contains(0u8));
        }
        lemma_first_nul_padded(name, raw, from + 1);
    }
}

/// The table read from the image's sector 0 lists the packed files, with
/// their first sectors and sizes.
pub proof fn lemma_table_round_trip(files: Seq<PackFile>)
    requires
        pack_ok(files),
        forall|i: int| 0 <= i < files.len() ==> !(#[trigger] files[i]).name@.contains(0u8),
    ensures
        table_spec(image_spec(files).subrange(0, SECTOR as int)) == Ok::<Seq<(Seq<char>, u32, u32)>, FsError>(packed_table(files)),
{
    let n = files.len();
    lemma_entries_len(files, n);
    lemma_le_seq_len(1, 4);
    lemma_le_seq_len(n, 4);
    lemma_pow256_8();
    let head = table_head(files);
    let s = image_spec(files).subrange(0, SECTOR as int);
    assert(head.len() == 16 + 32 * n);
    assert(s =~= sector0_spec(files));
    // sector 0 is the table followed by zeros
    assert forall|k: int| 0 <= k < head.len() implies #[trigger] s[k] == head[k] by {}
    assert(has_magic(s)) by {
        assert forall|k: int| 0 <= k < 8 implies #[trigger] s[k] == magic()[k] by {
            assert(head[k] == magic()[k]);
        }
    }
    assert(table_count(s) == n) by {
        assert forall|k: int| 0 <= k < 4 implies #[trigger] s[12 + k] == le_seq(n, 4)[k] by {
            assert(head[12 + k] == le_seq(n, 4)[k]);
        }
        lemma_le_round_trip(s, 12, n, 4);
    }
    assert forall|i: int| 0 <= i < n implies #[trigger] entry_at(s, i) == packed_table(files)[i] by {
        let f = files[i];
        let lba = lba_at(files, i);
        let e = entry_bytes(f, lba);
        let off = HEADER_SIZE + i * ENTRY_SIZE;
        assert(f.name@.len() <= NAME_LEN);
        assert(f.data@.len() <= u32::MAX);
        lemma_lba_mono(files, i, n as int);
        lemma_le_seq_len(lba, 4);
        lemma_le_seq_len(f.data@.len(), 4);
        assert(e.len() == 32);
        assert forall|j: int| 0 <= j < 32 implies #[trigger] s[off + j] == e[j] by {
            lemma_entry_byte(files, n, i, j);
            assert(head[16 + (32 * i + j)] == entries_bytes(files, n)[32 * i + j]);
            assert(off + j == 16 + (32 * i + j));
        }
        // the name
        let raw = s.subrange(off, off + NAME_LEN);
        assert(raw.subrange(0, f.name@.len() as int) =~= f.name@) by {
            assert forall|j: int| 0 <= j < f.name@.len() implies raw[j] == f.name@[j] by {
                assert(s[off + j] == e[j]);
            }
        }
        if f.name@.len() < NAME_LEN {
            assert(s[off + f.name@.len()] == e[f.name@.len() as int]);
        }
        lemma_first_nul_padded(f.name@, raw, 0);
        assert(raw.subrange(0, first_nul(raw, 0)) =~= f.name@);
        assert(name_at(s, off) == name_text(f.name@));
        // first sector and size
        assert forall|k: int| 0 <= k < 4 implies #[trigger] s[off + NAME_LEN + k] == le_seq(lba, 4)[k] by {
            assert(s[off + (24 + k)] == e[24 + k]);
        }
        lemma_le_round_trip(s, off + NAME_LEN, lba, 4);
        assert forall|k: int| 0 <= k < 4 implies #[trigger] s[off + NAME_LEN + 4 + k] == le_seq(f.data@.len(), 4)[k] by {
            assert(s[off + (28 + k)] == e[28 + k]);
        }
        lemma_le_round_trip(s, off + NAME_LEN + 4, f.data@.len(), 4);
    }
    assert(Seq::new(table_count(s), |i: int| entry_at(s, i)) =~= packed_table(files));
}

proof fn lemma_bodies_prefix(files: Seq<PackFile>, k: nat, m: nat)
    requires
        m <= k <= files.len(),
    ensures
        bodies(files, k).subrange(0, bodies(files, m).len() as int) == bodies(files, m),
    decreases k,
{
    if m < k {
        lemma_bodies_prefix(files, (k - 1) as nat, m);
        lemma_bodies_len(files, m);
        lemma_bodies_len(files, (k - 1) as nat);
        lemma_lba_mono(files, m as int, k - 1);
        assert(bodies(files, k).subrange(0, bodies(files, m).len() as int)
            =~= bodies(files, (k - 1) as nat).subrange(0, bodies(files, m).len() as int));
    } else {
        assert(bodies(files, k).subrange(0, bodies(files, k).len() as int) =~= bodies(files, k));
    }
}

/// File `i`'s bytes sit in the image from its first sector on.
pub proof fn lemma_data_round_trip(files: Seq<PackFile>, i: int)
    requires
        pack_ok(files),
        0 <= i < files.len(),
    ensures
        image_spec(files).subrange(lba_at(files, i) * SECTOR, lba_at(files, i) * SECTOR + files[i].data@.len())
            == files[i].data@,
{
    let n = files.len();
    let d = files[i].data@;
    lemma_entries_len(files, n);
    lemma_le_seq_len(1, 4);
    lemma_le_seq_len(n, 4);
    assert(sector0_spec(files).len() == SECTOR);
    lemma_bodies_prefix(files, n, (i + 1) as nat);
    lemma_bodies_len(files, i as nat);
    lemma_bodies_len(files, (i + 1) as nat);
    lemma_bodies_len(files, n);
    lemma_lba_mono(files, i + 1, n as int);
    lemma_padded_len(d);
    let b = bodies(files, n);
    let bi = bodies(files, i as nat);
    let lba = lba_at(files, i);
    assert(bi.len() == (lba - 1) * 512);
    assert((lba - 1) * 512 + 512 == lba * 512) by (nonlinear_arith);
    let b1 = bodies(files, (i + 1) as nat);
    assert(b1 == bi + padded(d));
    assert(b1.len() == bi.len() + padded(d).len());
    assert(b1.len() <= b.len()) by {
        assert((lba_at(files, i + 1) - 1) * 512 <= (lba_at(files, n as int) - 1) * 512) by (nonlinear_arith)
            requires lba_at(files, i + 1) <= lba_at(files, n as int);
    }
    assert forall|k: int| 0 <= k < d.len() implies
        #[trigger] image_spec(files)[lba * 512 + k] == d[k] by {
        assert(lba * 512 + k == 512 + (bi.len() + k));
        assert(image_spec(files)[512 + (bi.len() + k)] == b[bi.len() + k]);
        assert(b1[bi.len() + k] == padded(d)[k]);
        assert(b.subrange(0, b1.len() as int)[bi.len() + k] == b[bi.len() + k]);
    }
    assert(image_spec(files).len() == 512 + b.len());
    assert(lba * 512 + d.len() <= image_spec(files).len());
    let sub = image_spec(files).subrange(lba * SECTOR, lba * SECTOR + d.len());
    assert forall|k: int| 0 <= k < d.len() implies #[trigger] sub[k] == d[k] by {
        assert(sub[k] == image_spec(files)[lba * 512 + k]);
    }
    assert(sub =~= d);
}

} // verus!
