//! MARXARCH: a read-only archive whose first sector holds the file table.
//!
//! Sector 0 (512 bytes):
//!   [0..8]     "MARXARCH"
//!   [8..12]    version, u32 LE
//!   [12..16]   file count, u32 LE (at most 15)
//!   [16..496]  up to 15 entries of 32 bytes: a NUL-padded UTF-8 name of
//!              24 bytes, the first sector (u32 LE) and the size (u32 LE)
//! File payloads follow from sector 1 on, each padded to whole sectors.
//!
//! The caller reads sectors from the drive; this module parses the table,
//! finds files and assembles their bytes.

use vstd::prelude::*;
use crate::ata::{Drive, AtaError};
use crate::bytes::{le_val, read_le};
use crate::strings::{str_from_utf8, string_from};

verus! {

pub const SECTOR: usize = 512;
pub const HEADER_SIZE: usize = 16;
pub const ENTRY_SIZE: usize = 32;
pub const NAME_LEN: usize = 24;

/// One file of the archive.
#[derive(Clone, Debug)]
pub struct FileEntry {
    pub name: String,
    /// First sector of the payload.
    pub lba: u32,
    /// Size in bytes.
    pub size: u32,
}

#[derive(Copy, Clone, Debug, PartialEq, Eq, Structural)]
pub enum FsError {
    Ata(AtaError),
    BadMagic,
    NotInit,
    NotFound,
}

impl View for FileEntry {
    type V = (Seq<char>, u32, u32);

    open spec fn view(&self) -> (Seq<char>, u32, u32) {
        (self.name@, self.lba, self.size)
    }
}

/// The model of a list of entries.
pub open spec fn entries_view(v: Seq<FileEntry>) -> Seq<(Seq<char>, u32, u32)> {
    v.map_values(|e: FileEntry| e@)
}

/// The archive magic "MARXARCH".
pub open spec fn has_magic(s: Seq<u8>) -> bool {
    s.len() >= 8 && s[0] == 0x4d && s[1] == 0x41 && s[2] == 0x52 && s[3] == 0x58
        && s[4] == 0x41 && s[5] == 0x52 && s[6] == 0x43 && s[7] == 0x48
}

/// Index of the first NUL in `s`, or its length.
pub open spec fn first_nul(s: Seq<u8>, from: int) -> int
    decreases s.len() - from,
{
    if from >= s.len() {
        s.len() as int
    } else if s[from] == 0 {
        from
    } else {
        first_nul(s, from + 1)
    }
}

/// The name stored in the 24 bytes at `off`: the bytes before the first
/// NUL, decoded as UTF-8, or empty when they are not valid UTF-8.
pub open spec fn name_at(s: Seq<u8>, off: int) -> Seq<char> {
    let raw = s.subrange(off, off + NAME_LEN);
    let bytes = raw.subrange(0, first_nul(raw, 0));
    if vstd::utf8::valid_utf8(bytes) { vstd::utf8::decode_utf8(bytes) } else { Seq::empty() }
}

/// Number of entries the table claims.
pub open spec fn table_count(s: Seq<u8>) -> nat {
    le_val(s, 12, 4)
}

/// Entry `i` of the table.
pub open spec fn entry_at(s: Seq<u8>, i: int) -> (Seq<char>, u32, u32) {
    let off = HEADER_SIZE + i * ENTRY_SIZE;
    (name_at(s, off), le_val(s, off + NAME_LEN, 4) as u32, le_val(s, off + NAME_LEN + 4, 4) as u32)
}

/// The file table held by sector 0.
pub open spec fn table_spec(s: Seq<u8>) -> Result<Seq<(Seq<char>, u32, u32)>, FsError> {
    if !has_magic(s) {
        Err(FsError::BadMagic)
    } else {
        Ok(Seq::new(table_count(s), |i: int| entry_at(s, i)))
    }
}

/// The claimed entries lie inside the sector.
pub open spec fn table_fits(s: Seq<u8>) -> bool {
    HEADER_SIZE + table_count(s) * ENTRY_SIZE <= s.len()
}

proof fn lemma_first_nul_bound(s: Seq<u8>, from: int)
    requires
        0 <= from,
    ensures
        from <= s.len() ==> from <= first_nul(s, from) <= s.len(),
        first_nul(s, from) <= s.len(),
        0 <= first_nul(s, from),
    decreases s.len() - from,
{
    if from < s.len() && s[from] != 0 {
        lemma_first_nul_bound(s, from + 1);
    }
}

/// Index of the first NUL in `bytes`, or its length.
fn nul_index(bytes: &[u8]) -> (r: usize)
    ensures
        r == first_nul(bytes@, 0),
{
    let mut k: usize = 0;
    while k < bytes.len()
        invariant
            k <= bytes@.len(),
            first_nul(bytes@, 0) == first_nul(bytes@, k as int),
        decreases bytes@.len() - k,
    {
        if bytes[k] == 0 {
            return k;
        }
        k = k + 1;
    }
    k
}

/// A copy of `s[from..to]`.
fn sub_vec(s: &[u8], from: usize, to: usize) -> (v: Vec<u8>)
    requires
        from <= to <= s@.len(),
    ensures
        v@ == s@.subrange(from as int, to as int),
{
    let mut v: Vec<u8> = Vec::new();
    let mut k: usize = from;
    while k < to
        invariant
            from <= k <= to <= s@.len(),
            v@ == s@.subrange(from as int, k as int),
        decreases to - k,
    {
        v.push(s[k]);
        k = k + 1;
        assert(v@ =~= s@.subrange(from as int, k as int));
    }
    v
}

/// Parse entry `i` of the table.
fn parse_entry(s: &[u8], i: usize) -> (e: FileEntry)
    requires
        HEADER_SIZE + (i + 1) * ENTRY_SIZE <= s@.len(),
    ensures
        e@ == entry_at(s@, i as int),
{
    let len = s.len();
    proof {
        assert(i * ENTRY_SIZE + ENTRY_SIZE == (i + 1) * ENTRY_SIZE) by (nonlinear_arith);
    }
    let off = HEADER_SIZE + i * ENTRY_SIZE;
    let raw = sub_vec(s, off, off + NAME_LEN);
    let end = nul_index(raw.as_slice());
    proof {
        lemma_first_nul_bound(raw@, 0);
        crate::bytes::lemma_pow256_8();
        crate::bytes::lemma_le_val_bound(s@, off + NAME_LEN, 4);
        crate::bytes::lemma_le_val_bound(s@, off + NAME_LEN + 4, 4);
    }
    let name_bytes = sub_vec(raw.as_slice(), 0, end);
    let name = match str_from_utf8(name_bytes.as_slice()) {
        Some(t) => string_from(t),
        None => string_from(""),
    };
    proof {
        reveal_strlit("");
    }
    let lba = read_le(s, off + NAME_LEN, 4) as u32;
    let size = read_le(s, off + NAME_LEN + 4, 4) as u32;
    FileEntry { name, lba, size }
}

/// Whether a sector with the archive magic has room for the table it
/// claims (a sector without the magic is simply rejected).
pub fn table_fits_in(s: &[u8]) -> (b: bool)
    ensures
        b == (has_magic(s@) ==> table_fits(s@)),
{
    if s.len() < 8 || s[0] != 0x4d || s[1] != 0x41 || s[2] != 0x52 || s[3] != 0x58
        || s[4] != 0x41 || s[5] != 0x52 || s[6] != 0x43 || s[7] != 0x48 {
        return true;
    }
    if s.len() < HEADER_SIZE {
        return false;
    }
    let count = read_le(s, 12, 4);
    proof {
        crate::bytes::lemma_pow256_8();
        crate::bytes::lemma_le_val_bound(s@, 12, 4);
    }
    (count as usize) <= (s.len() - HEADER_SIZE) / ENTRY_SIZE
}

/// Parse sector 0 into the file table.
pub fn parse_table(s: &[u8]) -> (r: Result<Vec<FileEntry>, FsError>)
    requires
        has_magic(s@) ==> table_fits(s@),
    ensures
        match table_spec(s@) {
            Ok(t) => r matches Ok(v) && entries_view(v@) == t,
            Err(e) => r == Err::<Vec<FileEntry>, FsError>(e),
        },
{
    if s.len() < 8 || s[0] != 0x4d || s[1] != 0x41 || s[2] != 0x52 || s[3] != 0x58
        || s[4] != 0x41 || s[5] != 0x52 || s[6] != 0x43 || s[7] != 0x48 {
        return Err(FsError::BadMagic);
    }
    let count = read_le(s, 12, 4) as usize;
    let mut entries: Vec<FileEntry> = Vec::new();
    let mut i: usize = 0;
    while i < count
        invariant
            i <= count,
            count == table_count(s@),
            table_fits(s@),
            entries_view(entries@) == Seq::new(i as nat, |j: int| entry_at(s@, j)),
        decreases count - i,
    {
        proof {
            assert(HEADER_SIZE + (i + 1) * ENTRY_SIZE <= HEADER_SIZE + count * ENTRY_SIZE) by (nonlinear_arith)
                requires
                    i < count;
        }
        let e = parse_entry(s, i);
        let ghost ev = e@;
        let ghost before = entries@;
        entries.push(e);
        proof {
            assert(entries@ == before.push(e));
            assert(entries_view(entries@) =~= entries_view(before).push(ev));
        }
        i = i + 1;
        assert(entries_view(entries@) =~= Seq::new(i as nat, |j: int| entry_at(s@, j)));
    }
    Ok(entries)
}

struct Mount {
    drive: Drive,
    entries: Vec<FileEntry>,
}

/// The mounted archive, once sector 0 has been read and accepted.
pub struct Fs {
    mount: Option<Mount>,
}

impl View for Fs {
    type V = Option<(Drive, Seq<(Seq<char>, u32, u32)>)>;

    closed spec fn view(&self) -> Option<(Drive, Seq<(Seq<char>, u32, u32)>)> {
        match self.mount {
            Some(m) => Some((m.drive, entries_view(m.entries@))),
            None => None,
        }
    }
}

impl Fs {
    /// Nothing mounted yet.
    pub fn new() -> (fs: Fs)
        ensures
            fs@ is None,
    {
        Fs { mount: None }
    }

    /// Whether a table has been accepted (sector 0 need not be read again).
    pub fn is_mounted(&self) -> (b: bool)
        ensures
            b == self@ is Some,
    {
        self.mount.is_some()
    }
}

/// Mount the archive whose sector 0 was read from `drive`. Once mounted,
/// later calls succeed and change nothing.
pub fn init(fs: &mut Fs, drive: Drive, sector0: &[u8]) -> (r: Result<(), FsError>)
    requires
        old(fs)@ is None && has_magic(sector0@) ==> table_fits(sector0@),
    ensures
        old(fs)@ is Some ==> r is Ok && final(fs)@ == old(fs)@,
        old(fs)@ is None ==> match table_spec(sector0@) {
            Ok(t) => r is Ok && final(fs)@ == Some((drive, t)),
            Err(e) => r == Err::<(), FsError>(e) && final(fs)@ is None,
        },
{
    if fs.mount.is_some() {
        return Ok(());
    }
    match parse_table(sector0) {
        Ok(entries) => {
            fs.mount = Some(Mount { drive, entries });
            Ok(())
        },
        Err(e) => Err(e),
    }
}

/// The file table.
pub fn list(fs: &Fs) -> (r: Result<&[FileEntry], FsError>)
    ensures
        match fs@ {
            Some((_, t)) => r matches Ok(v) && entries_view(v@) == t,
            None => r == Err::<&[FileEntry], FsError>(FsError::NotInit),
        },
{
    match &fs.mount {
        Some(m) => Ok(m.entries.as_slice()),
        None => Err(FsError::NotInit),
    }
}

/// Index of the first entry called `name`.
pub open spec fn find_spec(t: Seq<(Seq<char>, u32, u32)>, name: Seq<char>, from: int) -> Option<int>
    decreases t.len() - from,
{
    if from >= t.len() {
        None
    } else if t[from].0 == name {
        Some(from)
    } else {
        find_spec(t, name, from + 1)
    }
}

/// Sectors holding `size` bytes.
pub open spec fn sectors_for(size: nat) -> nat {
    ((size + SECTOR - 1) / (SECTOR as int)) as nat
}

/// A whole-file read in progress: the caller reads each sector that
/// [`ReadJob::next_sector`] names and hands it to [`ReadJob::feed`].
pub struct ReadJob {
    drive: Drive,
    lba: u32,
    size: u32,
    sectors: usize,
    done: usize,
    data: Vec<u8>,
}

impl ReadJob {
    pub closed spec fn drive(&self) -> Drive { self.drive }
    pub closed spec fn first_lba(&self) -> u32 { self.lba }
    pub closed spec fn size(&self) -> u32 { self.size }
    /// Sectors the file spans.
    pub closed spec fn sectors(&self) -> nat { self.sectors as nat }
    /// Sectors received so far.
    pub closed spec fn done(&self) -> nat { self.done as nat }
    /// Bytes of the sectors received so far, in order.
    pub closed spec fn data(&self) -> Seq<u8> { self.data@ }

    pub closed spec fn wf(&self) -> bool {
        &&& self.sectors as nat == sectors_for(self.size as nat)
        &&& self.done <= self.sectors
        &&& self.data@.len() == self.done * SECTOR
    }

    /// The next sector to read, or `None` when every sector has arrived.
    pub fn next_sector(&self) -> (r: Option<(Drive, u64)>)
        requires
            self.wf(),
        ensures
            self.done() < self.sectors() ==> r == Some((self.drive(), (self.first_lba() + self.done()) as u64)),
            self.done() >= self.sectors() ==> r is None,
    {
        if self.done < self.sectors {
            Some((self.drive, self.lba as u64 + self.done as u64))
        } else {
            None
        }
    }

    /// Take the next sector's bytes.
    pub fn feed(&mut self, sector: &[u8])
        requires
            old(self).wf(),
            old(self).done() < old(self).sectors(),
            sector@.len() == SECTOR,
        ensures
            final(self).wf(),
            final(self).drive() == old(self).drive(),
            final(self).first_lba() == old(self).first_lba(),
            final(self).size() == old(self).size(),
            final(self).done() == old(self).done() + 1,
            final(self).data() == old(self).data() + sector@,
    {
        let ghost d0 = self.data@;
        let mut k: usize = 0;
        while k < SECTOR
            invariant
                k <= SECTOR,
                sector@.len() == SECTOR,
                self.data@ == d0 + sector@.subrange(0, k as int),
                self.drive == old(self).drive,
                self.lba == old(self).lba,
                self.size == old(self).size,
                self.sectors == old(self).sectors,
                self.done == old(self).done,
                d0 == old(self).data@,
            decreases SECTOR - k,
        {
            self.data.push(sector[k]);
            k = k + 1;
            assert(self.data@ =~= d0 + sector@.subrange(0, k as int));
        }
        assert(sector@.subrange(0, SECTOR as int) =~= sector@);
        self.done = self.done + 1;
    }

    /// The file's bytes: what arrived, without the padding of the last sector.
    pub fn finish(self) -> (bytes: Vec<u8>)
        requires
            self.wf(),
            self.done() == self.sectors(),
        ensures
            bytes@ == self.data().subrange(0, self.size() as int),
    {
        let mut data = self.data;
        proof {
            assert(self.size <= self.sectors * SECTOR) by (nonlinear_arith)
                requires
                    self.sectors == (self.size + SECTOR - 1) / (SECTOR as int);
        }
        data.truncate(self.size as usize);
        data
    }
}

/// Start reading the file called `name` from the table of `m`.
fn find_in(m: &Mount, name: &str) -> (r: Result<ReadJob, FsError>)
    ensures
        match find_spec(entries_view(m.entries@), name@, 0) {
            None => r == Err::<ReadJob, FsError>(FsError::NotFound),
            Some(i) => r matches Ok(job) && job.wf() && job.drive() == m.drive
                && job.first_lba() == entries_view(m.entries@)[i].1 && job.size() == entries_view(m.entries@)[i].2
                && job.done() == 0,
        },
{
    let wanted = string_from(name);
    let ghost t = entries_view(m.entries@);
    let mut i: usize = 0;
    while i < m.entries.len()
        invariant
            i <= m.entries@.len(),
            t == entries_view(m.entries@),
            wanted@ == name@,
            find_spec(t, name@, 0) == find_spec(t, name@, i as int),
        decreases m.entries@.len() - i,
    {
        let e = &m.entries[i];
        assert(t[i as int] == e@);
        if e.name == wanted {
            let size = e.size;
            let q = (size as u64 + 511) / 512;
            assert(q <= 0x100_0000);
            let sectors = q as usize;
            let job = ReadJob { drive: m.drive, lba: e.lba, size, sectors, done: 0, data: Vec::new() };
            assert(find_spec(t, name@, i as int) == Some(i as int));
            return Ok(job);
        }
        i = i + 1;
    }
    Err(FsError::NotFound)
}

/// Start reading the file called `name`.
pub fn read(fs: &Fs, name: &str) -> (r: Result<ReadJob, FsError>)
    ensures
        match fs@ {
            None => r == Err::<ReadJob, FsError>(FsError::NotInit),
            Some((drive, t)) => match find_spec(t, name@, 0) {
                None => r == Err::<ReadJob, FsError>(FsError::NotFound),
                Some(i) => r matches Ok(job) && job.wf() && job.drive() == drive
                    && job.first_lba() == t[i].1 && job.size() == t[i].2 && job.done() == 0,
            },
        },
{
    match &fs.mount {
        Some(m) => find_in(m, name),
        None => Err(FsError::NotInit),
    }
}

} // verus!
