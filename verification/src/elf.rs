//! Loader for static-PIE ELF64 executables (the system's apps).
//!
//! Loading parses the ELF64 header and the program headers, lays every
//! `PT_LOAD` segment's file bytes into a zeroed image spanning all loadable
//! segments, then walks each `PT_DYNAMIC` table for `DT_RELA` and applies
//! every `R_X86_64_RELATIVE` entry against the address the image will run
//! at. Everything the loader reads is checked to lie inside the file or the
//! image; headers that point elsewhere are reported as [`ElfError::Malformed`].

use vstd::prelude::*;
use crate::bytes::{le_val, le_seq, splice, read_le, write_le64, lemma_le_val_bound, lemma_pow256_8, pow256};

verus! {

/// Size of the ELF64 file header.
pub const EHDR_SIZE: usize = 64;
/// Size of one ELF64 program header.
pub const PHDR_SIZE: usize = 56;
/// Size of one dynamic-section entry.
pub const DYN_SIZE: usize = 16;
/// Size of one `Elf64_Rela` entry.
pub const RELA_SIZE: usize = 24;

pub const PT_LOAD: u64 = 1;
pub const PT_DYNAMIC: u64 = 2;
pub const DT_NULL: u64 = 0;
pub const DT_RELA: u64 = 7;
pub const DT_RELASZ: u64 = 8;
pub const DT_RELAENT: u64 = 9;
pub const R_X86_64_RELATIVE: u64 = 8;
pub const EM_X86_64: u64 = 0x3E;

/// Why a file could not be loaded.
#[derive(Copy, Clone, Debug, PartialEq, Eq, Structural)]
pub enum ElfError {
    /// Shorter than the ELF header, or a segment's file bytes run past the end.
    TooSmall,
    /// Does not start with `\x7fELF`.
    BadMagic,
    /// Not a 64-bit little-endian file.
    NotElf64Le,
    /// Not built for x86-64.
    NotX86_64,
    /// No `PT_LOAD` segment with a nonzero memory size.
    NoLoadable,
    /// A header points outside the file or the image, a segment ends past
    /// the address space, or the relocation entry size is zero.
    Malformed,
}

/// A loaded, relocated app image.
pub struct LoadedApp {
    /// The image: byte `k` lives at the load address plus `k`.
    pub memory: Vec<u8>,
    /// Absolute address of the entry point.
    pub entry: usize,
}

pub open spec fn u64_limit() -> nat {
    0x1_0000_0000_0000_0000
}

/// `a + b` on 64-bit words.
pub open spec fn wadd(a: nat, b: nat) -> nat {
    if a + b >= u64_limit() { (a + b - u64_limit()) as nat } else { a + b }
}

/// `a - b` on 64-bit words.
pub open spec fn wsub(a: nat, b: nat) -> nat {
    if a >= b { (a - b) as nat } else { (a + u64_limit() - b) as nat }
}

// ---- header fields ----

pub open spec fn e_machine(b: Seq<u8>) -> nat { le_val(b, 18, 2) }
pub open spec fn e_entry(b: Seq<u8>) -> nat { le_val(b, 24, 8) }
pub open spec fn e_phoff(b: Seq<u8>) -> nat { le_val(b, 32, 8) }
pub open spec fn e_phentsize(b: Seq<u8>) -> nat { le_val(b, 54, 2) }
pub open spec fn e_phnum(b: Seq<u8>) -> nat { le_val(b, 56, 2) }

/// Offset of program header `i`.
pub open spec fn ph_at(b: Seq<u8>, i: int) -> int {
    e_phoff(b) + i * e_phentsize(b)
}

pub open spec fn p_type(b: Seq<u8>, i: int) -> nat { le_val(b, ph_at(b, i), 4) }
pub open spec fn p_offset(b: Seq<u8>, i: int) -> nat { le_val(b, ph_at(b, i) + 8, 8) }
pub open spec fn p_vaddr(b: Seq<u8>, i: int) -> nat { le_val(b, ph_at(b, i) + 16, 8) }
pub open spec fn p_filesz(b: Seq<u8>, i: int) -> nat { le_val(b, ph_at(b, i) + 32, 8) }
pub open spec fn p_memsz(b: Seq<u8>, i: int) -> nat { le_val(b, ph_at(b, i) + 40, 8) }

/// Every program header lies inside the file.
pub open spec fn phdrs_fit(b: Seq<u8>) -> bool {
    e_phnum(b) == 0 || ph_at(b, e_phnum(b) - 1) + PHDR_SIZE <= b.len()
}

/// The first problem with the file header, if any.
pub open spec fn header_error(b: Seq<u8>) -> Option<ElfError> {
    if b.len() < EHDR_SIZE {
        Some(ElfError::TooSmall)
    } else if b[0] != 0x7f || b[1] != 0x45 || b[2] != 0x4c || b[3] != 0x46 {
        Some(ElfError::BadMagic)
    } else if b[4] != 2 || b[5] != 1 {
        Some(ElfError::NotElf64Le)
    } else if e_machine(b) != EM_X86_64 {
        Some(ElfError::NotX86_64)
    } else if !phdrs_fit(b) {
        Some(ElfError::Malformed)
    } else {
        None
    }
}

// ---- the span of the loadable segments ----

pub open spec fn loadable(b: Seq<u8>, i: int) -> bool {
    p_type(b, i) == PT_LOAD && p_memsz(b, i) > 0
}

/// Lowest start address of the loadable segments among the first `k`
/// headers (`u64::MAX` when there is none).
pub open spec fn span_lo(b: Seq<u8>, k: nat) -> nat
    decreases k,
{
    if k == 0 {
        u64::MAX as nat
    } else {
        let lo = span_lo(b, (k - 1) as nat);
        if loadable(b, k - 1) && p_vaddr(b, k - 1) < lo { p_vaddr(b, k - 1) } else { lo }
    }
}

/// Highest end address of the loadable segments among the first `k` headers.
pub open spec fn span_hi(b: Seq<u8>, k: nat) -> nat
    decreases k,
{
    if k == 0 {
        0
    } else {
        let hi = span_hi(b, (k - 1) as nat);
        let end = p_vaddr(b, k - 1) + p_memsz(b, k - 1);
        if loadable(b, k - 1) && end > hi { end } else { hi }
    }
}

/// Some loadable segment among the first `k` ends past the address space.
pub open spec fn span_overflows(b: Seq<u8>, k: nat) -> bool
    decreases k,
{
    k > 0 && (span_overflows(b, (k - 1) as nat)
        || (loadable(b, k - 1) && p_vaddr(b, k - 1) + p_memsz(b, k - 1) > u64::MAX))
}

/// Start address and size of the image, or why there is none.
pub open spec fn span_spec(b: Seq<u8>) -> Result<(u64, u64), ElfError> {
    match header_error(b) {
        Some(e) => Err(e),
        None => {
            let n = e_phnum(b);
            if span_overflows(b, n) {
                Err(ElfError::Malformed)
            } else if span_lo(b, n) == u64::MAX {
                Err(ElfError::NoLoadable)
            } else if span_hi(b, n) - span_lo(b, n) > usize::MAX {
                Err(ElfError::Malformed)
            } else {
                Ok((span_lo(b, n) as u64, (span_hi(b, n) - span_lo(b, n)) as u64))
            }
        },
    }
}

// ---- copying the segments ----

/// Lay segment `i` into the image.
pub open spec fn seg_step(b: Seq<u8>, lo: nat, img: Seq<u8>, i: int) -> Result<Seq<u8>, ElfError> {
    if !loadable(b, i) {
        Ok(img)
    } else if p_offset(b, i) + p_filesz(b, i) > b.len() {
        Err(ElfError::TooSmall)
    } else if p_vaddr(b, i) - lo + p_filesz(b, i) > img.len() {
        Err(ElfError::Malformed)
    } else {
        Ok(splice(img, p_vaddr(b, i) - lo, b.subrange(p_offset(b, i) as int, (p_offset(b, i) + p_filesz(b, i)) as int)))
    }
}

/// The zeroed image of `size` bytes with the first `k` segments laid in.
pub open spec fn copied(b: Seq<u8>, lo: nat, size: nat, k: nat) -> Result<Seq<u8>, ElfError>
    decreases k,
{
    if k == 0 {
        Ok(Seq::new(size, |j: int| 0u8))
    } else {
        match copied(b, lo, size, (k - 1) as nat) {
            Ok(img) => seg_step(b, lo, img, k - 1),
            Err(e) => Err(e),
        }
    }
}

// ---- relocation ----

/// Walk the dynamic table at `pos` up to its `DT_NULL` entry, keeping the
/// last `DT_RELA`, `DT_RELASZ` and `DT_RELAENT` values; `None` when the
/// table runs out of the image before its end.
pub open spec fn dyn_scan(img: Seq<u8>, pos: int, rela: Option<nat>, size: Option<nat>, ent: nat)
    -> Option<(Option<nat>, Option<nat>, nat)>
    decreases img.len() - pos,
{
    if pos < 0 || pos + DYN_SIZE > img.len() {
        None
    } else {
        let tag = le_val(img, pos, 8);
        let val = le_val(img, pos + 8, 8);
        if tag == DT_NULL {
            Some((rela, size, ent))
        } else if tag == DT_RELA {
            dyn_scan(img, pos + DYN_SIZE, Some(val), size, ent)
        } else if tag == DT_RELASZ {
            dyn_scan(img, pos + DYN_SIZE, rela, Some(val), ent)
        } else if tag == DT_RELAENT {
            dyn_scan(img, pos + DYN_SIZE, rela, size, val)
        } else {
            dyn_scan(img, pos + DYN_SIZE, rela, size, ent)
        }
    }
}

/// Apply `count` relocation entries, `ent` bytes apart from `pos`: each
/// `R_X86_64_RELATIVE` one stores `base + addend` at its offset.
pub open spec fn relocs(img: Seq<u8>, pos: int, ent: nat, count: nat, lo: nat, base: nat) -> Result<Seq<u8>, ElfError>
    decreases count,
{
    if count == 0 {
        Ok(img)
    } else if pos + RELA_SIZE > img.len() {
        Err(ElfError::Malformed)
    } else {
        let r_offset = le_val(img, pos, 8);
        let r_info = le_val(img, pos + 8, 8);
        let addend = le_val(img, pos + 16, 8);
        if r_info % 0x1_0000_0000 != R_X86_64_RELATIVE {
            relocs(img, pos + ent, ent, (count - 1) as nat, lo, base)
        } else if r_offset < lo || r_offset - lo + 8 > img.len() {
            Err(ElfError::Malformed)
        } else {
            relocs(splice(img, r_offset - lo, le_seq(wadd(base, addend), 8)), pos + ent, ent, (count - 1) as nat, lo, base)
        }
    }
}

/// Process program header `i` when it is a `PT_DYNAMIC` one.
pub open spec fn dyn_step(b: Seq<u8>, lo: nat, base: nat, img: Seq<u8>, i: int) -> Result<Seq<u8>, ElfError> {
    if p_type(b, i) != PT_DYNAMIC {
        Ok(img)
    } else if p_vaddr(b, i) < lo {
        Err(ElfError::Malformed)
    } else {
        match dyn_scan(img, p_vaddr(b, i) - lo, None, None, RELA_SIZE as nat) {
            None => Err(ElfError::Malformed),
            Some((rela, size, ent)) => match (rela, size) {
                (Some(a), Some(s)) => if ent == 0 {
                    Err(ElfError::Malformed)
                } else if s / ent == 0 {
                    Ok(img)
                } else if a < lo {
                    Err(ElfError::Malformed)
                } else {
                    relocs(img, a - lo, ent, s / ent, lo, base)
                },
                _ => Ok(img),
            },
        }
    }
}

/// The image after processing the first `k` program headers' dynamic tables.
pub open spec fn relocated(b: Seq<u8>, lo: nat, base: nat, img0: Seq<u8>, k: nat) -> Result<Seq<u8>, ElfError>
    decreases k,
{
    if k == 0 {
        Ok(img0)
    } else {
        match relocated(b, lo, base, img0, (k - 1) as nat) {
            Ok(img) => dyn_step(b, lo, base, img, k - 1),
            Err(e) => Err(e),
        }
    }
}

/// The loaded image and entry address for a load at `base`.
pub open spec fn load_spec(b: Seq<u8>, base: u64) -> Result<(Seq<u8>, u64), ElfError> {
    match span_spec(b) {
        Err(e) => Err(e),
        Ok((lo, size)) => {
            let n = e_phnum(b);
            match copied(b, lo as nat, size as nat, n) {
                Err(e) => Err(e),
                Ok(img) => match relocated(b, lo as nat, base as nat, img, n) {
                    Err(e) => Err(e),
                    Ok(img2) => Ok((img2, wadd(base as nat, wsub(e_entry(b), lo as nat)) as u64)),
                },
            }
        },
    }
}


// ---- facts about the specifications ----

proof fn lemma_span_order(b: Seq<u8>, k: nat)
    ensures
        span_lo(b, k) != u64::MAX ==> span_lo(b, k) < span_hi(b, k),
        span_lo(b, k) <= u64::MAX,
        !span_overflows(b, k) ==> span_hi(b, k) <= u64::MAX,
    decreases k,
{
    if k > 0 {
        lemma_span_order(b, (k - 1) as nat);
    }
}

proof fn lemma_span_lo_le(b: Seq<u8>, k: nat, i: int)
    requires
        0 <= i < k,
        loadable(b, i),
    ensures
        span_lo(b, k) <= p_vaddr(b, i),
        p_vaddr(b, i) + p_memsz(b, i) <= span_hi(b, k),
    decreases k,
{
    if i < k - 1 {
        lemma_span_lo_le(b, (k - 1) as nat, i);
    }
}

proof fn lemma_overflow_mono(b: Seq<u8>, k: nat, n: nat)
    requires
        k <= n,
        span_overflows(b, k),
    ensures
        span_overflows(b, n),
    decreases n,
{
    if k < n {
        lemma_overflow_mono(b, k, (n - 1) as nat);
    }
}

proof fn lemma_copied_err(b: Seq<u8>, lo: nat, size: nat, k: nat, n: nat, e: ElfError)
    requires
        k <= n,
        copied(b, lo, size, k) == Err::<Seq<u8>, ElfError>(e),
    ensures
        copied(b, lo, size, n) == Err::<Seq<u8>, ElfError>(e),
    decreases n,
{
    if k < n {
        lemma_copied_err(b, lo, size, k, (n - 1) as nat, e);
    }
}

proof fn lemma_relocated_err(b: Seq<u8>, lo: nat, base: nat, img0: Seq<u8>, k: nat, n: nat, e: ElfError)
    requires
        k <= n,
        relocated(b, lo, base, img0, k) == Err::<Seq<u8>, ElfError>(e),
    ensures
        relocated(b, lo, base, img0, n) == Err::<Seq<u8>, ElfError>(e),
    decreases n,
{
    if k < n {
        lemma_relocated_err(b, lo, base, img0, k, (n - 1) as nat, e);
    }
}

// ---- reading the file ----

/// The first problem with the file header, if any.
fn header_check(bytes: &[u8]) -> (r: Option<ElfError>)
    ensures
        r == header_error(bytes@),
{
    if bytes.len() < EHDR_SIZE {
        return Some(ElfError::TooSmall);
    }
    if bytes[0] != 0x7f || bytes[1] != 0x45 || bytes[2] != 0x4c || bytes[3] != 0x46 {
        return Some(ElfError::BadMagic);
    }
    if bytes[4] != 2 || bytes[5] != 1 {
        return Some(ElfError::NotElf64Le);
    }
    if read_le(bytes, 18, 2) != EM_X86_64 {
        return Some(ElfError::NotX86_64);
    }
    let phnum = read_le(bytes, 56, 2);
    if phnum != 0 {
        let phoff = read_le(bytes, 32, 8);
        let entsz = read_le(bytes, 54, 2);
        proof {
            lemma_pow256_8();
            lemma_le_val_bound(bytes@, 56, 2);
            lemma_le_val_bound(bytes@, 54, 2);
            lemma_le_val_bound(bytes@, 32, 8);
            assert((phnum - 1) * entsz < 0x1_0000_0000) by (nonlinear_arith)
                requires
                    phnum < 0x1_0000,
                    entsz < 0x1_0000,
                    phnum >= 1;
        }
        let last: u128 = phoff as u128 + (phnum as u128 - 1) * entsz as u128 + PHDR_SIZE as u128;
        if last > bytes.len() as u128 {
            return Some(ElfError::Malformed);
        }
    }
    None
}

/// `n` bytes at offset `off` of program header `i`.
fn ph_field(bytes: &[u8], i: u64, off: usize, n: usize) -> (r: u64)
    requires
        header_error(bytes@) is None,
        i < e_phnum(bytes@),
        off + n <= PHDR_SIZE,
        n <= 8,
    ensures
        r == le_val(bytes@, ph_at(bytes@, i as int) + off, n as nat),
{
    let len = bytes.len();
    let phoff = read_le(bytes, 32, 8);
    let entsz = read_le(bytes, 54, 2);
    let ghost phnum = e_phnum(bytes@);
    proof {
        assert(i * entsz <= (phnum - 1) * entsz) by (nonlinear_arith)
            requires
                i <= phnum - 1;
        assert(i * entsz >= 0) by (nonlinear_arith);
        lemma_pow256_8();
        lemma_le_val_bound(bytes@, 54, 2);
        lemma_le_val_bound(bytes@, 56, 2);
        assert(phoff + i * entsz + PHDR_SIZE <= len);
    }
    let ii = i as usize;
    let ee = entsz as usize;
    let prod = ii * ee;
    let at = phoff as usize + prod;
    read_le(bytes, at + off, n)
}

/// Start address and size of the image the file needs.
pub fn image_span(bytes: &[u8]) -> (r: Result<(u64, u64), ElfError>)
    ensures
        r == span_spec(bytes@),
{
    match header_check(bytes) {
        Some(e) => {
            return Err(e);
        },
        None => {},
    }
    let ghost b = bytes@;
    let n = read_le(bytes, 56, 2);
    let mut min_v: u64 = u64::MAX;
    let mut max_v: u64 = 0;
    let mut i: u64 = 0;
    while i < n
        invariant
            i <= n,
            n == e_phnum(b),
            b == bytes@,
            header_error(b) is None,
            min_v == span_lo(b, i as nat),
            max_v == span_hi(b, i as nat),
            !span_overflows(b, i as nat),
        decreases n - i,
    {
        let t = ph_field(bytes, i, 0, 4);
        let memsz = ph_field(bytes, i, 40, 8);
        if t == PT_LOAD && memsz > 0 {
            let vaddr = ph_field(bytes, i, 16, 8);
            if vaddr > u64::MAX - memsz {
                proof {
                    lemma_overflow_mono(b, (i + 1) as nat, n as nat);
                }
                return Err(ElfError::Malformed);
            }
            if vaddr < min_v {
                min_v = vaddr;
            }
            if vaddr + memsz > max_v {
                max_v = vaddr + memsz;
            }
        }
        i = i + 1;
    }
    if min_v == u64::MAX {
        return Err(ElfError::NoLoadable);
    }
    proof {
        lemma_span_order(b, n as nat);
    }
    let size = max_v - min_v;
    if size as u128 > usize::MAX as u128 {
        return Err(ElfError::Malformed);
    }
    Ok((min_v, size))
}


/// `Some(v)` as a mathematical number.
pub open spec fn onat(o: Option<u64>) -> Option<nat> {
    match o {
        Some(v) => Some(v as nat),
        None => None,
    }
}

/// Walk the dynamic table at offset `pos` of the image.
fn scan_dynamic(img: &Vec<u8>, pos: u64) -> (r: Option<(Option<u64>, Option<u64>, u64)>)
    ensures
        match dyn_scan(img@, pos as int, None, None, RELA_SIZE as nat) {
            Some((a, sz, e)) => r matches Some((ra, rs, re)) && onat(ra) == a && onat(rs) == sz && re as nat == e,
            None => r is None,
        },
{
    let len = img.len();
    let mut p: u64 = pos;
    let mut rela: Option<u64> = None;
    let mut size: Option<u64> = None;
    let mut ent: u64 = RELA_SIZE as u64;
    proof {
        lemma_pow256_8();
    }
    while p as u128 + DYN_SIZE as u128 <= len as u128
        invariant
            len == img@.len(),
            pow256(8) == 0x1_0000_0000_0000_0000,
            dyn_scan(img@, pos as int, None, None, RELA_SIZE as nat) == dyn_scan(img@, p as int, onat(rela), onat(size), ent as nat),
        decreases len - p,
    {
        let tag = read_le(img.as_slice(), p as usize, 8);
        let val = read_le(img.as_slice(), p as usize + 8, 8);
        if tag == DT_NULL {
            return Some((rela, size, ent));
        } else if tag == DT_RELA {
            rela = Some(val);
        } else if tag == DT_RELASZ {
            size = Some(val);
        } else if tag == DT_RELAENT {
            ent = val;
        }
        p = p + DYN_SIZE as u64;
    }
    None
}

/// Apply `count` relocation entries `ent` bytes apart from offset `pos`;
/// `false` when one of them lies outside the image.
fn apply_relocs(img: &mut Vec<u8>, pos: u64, ent: u64, count: u64, lo: u64, base: u64) -> (ok: bool)
    ensures
        ok ==> relocs(old(img)@, pos as int, ent as nat, count as nat, lo as nat, base as nat) == Ok::<Seq<u8>, ElfError>(final(img)@),
        !ok ==> relocs(old(img)@, pos as int, ent as nat, count as nat, lo as nat, base as nat) == Err::<Seq<u8>, ElfError>(ElfError::Malformed),
{
    let len = img.len();
    let mut p: u128 = pos as u128;
    let mut c: u64 = count;
    while c > 0
        invariant
            p < 0x2_0000_0000_0000_0000,
            len == img@.len(),
            relocs(old(img)@, pos as int, ent as nat, count as nat, lo as nat, base as nat)
                == relocs(img@, p as int, ent as nat, c as nat, lo as nat, base as nat),
        decreases c,
    {
        if p + RELA_SIZE as u128 > len as u128 {
            return false;
        }
        let pu = p as usize;
        let r_offset = read_le(img.as_slice(), pu, 8);
        let r_info = read_le(img.as_slice(), pu + 8, 8);
        let addend = read_le(img.as_slice(), pu + 16, 8);
        let r_type = r_info & 0xFFFF_FFFF;
        proof {
            assert(r_info & 0xFFFF_FFFF == r_info % 0x1_0000_0000) by (bit_vector);
        }
        if r_type == R_X86_64_RELATIVE {
            if r_offset < lo || (r_offset - lo) as u128 + 8 > len as u128 {
                return false;
            }
            let v = base.wrapping_add(addend);
            assert(v as nat == wadd(base as nat, addend as nat));
            write_le64(img, (r_offset - lo) as usize, v);
            proof {
                crate::bytes::lemma_le_seq_len(v as nat, 8);
            }
        }
        p = p + ent as u128;
        c = c - 1;
    }
    true
}

/// Copy `n` bytes of `src` from `from` into `dst` at `at`.
fn copy_into(dst: &mut Vec<u8>, at: usize, src: &[u8], from: usize, n: usize)
    requires
        at + n <= old(dst)@.len(),
        from + n <= src@.len(),
    ensures
        final(dst)@ == splice(old(dst)@, at as int, src@.subrange(from as int, from + n)),
{
    let ghost d0 = dst@;
    let dlen = dst.len();
    let slen = src.len();
    let mut k: usize = 0;
    while k < n
        invariant
            k <= n,
            dlen == d0.len(),
            slen == src@.len(),
            at + n <= d0.len(),
            from + n <= src@.len(),
            dst@.len() == d0.len(),
            forall|j: int| 0 <= j < at ==> #[trigger] dst@[j] == d0[j],
            forall|j: int| at + k <= j < d0.len() ==> #[trigger] dst@[j] == d0[j],
            forall|j: int| at <= j < at + k ==> #[trigger] dst@[j] == src@[from + j - at],
        decreases n - k,
    {
        dst.set(at + k, src[from + k]);
        k = k + 1;
    }
    assert(dst@ =~= splice(d0, at as int, src@.subrange(from as int, from + n)));
}

/// `n` zero bytes.
fn zeros(n: usize) -> (v: Vec<u8>)
    ensures
        v@ == Seq::new(n as nat, |j: int| 0u8),
{
    let mut v: Vec<u8> = Vec::new();
    let mut k: usize = 0;
    while k < n
        invariant
            k <= n,
            v@ == Seq::new(k as nat, |j: int| 0u8),
        decreases n - k,
    {
        v.push(0u8);
        k = k + 1;
        assert(v@ =~= Seq::new(k as nat, |j: int| 0u8));
    }
    v
}

/// The image and entry address for a load at `load_base`.
fn load_image(bytes: &[u8], load_base: u64) -> (r: Result<LoadedApp, ElfError>)
    ensures
        match load_spec(bytes@, load_base) {
            Ok((img, e)) => r matches Ok(app) && app.memory@ == img && app.entry == e as usize,
            Err(err) => r matches Err(x) && x == err,
        },
{
    let (lo, size) = match image_span(bytes) {
        Ok(s) => s,
        Err(e) => {
            return Err(e);
        },
    };
    let ghost b = bytes@;
    let n = read_le(bytes, 56, 2);
    proof {
        assert(header_error(b) is None);
        lemma_span_order(b, n as nat);
        assert(size <= usize::MAX);
    }
    let mut img = zeros(size as usize);
    let mut i: u64 = 0;
    while i < n
        invariant
            i <= n,
            n == e_phnum(b),
            b == bytes@,
            header_error(b) is None,
            span_spec(b) == Ok::<(u64, u64), ElfError>((lo, size)),
            copied(b, lo as nat, size as nat, i as nat) == Ok::<Seq<u8>, ElfError>(img@),
        decreases n - i,
    {
        let t = ph_field(bytes, i, 0, 4);
        let memsz = ph_field(bytes, i, 40, 8);
        if t == PT_LOAD && memsz > 0 {
            let off = ph_field(bytes, i, 8, 8);
            let vaddr = ph_field(bytes, i, 16, 8);
            let filesz = ph_field(bytes, i, 32, 8);
            if off as u128 + filesz as u128 > bytes.len() as u128 {
                proof {
                    lemma_copied_err(b, lo as nat, size as nat, (i + 1) as nat, n as nat, ElfError::TooSmall);
                }
                return Err(ElfError::TooSmall);
            }
            proof {
                lemma_span_lo_le(b, n as nat, i as int);
            }
            if (vaddr - lo) as u128 + filesz as u128 > img.len() as u128 {
                proof {
                    lemma_copied_err(b, lo as nat, size as nat, (i + 1) as nat, n as nat, ElfError::Malformed);
                }
                return Err(ElfError::Malformed);
            }
            copy_into(&mut img, (vaddr - lo) as usize, bytes, off as usize, filesz as usize);
        }
        i = i + 1;
    }
    let ghost img0 = img@;
    let mut i: u64 = 0;
    while i < n
        invariant
            i <= n,
            n == e_phnum(b),
            b == bytes@,
            header_error(b) is None,
            span_spec(b) == Ok::<(u64, u64), ElfError>((lo, size)),
            copied(b, lo as nat, size as nat, n as nat) == Ok::<Seq<u8>, ElfError>(img0),
            relocated(b, lo as nat, load_base as nat, img0, i as nat) == Ok::<Seq<u8>, ElfError>(img@),
        decreases n - i,
    {
        let t = ph_field(bytes, i, 0, 4);
        if t == PT_DYNAMIC {
            let vaddr = ph_field(bytes, i, 16, 8);
            if vaddr < lo {
                proof {
                    lemma_relocated_err(b, lo as nat, load_base as nat, img0, (i + 1) as nat, n as nat, ElfError::Malformed);
                }
                return Err(ElfError::Malformed);
            }
            match scan_dynamic(&img, vaddr - lo) {
                None => {
                    proof {
                        lemma_relocated_err(b, lo as nat, load_base as nat, img0, (i + 1) as nat, n as nat, ElfError::Malformed);
                    }
                    return Err(ElfError::Malformed);
                },
                Some((rela, rsize, ent)) => match (rela, rsize) {
                    (Some(a), Some(sz)) => {
                        if ent == 0 {
                            proof {
                                lemma_relocated_err(b, lo as nat, load_base as nat, img0, (i + 1) as nat, n as nat, ElfError::Malformed);
                            }
                            return Err(ElfError::Malformed);
                        }
                        let count = sz / ent;
                        if count != 0 {
                            if a < lo {
                                proof {
                                    lemma_relocated_err(b, lo as nat, load_base as nat, img0, (i + 1) as nat, n as nat, ElfError::Malformed);
                                }
                                return Err(ElfError::Malformed);
                            }
                            if !apply_relocs(&mut img, a - lo, ent, count, lo, load_base) {
                                proof {
                                    lemma_relocated_err(b, lo as nat, load_base as nat, img0, (i + 1) as nat, n as nat, ElfError::Malformed);
                                }
                                return Err(ElfError::Malformed);
                            }
                        }
                    },
                    _ => {},
                },
            }
        }
        i = i + 1;
    }
    let e = read_le(bytes, 24, 8);
    let entry = load_base.wrapping_add(e.wrapping_sub(lo));
    assert(entry as nat == wadd(load_base as nat, wsub(e as nat, lo as nat)));
    Ok(LoadedApp { memory: img, entry: entry as usize })
}


/// Padding that brings buffer address `addr` up to a multiple of 16.
pub open spec fn align_pad(addr: nat) -> nat {
    ((16 - addr % 16) % 16) as nat
}

/// Where the image runs inside a buffer at `addr`: its first 16-aligned
/// byte.
pub open spec fn aligned_base(addr: nat) -> u64 {
    wadd(addr, align_pad(addr)) as u64
}

/// A buffer of the image's size plus 16 bytes holding the image from offset
/// `pad` on, zero elsewhere.
pub open spec fn placed(img: Seq<u8>, pad: nat) -> Seq<u8> {
    Seq::new(pad, |j: int| 0u8) + img + Seq::new((16 - pad) as nat, |j: int| 0u8)
}

/// The loaded buffer and entry address when the buffer lands at `addr`:
/// the image sits at the buffer's first 16-aligned byte and is relocated
/// for that address.
pub open spec fn load_in_buffer(b: Seq<u8>, addr: nat) -> Result<(Seq<u8>, u64), ElfError> {
    match span_spec(b) {
        Err(e) => Err(e),
        Ok((lo, size)) => if size + 16 > usize::MAX {
            Err(ElfError::Malformed)
        } else {
            match load_spec(b, aligned_base(addr)) {
                Ok((img, e)) => Ok((placed(img, align_pad(addr)), e)),
                Err(e) => Err(e),
            }
        },
    }
}

/// What `load` returns for a buffer at `addr`.
pub open spec fn loaded_as(b: Seq<u8>, addr: nat, r: Result<LoadedApp, ElfError>) -> bool {
    match load_in_buffer(b, addr) {
        Ok((m, e)) => r matches Ok(app) && app.memory@ == m && app.entry == e as usize,
        Err(err) => r matches Err(x) && x == err,
    }
}

/// Calls `Vec::as_ptr` and takes the buffer's address. Nothing is stated
/// of the value: the allocator puts the buffer where it likes.
#[verifier::external_body]
fn buffer_address(v: &Vec<u8>) -> usize {
    v.as_ptr() as usize
}

/// Load the file into a fresh buffer of the image's size plus 16 bytes: the
/// image goes at the buffer's first 16-aligned byte, relocated for that
/// address, and the entry point is absolute. The buffer's address is the
/// allocator's choice, so the result is stated for whatever it is.
pub fn load(bytes: &[u8]) -> (r: Result<LoadedApp, ElfError>)
    ensures
        exists|addr: nat| addr <= usize::MAX && loaded_as(bytes@, addr, r),
{
    let (_lo, size) = match image_span(bytes) {
        Ok(s) => s,
        Err(e) => {
            assert(loaded_as(bytes@, 0, Err::<LoadedApp, ElfError>(e)));
            return Err(e);
        },
    };
    proof {
        lemma_span_order(bytes@, e_phnum(bytes@));
        assert(size <= usize::MAX);
    }
    if size as usize > usize::MAX - 16 {
        assert(loaded_as(bytes@, 0, Err::<LoadedApp, ElfError>(ElfError::Malformed)));
        return Err(ElfError::Malformed);
    }
    let mut memory = zeros(size as usize + 16);
    let addr = buffer_address(&memory);
    let pad = (16 - addr % 16) % 16;
    let base = (addr as u64).wrapping_add(pad as u64);
    assert(base == aligned_base(addr as nat));
    let img = match load_image(bytes, base) {
        Ok(app) => app,
        Err(e) => {
            assert(load_spec(bytes@, base) == Err::<(Seq<u8>, u64), ElfError>(e));
            assert(span_spec(bytes@) == Ok::<(u64, u64), ElfError>((_lo, size)));
            assert(size + 16 <= usize::MAX);
            assert(load_in_buffer(bytes@, addr as nat) == Err::<(Seq<u8>, u64), ElfError>(e));
            assert(loaded_as(bytes@, addr as nat, Err::<LoadedApp, ElfError>(e)));
            return Err(e);
        },
    };
    proof {
        lemma_load_layout(bytes@, base);
    }
    let ghost m0 = memory@;
    copy_into(&mut memory, pad, img.memory.as_slice(), 0, size as usize);
    assert(img.memory@.subrange(0, size as int) =~= img.memory@);
    assert(memory@ =~= placed(img.memory@, pad as nat));
    let r = Ok(LoadedApp { memory, entry: img.entry });
    assert(loaded_as(bytes@, addr as nat, r));
    r
}

/// The image runs at a 16-aligned address within 16 bytes of the buffer's
/// start (for buffers not within 16 bytes of the top of the address space).
pub proof fn lemma_base_aligned(addr: nat)
    requires
        addr + 15 < u64_limit(),
    ensures
        align_pad(addr) < 16,
        aligned_base(addr) == addr + align_pad(addr),
        aligned_base(addr) % 16 == 0,
{
    let p = align_pad(addr);
    assert((addr + p) % 16 == 0) by {
        if addr % 16 == 0 {
            assert(p == 0);
        } else {
            assert(p == 16 - addr % 16);
            vstd::arithmetic::div_mod::lemma_fundamental_div_mod(addr as int, 16);
            assert(addr + p == 16 * (addr / 16) + 16);
            vstd::arithmetic::div_mod::lemma_mod_multiples_vanish(addr as int / 16 + 1, 0, 16);
            assert(16 * (addr / 16 + 1) == 16 * (addr / 16) + 16);
        }
    }
}

// ---- laws of the loader ----

proof fn lemma_copied_len(b: Seq<u8>, lo: nat, size: nat, k: nat, n: nat)
    requires
        k <= n,
        lo == span_lo(b, n),
    ensures
        copied(b, lo, size, k) matches Ok(img) ==> img.len() == size,
    decreases k,
{
    if k > 0 {
        lemma_copied_len(b, lo, size, (k - 1) as nat, n);
        if loadable(b, k - 1) {
            lemma_span_lo_le(b, n, k - 1);
        }
        match copied(b, lo, size, (k - 1) as nat) {
            Ok(img) => {
                let i = k - 1;
                if loadable(b, i) && p_offset(b, i) + p_filesz(b, i) <= b.len()
                    && p_vaddr(b, i) - lo + p_filesz(b, i) <= img.len() {
                    assert(b.subrange(p_offset(b, i) as int, (p_offset(b, i) + p_filesz(b, i)) as int).len() == p_filesz(b, i));
                }
            },
            Err(_) => {},
        }
    }
}

proof fn lemma_relocs_len(img: Seq<u8>, pos: int, ent: nat, count: nat, lo: nat, base: nat)
    ensures
        relocs(img, pos, ent, count, lo, base) matches Ok(out) ==> out.len() == img.len(),
    decreases count,
{
    if count > 0 && pos + RELA_SIZE <= img.len() {
        let r_offset = le_val(img, pos, 8);
        let addend = le_val(img, pos + 16, 8);
        crate::bytes::lemma_le_seq_len(wadd(base, addend), 8);
        let next = splice(img, r_offset - lo, le_seq(wadd(base, addend), 8));
        lemma_relocs_len(img, pos + ent, ent, (count - 1) as nat, lo, base);
        lemma_relocs_len(next, pos + ent, ent, (count - 1) as nat, lo, base);
    }
}

proof fn lemma_relocated_len(b: Seq<u8>, lo: nat, base: nat, img0: Seq<u8>, k: nat)
    ensures
        relocated(b, lo, base, img0, k) matches Ok(img) ==> img.len() == img0.len(),
    decreases k,
{
    if k > 0 {
        lemma_relocated_len(b, lo, base, img0, (k - 1) as nat);
        match relocated(b, lo, base, img0, (k - 1) as nat) {
            Ok(img) => {
                let i = k - 1;
                if p_type(b, i) == PT_DYNAMIC && p_vaddr(b, i) >= lo {
                    match dyn_scan(img, p_vaddr(b, i) - lo, None, None, RELA_SIZE as nat) {
                        Some((Some(a), Some(sz), ent)) => {
                            if ent != 0 && a >= lo {
                                lemma_relocs_len(img, a - lo, ent, sz / ent, lo, base);
                            }
                        },
                        _ => {},
                    }
                }
            },
            Err(_) => {},
        }
    }
}

// ---- the relocation table, entry by entry ----

/// Byte position of relocation entry `k` of a table at `pos`, `ent` bytes
/// per entry.
pub open spec fn rela_at(pos: int, ent: nat, k: int) -> int {
    pos + k * ent
}

/// `r_offset` of relocation entry `k`.
pub open spec fn rela_offset(img: Seq<u8>, pos: int, ent: nat, k: int) -> nat {
    le_val(img, rela_at(pos, ent, k), 8)
}

/// Relocation entry `k` is of type `R_X86_64_RELATIVE` (the low half of
/// its `r_info`).
pub open spec fn rela_relative(img: Seq<u8>, pos: int, ent: nat, k: int) -> bool {
    le_val(img, rela_at(pos, ent, k) + 8, 8) % 0x1_0000_0000 == R_X86_64_RELATIVE
}

/// `r_addend` of relocation entry `k`.
pub open spec fn rela_addend(img: Seq<u8>, pos: int, ent: nat, k: int) -> nat {
    le_val(img, rela_at(pos, ent, k) + 16, 8)
}

/// Where in the image relocation entry `k` writes, for an image starting
/// at virtual address `lo`.
pub open spec fn rela_target(img: Seq<u8>, pos: int, ent: nat, k: int, lo: nat) -> int {
    rela_offset(img, pos, ent, k) - lo
}

/// One past the last byte of a table of `count` entries.
pub open spec fn table_end(pos: int, ent: nat, count: nat) -> int {
    pos + (count - 1) * ent + RELA_SIZE
}

/// No `R_X86_64_RELATIVE` entry of the table writes into the table itself.
pub open spec fn table_kept(img: Seq<u8>, pos: int, ent: nat, count: nat, lo: nat) -> bool {
    forall|j: int| 0 <= j < count && #[trigger] rela_relative(img, pos, ent, j) ==>
        rela_target(img, pos, ent, j, lo) + 8 <= pos || rela_target(img, pos, ent, j, lo) >= table_end(pos, ent, count)
}

/// A later `R_X86_64_RELATIVE` entry writes over some byte of entry `k`'s
/// word.
pub open spec fn written_later(img: Seq<u8>, pos: int, ent: nat, count: nat, lo: nat, k: int) -> bool {
    exists|j: int| k < j < count && #[trigger] rela_relative(img, pos, ent, j)
        && rela_target(img, pos, ent, j, lo) < rela_target(img, pos, ent, k, lo) + 8
        && rela_target(img, pos, ent, k, lo) < rela_target(img, pos, ent, j, lo) + 8
}

/// The image after the first entry of a table at `pos` is applied.
pub open spec fn reloc_next(img: Seq<u8>, pos: int, ent: nat, lo: nat, base: nat) -> Seq<u8> {
    if rela_relative(img, pos, ent, 0) {
        splice(img, rela_target(img, pos, ent, 0, lo), le_seq(wadd(base, rela_addend(img, pos, ent, 0)), 8))
    } else {
        img
    }
}

proof fn lemma_mul_succ(m: int, ent: nat)
    ensures
        (m + 1) * ent == m * ent + ent,
        0 * ent == 0,
{
    assert((m + 1) * ent == m * ent + ent) by (nonlinear_arith);
}

proof fn lemma_mul_mono(a: int, b: int, ent: nat)
    requires
        0 <= a <= b,
    ensures
        0 <= a * ent <= b * ent,
{
    assert(0 <= a * ent <= b * ent) by (nonlinear_arith)
        requires 0 <= a <= b, ent >= 0;
}

proof fn lemma_splice8(img: Seq<u8>, t: int, v: nat)
    requires
        0 <= t,
        t + 8 <= img.len(),
    ensures
        splice(img, t, le_seq(v, 8)).len() == img.len(),
        forall|x: int| 0 <= x < img.len() && !(t <= x < t + 8) ==> #[trigger] splice(img, t, le_seq(v, 8))[x] == img[x],
        forall|x: int| t <= x < t + 8 ==> #[trigger] splice(img, t, le_seq(v, 8))[x] == le_seq(v, 8)[x - t],
{
    crate::bytes::lemma_le_seq_len(v, 8);
}

/// Entry `m` of a table read from `img1`, one entry further on, is entry
/// `m + 1` read from `img`, when the two agree on the table's bytes.
proof fn lemma_entry_kept(img: Seq<u8>, img1: Seq<u8>, pos: int, ent: nat, count: nat, m: int, lo: nat)
    requires
        pos >= 0,
        1 <= m < count,
        img1.len() == img.len(),
        table_end(pos, ent, count) <= img.len(),
        forall|x: int| pos <= x < table_end(pos, ent, count) ==> #[trigger] img1[x] == img[x],
    ensures
        rela_at(pos + ent, ent, m - 1) == rela_at(pos, ent, m),
        rela_offset(img1, pos + ent, ent, m - 1) == rela_offset(img, pos, ent, m),
        rela_relative(img1, pos + ent, ent, m - 1) == rela_relative(img, pos, ent, m),
        rela_addend(img1, pos + ent, ent, m - 1) == rela_addend(img, pos, ent, m),
        rela_target(img1, pos + ent, ent, m - 1, lo) == rela_target(img, pos, ent, m, lo),
{
    lemma_mul_succ(m - 1, ent);
    lemma_mul_mono(m, (count - 1) as int, ent);
    let q = rela_at(pos, ent, m);
    assert(pos <= q && q + 24 <= table_end(pos, ent, count));
    assert forall|kk: int| 0 <= kk < 8 implies #[trigger] img1[q + kk] == img[q + kk] by {}
    crate::bytes::lemma_le_val_same(img1, img, q, q, 8);
    assert forall|kk: int| 0 <= kk < 8 implies #[trigger] img1[q + 8 + kk] == img[q + 8 + kk] by {}
    crate::bytes::lemma_le_val_same(img1, img, q + 8, q + 8, 8);
    assert forall|kk: int| 0 <= kk < 8 implies #[trigger] img1[q + 16 + kk] == img[q + 16 + kk] by {}
    crate::bytes::lemma_le_val_same(img1, img, q + 16, q + 16, 8);
}

/// A table that applies without error lies inside the image.
proof fn lemma_relocs_in_range(img: Seq<u8>, pos: int, ent: nat, count: nat, lo: nat, base: nat)
    requires
        pos >= 0,
        count > 0,
        relocs(img, pos, ent, count, lo, base) is Ok,
    ensures
        table_end(pos, ent, count) <= img.len(),
    decreases count,
{
    lemma_mul_succ(0, ent);
    lemma_mul_succ(count - 2, ent);
    if count > 1 {
        let img1 = reloc_next(img, pos, ent, lo, base);
        assert(rela_at(pos, ent, 0) == pos);
        if rela_relative(img, pos, ent, 0) {
            lemma_splice8(img, rela_target(img, pos, ent, 0, lo), wadd(base, rela_addend(img, pos, ent, 0)));
        }
        assert(relocs(img, pos, ent, count, lo, base) == relocs(img1, pos + ent, ent, (count - 1) as nat, lo, base));
        lemma_relocs_in_range(img1, pos + ent, ent, (count - 1) as nat, lo, base);
    }
}

/// One entry applied: the rest of the table, read from the new image one
/// entry on, is the rest of the old one and still kept.
proof fn lemma_relocs_step(img: Seq<u8>, pos: int, ent: nat, count: nat, lo: nat, base: nat)
    requires
        pos >= 0,
        count > 0,
        relocs(img, pos, ent, count, lo, base) is Ok,
        table_kept(img, pos, ent, count, lo),
    ensures
        ({
            let img1 = reloc_next(img, pos, ent, lo, base);
            &&& rela_at(pos, ent, 0) == pos
            &&& img1.len() == img.len()
            &&& relocs(img, pos, ent, count, lo, base) == relocs(img1, pos + ent, ent, (count - 1) as nat, lo, base)
            &&& rela_relative(img, pos, ent, 0) ==> 0 <= rela_target(img, pos, ent, 0, lo)
                && rela_target(img, pos, ent, 0, lo) + 8 <= img.len()
            &&& forall|m: int| 1 <= m < count ==> {
                &&& #[trigger] rela_relative(img1, pos + ent, ent, m - 1) == rela_relative(img, pos, ent, m)
                &&& rela_target(img1, pos + ent, ent, m - 1, lo) == rela_target(img, pos, ent, m, lo)
                &&& rela_addend(img1, pos + ent, ent, m - 1) == rela_addend(img, pos, ent, m)
            }
            &&& table_kept(img1, pos + ent, ent, (count - 1) as nat, lo)
        }),
{
    lemma_mul_succ(0, ent);
    assert(rela_at(pos, ent, 0) == pos);
    lemma_relocs_in_range(img, pos, ent, count, lo, base);
    let img1 = reloc_next(img, pos, ent, lo, base);
    if rela_relative(img, pos, ent, 0) {
        let t0 = rela_target(img, pos, ent, 0, lo);
        lemma_splice8(img, t0, wadd(base, rela_addend(img, pos, ent, 0)));
        assert(t0 + 8 <= pos || t0 >= table_end(pos, ent, count));
    }
    assert(img1.len() == img.len());
    assert forall|x: int| pos <= x < table_end(pos, ent, count) implies #[trigger] img1[x] == img[x] by {}
    assert forall|m: int| 1 <= m < count implies {
        &&& #[trigger] rela_relative(img1, pos + ent, ent, m - 1) == rela_relative(img, pos, ent, m)
        &&& rela_target(img1, pos + ent, ent, m - 1, lo) == rela_target(img, pos, ent, m, lo)
        &&& rela_addend(img1, pos + ent, ent, m - 1) == rela_addend(img, pos, ent, m)
    } by {
        lemma_entry_kept(img, img1, pos, ent, count, m, lo);
    }
    if count > 1 {
        lemma_mul_succ(count - 2, ent);
        assert(table_end(pos + ent, ent, (count - 1) as nat) == table_end(pos, ent, count));
        assert forall|j: int| 0 <= j < count - 1 && #[trigger] rela_relative(img1, pos + ent, ent, j) implies
            rela_target(img1, pos + ent, ent, j, lo) + 8 <= pos + ent
                || rela_target(img1, pos + ent, ent, j, lo) >= table_end(pos + ent, ent, (count - 1) as nat) by {
            lemma_entry_kept(img, img1, pos, ent, count, j + 1, lo);
            assert(rela_relative(img, pos, ent, j + 1));
            lemma_mul_mono(0, j + 1, ent);
        }
    }
}

/// Applying a table leaves every byte that no `R_X86_64_RELATIVE` entry
/// writes as it was.
proof fn lemma_relocs_frame(img: Seq<u8>, pos: int, ent: nat, count: nat, lo: nat, base: nat, x: int)
    requires
        pos >= 0,
        relocs(img, pos, ent, count, lo, base) is Ok,
        table_kept(img, pos, ent, count, lo),
        0 <= x < img.len(),
        forall|j: int| 0 <= j < count && #[trigger] rela_relative(img, pos, ent, j) ==>
            !(rela_target(img, pos, ent, j, lo) <= x < rela_target(img, pos, ent, j, lo) + 8),
    ensures
        relocs(img, pos, ent, count, lo, base) matches Ok(out) && out[x] == img[x],
    decreases count,
{
    if count > 0 {
        lemma_relocs_step(img, pos, ent, count, lo, base);
        let img1 = reloc_next(img, pos, ent, lo, base);
        if rela_relative(img, pos, ent, 0) {
            lemma_splice8(img, rela_target(img, pos, ent, 0, lo), wadd(base, rela_addend(img, pos, ent, 0)));
            assert(rela_relative(img, pos, ent, 0));
        }
        assert(img1[x] == img[x]);
        assert forall|j: int| 0 <= j < count - 1 && #[trigger] rela_relative(img1, pos + ent, ent, j) implies
            !(rela_target(img1, pos + ent, ent, j, lo) <= x < rela_target(img1, pos + ent, ent, j, lo) + 8) by {
            assert(rela_relative(img1, pos + ent, ent, (j + 1) - 1) == rela_relative(img, pos, ent, j + 1));
            assert(rela_relative(img, pos, ent, j + 1));
        }
        lemma_relocs_frame(img1, pos + ent, ent, (count - 1) as nat, lo, base, x);
    }
}

/// Applying a table writes every `R_X86_64_RELATIVE` entry that no later
/// entry overwrites: the image holds `base + addend` as an 8-byte
/// little-endian word at the entry's offset.
proof fn lemma_relocs_entry(img: Seq<u8>, pos: int, ent: nat, count: nat, lo: nat, base: nat, k: int)
    requires
        pos >= 0,
        relocs(img, pos, ent, count, lo, base) is Ok,
        table_kept(img, pos, ent, count, lo),
        0 <= k < count,
        rela_relative(img, pos, ent, k),
        !written_later(img, pos, ent, count, lo, k),
    ensures
        relocs(img, pos, ent, count, lo, base) matches Ok(out)
            && out.subrange(rela_target(img, pos, ent, k, lo), rela_target(img, pos, ent, k, lo) + 8)
                == le_seq(wadd(base, rela_addend(img, pos, ent, k)), 8),
    decreases count,
{
    lemma_relocs_step(img, pos, ent, count, lo, base);
    let img1 = reloc_next(img, pos, ent, lo, base);
    let rest = relocs(img1, pos + ent, ent, (count - 1) as nat, lo, base);
    if k == 0 {
        let t0 = rela_target(img, pos, ent, 0, lo);
        let v = wadd(base, rela_addend(img, pos, ent, 0));
        lemma_splice8(img, t0, v);
        crate::bytes::lemma_le_seq_len(v, 8);
        let out = rest->Ok_0;
        lemma_relocs_len(img1, pos + ent, ent, (count - 1) as nat, lo, base);
        assert forall|x: int| t0 <= x < t0 + 8 implies #[trigger] out[x] == le_seq(v, 8)[x - t0] by {
            assert forall|j: int| 0 <= j < count - 1 && #[trigger] rela_relative(img1, pos + ent, ent, j) implies
                !(rela_target(img1, pos + ent, ent, j, lo) <= x < rela_target(img1, pos + ent, ent, j, lo) + 8) by {
                assert(rela_relative(img1, pos + ent, ent, (j + 1) - 1) == rela_relative(img, pos, ent, j + 1));
                assert(rela_relative(img, pos, ent, j + 1));
                if rela_target(img, pos, ent, j + 1, lo) <= x < rela_target(img, pos, ent, j + 1, lo) + 8 {
                    assert(written_later(img, pos, ent, count, lo, 0));
                }
            }
            lemma_relocs_frame(img1, pos + ent, ent, (count - 1) as nat, lo, base, x);
        }
        assert(out.subrange(t0, t0 + 8) =~= le_seq(v, 8));
    } else {
        assert(rela_relative(img1, pos + ent, ent, k - 1) == rela_relative(img, pos, ent, k));
        if written_later(img1, pos + ent, ent, (count - 1) as nat, lo, k - 1) {
            let j = choose|j: int| k - 1 < j < count - 1 && #[trigger] rela_relative(img1, pos + ent, ent, j)
                && rela_target(img1, pos + ent, ent, j, lo) < rela_target(img1, pos + ent, ent, k - 1, lo) + 8
                && rela_target(img1, pos + ent, ent, k - 1, lo) < rela_target(img1, pos + ent, ent, j, lo) + 8;
            assert(rela_relative(img1, pos + ent, ent, (j + 1) - 1) == rela_relative(img, pos, ent, j + 1));
            assert(rela_relative(img, pos, ent, j + 1));
            assert(written_later(img, pos, ent, count, lo, k));
        }
        lemma_relocs_entry(img1, pos + ent, ent, (count - 1) as nat, lo, base, k - 1);
    }
}

/// With a single `PT_DYNAMIC` header, processing the headers' dynamic
/// tables is processing that one header's table.
proof fn lemma_relocated_one_dynamic(b: Seq<u8>, lo: nat, base: nat, img0: Seq<u8>, d: int, k: nat)
    requires
        0 <= d < e_phnum(b),
        k <= e_phnum(b),
        forall|j: int| 0 <= j < e_phnum(b) && j != d ==> #[trigger] p_type(b, j) != PT_DYNAMIC,
    ensures
        relocated(b, lo, base, img0, k) == (if k <= d { Ok::<Seq<u8>, ElfError>(img0) } else { dyn_step(b, lo, base, img0, d) }),
    decreases k,
{
    if k > 0 {
        lemma_relocated_one_dynamic(b, lo, base, img0, d, (k - 1) as nat);
        if k - 1 != d {
            assert(p_type(b, k - 1) != PT_DYNAMIC);
        }
    }
}

/// Loading applies every relocation of the file's table: for a file with
/// one `PT_DYNAMIC` header whose `DT_RELA` table has
/// `DT_RELASZ / DT_RELAENT` entries, each `R_X86_64_RELATIVE` entry among
/// them that no later entry overwrites leaves `base + r_addend` as an 8-byte
/// little-endian word at `r_offset - lo` of the loaded image. The entries
/// are read from the image before relocation (`img0`: the loadable segments
/// laid into the zeroed image), and the table is one that no relocation
/// writes into.
pub proof fn lemma_load_applies_relocations(
    b: Seq<u8>, base: u64, lo: u64, size: u64, img0: Seq<u8>, d: int,
    rela: nat, relasz: nat, relaent: nat, k: int, out: Seq<u8>, entry: u64,
)
    requires
        span_spec(b) == Ok::<(u64, u64), ElfError>((lo, size)),
        copied(b, lo as nat, size as nat, e_phnum(b)) == Ok::<Seq<u8>, ElfError>(img0),
        0 <= d < e_phnum(b),
        p_type(b, d) == PT_DYNAMIC,
        forall|j: int| 0 <= j < e_phnum(b) && j != d ==> #[trigger] p_type(b, j) != PT_DYNAMIC,
        p_vaddr(b, d) >= lo,
        dyn_scan(img0, p_vaddr(b, d) - lo, None, None, RELA_SIZE as nat) == Some((Some(rela), Some(relasz), relaent)),
        relaent > 0,
        rela >= lo,
        0 <= k < relasz / relaent,
        rela_relative(img0, rela - lo, relaent, k),
        table_kept(img0, rela - lo, relaent, (relasz / relaent) as nat, lo as nat),
        !written_later(img0, rela - lo, relaent, (relasz / relaent) as nat, lo as nat, k),
        load_spec(b, base) == Ok::<(Seq<u8>, u64), ElfError>((out, entry)),
    ensures
        out.subrange(rela_target(img0, rela - lo, relaent, k, lo as nat), rela_target(img0, rela - lo, relaent, k, lo as nat) + 8)
            == le_seq(wadd(base as nat, rela_addend(img0, rela - lo, relaent, k)), 8),
{
    let n = e_phnum(b);
    lemma_relocated_one_dynamic(b, lo as nat, base as nat, img0, d, n);
    assert(relocated(b, lo as nat, base as nat, img0, n) == dyn_step(b, lo as nat, base as nat, img0, d));
    let count = (relasz / relaent) as nat;
    assert(count > 0);
    assert(dyn_step(b, lo as nat, base as nat, img0, d) == relocs(img0, rela - lo, relaent, count, lo as nat, base as nat));
    lemma_relocs_entry(img0, rela - lo, relaent, count, lo as nat, base as nat, k);
}

/// A loaded image spans exactly the loadable segments: its size is the
/// distance from the lowest segment start to the highest segment end, and
/// the entry point keeps its distance from the lowest start.
pub proof fn lemma_load_layout(b: Seq<u8>, base: u64)
    ensures
        load_spec(b, base) matches Ok((img, e)) ==> ({
            let n = e_phnum(b);
            &&& img.len() == span_hi(b, n) - span_lo(b, n)
            &&& e as nat == wadd(base as nat, wsub(e_entry(b), span_lo(b, n)))
        }),
{
    match span_spec(b) {
        Ok((lo, size)) => {
            let n = e_phnum(b);
            lemma_span_order(b, n);
            lemma_le_val_bound(b, 24, 8);
            lemma_pow256_8();
            lemma_copied_len(b, lo as nat, size as nat, n, n);
            match copied(b, lo as nat, size as nat, n) {
                Ok(img) => {
                    lemma_relocated_len(b, lo as nat, base as nat, img, n);
                },
                Err(_) => {},
            }
        },
        Err(_) => {},
    }
}

/// Loading does not depend on where the image goes except through the
/// relocated words: the entry point moves with the load address.
pub proof fn lemma_entry_moves_with_base(b: Seq<u8>, base1: u64, base2: u64)
    requires
        load_spec(b, base1) is Ok,
        load_spec(b, base2) is Ok,
    ensures
        ({
            let lo = span_lo(b, e_phnum(b));
            let d = wsub(e_entry(b), lo);
            &&& load_spec(b, base1)->Ok_0.1 as nat == wadd(base1 as nat, d)
            &&& load_spec(b, base2)->Ok_0.1 as nat == wadd(base2 as nat, d)
        }),
{
    lemma_load_layout(b, base1);
    lemma_load_layout(b, base2);
}

} // verus!
