//! Launching apps and the kernel services they call.
//!
//! An app is an ELF file of the archive; launching loads it at the address
//! the caller reserved for it and parks it in the pending slot until its
//! task starts. The service entry points themselves (raw pointers, the
//! calling convention) are done by the caller; what they decide is here.

use vstd::prelude::*;
use crate::app_wm::{AppWindows, AppOp, AppOpView, create, enqueue_op, fresh_app_window};
use crate::elf::{LoadedApp, load, load_in_buffer, loaded_as};
use crate::fs::FsError;
use crate::sdk::WindowId;
use crate::strings::{str_from_utf8, string_from, string_push};

verus! {

/// Load the app whose file was read as `file` into a fresh buffer (see
/// [`load`]) and park it in `pending` for its task to pick up.
pub fn launch(pending: &mut Option<LoadedApp>, file: Result<Vec<u8>, FsError>) -> (r: Result<(), &'static str>)
    ensures
        match file {
            Err(_) => r matches Err(m) && m@ == "fs::read failed"@ && *final(pending) == *old(pending),
            Ok(bytes) => exists|addr: nat| addr <= usize::MAX && match #[trigger] load_in_buffer(bytes@, addr) {
                Err(_) => r matches Err(m) && m@ == "elf::load failed"@ && *final(pending) == *old(pending),
                Ok((img, e)) => if (*old(pending)) is Some {
                    r matches Err(m) && m@ == "another app launch is already pending"@ && *final(pending) == *old(pending)
                } else {
                    r is Ok && (*final(pending) matches Some(app) && app.memory@ == img && app.entry == e as usize)
                },
            },
        },
{
    let bytes = match file {
        Ok(b) => b,
        Err(_) => {
            return Err("fs::read failed");
        },
    };
    let loaded = load(bytes.as_slice());
    let ghost addr = choose|addr: nat| addr <= usize::MAX && loaded_as(bytes@, addr, loaded);
    let image = match loaded {
        Ok(i) => i,
        Err(_) => {
            return Err("elf::load failed");
        },
    };
    if pending.is_some() {
        return Err("another app launch is already pending");
    }
    *pending = Some(image);
    Ok(())
}

/// The title an app passed (its bytes up to the first NUL): the text when
/// it is valid UTF-8, a placeholder otherwise.
pub fn window_title(raw: &[u8]) -> (t: String)
    ensures
        vstd::utf8::valid_utf8(raw@) ==> t@ == vstd::utf8::decode_utf8(raw@),
        !vstd::utf8::valid_utf8(raw@) ==> t@ == "(invalid utf-8)"@,
{
    match str_from_utf8(raw) {
        Some(s) => string_from(s),
        None => string_from("(invalid utf-8)"),
    }
}

/// The window-open service: make the window state for a `w`×`h` content
/// area and ask the desktop for its chrome.
pub fn open_window(reg: &mut AppWindows, title: String, w: u32, h: u32) -> (id: WindowId)
    requires
        old(reg).wf(),
        w <= 0x7fff_ffff,
        h <= 0x7fff_ffff,
        w * h * 3 <= usize::MAX,
    ensures
        final(reg).wf(),
        id == old(reg).next_id(),
        final(reg).windows() == old(reg).windows().insert(id, fresh_app_window(w as int, h as int)),
        final(reg).ops() == old(reg).ops().push(AppOpView::Open { app_id: id, title: title@, content_w: w, content_h: h }),
{
    let id = create(reg, w as usize, h as usize);
    enqueue_op(reg, AppOp::OpenWindow { app_id: id, title, content_w: w, content_h: h });
    id
}

/// Bytes the file-read service copies: the whole file or as much as fits.
pub fn fs_read_count(len: usize, cap: u32) -> (n: u32)
    ensures
        n as int == (if len < cap { len as int } else { cap as int }),
{
    if len < cap as usize { len as u32 } else { cap }
}

/// Hexadecimal digit character.
pub open spec fn hex_digit(d: int) -> char {
    if d < 10 { (48 + d) as char } else { (55 + d) as char }
}

/// The 16 hexadecimal digits of `v`, upper case, most significant first.
pub open spec fn hex16_spec(v: u64) -> Seq<char> {
    Seq::new(16, |k: int| hex_digit(((v as int) / pow16(15 - k)) % 16))
}

pub open spec fn pow16(n: int) -> int
    decreases n,
{
    if n <= 0 { 1 } else { 16 * pow16(n - 1) }
}

/// `v` as 16 upper-case hexadecimal digits, for the launch log.
pub fn write_hex(v: u64) -> (s: String)
    ensures
        s@ == hex16_spec(v),
{
    let mut digits: Vec<char> = Vec::new();
    let mut k: usize = 0;
    while k < 16
        invariant
            k <= 16,
            digits@.len() == k,
            forall|j: int| 0 <= j < k ==> #[trigger] digits@[j] == hex_digit(((v as int) / pow16(j)) % 16),
        decreases 16 - k,
    {
        let d = shifted_digit(v, k);
        let c = if d < 10 { (48 + d) as char } else { (55 + d) as char };
        digits.push(c);
        k = k + 1;
    }
    let mut s = String::new();
    let mut i: usize = 16;
    while i > 0
        invariant
            i <= 16,
            digits@.len() == 16,
            forall|j: int| 0 <= j < 16 ==> #[trigger] digits@[j] == hex_digit(((v as int) / pow16(j)) % 16),
            s@ == Seq::new((16 - i) as nat, |k: int| hex_digit(((v as int) / pow16(15 - k)) % 16)),
        decreases i,
    {
        i = i - 1;
        string_push(&mut s, digits[i]);
        assert(s@ =~= Seq::new((16 - i) as nat, |k: int| hex_digit(((v as int) / pow16(15 - k)) % 16)));
    }
    s
}

/// Hexadecimal digit `k` (from the least significant) of `v`.
fn shifted_digit(v: u64, k: usize) -> (d: u8)
    requires
        k < 16,
    ensures
        d as int == ((v as int) / pow16(k as int)) % 16,
{
    let mut x = v;
    let mut j: usize = 0;
    while j < k
        invariant
            j <= k,
            x as int == (v as int) / pow16(j as int),
        decreases k - j,
    {
        proof {
            lemma_pow16_pos(j as int);
            vstd::arithmetic::div_mod::lemma_div_denominator(v as int, pow16(j as int), 16);
            assert(pow16(j as int + 1) == 16 * pow16(j as int));
            assert(pow16(j as int) * 16 == 16 * pow16(j as int)) by (nonlinear_arith);
        }
        x = x / 16;
        j = j + 1;
    }
    (x % 16) as u8
}

proof fn lemma_pow16_pos(n: int)
    ensures
        pow16(n) > 0,
    decreases n,
{
    if n > 0 {
        lemma_pow16_pos(n - 1);
    }
}

} // verus!
