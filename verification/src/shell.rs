//! The text shell's line editor and command parser. Reading keys and
//! printing are done by the caller: it feeds each key to
//! [`LineEditor::feed`], echoes what that says, and runs the command that
//! [`parse_command`] finds in a finished line.

use vstd::prelude::*;

verus! {

/// Longest command line.
pub const MAX_LINE: usize = 200;

/// What a key asks of the caller.
#[derive(Clone, Debug)]
pub enum EditAction {
    /// Enter: start a new line and run this command line (spaces trimmed;
    /// empty when there is nothing to run), then print the prompt.
    Submit(Vec<u8>),
    /// A character was removed: echo a backspace.
    Erase,
    /// A character was added: echo it.
    Echo(u8),
    /// Nothing to do.
    Ignore,
}

/// The line being typed.
pub struct LineEditor {
    line: Vec<u8>,
}

/// `s` without leading and trailing spaces.
pub open spec fn trim(s: Seq<u8>) -> Seq<u8>
    decreases s.len(),
{
    if s.len() > 0 && s[0] == 32 {
        trim(s.drop_first())
    } else if s.len() > 0 && s.last() == 32 {
        trim(s.drop_last())
    } else {
        s
    }
}

/// The line after key `b`: cleared by Enter, shortened by backspace or
/// delete, extended by a printable character while there is room.
pub open spec fn edited(line: Seq<u8>, b: u8) -> Seq<u8> {
    if b == 10 || b == 13 {
        Seq::empty()
    } else if (b == 8 || b == 0x7f) && line.len() > 0 {
        line.drop_last()
    } else if 0x20 <= b <= 0x7e && line.len() < MAX_LINE {
        line.push(b)
    } else {
        line
    }
}

/// Backspace (or delete) undoes a typed character.
pub proof fn lemma_erase_undoes_echo(line: Seq<u8>, c: u8, k: u8)
    requires
        0x20 <= c <= 0x7e,
        line.len() < MAX_LINE,
        k == 8 || k == 0x7f,
    ensures
        edited(edited(line, c), k) == line,
{
    assert(line.push(c).drop_last() =~= line);
}

impl LineEditor {
    pub closed spec fn line(&self) -> Seq<u8> {
        self.line@
    }

    pub fn new() -> (e: LineEditor)
        ensures
            e.line() == Seq::<u8>::empty(),
    {
        LineEditor { line: Vec::new() }
    }

    /// One key: Enter (either line ending) submits the line, backspace or
    /// delete removes the last character, a printable ASCII character is
    /// added while the line is shorter than `MAX_LINE`; other keys do
    /// nothing.
    pub fn feed(&mut self, b: u8) -> (a: EditAction)
        requires
            old(self).line().len() <= MAX_LINE,
        ensures
            final(self).line().len() <= MAX_LINE,
            final(self).line() == edited(old(self).line(), b),
            (b == 10 || b == 13) ==> (a matches EditAction::Submit(l) && l@ == trim(old(self).line()))
                && final(self).line() == Seq::<u8>::empty(),
            (b == 8 || b == 0x7f) && old(self).line().len() > 0 ==> (a is Erase)
                && final(self).line() == old(self).line().drop_last(),
            (b == 8 || b == 0x7f) && old(self).line().len() == 0 ==> (a is Ignore)
                && final(self).line() == old(self).line(),
            0x20 <= b <= 0x7e && old(self).line().len() < MAX_LINE ==> a == EditAction::Echo(b)
                && final(self).line() == old(self).line().push(b),
            0x20 <= b <= 0x7e && old(self).line().len() >= MAX_LINE ==> (a is Ignore)
                && final(self).line() == old(self).line(),
            !(b == 10 || b == 13 || b == 8 || b == 0x7f || 0x20 <= b <= 0x7e) ==> (a is Ignore)
                && final(self).line() == old(self).line(),
    {
        if b == 10 || b == 13 {
            let t = trim_bytes(&self.line);
            self.line = Vec::new();
            EditAction::Submit(t)
        } else if b == 8 || b == 0x7f {
            if self.line.len() > 0 {
                let _ = self.line.pop();
                EditAction::Erase
            } else {
                EditAction::Ignore
            }
        } else if 0x20 <= b && b <= 0x7e {
            if self.line.len() < MAX_LINE {
                self.line.push(b);
                EditAction::Echo(b)
            } else {
                EditAction::Ignore
            }
        } else {
            EditAction::Ignore
        }
    }
}

/// `s[lo..hi]` with its leading and trailing spaces removed.
fn trim_bytes(s: &Vec<u8>) -> (t: Vec<u8>)
    ensures
        t@ == trim(s@),
{
    let mut lo: usize = 0;
    let mut hi: usize = s.len();
    assert(s@.subrange(0, hi as int) =~= s@);
    while lo < hi && s[lo] == 32
        invariant
            lo <= hi <= s@.len(),
            hi == s@.len(),
            trim(s@) == trim(s@.subrange(lo as int, hi as int)),
        decreases hi - lo,
    {
        assert(s@.subrange(lo as int, hi as int).drop_first() =~= s@.subrange(lo + 1, hi as int));
        lo = lo + 1;
    }
    while lo < hi && s[hi - 1] == 32
        invariant
            lo <= hi <= s@.len(),
            lo == hi || s@[lo as int] != 32,
            trim(s@) == trim(s@.subrange(lo as int, hi as int)),
        decreases hi - lo,
    {
        let ghost sub = s@.subrange(lo as int, hi as int);
        assert(sub.drop_last() =~= s@.subrange(lo as int, hi - 1));
        assert(sub.len() > 0 && sub[0] != 32);
        hi = hi - 1;
    }
    let mut t: Vec<u8> = Vec::new();
    let mut k: usize = lo;
    while k < hi
        invariant
            lo <= k <= hi <= s@.len(),
            t@ == s@.subrange(lo as int, k as int),
        decreases hi - k,
    {
        t.push(s[k]);
        k = k + 1;
        assert(t@ =~= s@.subrange(lo as int, k as int));
    }
    proof {
        let sub = s@.subrange(lo as int, hi as int);
        assert(trim(sub) == sub);
    }
    t
}

/// The space-separated words of `s` from position `i` on, the current word
/// being `cur`.
pub open spec fn words_from(s: Seq<u8>, i: int, cur: Seq<u8>) -> Seq<Seq<u8>>
    decreases s.len() - i,
{
    if i >= s.len() {
        if cur.len() > 0 { seq![cur] } else { Seq::empty() }
    } else if s[i] == 32 {
        if cur.len() > 0 { seq![cur] + words_from(s, i + 1, Seq::empty()) } else { words_from(s, i + 1, Seq::empty()) }
    } else {
        words_from(s, i + 1, cur.push(s[i]))
    }
}

/// The space-separated words of `s`.
pub open spec fn words(s: Seq<u8>) -> Seq<Seq<u8>> {
    words_from(s, 0, Seq::empty())
}

/// Split `s` into its space-separated words.
pub fn split_words(s: &[u8]) -> (w: Vec<Vec<u8>>)
    ensures
        w@.map_values(|v: Vec<u8>| v@) == words(s@),
{
    let mut out: Vec<Vec<u8>> = Vec::new();
    let mut cur: Vec<u8> = Vec::new();
    let mut i: usize = 0;
    while i < s.len()
        invariant
            i <= s@.len(),
            words(s@) == out@.map_values(|v: Vec<u8>| v@) + words_from(s@, i as int, cur@),
        decreases s@.len() - i,
    {
        if s[i] == 32 {
            if cur.len() > 0 {
                let ghost before = out@.map_values(|v: Vec<u8>| v@);
                let ghost c = cur@;
                out.push(cur);
                cur = Vec::new();
                proof {
                    assert(out@.map_values(|v: Vec<u8>| v@) =~= before.push(c));
                    assert(before + (seq![c] + words_from(s@, i + 1, Seq::empty())) =~= before.push(c) + words_from(s@, i + 1, Seq::empty()));
                    assert(cur@ =~= Seq::<u8>::empty());
                }
            } else {
                proof {
                    assert(cur@ =~= Seq::<u8>::empty());
                }
            }
        } else {
            cur.push(s[i]);
        }
        i = i + 1;
    }
    if cur.len() > 0 {
        let ghost before = out@.map_values(|v: Vec<u8>| v@);
        let ghost c = cur@;
        out.push(cur);
        proof {
            assert(out@.map_values(|v: Vec<u8>| v@) =~= before + seq![c]);
        }
    } else {
        proof {
            assert(out@.map_values(|v: Vec<u8>| v@) =~= out@.map_values(|v: Vec<u8>| v@) + Seq::<Seq<u8>>::empty());
        }
    }
    out
}

/// A shell command.
#[derive(Clone, Debug)]
pub enum Command {
    /// Blank line.
    Empty,
    Help,
    About,
    Ls,
    /// `cat` with its first argument, if any.
    Cat(Option<Vec<u8>>),
    /// `echo` with its arguments joined by single spaces.
    Echo(Vec<u8>),
    /// `clear` or `cls`.
    Clear,
    Mem,
    Meow,
    Mouse,
    Panic,
    Crash,
    /// Anything else, with the command word.
    Unknown(Vec<u8>),
}

/// `ws` joined with single spaces.
pub open spec fn joined(ws: Seq<Seq<u8>>) -> Seq<u8>
    decreases ws.len(),
{
    if ws.len() == 0 {
        Seq::empty()
    } else if ws.len() == 1 {
        ws[0]
    } else {
        joined(ws.drop_last()) + seq![32u8] + ws.last()
    }
}

/// Whether `w` is the command word `name`.
pub open spec fn is_word(w: Seq<u8>, name: Seq<u8>) -> bool {
    w == name
}

fn eq_bytes(a: &Vec<u8>, b: &[u8]) -> (r: bool)
    ensures
        r == (a@ == b@),
{
    if a.len() != b.len() {
        return false;
    }
    let mut i: usize = 0;
    while i < a.len()
        invariant
            i <= a@.len(),
            a@.len() == b@.len(),
            forall|j: int| 0 <= j < i ==> a@[j] == b@[j],
        decreases a@.len() - i,
    {
        if a[i] != b[i] {
            return false;
        }
        i = i + 1;
    }
    assert(a@ =~= b@);
    true
}

/// The command a line asks for, by its first word.
pub open spec fn command_of(ws: Seq<Seq<u8>>) -> (int, Seq<u8>) {
    if ws.len() == 0 {
        (0, Seq::empty())
    } else {
        let c = ws[0];
        if c == seq![104u8, 101u8, 108u8, 112u8] { (1, c) }
        else if c == seq![97u8, 98u8, 111u8, 117u8, 116u8] { (2, c) }
        else if c == seq![108u8, 115u8] { (3, c) }
        else if c == seq![99u8, 97u8, 116u8] { (4, c) }
        else if c == seq![101u8, 99u8, 104u8, 111u8] { (5, c) }
        else if c == seq![99u8, 108u8, 101u8, 97u8, 114u8] || c == seq![99u8, 108u8, 115u8] { (6, c) }
        else if c == seq![109u8, 101u8, 109u8] { (7, c) }
        else if c == seq![109u8, 101u8, 111u8, 119u8] { (8, c) }
        else if c == seq![109u8, 111u8, 117u8, 115u8, 101u8] { (9, c) }
        else if c == seq![112u8, 97u8, 110u8, 105u8, 99u8] { (10, c) }
        else if c == seq![99u8, 114u8, 97u8, 115u8, 104u8] { (11, c) }
        else { (12, c) }
    }
}

/// The command a submitted line asks for: its first word names the command,
/// the rest are arguments.
pub fn parse_command(line: &[u8]) -> (c: Command)
    ensures
        ({
            let ws = words(line@);
            let k = command_of(ws);
            &&& k.0 == 0 ==> (c is Empty)
            &&& k.0 == 1 ==> (c is Help)
            &&& k.0 == 2 ==> (c is About)
            &&& k.0 == 3 ==> (c is Ls)
            &&& k.0 == 4 ==> (c matches Command::Cat(a) && (ws.len() > 1 ==> (a matches Some(f) && f@ == ws[1]))
                && (ws.len() <= 1 ==> a is None))
            &&& k.0 == 5 ==> (c matches Command::Echo(t) && t@ == joined(ws.drop_first()))
            &&& k.0 == 6 ==> (c is Clear)
            &&& k.0 == 7 ==> (c is Mem)
            &&& k.0 == 8 ==> (c is Meow)
            &&& k.0 == 9 ==> (c is Mouse)
            &&& k.0 == 10 ==> (c is Panic)
            &&& k.0 == 11 ==> (c is Crash)
            &&& k.0 == 12 ==> (c matches Command::Unknown(w) && w@ == k.1)
        }),
{
    let mut ws = split_words(line);
    let ghost wv = ws@.map_values(|v: Vec<u8>| v@);
    if ws.len() == 0 {
        return Command::Empty;
    }
    let cmd = ws.remove(0);
    proof {
        assert(cmd@ == wv[0]);
        assert(ws@.map_values(|v: Vec<u8>| v@) =~= wv.drop_first());
    }
    if eq_bytes(&cmd, &[104u8, 101, 108, 112]) {
        Command::Help
    } else if eq_bytes(&cmd, &[97u8, 98, 111, 117, 116]) {
        Command::About
    } else if eq_bytes(&cmd, &[108u8, 115]) {
        Command::Ls
    } else if eq_bytes(&cmd, &[99u8, 97, 116]) {
        if ws.len() > 0 {
            let f = ws.remove(0);
            Command::Cat(Some(f))
        } else {
            Command::Cat(None)
        }
    } else if eq_bytes(&cmd, &[101u8, 99, 104, 111]) {
        Command::Echo(join_words(&ws))
    } else if eq_bytes(&cmd, &[99u8, 108, 101, 97, 114]) || eq_bytes(&cmd, &[99u8, 108, 115]) {
        Command::Clear
    } else if eq_bytes(&cmd, &[109u8, 101, 109]) {
        Command::Mem
    } else if eq_bytes(&cmd, &[109u8, 101, 111, 119]) {
        Command::Meow
    } else if eq_bytes(&cmd, &[109u8, 111, 117, 115, 101]) {
        Command::Mouse
    } else if eq_bytes(&cmd, &[112u8, 97, 110, 105, 99]) {
        Command::Panic
    } else if eq_bytes(&cmd, &[99u8, 114, 97, 115, 104]) {
        Command::Crash
    } else {
        Command::Unknown(cmd)
    }
}

/// Words joined with single spaces.
fn join_words(ws: &Vec<Vec<u8>>) -> (t: Vec<u8>)
    ensures
        t@ == joined(ws@.map_values(|v: Vec<u8>| v@)),
{
    let ghost all = ws@.map_values(|v: Vec<u8>| v@);
    let mut t: Vec<u8> = Vec::new();
    let mut i: usize = 0;
    while i < ws.len()
        invariant
            i <= ws@.len(),
            all == ws@.map_values(|v: Vec<u8>| v@),
            t@ == joined(all.subrange(0, i as int)),
        decreases ws@.len() - i,
    {
        let ghost before = t@;
        if i > 0 {
            t.push(32u8);
        }
        let w = &ws[i];
        let mut k: usize = 0;
        while k < w.len()
            invariant
                k <= w@.len(),
                t@ == (if i > 0 { before + seq![32u8] } else { before }) + w@.subrange(0, k as int),
            decreases w@.len() - k,
        {
            t.push(w[k]);
            k = k + 1;
            assert(t@ =~= (if i > 0 { before + seq![32u8] } else { before }) + w@.subrange(0, k as int));
        }
        proof {
            assert(w@.subrange(0, w@.len() as int) =~= w@);
            let sub = all.subrange(0, i + 1);
            assert(sub.drop_last() =~= all.subrange(0, i as int));
            assert(sub.last() == w@);
            if i == 0 {
                assert(joined(all.subrange(0, 0)) =~= Seq::<u8>::empty());
                assert(t@ =~= w@);
            }
        }
        i = i + 1;
    }
    assert(all.subrange(0, ws@.len() as int) =~= all);
    t
}

} // verus!
