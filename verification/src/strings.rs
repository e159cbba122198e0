//! The few `String` operations the library needs that vstd does not specify.

use vstd::prelude::*;
use vstd::std_specs::iter::IteratorSpec;

verus! {

/// Calls `String::push`, which appends one character to the string.
#[verifier::external_body]
pub(crate) fn string_push(s: &mut String, c: char)
    ensures
        final(s)@ == old(s)@.push(c),
{
    s.push(c);
}

/// A fresh `String` holding the characters of `s`.
pub(crate) fn string_from(s: &str) -> (r: String)
    ensures
        r@ == s@,
{
    s.to_owned()
}


/// Calls `core::str::from_utf8`: the bytes as a string when they are valid
/// UTF-8, nothing otherwise.
#[verifier::external_body]
pub(crate) fn str_from_utf8(bytes: &[u8]) -> (r: Option<&str>)
    ensures
        r is Some <==> vstd::utf8::valid_utf8(bytes@),
        r matches Some(s) ==> s@ == vstd::utf8::decode_utf8(bytes@),
{
    core::str::from_utf8(bytes).ok()
}

/// Decimal digits of `n`, most significant first.
pub open spec fn decimal(n: nat) -> Seq<char>
    decreases n,
{
    if n < 10 {
        seq![digit(n)]
    } else {
        decimal(n / 10).push(digit(n % 10))
    }
}

/// The character of a decimal digit.
pub open spec fn digit(d: nat) -> char {
    (48 + d) as char
}

/// Append the decimal representation of `n`.
pub fn push_uint(s: &mut String, n: u32)
    ensures
        final(s)@ == old(s)@ + decimal(n as nat),
    decreases n,
{
    if n >= 10 {
        push_uint(s, n / 10);
    }
    let d = (n % 10) as u8;
    string_push(s, (48u8 + d) as char);
    proof {
        assert(decimal(n as nat) == if n < 10 { seq![digit(n as nat)] } else { decimal((n / 10) as nat).push(digit((n % 10) as nat)) });
        assert(((48 + d) as u8) as char == digit((n % 10) as nat));
        assert(final(s)@ =~= old(s)@ + decimal(n as nat));
    }
}

/// Append the decimal representation of a 64-bit `n`.
pub fn push_u64(s: &mut String, n: u64)
    ensures
        final(s)@ == old(s)@ + decimal(n as nat),
    decreases n,
{
    if n >= 10 {
        push_u64(s, n / 10);
    }
    let d = (n % 10) as u8;
    string_push(s, (48u8 + d) as char);
    proof {
        assert(decimal(n as nat) == if n < 10 { seq![digit(n as nat)] } else { decimal((n / 10) as nat).push(digit((n % 10) as nat)) });
        assert(((48 + d) as u8) as char == digit((n % 10) as nat));
        assert(final(s)@ =~= old(s)@ + decimal(n as nat));
    }
}

/// Lines of `s`: split at each `\n`, dropping a `\r` just before it; a final
/// line ending adds no empty line.
pub open spec fn lines_of(s: Seq<char>) -> Seq<Seq<char>> {
    split_lines(Seq::empty(), s)
}

/// Lines of `cur + rest` where `cur` is the beginning of the current line.
pub open spec fn split_lines(cur: Seq<char>, rest: Seq<char>) -> Seq<Seq<char>>
    decreases rest.len(),
{
    if rest.len() == 0 {
        if cur.len() == 0 {
            Seq::empty()
        } else {
            seq![cur]
        }
    } else if rest[0] == '\n' {
        seq![strip_cr(cur)] + split_lines(Seq::empty(), rest.drop_first())
    } else {
        split_lines(cur.push(rest[0]), rest.drop_first())
    }
}

/// `line` without one trailing carriage return.
pub open spec fn strip_cr(line: Seq<char>) -> Seq<char> {
    if line.len() > 0 && line.last() == '\r' {
        line.drop_last()
    } else {
        line
    }
}

fn string_of_chars(cs: &Vec<char>, n: usize) -> (r: String)
    requires
        n <= cs@.len(),
    ensures
        r@ == cs@.subrange(0, n as int),
{
    let mut r = String::new();
    let mut i: usize = 0;
    while i < n
        invariant
            i <= n,
            n <= cs@.len(),
            r@ == cs@.subrange(0, i as int),
        decreases n - i,
    {
        string_push(&mut r, cs[i]);
        i = i + 1;
        assert(r@ =~= cs@.subrange(0, i as int));
    }
    r
}

/// Split a string into its lines (see [`lines_of`]).
pub fn lines(s: &str) -> (r: Vec<String>)
    ensures
        r@.map_values(|l: String| l@) == lines_of(s@),
{
    let mut out: Vec<String> = Vec::new();
    let mut cur: Vec<char> = Vec::new();
    let mut it = s.chars();
    let ghost mut rest = s@;
    proof {
        vstd::string::axiom_spec_iter(s);
    }
    assert(out@.map_values(|l: String| l@) =~= Seq::<Seq<char>>::empty());
    assert(s@ =~= Seq::<char>::empty() + s@);
    loop
        invariant
            it.remaining() == rest,
            lines_of(s@) == out@.map_values(|l: String| l@) + split_lines(cur@, rest),
            !cur@.contains('\n'),
        ensures
            rest.len() == 0,
            lines_of(s@) == out@.map_values(|l: String| l@) + split_lines(cur@, rest),
        decreases rest.len(),
    {
        match it.next() {
            Some(c) => {
                let ghost r0 = rest;
                proof {
                    rest = rest.drop_first();
                }
                if c == '\n' {
                    let n = if cur.len() > 0 && cur[cur.len() - 1] == '\r' { cur.len() - 1 } else { cur.len() };
                    let line = string_of_chars(&cur, n);
                    proof {
                        assert(line@ == strip_cr(cur@)) by {
                            if cur@.len() > 0 && cur@.last() == '\r' {
                                assert(cur@.drop_last() =~= cur@.subrange(0, n as int));
                            } else {
                                assert(cur@ =~= cur@.subrange(0, n as int));
                            }
                        }
                        assert(split_lines(cur@, r0) == seq![strip_cr(cur@)] + split_lines(Seq::empty(), rest));
                    }
                    let ghost before = out@.map_values(|l: String| l@);
                    out.push(line);
                    cur = Vec::new();
                    proof {
                        assert(out@.map_values(|l: String| l@) =~= before + seq![line@]);
                        assert(cur@ =~= Seq::<char>::empty());
                        assert(before + seq![line@] + split_lines(Seq::empty(), rest) =~= before + (seq![line@] + split_lines(Seq::empty(), rest)));
                    }
                } else {
                    let ghost c0 = cur@;
                    cur.push(c);
                    proof {
                        assert(split_lines(c0, r0) == split_lines(c0.push(c), rest));
                        assert(!cur@.contains('\n')) by {
                            if cur@.contains('\n') {
                                let k = choose|k: int| 0 <= k < cur@.len() && cur@[k] == '\n';
                                if k < c0.len() {
                                    assert(c0[k] == '\n');
                                }
                            }
                        }
                    }
                }
            },
            None => {
                assert(rest.len() == 0);
                break;
            },
        }
    }
    if cur.len() > 0 {
        let n = cur.len();
        let line = string_of_chars(&cur, n);
        let ghost before = out@.map_values(|l: String| l@);
        out.push(line);
        proof {
            assert(cur@ =~= cur@.subrange(0, n as int));
            assert(out@.map_values(|l: String| l@) =~= before + seq![line@]);
        }
    } else {
        proof {
            assert(out@.map_values(|l: String| l@) =~= out@.map_values(|l: String| l@) + Seq::<Seq<char>>::empty());
        }
    }
    out
}

} // verus!
