//! Little-endian integers in byte sequences.

use vstd::prelude::*;

verus! {

/// 256 to the power `n`.
pub open spec fn pow256(n: nat) -> nat
    decreases n,
{
    if n == 0 {
        1
    } else {
        256 * pow256((n - 1) as nat)
    }
}

/// The unsigned little-endian integer held by `s[off .. off + n]`.
pub open spec fn le_val(s: Seq<u8>, off: int, n: nat) -> nat
    decreases n,
{
    if n == 0 {
        0
    } else {
        s[off] as nat + 256 * le_val(s, off + 1, (n - 1) as nat)
    }
}

/// The `n` little-endian bytes of `v` (higher bytes of `v` dropped).
pub open spec fn le_seq(v: nat, n: nat) -> Seq<u8>
    decreases n,
{
    if n == 0 {
        Seq::empty()
    } else {
        seq![(v % 256) as u8] + le_seq(v / 256, (n - 1) as nat)
    }
}

/// `s` with `part` written over it from `off` on.
pub open spec fn splice(s: Seq<u8>, off: int, part: Seq<u8>) -> Seq<u8> {
    s.subrange(0, off) + part + s.subrange(off + part.len(), s.len() as int)
}

pub proof fn lemma_le_val_bound(s: Seq<u8>, off: int, n: nat)
    ensures
        le_val(s, off, n) < pow256(n),
    decreases n,
{
    if n > 0 {
        lemma_le_val_bound(s, off + 1, (n - 1) as nat);
    }
}

pub proof fn lemma_pow256_8()
    ensures
        pow256(2) == 0x1_0000,
        pow256(4) == 0x1_0000_0000,
        pow256(7) == 0x100_0000_0000_0000,
        pow256(8) == 0x1_0000_0000_0000_0000,
{
    reveal_with_fuel(pow256, 9);
}

pub proof fn lemma_le_seq_len(v: nat, n: nat)
    ensures
        le_seq(v, n).len() == n,
    decreases n,
{
    if n > 0 {
        lemma_le_seq_len(v / 256, (n - 1) as nat);
    }
}

/// Bytes that agree on a window hold the same integer there.
pub proof fn lemma_le_val_same(s: Seq<u8>, t: Seq<u8>, so: int, to: int, n: nat)
    requires
        forall|k: int| 0 <= k < n ==> #[trigger] s[so + k] == t[to + k],
    ensures
        le_val(s, so, n) == le_val(t, to, n),
    decreases n,
{
    if n > 0 {
        assert(s[so + 0] == t[to + 0]);
        assert forall|k: int| 0 <= k < n - 1 implies #[trigger] s[so + 1 + k] == t[to + 1 + k] by {
            assert(s[so + (k + 1)] == t[to + (k + 1)]);
        }
        lemma_le_val_same(s, t, so + 1, to + 1, (n - 1) as nat);
    }
}

/// The unsigned little-endian integer of `n <= 8` bytes at `off`.
pub fn read_le(s: &[u8], off: usize, n: usize) -> (r: u64)
    requires
        n <= 8,
        off + n <= s@.len(),
    ensures
        r == le_val(s@, off as int, n as nat),
{
    let mut r: u64 = 0;
    let mut k: usize = n;
    let len = s.len();
    proof {
        lemma_pow256_8();
    }
    while k > 0
        invariant
            k <= n <= 8,
            off + n <= s@.len(),
            len == s@.len(),
            r == le_val(s@, off + k, (n - k) as nat),
            pow256(7) == 0x100_0000_0000_0000,
            pow256(8) == 0x1_0000_0000_0000_0000,
        decreases k,
    {
        k = k - 1;
        proof {
            lemma_le_val_bound(s@, off + k + 1, (n - k - 1) as nat);
            lemma_pow_mono((n - k - 1) as nat, 7);
        }
        r = (s[off + k] as u64) + 256 * r;
    }
    r
}

proof fn lemma_pow_mono(a: nat, b: nat)
    requires
        a <= b,
    ensures
        pow256(a) <= pow256(b),
    decreases b,
{
    if a < b {
        lemma_pow_mono(a, (b - 1) as nat);
    }
}

/// Write the eight little-endian bytes of `v` at `off`.
pub fn write_le64(s: &mut Vec<u8>, off: usize, v: u64)
    requires
        off + 8 <= old(s)@.len(),
    ensures
        final(s)@ == splice(old(s)@, off as int, le_seq(v as nat, 8)),
{
    let ghost s0 = s@;
    let len = s.len();
    let mut x: u64 = v;
    let mut k: usize = 0;
    proof {
        lemma_le_seq_len(v as nat, 8);
    }
    while k < 8
        invariant
            k <= 8,
            off + 8 <= s0.len(),
            len == s0.len(),
            s@.len() == s0.len(),
            le_seq(v as nat, 8) == le_seq(v as nat, k as nat).add(le_seq(x as nat, (8 - k) as nat)),
            forall|j: int| 0 <= j < off ==> s@[j] == s0[j],
            forall|j: int| off + 8 <= j < s0.len() ==> s@[j] == s0[j],
            forall|j: int| 0 <= j < k ==> #[trigger] s@[off + j] == le_seq(v as nat, 8)[j],
        decreases 8 - k,
    {
        proof {
            lemma_le_seq_len(v as nat, k as nat);
            lemma_le_seq_len(x as nat, (8 - k) as nat);
            lemma_le_seq_split(v as nat, k as nat, x as nat);
        }
        s.set(off + k, (x % 256) as u8);
        x = x / 256;
        k = k + 1;
    }
    proof {
        lemma_le_seq_len(v as nat, 8);
        assert forall|j: int| off <= j < off + 8 implies s@[j] == le_seq(v as nat, 8)[j - off] by {
            assert(s@[off + (j - off)] == le_seq(v as nat, 8)[j - off]);
        }
        assert(s@ =~= splice(s0, off as int, le_seq(v as nat, 8)));
    }
}

/// One more byte of a split encoding.
proof fn lemma_le_seq_split(v: nat, k: nat, x: nat)
    requires
        k < 8,
        le_seq(v, 8) == le_seq(v, k).add(le_seq(x, (8 - k) as nat)),
    ensures
        le_seq(v, 8)[k as int] == (x % 256) as u8,
        le_seq(v, 8) == le_seq(v, (k + 1) as nat).add(le_seq(x / 256, (8 - k - 1) as nat)),
    decreases k,
{
    lemma_le_seq_len(v, k);
    assert(le_seq(x, (8 - k) as nat) == seq![(x % 256) as u8] + le_seq(x / 256, (8 - k - 1) as nat));
    lemma_le_seq_snoc(v, k, x);
    assert(le_seq(v, 8) =~= le_seq(v, (k + 1) as nat).add(le_seq(x / 256, (8 - k - 1) as nat)));
}

/// Appending the next byte of the remainder extends the prefix encoding.
proof fn lemma_le_seq_snoc(v: nat, k: nat, x: nat)
    requires
        k < 8,
        le_seq(v, 8) == le_seq(v, k).add(le_seq(x, (8 - k) as nat)),
    ensures
        le_seq(v, (k + 1) as nat) == le_seq(v, k).push((x % 256) as u8),
{
    lemma_le_seq_len(v, 8);
    lemma_le_seq_len(v, k);
    lemma_le_seq_prefix(v, k + 1, 8);
    lemma_le_seq_prefix(v, k, 8);
    assert(le_seq(v, (k + 1) as nat) =~= le_seq(v, k).push((x % 256) as u8)) by {
        lemma_le_seq_len(v, (k + 1) as nat);
        assert forall|j: int| 0 <= j < k + 1 implies #[trigger] le_seq(v, (k + 1) as nat)[j] == le_seq(v, k).push((x % 256) as u8)[j] by {
            assert(le_seq(v, (k + 1) as nat)[j] == le_seq(v, 8)[j]);
            if j < k {
                assert(le_seq(v, k)[j] == le_seq(v, 8)[j]);
            } else {
                assert(le_seq(v, 8)[j] == le_seq(x, (8 - k) as nat)[0]);
            }
        }
    }
}

/// Encodings of different lengths agree on their common prefix.
proof fn lemma_le_seq_prefix(v: nat, a: nat, b: nat)
    requires
        a <= b,
    ensures
        forall|j: int| 0 <= j < a ==> #[trigger] le_seq(v, a)[j] == le_seq(v, b)[j],
    decreases a,
{
    if a > 0 {
        lemma_le_seq_prefix(v / 256, (a - 1) as nat, (b - 1) as nat);
        lemma_le_seq_len(v / 256, (a - 1) as nat);
        lemma_le_seq_len(v / 256, (b - 1) as nat);
        assert forall|j: int| 0 <= j < a implies #[trigger] le_seq(v, a)[j] == le_seq(v, b)[j] by {
            if j > 0 {
                assert(le_seq(v, a)[j] == le_seq(v / 256, (a - 1) as nat)[j - 1]);
                assert(le_seq(v, b)[j] == le_seq(v / 256, (b - 1) as nat)[j - 1]);
            }
        }
    }
}

} // verus!
