//! Fixed-width little-endian numbers.
use vstd::prelude::*;

verus! {

/// `256` to the power `n`: one more than the largest value of `n` bytes.
pub open spec fn pow256(n: nat) -> nat
    decreases n,
{
    if n == 0 {
        1
    } else {
        256 * pow256((n - 1) as nat)
    }
}

/// The number that the bytes `s` spell, least significant byte first.
pub open spec fn le_value(s: Seq<u8>) -> nat
    decreases s.len(),
{
    if s.len() == 0 {
        0
    } else {
        s[0] as nat + 256 * le_value(s.drop_first())
    }
}

/// The `n` bytes that spell `v`, least significant first.
pub open spec fn le_bytes(v: nat, n: nat) -> Seq<u8>
    decreases n,
{
    if n == 0 {
        Seq::empty()
    } else {
        seq![(v % 256) as u8] + le_bytes(v / 256, (n - 1) as nat)
    }
}

pub proof fn lemma_pow256_values()
    ensures
        pow256(1) == 0x100,
        pow256(2) == 0x1_0000,
        pow256(4) == 0x1_0000_0000,
        pow256(8) == 0x1_0000_0000_0000_0000,
{
    reveal_with_fuel(pow256, 9);
}

pub proof fn lemma_pow256_mono(a: nat, b: nat)
    requires
        a <= b,
    ensures
        pow256(a) <= pow256(b),
    decreases b,
{
    if a < b {
        lemma_pow256_mono(a, (b - 1) as nat);
    }
}

pub proof fn lemma_le_value_bound(s: Seq<u8>)
    ensures
        le_value(s) < pow256(s.len()),
    decreases s.len(),
{
    if s.len() > 0 {
        lemma_le_value_bound(s.drop_first());
    }
}

/// Spelling a number that fits in `n` bytes and reading it back gives it again.
pub proof fn lemma_le_round_trip(v: nat, n: nat)
    requires
        v < pow256(n),
    ensures
        le_bytes(v, n).len() == n,
        le_value(le_bytes(v, n)) == v,
    decreases n,
{
    if n > 0 {
        assert(v / 256 < pow256((n - 1) as nat)) by (nonlinear_arith)
            requires v < 256 * pow256((n - 1) as nat);
        lemma_le_round_trip(v / 256, (n - 1) as nat);
        let b = le_bytes(v, n);
        assert(b.drop_first() =~= le_bytes(v / 256, (n - 1) as nat));
    }
}

/// Reading bytes and spelling the number again gives the same bytes.
pub proof fn lemma_le_bytes_of_value(s: Seq<u8>)
    ensures
        le_bytes(le_value(s), s.len()) == s,
    decreases s.len(),
{
    if s.len() > 0 {
        lemma_le_bytes_of_value(s.drop_first());
        let v = le_value(s);
        assert(v % 256 == s[0] as nat && v / 256 == le_value(s.drop_first())) by (nonlinear_arith)
            requires v == s[0] as nat + 256 * le_value(s.drop_first()), s[0] < 256;
        assert(le_bytes(v, s.len()) =~= s);
    }
}

/// Reads up to eight bytes as a little-endian number.
pub fn read_le(b: &[u8]) -> (r: u64)
    requires
        b@.len() <= 8,
    ensures
        r as nat == le_value(b@),
{
    let len = b.len();
    let mut out: u64 = 0;
    let mut i: usize = len;
    while i > 0
        invariant
            i <= len,
            len == b@.len() <= 8,
            out as nat == le_value(b@.subrange(i as int, len as int)),
        decreases i,
    {
        i -= 1;
        let ghost tail = b@.subrange(i + 1, len as int);
        proof {
            assert(b@.subrange(i as int, len as int).drop_first() =~= tail);
            lemma_le_value_bound(tail);
            lemma_pow256_mono(tail.len(), 7);
            lemma_pow256_values();
            reveal_with_fuel(pow256, 8);
        }
        out = out * 256 + b[i] as u64;
    }
    proof {
        assert(b@.subrange(0, len as int) =~= b@);
    }
    out
}

/// Appends the `n` low bytes of `v`, least significant first.
pub fn write_le(out: &mut Vec<u8>, v: u64, n: usize)
    requires
        n <= 8,
        (v as nat) < pow256(n as nat),
    ensures
        final(out)@ == old(out)@ + le_bytes(v as nat, n as nat),
{
    let mut x: u64 = v;
    let mut i: usize = 0;
    while i < n
        invariant
            i <= n,
            out@ + le_bytes(x as nat, (n - i) as nat) == old(out)@ + le_bytes(v as nat, n as nat),
        decreases n - i,
    {
        let ghost before = out@;
        let ghost rest = le_bytes(x as nat, (n - i) as nat);
        out.push((x % 256) as u8);
        proof {
            assert(rest == seq![(x % 256) as u8] + le_bytes((x / 256) as nat, (n - i - 1) as nat));
            assert(out@ + le_bytes((x / 256) as nat, (n - i - 1) as nat) =~= before + rest);
        }
        x = x / 256;
        i += 1;
    }
    proof {
        assert(le_bytes(x as nat, 0) =~= Seq::<u8>::empty());
        assert(out@ + Seq::<u8>::empty() =~= out@);
    }
}

} // verus!
