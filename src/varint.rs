//! Variable-length unsigned integers: seven bits per byte, least significant
//! group first, the high bit set on every byte but the last.
use vstd::prelude::*;
use vstd::arithmetic::div_mod::lemma_fundamental_div_mod_converse;
use crate::error::Error;

verus! {

/// The most bytes a varint of a 64-bit value may take.
pub const VARINT_MAX_LEN: usize = 10;

/// `128` to the power `n`.
pub open spec fn pow128(n: nat) -> nat
    decreases n,
{
    if n == 0 {
        1
    } else {
        128 * pow128((n - 1) as nat)
    }
}

/// The number that the seven-bit groups of `s` spell, least significant first.
pub open spec fn varint_value(s: Seq<u8>) -> nat
    decreases s.len(),
{
    if s.len() == 0 {
        0
    } else {
        (s[0] % 128) as nat + 128 * varint_value(s.drop_first())
    }
}

/// Where the varint that starts `s` ends, scanning from byte `i` on: the length
/// of the varint, or why there is none.
pub open spec fn varint_scan(s: Seq<u8>, i: nat) -> Result<nat, Error>
    decreases VARINT_MAX_LEN - i,
{
    if i >= VARINT_MAX_LEN {
        Err(Error::DeserializeBadVarint)
    } else if i >= s.len() {
        Err(Error::DeserializeUnexpectedEnd)
    } else if s[i as int] < 128 {
        Ok(i + 1)
    } else {
        varint_scan(s, i + 1)
    }
}

/// The varint at the start of `s`: its value, kept to 64 bits, and its length.
pub open spec fn varint_decode(s: Seq<u8>) -> Result<(u64, nat), Error> {
    match varint_scan(s, 0) {
        Ok(n) => Ok(((varint_value(s.take(n as int)) % 0x1_0000_0000_0000_0000) as u64, n)),
        Err(e) => Err(e),
    }
}

/// A varint found by the scan lies within the input and within the widest
/// length a varint may have.
pub proof fn lemma_varint_scan_len(s: Seq<u8>, i: nat)
    ensures
        varint_scan(s, i) matches Ok(n) ==> i < n <= s.len() && n <= VARINT_MAX_LEN,
    decreases VARINT_MAX_LEN - i,
{
    if i < VARINT_MAX_LEN && i < s.len() && s[i as int] >= 128 {
        lemma_varint_scan_len(s, i + 1);
    }
}

/// The shortest varint of `v`.
pub open spec fn varint_bytes(v: nat) -> Seq<u8>
    decreases v,
{
    if v < 128 {
        seq![v as u8]
    } else {
        seq![(v % 128 + 128) as u8] + varint_bytes(v / 128)
    }
}

/// Appends the varint of `v`.
pub fn write_varint(out: &mut Vec<u8>, v: u64)
    ensures
        final(out)@ == old(out)@ + varint_bytes(v as nat),
{
    let mut x: u64 = v;
    while x >= 128
        invariant
            out@ + varint_bytes(x as nat) == old(out)@ + varint_bytes(v as nat),
        decreases x,
    {
        let ghost before = out@;
        out.push((x % 128 + 128) as u8);
        proof {
            assert(out@ + varint_bytes((x / 128) as nat) =~= before + varint_bytes(x as nat));
        }
        x = x / 128;
    }
    out.push(x as u8);
}

proof fn lemma_varint_shape(v: nat, k: nat)
    requires
        v < pow128(k),
        k >= 1,
    ensures
        1 <= varint_bytes(v).len() <= k,
        varint_bytes(v)[varint_bytes(v).len() - 1] < 128,
        forall|j: int| 0 <= j < varint_bytes(v).len() - 1 ==> varint_bytes(v)[j] >= 128,
        varint_value(varint_bytes(v)) == v,
    decreases v,
{
    let b = varint_bytes(v);
    if v >= 128 {
        assert(k >= 2) by {
            if k == 1 {
                reveal_with_fuel(pow128, 2);
            }
        }
        assert(v / 128 < pow128((k - 1) as nat)) by (nonlinear_arith)
            requires v < 128 * pow128((k - 1) as nat);
        lemma_varint_shape(v / 128, (k - 1) as nat);
        assert(b.drop_first() =~= varint_bytes(v / 128));
        assert(v == v % 128 + 128 * (v / 128)) by (nonlinear_arith);
        assert(b[0] % 128 == v % 128);
        assert(varint_value(b) == (b[0] % 128) as nat + 128 * varint_value(b.drop_first()));
    } else {
        assert(b.drop_first() =~= Seq::<u8>::empty());
        assert(varint_value(b.drop_first()) == 0);
        assert(b[0] == v);
        assert(varint_value(b) == (b[0] % 128) as nat + 128 * varint_value(b.drop_first()));
    }
}

proof fn lemma_varint_scan_at(s: Seq<u8>, i: nat, b: Seq<u8>)
    requires
        i + b.len() <= VARINT_MAX_LEN,
        i + b.len() <= s.len(),
        b.len() >= 1,
        s.subrange(i as int, (i + b.len()) as int) == b,
        b[b.len() - 1] < 128,
        forall|j: int| 0 <= j < b.len() - 1 ==> b[j] >= 128,
    ensures
        varint_scan(s, i) == Ok::<nat, Error>(i + b.len()),
    decreases b.len(),
{
    assert(s[i as int] == b[0]);
    if b.len() > 1 {
        let b2 = b.drop_first();
        assert(s.subrange((i + 1) as int, (i + 1 + b2.len()) as int) =~= b2);
        lemma_varint_scan_at(s, i + 1, b2);
    }
}

/// A 64-bit value written as a varint and read back from the front of any
/// longer input gives the value, and the length of what was written.
pub proof fn lemma_varint_round_trip(v: u64, rest: Seq<u8>)
    ensures
        varint_bytes(v as nat).len() <= VARINT_MAX_LEN,
        varint_decode(varint_bytes(v as nat) + rest) == Ok::<(u64, nat), Error>(
            (v, varint_bytes(v as nat).len()),
        ),
{
    reveal_with_fuel(pow128, 11);
    let b = varint_bytes(v as nat);
    lemma_varint_shape(v as nat, 10);
    let s = b + rest;
    assert(s.subrange(0, b.len() as int) =~= b);
    lemma_varint_scan_at(s, 0, b);
    assert(s.take(b.len() as int) =~= b);
}

/// A value below 128 is written as the one byte that equals it.
pub proof fn lemma_varint_small(v: nat)
    requires
        v < 128,
    ensures
        varint_bytes(v) == seq![v as u8],
{
}

/// The varint of a 64-bit value: at most the widest length, every byte but
/// the last with its high bit set.
pub proof fn lemma_varint_form(v: nat)
    requires
        v < 0x1_0000_0000_0000_0000,
    ensures
        1 <= varint_bytes(v).len() <= VARINT_MAX_LEN,
        varint_bytes(v)[varint_bytes(v).len() - 1] < 128,
        forall|j: int| 0 <= j < varint_bytes(v).len() - 1 ==> varint_bytes(v)[j] >= 128,
{
    reveal_with_fuel(pow128, 11);
    lemma_varint_shape(v, 10);
}

/// One step of reading a varint back to front within 64 bits: the value so far,
/// kept to 64 bits, shifted up by one group and joined with the group `g`.
pub proof fn lemma_varint_step(acc: nat, g: nat)
    requires
        g < 128,
    ensures
        ((acc % 0x1_0000_0000_0000_0000) % 0x200_0000_0000_0000) * 128 + g
            == (g + 128 * acc) % 0x1_0000_0000_0000_0000,
        ((acc % 0x1_0000_0000_0000_0000) % 0x200_0000_0000_0000) * 128 + g
            < 0x1_0000_0000_0000_0000,
{
    let m = 0x1_0000_0000_0000_0000int;
    let p = 0x200_0000_0000_0000int;
    let a = acc as int;
    let q1 = a / m;
    let r1 = a % m;
    let q2 = r1 / p;
    let r2 = r1 % p;
    assert(a == q1 * m + r1 && 0 <= r1 < m) by {
        vstd::arithmetic::div_mod::lemma_fundamental_div_mod(a, m);
    }
    assert(r1 == q2 * p + r2 && 0 <= r2 < p) by {
        vstd::arithmetic::div_mod::lemma_fundamental_div_mod(r1, p);
    }
    assert(g + 128 * a == (q1 * 128 + q2) * m + (r2 * 128 + g)) by (nonlinear_arith)
        requires
            a == q1 * m + r1,
            r1 == q2 * p + r2,
            m == 0x1_0000_0000_0000_0000int,
            p == 0x200_0000_0000_0000int,
    ;
    lemma_fundamental_div_mod_converse(g + 128 * a, m, q1 * 128 + q2, r2 * 128 + g);
}

} // verus!
