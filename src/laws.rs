//! Properties that relate encoding and decoding.
use vstd::prelude::*;
use vstd::utf8::{encode_utf8, encode_utf8_decode_utf8, encode_utf8_valid_utf8};
use crate::error::Error;
use crate::fixed::{le_bytes, le_value, lemma_le_round_trip, lemma_pow256_values};
use crate::value::{all_have_shape, decode, decode_list, encode, encode_list, fixed_field, has_shape, prefixed_field, Shape, Val};
use crate::varint::{lemma_varint_round_trip, lemma_varint_form, varint_bytes, varint_decode, varint_scan, VARINT_MAX_LEN};

verus! {

proof fn lemma_fixed_field(x: nat, n: nat, rest: Seq<u8>)
    requires
        x < crate::fixed::pow256(n),
    ensures
        le_bytes(x, n).len() == n,
        fixed_field(le_bytes(x, n) + rest, n) == Ok::<(nat, nat), Error>((x, n)),
{
    lemma_le_round_trip(x, n);
    assert((le_bytes(x, n) + rest).take(n as int) =~= le_bytes(x, n));
}

proof fn lemma_prefixed_field(b: Seq<u8>, rest: Seq<u8>)
    requires
        b.len() < 0x1_0000_0000_0000_0000,
    ensures
        prefixed_field(varint_bytes(b.len()) + b + rest) == Ok::<(Seq<u8>, nat), Error>(
            (b, varint_bytes(b.len()).len() + b.len()),
        ),
{
    let len = b.len() as u64;
    lemma_varint_round_trip(len, b + rest);
    let s = varint_bytes(b.len()) + b + rest;
    assert(s =~= varint_bytes(len as nat) + (b + rest));
    let k = varint_bytes(b.len()).len();
    assert(s.subrange(k as int, (k + b.len()) as int) =~= b);
}

proof fn lemma_round_trip_leaf(v: Val, sh: Shape, rest: Seq<u8>)
    requires
        has_shape(v, sh),
        !(v is Absent || v is Present || v is Unit || v is Sequence || v is Pair || v is Variant),
    ensures
        decode(sh, encode(v) + rest) == Ok::<(Val, nat), Error>((v, encode(v).len())),
{
    lemma_pow256_values();
    let e = encode(v);
    let s = e + rest;
    match v {
        Val::Bool(b) => {
            assert(s[0] == (if b { 1u8 } else { 0u8 }));
        }
        Val::U8(x) => {
            lemma_fixed_field(x as nat, 1, rest);
            reveal_with_fuel(le_bytes, 2);
            assert(e =~= le_bytes(x as nat, 1));
        }
        Val::U16(x) => {
            lemma_fixed_field(x as nat, 2, rest);
        }
        Val::U32(x) => {
            lemma_fixed_field(x as nat, 4, rest);
        }
        Val::U64(x) => {
            lemma_fixed_field(x as nat, 8, rest);
        }
        Val::I8(x) => {
            lemma_fixed_field(x as u8 as nat, 1, rest);
            reveal_with_fuel(le_bytes, 2);
            assert(e =~= le_bytes(x as u8 as nat, 1));
            assert((x as u8) as i8 == x) by (bit_vector);
        }
        Val::I16(x) => {
            lemma_fixed_field(x as u16 as nat, 2, rest);
            assert((x as u16) as i16 == x) by (bit_vector);
        }
        Val::I32(x) => {
            lemma_fixed_field(x as u32 as nat, 4, rest);
            assert((x as u32) as i32 == x) by (bit_vector);
        }
        Val::I64(x) => {
            lemma_fixed_field(x as u64 as nat, 8, rest);
            assert((x as u64) as i64 == x) by (bit_vector);
        }
        Val::F32(x) => {
            lemma_fixed_field(x as nat, 4, rest);
        }
        Val::F64(x) => {
            lemma_fixed_field(x as nat, 8, rest);
        }
        Val::Char(c) => {
            lemma_fixed_field(c as nat, 4, rest);
        }
        Val::Str(chars) => {
            let b = encode_utf8(chars);
            lemma_prefixed_field(b, rest);
            encode_utf8_valid_utf8(chars);
            encode_utf8_decode_utf8(chars);
        }
        Val::Bytes(b) => {
            lemma_prefixed_field(b, rest);
        }
        _ => {}
    }
}

/// Decoding the encoding of a value of the right shape, followed by any bytes,
/// gives the value back and takes exactly its encoding: the rest is left.
#[verifier::rlimit(60)]
pub proof fn lemma_round_trip(v: Val, sh: Shape, rest: Seq<u8>)
    requires
        has_shape(v, sh),
    ensures
        decode(sh, encode(v) + rest) == Ok::<(Val, nat), Error>((v, encode(v).len())),
    decreases v,
{
    lemma_pow256_values();
    let e = encode(v);
    let s = e + rest;
    match v {
        Val::Bool(_) | Val::U8(_) | Val::U16(_) | Val::U32(_) | Val::U64(_) | Val::I8(_)
        | Val::I16(_) | Val::I32(_) | Val::I64(_) | Val::F32(_) | Val::F64(_) | Val::Char(_)
        | Val::Str(_) | Val::Bytes(_) => {
            lemma_round_trip_leaf(v, sh, rest);
        }
        Val::Absent => {
            assert(s[0] == 0u8);
        }
        Val::Present(x) => {
            if let Shape::Option(inner) = sh {
                lemma_round_trip(*x, *inner, rest);
                assert(s.skip(1) =~= encode(*x) + rest);
            }
        }
        Val::Unit => {
            assert(s =~= rest);
        }
        Val::Sequence(vs) => {
            if let Shape::Sequence(elem) = sh {
                let count = vs.len() as u64;
                let body = encode_list(vs);
                lemma_varint_round_trip(count, body + rest);
                assert(s =~= varint_bytes(count as nat) + (body + rest));
                let k = varint_bytes(count as nat).len();
                assert(s.skip(k as int) =~= body + rest);
                lemma_round_trip_list(vs, *elem, rest);
            }
        }
        Val::Pair(a, b) => {
            if let Shape::Pair(sa, sb) = sh {
                let ea = encode(*a);
                let eb = encode(*b);
                assert(s =~= ea + (eb + rest));
                lemma_round_trip(*a, *sa, eb + rest);
                assert(s.skip(ea.len() as int) =~= eb + rest);
                lemma_round_trip(*b, *sb, rest);
            }
        }
        Val::Variant(k, x) => {
            if let Shape::Enum(vars) = sh {
                let ex = encode(*x);
                lemma_varint_round_trip(k as u64, ex + rest);
                assert(s =~= varint_bytes(k as u64 as nat) + (ex + rest));
                let n = varint_bytes(k as nat).len();
                assert(s.skip(n as int) =~= ex + rest);
                lemma_round_trip(*x, vars@[k as int], rest);
            }
        }
    }
}

/// Decoding as many values as were encoded one after another gives them back.
pub proof fn lemma_round_trip_list(vs: Seq<Val>, elem: Shape, rest: Seq<u8>)
    requires
        all_have_shape(vs, elem),
    ensures
        decode_list(elem, vs.len(), encode_list(vs) + rest) == Ok::<(Seq<Val>, nat), Error>(
            (vs, encode_list(vs).len()),
        ),
    decreases vs,
{
    if vs.len() > 0 {
        let e0 = encode(vs[0]);
        let tail = vs.drop_first();
        let et = encode_list(tail);
        assert(encode_list(vs) + rest =~= e0 + (et + rest));
        lemma_round_trip(vs[0], elem, et + rest);
        assert((encode_list(vs) + rest).skip(e0.len() as int) =~= et + rest);
        lemma_round_trip_list(tail, elem, rest);
        assert(seq![vs[0]] + tail =~= vs);
        assert((vs.len() - 1) as nat == tail.len());
    } else {
        assert(vs =~= Seq::<Val>::empty());
        assert(encode_list(vs) + rest =~= rest);
    }
}

/// A strict prefix of a varint, read from byte `i` on, runs out of input.
proof fn lemma_varint_prefix(b: Seq<u8>, j: nat, i: nat)
    requires
        b.len() <= VARINT_MAX_LEN,
        j < b.len(),
        i <= j,
        forall|t: int| 0 <= t < b.len() - 1 ==> b[t] >= 128,
    ensures
        varint_scan(b.take(j as int), i) == Err::<nat, Error>(Error::DeserializeUnexpectedEnd),
    decreases j - i,
{
    if i < j {
        lemma_varint_prefix(b, j, i + 1);
    }
}

proof fn lemma_varint_truncated(v: nat, j: nat)
    requires
        v < 0x1_0000_0000_0000_0000,
        j < varint_bytes(v).len(),
    ensures
        varint_decode(varint_bytes(v).take(j as int)) == Err::<(u64, nat), Error>(
            Error::DeserializeUnexpectedEnd,
        ),
{
    lemma_varint_round_trip(v as u64, Seq::empty());
    lemma_varint_form(v);
    lemma_varint_prefix(varint_bytes(v), j, 0);
}

/// Either a prefix of `head + tail` ends inside `head`, or it holds all of
/// `head` and a prefix of `tail`.
proof fn lemma_take_concat(head: Seq<u8>, tail: Seq<u8>, j: int)
    requires
        0 <= j <= head.len() + tail.len(),
    ensures
        j <= head.len() ==> (head + tail).take(j) == head.take(j),
        j >= head.len() ==> (head + tail).take(j) == head + tail.take(j - head.len()),
{
    if j <= head.len() {
        assert((head + tail).take(j) =~= head.take(j));
    } else {
        assert((head + tail).take(j) =~= head + tail.take(j - head.len()));
    }
}

/// A varint length and a prefix of the bytes it counts, cut short anywhere,
/// run out of input.
proof fn lemma_prefixed_truncated(b: Seq<u8>, j: nat)
    requires
        b.len() < 0x1_0000_0000_0000_0000,
        j < varint_bytes(b.len()).len() + b.len(),
    ensures
        prefixed_field((varint_bytes(b.len()) + b).take(j as int)) == Err::<(Seq<u8>, nat), Error>(
            Error::DeserializeUnexpectedEnd,
        ),
{
    let vb = varint_bytes(b.len());
    lemma_take_concat(vb, b, j as int);
    if j < vb.len() {
        lemma_varint_truncated(b.len(), j);
    } else {
        let p = vb + b.take(j - vb.len());
        lemma_varint_round_trip(b.len() as u64, b.take(j - vb.len()));
    }
}

/// Decoding any strict prefix of the encoding of a value of the right shape
/// fails with `DeserializeUnexpectedEnd`.
#[verifier::rlimit(60)]
pub proof fn lemma_truncation(v: Val, sh: Shape, j: nat)
    requires
        has_shape(v, sh),
        j < encode(v).len(),
    ensures
        decode(sh, encode(v).take(j as int)) == Err::<(Val, nat), Error>(Error::DeserializeUnexpectedEnd),
    decreases v,
{
    lemma_pow256_values();
    let e = encode(v);
    let p = e.take(j as int);
    match v {
        Val::U16(x) => {
            lemma_le_round_trip(x as nat, 2);
        }
        Val::U32(x) => {
            lemma_le_round_trip(x as nat, 4);
        }
        Val::U64(x) => {
            lemma_le_round_trip(x as nat, 8);
        }
        Val::I16(x) => {
            lemma_le_round_trip(x as u16 as nat, 2);
        }
        Val::I32(x) => {
            lemma_le_round_trip(x as u32 as nat, 4);
        }
        Val::I64(x) => {
            lemma_le_round_trip(x as u64 as nat, 8);
        }
        Val::F32(x) => {
            lemma_le_round_trip(x as nat, 4);
        }
        Val::F64(x) => {
            lemma_le_round_trip(x as nat, 8);
        }
        Val::Char(c) => {
            lemma_le_round_trip(c as nat, 4);
        }
        Val::Str(chars) => {
            lemma_prefixed_truncated(encode_utf8(chars), j);
        }
        Val::Bytes(b) => {
            lemma_prefixed_truncated(b, j);
        }
        Val::Present(x) => {
            if let Shape::Option(inner) = sh {
                if j > 0 {
                    lemma_take_concat(seq![1u8], encode(*x), j as int);
                    assert(p.skip(1) =~= encode(*x).take(j - 1));
                    lemma_truncation(*x, *inner, (j - 1) as nat);
                }
            }
        }
        Val::Sequence(vs) => {
            if let Shape::Sequence(elem) = sh {
                let vb = varint_bytes(vs.len());
                let body = encode_list(vs);
                lemma_take_concat(vb, body, j as int);
                if j < vb.len() {
                    lemma_varint_truncated(vs.len(), j);
                } else {
                    let m = (j - vb.len()) as nat;
                    lemma_varint_round_trip(vs.len() as u64, body.take(m as int));
                    assert(p.skip(vb.len() as int) =~= body.take(m as int));
                    lemma_truncation_list(vs, *elem, m);
                }
            }
        }
        Val::Pair(a, b) => {
            if let Shape::Pair(sa, sb) = sh {
                let ea = encode(*a);
                let eb = encode(*b);
                lemma_take_concat(ea, eb, j as int);
                if j < ea.len() {
                    lemma_truncation(*a, *sa, j);
                } else {
                    let m = (j - ea.len()) as nat;
                    lemma_round_trip(*a, *sa, eb.take(m as int));
                    assert(p.skip(ea.len() as int) =~= eb.take(m as int));
                    lemma_truncation(*b, *sb, m);
                }
            }
        }
        Val::Variant(k, x) => {
            if let Shape::Enum(vars) = sh {
                let vb = varint_bytes(k as nat);
                let ex = encode(*x);
                lemma_take_concat(vb, ex, j as int);
                if j < vb.len() {
                    lemma_varint_truncated(k as nat, j);
                } else {
                    let m = (j - vb.len()) as nat;
                    lemma_varint_round_trip(k as u64, ex.take(m as int));
                    assert(p.skip(vb.len() as int) =~= ex.take(m as int));
                    lemma_truncation(*x, vars@[k as int], m);
                }
            }
        }
        _ => {}
    }
}

/// Decoding as many values as were encoded, from a strict prefix of their
/// encodings, fails with `DeserializeUnexpectedEnd`.
pub proof fn lemma_truncation_list(vs: Seq<Val>, elem: Shape, j: nat)
    requires
        all_have_shape(vs, elem),
        j < encode_list(vs).len(),
    ensures
        decode_list(elem, vs.len(), encode_list(vs).take(j as int)) == Err::<(Seq<Val>, nat), Error>(
            Error::DeserializeUnexpectedEnd,
        ),
    decreases vs,
{
    let e0 = encode(vs[0]);
    let tail = vs.drop_first();
    let et = encode_list(tail);
    let p = encode_list(vs).take(j as int);
    lemma_take_concat(e0, et, j as int);
    if j < e0.len() {
        lemma_truncation(vs[0], elem, j);
    } else {
        let m = (j - e0.len()) as nat;
        lemma_round_trip(vs[0], elem, et.take(m as int));
        assert(p.skip(e0.len() as int) =~= et.take(m as int));
        lemma_truncation_list(tail, elem, m);
        assert((vs.len() - 1) as nat == tail.len());
    }
}

/// Every fixed-width number is written as exactly its width in bytes, least
/// significant first, whatever its value.
pub proof fn lemma_fixed_width(v: Val)
    ensures
        v is U16 ==> encode(v).len() == 2 && le_value(encode(v)) == v->U16_0,
        v is U32 ==> encode(v).len() == 4 && le_value(encode(v)) == v->U32_0,
        v is U64 ==> encode(v).len() == 8 && le_value(encode(v)) == v->U64_0,
        v is I16 ==> encode(v).len() == 2 && le_value(encode(v)) == v->I16_0 as u16,
        v is I32 ==> encode(v).len() == 4 && le_value(encode(v)) == v->I32_0 as u32,
        v is I64 ==> encode(v).len() == 8 && le_value(encode(v)) == v->I64_0 as u64,
        v is U8 ==> encode(v) == seq![v->U8_0],
        v is I8 ==> encode(v) == seq![v->I8_0 as u8],
{
    lemma_pow256_values();
    match v {
        Val::U16(x) => lemma_le_round_trip(x as nat, 2),
        Val::U32(x) => lemma_le_round_trip(x as nat, 4),
        Val::U64(x) => lemma_le_round_trip(x as nat, 8),
        Val::I16(x) => lemma_le_round_trip(x as u16 as nat, 2),
        Val::I32(x) => lemma_le_round_trip(x as u32 as nat, 4),
        Val::I64(x) => lemma_le_round_trip(x as u64 as nat, 8),
        _ => {}
    }
}

/// Decoding from an encoding followed by other bytes leaves exactly those
/// other bytes unread.
pub proof fn lemma_remainder(v: Val, sh: Shape, rest: Seq<u8>)
    requires
        has_shape(v, sh),
    ensures
        decode(sh, encode(v) + rest) matches Ok((w, n)) && w == v && (encode(v) + rest).skip(n as int)
            == rest,
{
    lemma_round_trip(v, sh, rest);
    assert((encode(v) + rest).skip(encode(v).len() as int) =~= rest);
}

} // verus!
