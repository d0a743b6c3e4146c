//! The encoder: appends the wire form of a value to a byte vector.
use vstd::prelude::*;
use crate::fixed::{lemma_pow256_values, write_le};
use crate::value::{encode, encode_list, view_list, view_value, Val, Value};
use crate::varint::write_varint;

verus! {

/// Appends the bytes of `b`.
pub fn append_bytes(out: &mut Vec<u8>, b: &[u8])
    ensures
        final(out)@ == old(out)@ + b@,
{
    let mut i: usize = 0;
    while i < b.len()
        invariant
            i <= b@.len(),
            out@ == old(out)@ + b@.take(i as int),
        decreases b@.len() - i,
    {
        proof {
            assert(b@.take(i + 1) =~= b@.take(i as int).push(b@[i as int]));
        }
        out.push(b[i]);
        i += 1;
    }
    proof {
        assert(b@.take(i as int) =~= b@);
    }
}

/// The views of a vector of values, element by element.
pub proof fn lemma_view_list(vs: Seq<Value>)
    ensures
        view_list(vs).len() == vs.len(),
        forall|i: int| 0 <= i < vs.len() ==> #[trigger] view_list(vs)[i] == view_value(vs[i]),
    decreases vs.len(),
{
    if vs.len() > 0 {
        lemma_view_list(vs.drop_last());
    }
}

/// Encoding one more value at the end of a list appends its encoding.
pub proof fn lemma_encode_list_push(vs: Seq<Val>, x: Val)
    ensures
        encode_list(vs.push(x)) == encode_list(vs) + encode(x),
    decreases vs.len(),
{
    if vs.len() == 0 {
        assert(vs.push(x).drop_first() =~= Seq::<Val>::empty());
        assert(encode_list(Seq::<Val>::empty()) == Seq::<u8>::empty());
        assert(encode_list(vs.push(x)) =~= encode_list(vs) + encode(x));
    } else {
        lemma_encode_list_push(vs.drop_first(), x);
        assert(vs.push(x).drop_first() =~= vs.drop_first().push(x));
        assert(encode_list(vs.push(x)) =~= encode_list(vs) + encode(x));
    }
}

/// Appends the encoding of `v`.
pub fn encode_into(v: &Value, out: &mut Vec<u8>)
    ensures
        final(out)@ == old(out)@ + encode(v@),
    decreases v,
{
    proof {
        lemma_pow256_values();
    }
    match v {
        Value::Bool(b) => {
            out.push(if *b { 1u8 } else { 0u8 });
        },
        Value::U8(x) => {
            out.push(*x);
        },
        Value::U16(x) => write_le(out, *x as u64, 2),
        Value::U32(x) => write_le(out, *x as u64, 4),
        Value::U64(x) => write_le(out, *x, 8),
        Value::I8(x) => {
            out.push(*x as u8);
        },
        Value::I16(x) => write_le(out, *x as u16 as u64, 2),
        Value::I32(x) => write_le(out, *x as u32 as u64, 4),
        Value::I64(x) => write_le(out, *x as u64, 8),
        Value::F32(x) => write_le(out, *x as u64, 4),
        Value::F64(x) => write_le(out, *x, 8),
        Value::Char(c) => write_le(out, *c as u64, 4),
        Value::Str(s) => {
            let b = s.as_str().as_bytes();
            write_varint(out, b.len() as u64);
            append_bytes(out, b);
            proof {
                assert(out@ =~= old(out)@ + encode(v@));
            }
        },
        Value::Bytes(b) => {
            write_varint(out, b.len() as u64);
            append_bytes(out, b.as_slice());
            proof {
                assert(out@ =~= old(out)@ + encode(v@));
            }
        },
        Value::Absent => {
            out.push(0u8);
        },
        Value::Present(x) => {
            out.push(1u8);
            encode_into(x, out);
            proof {
                assert(out@ =~= old(out)@ + encode(v@));
            }
        },
        Value::Unit => {
            assert(out@ =~= old(out)@ + encode(v@));
        },
        Value::Sequence(vs) => {
            write_varint(out, vs.len() as u64);
            let ghost start = out@;
            proof {
                lemma_view_list(vs@);
                assert(view_list(vs@).take(0) =~= Seq::<Val>::empty());
                assert(start =~= start + encode_list(Seq::<Val>::empty()));
            }
            let mut i: usize = 0;
            while i < vs.len()
                invariant
                    i <= vs@.len(),
                    view_list(vs@).len() == vs@.len(),
                    forall|j: int| 0 <= j < vs@.len() ==> #[trigger] view_list(vs@)[j] == view_value(vs@[j]),
                    out@ == start + encode_list(view_list(vs@).take(i as int)),
                    decreases_to!(*v => *vs),
                decreases vs@.len() - i,
            {
                assert(decreases_to!(*vs => vs[i as int]));
                encode_into(&vs[i], out);
                proof {
                    let t = view_list(vs@).take(i as int);
                    lemma_encode_list_push(t, view_value(vs@[i as int]));
                    assert(view_list(vs@).take(i + 1) =~= t.push(view_value(vs@[i as int])));
                }
                i += 1;
            }
            proof {
                assert(view_list(vs@).take(i as int) =~= view_list(vs@));
                assert(out@ =~= old(out)@ + encode(v@));
            }
        },
        Value::Pair(a, b) => {
            encode_into(a, out);
            encode_into(b, out);
            proof {
                assert(out@ =~= old(out)@ + encode(v@));
            }
        },
        Value::Variant(k, x) => {
            write_varint(out, *k as u64);
            encode_into(x, out);
            proof {
                assert(out@ =~= old(out)@ + encode(v@));
            }
        },
    }
}

/// The encoding of `v`, in a new vector.
pub fn to_vec(v: &Value) -> (r: Vec<u8>)
    ensures
        r@ == encode(v@),
{
    let mut out: Vec<u8> = Vec::new();
    encode_into(v, &mut out);
    proof {
        assert(out@ =~= encode(v@));
    }
    out
}

} // verus!
