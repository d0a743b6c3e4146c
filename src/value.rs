//! The value model: the shapes a decoder can be asked for, the values that
//! fill them, and the wire encoding of each, stated as spec functions.
use vstd::prelude::*;
use vstd::utf8::{decode_utf8, encode_utf8, is_scalar, valid_utf8};
use crate::error::Error;
use crate::fixed::{le_bytes, le_value};
use crate::varint::{lemma_varint_scan_len, varint_bytes, varint_decode};

verus! {

/// The static shape that a decoder is told to expect. A tuple or a struct is a
/// chain of pairs in field order; an enum lists the payload shape of each
/// variant by ordinal (a unit variant has the payload `Unit`).
#[derive(Debug)]
pub enum Shape {
    Bool,
    U8,
    U16,
    U32,
    U64,
    I8,
    I16,
    I32,
    I64,
    /// A 32-bit float, carried as its bit pattern.
    F32,
    /// A 64-bit float, carried as its bit pattern.
    F64,
    Char,
    Str,
    Bytes,
    Option(Box<Shape>),
    Unit,
    /// A sequence of any length whose elements all have the inner shape.
    Sequence(Box<Shape>),
    Pair(Box<Shape>, Box<Shape>),
    Enum(Vec<Shape>),
    /// Maps have no encoding in this format.
    KeyValue,
    /// A self-describing read, which this format cannot serve.
    Any,
}

/// The mathematical content of a value.
pub enum Val {
    Bool(bool),
    U8(u8),
    U16(u16),
    U32(u32),
    U64(u64),
    I8(i8),
    I16(i16),
    I32(i32),
    I64(i64),
    F32(u32),
    F64(u64),
    /// A char, by its scalar value.
    Char(u32),
    Str(Seq<char>),
    Bytes(Seq<u8>),
    Absent,
    Present(Box<Val>),
    Unit,
    Sequence(Seq<Val>),
    Pair(Box<Val>, Box<Val>),
    Variant(u32, Box<Val>),
}

/// A value held by the program; its view is a `Val`.
#[derive(Debug, PartialEq)]
pub enum Value {
    Bool(bool),
    U8(u8),
    U16(u16),
    U32(u32),
    U64(u64),
    I8(i8),
    I16(i16),
    I32(i32),
    I64(i64),
    F32(u32),
    F64(u64),
    /// A char, by its scalar value.
    Char(u32),
    Str(String),
    Bytes(Vec<u8>),
    Absent,
    Present(Box<Value>),
    Unit,
    Sequence(Vec<Value>),
    Pair(Box<Value>, Box<Value>),
    Variant(u32, Box<Value>),
}

pub open spec fn view_list(vs: Seq<Value>) -> Seq<Val>
    decreases vs,
{
    if vs.len() == 0 {
        Seq::empty()
    } else {
        view_list(vs.drop_last()).push(view_value(vs.last()))
    }
}

pub open spec fn view_value(v: Value) -> Val
    decreases v,
{
    match v {
        Value::Bool(b) => Val::Bool(b),
        Value::U8(x) => Val::U8(x),
        Value::U16(x) => Val::U16(x),
        Value::U32(x) => Val::U32(x),
        Value::U64(x) => Val::U64(x),
        Value::I8(x) => Val::I8(x),
        Value::I16(x) => Val::I16(x),
        Value::I32(x) => Val::I32(x),
        Value::I64(x) => Val::I64(x),
        Value::F32(x) => Val::F32(x),
        Value::F64(x) => Val::F64(x),
        Value::Char(c) => Val::Char(c),
        Value::Str(s) => Val::Str(s@),
        Value::Bytes(b) => Val::Bytes(b@),
        Value::Absent => Val::Absent,
        Value::Present(x) => Val::Present(Box::new(view_value(*x))),
        Value::Unit => Val::Unit,
        Value::Sequence(vs) => Val::Sequence(view_list(vs@)),
        Value::Pair(a, b) => Val::Pair(Box::new(view_value(*a)), Box::new(view_value(*b))),
        Value::Variant(k, x) => Val::Variant(k, Box::new(view_value(*x))),
    }
}

impl View for Value {
    type V = Val;

    open spec fn view(&self) -> Val {
        view_value(*self)
    }
}

/// The bytes that encode `v`: fixed-width numbers little-endian, lengths,
/// counts and ordinals as varints, composites as the concatenation of parts.
pub open spec fn encode(v: Val) -> Seq<u8>
    decreases v,
{
    match v {
        Val::Bool(b) => seq![if b { 1u8 } else { 0u8 }],
        Val::U8(x) => seq![x],
        Val::U16(x) => le_bytes(x as nat, 2),
        Val::U32(x) => le_bytes(x as nat, 4),
        Val::U64(x) => le_bytes(x as nat, 8),
        Val::I8(x) => seq![x as u8],
        Val::I16(x) => le_bytes(x as u16 as nat, 2),
        Val::I32(x) => le_bytes(x as u32 as nat, 4),
        Val::I64(x) => le_bytes(x as u64 as nat, 8),
        Val::F32(x) => le_bytes(x as nat, 4),
        Val::F64(x) => le_bytes(x as nat, 8),
        Val::Char(c) => le_bytes(c as nat, 4),
        Val::Str(s) => varint_bytes(encode_utf8(s).len()) + encode_utf8(s),
        Val::Bytes(b) => varint_bytes(b.len()) + b,
        Val::Absent => seq![0u8],
        Val::Present(x) => seq![1u8] + encode(*x),
        Val::Unit => Seq::empty(),
        Val::Sequence(vs) => varint_bytes(vs.len()) + encode_list(vs),
        Val::Pair(a, b) => encode(*a) + encode(*b),
        Val::Variant(k, x) => varint_bytes(k as nat) + encode(*x),
    }
}

/// The encodings of `vs`, one after another.
pub open spec fn encode_list(vs: Seq<Val>) -> Seq<u8>
    decreases vs,
{
    if vs.len() == 0 {
        Seq::empty()
    } else {
        encode(vs[0]) + encode_list(vs.drop_first())
    }
}

/// Whether `v` fills the shape `sh`, with every length small enough for a
/// 64-bit varint.
pub open spec fn has_shape(v: Val, sh: Shape) -> bool
    decreases v,
{
    match (v, sh) {
        (Val::Bool(_), Shape::Bool) => true,
        (Val::U8(_), Shape::U8) => true,
        (Val::U16(_), Shape::U16) => true,
        (Val::U32(_), Shape::U32) => true,
        (Val::U64(_), Shape::U64) => true,
        (Val::I8(_), Shape::I8) => true,
        (Val::I16(_), Shape::I16) => true,
        (Val::I32(_), Shape::I32) => true,
        (Val::I64(_), Shape::I64) => true,
        (Val::F32(_), Shape::F32) => true,
        (Val::F64(_), Shape::F64) => true,
        (Val::Char(c), Shape::Char) => is_scalar(c),
        (Val::Str(s), Shape::Str) => encode_utf8(s).len() < 0x1_0000_0000_0000_0000,
        (Val::Bytes(b), Shape::Bytes) => b.len() < 0x1_0000_0000_0000_0000,
        (Val::Absent, Shape::Option(_)) => true,
        (Val::Present(x), Shape::Option(inner)) => has_shape(*x, *inner),
        (Val::Unit, Shape::Unit) => true,
        (Val::Sequence(vs), Shape::Sequence(elem)) => vs.len() < 0x1_0000_0000_0000_0000
            && all_have_shape(vs, *elem),
        (Val::Pair(a, b), Shape::Pair(sa, sb)) => has_shape(*a, *sa) && has_shape(*b, *sb),
        (Val::Variant(k, x), Shape::Enum(vars)) => k < vars@.len() && has_shape(*x, vars@[k as int]),
        _ => false,
    }
}

/// Whether every element of `vs` fills the shape `elem`.
pub open spec fn all_have_shape(vs: Seq<Val>, elem: Shape) -> bool
    decreases vs,
{
    if vs.len() == 0 {
        true
    } else {
        has_shape(vs[0], elem) && all_have_shape(vs.drop_first(), elem)
    }
}

/// A fixed-width field of `n` bytes at the front of `s`.
pub open spec fn fixed_field(s: Seq<u8>, n: nat) -> Result<(nat, nat), Error> {
    if s.len() < n {
        Err(Error::DeserializeUnexpectedEnd)
    } else {
        Ok((le_value(s.take(n as int)), n))
    }
}

/// A varint length followed by that many bytes, at the front of `s`.
pub open spec fn prefixed_field(s: Seq<u8>) -> Result<(Seq<u8>, nat), Error> {
    match varint_decode(s) {
        Err(e) => Err(e),
        Ok((len, k)) => if s.len() - k < len {
            Err(Error::DeserializeUnexpectedEnd)
        } else {
            Ok((s.subrange(k as int, k + len), (k + len) as nat))
        },
    }
}

/// What decoding the shape `sh` from the front of `s` gives: the value and the
/// number of bytes it took, or the error.
pub open spec fn decode(sh: Shape, s: Seq<u8>) -> Result<(Val, nat), Error>
    decreases sh, 0nat,
{
    match sh {
        Shape::Bool => if s.len() < 1 {
            Err(Error::DeserializeUnexpectedEnd)
        } else if s[0] == 0 {
            Ok((Val::Bool(false), 1))
        } else if s[0] == 1 {
            Ok((Val::Bool(true), 1))
        } else {
            Err(Error::DeserializeBadBool)
        },
        Shape::U8 => match fixed_field(s, 1) {
            Ok((x, n)) => Ok((Val::U8(x as u8), n)),
            Err(e) => Err(e),
        },
        Shape::U16 => match fixed_field(s, 2) {
            Ok((x, n)) => Ok((Val::U16(x as u16), n)),
            Err(e) => Err(e),
        },
        Shape::U32 => match fixed_field(s, 4) {
            Ok((x, n)) => Ok((Val::U32(x as u32), n)),
            Err(e) => Err(e),
        },
        Shape::U64 => match fixed_field(s, 8) {
            Ok((x, n)) => Ok((Val::U64(x as u64), n)),
            Err(e) => Err(e),
        },
        Shape::I8 => match fixed_field(s, 1) {
            Ok((x, n)) => Ok((Val::I8(x as u8 as i8), n)),
            Err(e) => Err(e),
        },
        Shape::I16 => match fixed_field(s, 2) {
            Ok((x, n)) => Ok((Val::I16(x as u16 as i16), n)),
            Err(e) => Err(e),
        },
        Shape::I32 => match fixed_field(s, 4) {
            Ok((x, n)) => Ok((Val::I32(x as u32 as i32), n)),
            Err(e) => Err(e),
        },
        Shape::I64 => match fixed_field(s, 8) {
            Ok((x, n)) => Ok((Val::I64(x as u64 as i64), n)),
            Err(e) => Err(e),
        },
        Shape::F32 => match fixed_field(s, 4) {
            Ok((x, n)) => Ok((Val::F32(x as u32), n)),
            Err(e) => Err(e),
        },
        Shape::F64 => match fixed_field(s, 8) {
            Ok((x, n)) => Ok((Val::F64(x as u64), n)),
            Err(e) => Err(e),
        },
        Shape::Char => match fixed_field(s, 4) {
            Ok((x, n)) => if is_scalar(x as u32) {
                Ok((Val::Char(x as u32), n))
            } else {
                Err(Error::DeserializeBadChar)
            },
            Err(e) => Err(e),
        },
        Shape::Str => match prefixed_field(s) {
            Ok((b, n)) => if valid_utf8(b) {
                Ok((Val::Str(decode_utf8(b)), n))
            } else {
                Err(Error::DeserializeBadUtf8)
            },
            Err(e) => Err(e),
        },
        Shape::Bytes => match prefixed_field(s) {
            Ok((b, n)) => Ok((Val::Bytes(b), n)),
            Err(e) => Err(e),
        },
        Shape::Option(inner) => if s.len() < 1 {
            Err(Error::DeserializeUnexpectedEnd)
        } else if s[0] == 0 {
            Ok((Val::Absent, 1))
        } else if s[0] == 1 {
            match decode(*inner, s.skip(1)) {
                Ok((x, n)) => Ok((Val::Present(Box::new(x)), n + 1)),
                Err(e) => Err(e),
            }
        } else {
            Err(Error::DeserializeBadOption)
        },
        Shape::Unit => Ok((Val::Unit, 0)),
        Shape::Sequence(elem) => match varint_decode(s) {
            Ok((count, k)) => match decode_list(*elem, count as nat, s.skip(k as int)) {
                Ok((vs, n)) => Ok((Val::Sequence(vs), k + n)),
                Err(e) => Err(e),
            },
            Err(e) => Err(e),
        },
        Shape::Pair(sa, sb) => match decode(*sa, s) {
            Ok((a, na)) => match decode(*sb, s.skip(na as int)) {
                Ok((b, nb)) => Ok((Val::Pair(Box::new(a), Box::new(b)), na + nb)),
                Err(e) => Err(e),
            },
            Err(e) => Err(e),
        },
        Shape::Enum(vars) => match varint_decode(s) {
            Ok((k, n)) => if k > 0xFFFF_FFFF || k >= vars@.len() {
                Err(Error::DeserializeBadEnum)
            } else {
                match decode(vars@[k as int], s.skip(n as int)) {
                    Ok((x, m)) => Ok((Val::Variant(k as u32, Box::new(x)), n + m)),
                    Err(e) => Err(e),
                }
            },
            Err(e) => Err(e),
        },
        Shape::KeyValue => Err(Error::NotYetImplemented),
        Shape::Any => Err(Error::WontImplement),
    }
}

/// What decoding `count` values of the shape `elem`, one after another, from
/// the front of `s` gives.
pub open spec fn decode_list(elem: Shape, count: nat, s: Seq<u8>) -> Result<(Seq<Val>, nat), Error>
    decreases elem, count,
{
    if count == 0 {
        Ok((Seq::empty(), 0))
    } else {
        match decode(elem, s) {
            Ok((v, n)) => match decode_list(elem, (count - 1) as nat, s.skip(n as int)) {
                Ok((vs, m)) => Ok((seq![v] + vs, n + m)),
                Err(e) => Err(e),
            },
            Err(e) => Err(e),
        }
    }
}

/// A successful decode takes no more bytes than there are.
pub proof fn lemma_decode_len(sh: Shape, s: Seq<u8>)
    ensures
        decode(sh, s) matches Ok((_, n)) ==> n <= s.len(),
    decreases sh, 0nat,
{
    lemma_varint_scan_len(s, 0);
    match sh {
        Shape::Option(inner) => {
            if s.len() >= 1 {
                lemma_decode_len(*inner, s.skip(1));
            }
        }
        Shape::Sequence(elem) => {
            if let Ok((count, k)) = varint_decode(s) {
                lemma_decode_list_len(*elem, count as nat, s.skip(k as int));
            }
        }
        Shape::Pair(sa, sb) => {
            lemma_decode_len(*sa, s);
            if let Ok((_, na)) = decode(*sa, s) {
                lemma_decode_len(*sb, s.skip(na as int));
            }
        }
        Shape::Enum(vars) => {
            if let Ok((k, n)) = varint_decode(s) {
                if k < vars@.len() {
                    lemma_decode_len(vars@[k as int], s.skip(n as int));
                }
            }
        }
        _ => {}
    }
}

/// A successful list decode takes no more bytes than there are.
pub proof fn lemma_decode_list_len(elem: Shape, count: nat, s: Seq<u8>)
    ensures
        decode_list(elem, count, s) matches Ok((_, n)) ==> n <= s.len(),
    decreases elem, count,
{
    if count > 0 {
        lemma_decode_len(elem, s);
        if let Ok((_, n)) = decode(elem, s) {
            lemma_decode_list_len(elem, (count - 1) as nat, s.skip(n as int));
        }
    }
}

} // verus!
