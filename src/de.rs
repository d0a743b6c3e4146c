//! The decoder: a cursor over borrowed input that only moves forward.
use vstd::prelude::*;
use vstd::slice::{slice_subrange, slice_to_vec};
use vstd::string::StringSliceAdditionalSpecFns;
use vstd::utf8::{encode_utf8_decode_utf8, is_scalar, valid_utf8};
use crate::error::Error;
use crate::fixed::{le_value, lemma_le_value_bound, lemma_pow256_values, read_le};
use crate::value::{decode, decode_list, lemma_decode_len, view_list, Shape, Val, Value};
use crate::varint::{lemma_varint_scan_len, lemma_varint_step, varint_decode, varint_scan, varint_value, VARINT_MAX_LEN};

verus! {

/// Relies on `core::str::from_utf8`: it accepts exactly the byte strings that
/// are UTF-8, and then returns the same bytes viewed as a string.
#[verifier::external_body]
fn str_from_utf8<'a>(b: &'a [u8]) -> (r: Option<&'a str>)
    ensures
        r is Some <==> valid_utf8(b@),
        r matches Some(s) ==> s.spec_bytes() == b@,
{
    core::str::from_utf8(b).ok()
}

/// Relies on `char::from_u32`: it returns the char with that scalar value, or
/// nothing where the number is not a Unicode scalar value.
#[verifier::external_body]
fn char_from_u32(u: u32) -> (r: Option<char>)
    ensures
        r is Some <==> is_scalar(u),
        r matches Some(c) ==> c as u32 == u,
{
    char::from_u32(u)
}

/// Whether a read of the shape `sh` from `before`, which left `after` and gave
/// `r`, did what `decode` says: on success the value and the bytes it took.
#[verifier::opaque]
pub open spec fn took(sh: Shape, before: Seq<u8>, after: Seq<u8>, r: Result<Val, Error>) -> bool {
    match decode(sh, before) {
        Ok((v, n)) => r == Ok::<Val, Error>(v) && after == before.skip(n as int),
        Err(e) => r == Err::<Val, Error>(e),
    }
}

/// A decoder over a borrowed input. Each read takes bytes off the front.
pub struct Deserializer<'de> {
    input: &'de [u8],
}

impl<'de> View for Deserializer<'de> {
    type V = Seq<u8>;

    /// The bytes not read yet.
    closed spec fn view(&self) -> Seq<u8> {
        self.input@
    }
}

impl<'de> Deserializer<'de> {
    /// A decoder that starts at the front of `input`.
    pub fn from_bytes(input: &'de [u8]) -> (r: Self)
        ensures
            r@ == input@,
    {
        Deserializer { input }
    }

    /// The bytes not read yet, borrowed from the input.
    pub fn remaining(&self) -> (r: &'de [u8])
        ensures
            r@ == self@,
    {
        self.input
    }

    /// Takes the next `ct` bytes, or fails with `DeserializeUnexpectedEnd`
    /// (taking nothing) if fewer remain.
    pub fn try_take_n(&mut self, ct: usize) -> (r: Result<&'de [u8], Error>)
        ensures
            ct <= old(self)@.len() ==> (r matches Ok(b) && b@ == old(self)@.take(ct as int)
                && final(self)@ == old(self)@.skip(ct as int)),
            ct > old(self)@.len() ==> r == Err::<&'de [u8], Error>(Error::DeserializeUnexpectedEnd)
                && final(self)@ == old(self)@,
    {
        let len = self.input.len();
        if len >= ct {
            let a = slice_subrange(self.input, 0, ct);
            self.input = slice_subrange(self.input, ct, len);
            proof {
                assert(a@ =~= old(self)@.take(ct as int));
                assert(self@ =~= old(self)@.skip(ct as int));
            }
            Ok(a)
        } else {
            Err(Error::DeserializeUnexpectedEnd)
        }
    }

    /// Takes a varint: its value kept to 64 bits, as `varint_decode` says. On
    /// failure nothing is taken.
    pub fn try_take_varint(&mut self) -> (r: Result<u64, Error>)
        ensures
            match varint_decode(old(self)@) {
                Ok((v, n)) => r == Ok::<u64, Error>(v) && final(self)@ == old(self)@.skip(n as int),
                Err(e) => r == Err::<u64, Error>(e) && final(self)@ == old(self)@,
            },
    {
        let ghost s = self@;
        let len = self.input.len();
        let mut i: usize = 0;
        while i < VARINT_MAX_LEN
            invariant
                i <= VARINT_MAX_LEN,
                s == self@,
                s == old(self)@,
                len == s.len(),
                varint_scan(s, 0) == varint_scan(s, i as nat),
            decreases VARINT_MAX_LEN - i,
        {
            if i >= len {
                assert(varint_scan(s, i as nat) == Err::<nat, Error>(Error::DeserializeUnexpectedEnd));
                assert(varint_decode(s) == Err::<(u64, nat), Error>(Error::DeserializeUnexpectedEnd));
                return Err(Error::DeserializeUnexpectedEnd);
            }
            let val = self.input[i];
            assert(val & 0x80 == 0 <==> val < 128) by (bit_vector);
            if val & 0x80 == 0 {
                assert(varint_scan(s, i as nat) == Ok::<nat, Error>((i + 1) as nat));
                let a = slice_subrange(self.input, 0, i + 1);
                let mut out: u64 = 0;
                let mut j: usize = i + 1;
                assert(a@.subrange(j as int, a@.len() as int) =~= Seq::<u8>::empty());
                assert(varint_value(Seq::<u8>::empty()) == 0);
                while j > 0
                    invariant
                        j <= i + 1,
                        a@.len() == i + 1,
                        out as nat == varint_value(a@.subrange(j as int, a@.len() as int))
                            % 0x1_0000_0000_0000_0000,
                    decreases j,
                {
                    j -= 1;
                    let byte = a[j];
                    let g = byte & 0x7F;
                    assert(byte & 0x7F == byte % 128) by (bit_vector);
                    let ghost tail = a@.subrange(j + 1, a@.len() as int);
                    proof {
                        assert(a@.subrange(j as int, a@.len() as int).drop_first() =~= tail);
                        lemma_varint_step(varint_value(tail), g as nat);
                    }
                    out = (out % 0x200_0000_0000_0000) * 128 + g as u64;
                }
                self.input = slice_subrange(self.input, i + 1, len);
                proof {
                    assert(a@.subrange(0, a@.len() as int) =~= s.take(i + 1));
                    assert(self@ =~= s.skip(i + 1));
                    assert(varint_decode(s) == Ok::<(u64, nat), Error>((out, (i + 1) as nat)));
                }
                return Ok(out);
            }
            assert(varint_scan(s, i as nat) == varint_scan(s, (i + 1) as nat));
            i += 1;
        }
        assert(varint_scan(s, i as nat) == Err::<nat, Error>(Error::DeserializeBadVarint));
        Err(Error::DeserializeBadVarint)
    }

    /// Takes a bool: one byte, 0 or 1.
    pub fn take_bool(&mut self) -> (r: Result<bool, Error>)
        ensures
            took(Shape::Bool, old(self)@, final(self)@, match r { Ok(b) => Ok(Val::Bool(b)), Err(e) => Err(e) }),
    {
        proof {
            reveal(took);
        }
        let b = match self.try_take_n(1) {
            Ok(b) => b,
            Err(e) => return Err(e),
        };
        if b[0] == 0 {
            Ok(false)
        } else if b[0] == 1 {
            Ok(true)
        } else {
            Err(Error::DeserializeBadBool)
        }
    }

    /// Takes `n` bytes as a little-endian number.
    fn take_fixed(&mut self, n: usize) -> (r: Result<u64, Error>)
        requires
            n <= 8,
        ensures
            n <= old(self)@.len() ==> (r matches Ok(x) && x as nat == le_value(old(self)@.take(n as int))
                && final(self)@ == old(self)@.skip(n as int)),
            n > old(self)@.len() ==> r == Err::<u64, Error>(Error::DeserializeUnexpectedEnd),
    {
        match self.try_take_n(n) {
            Ok(b) => Ok(read_le(b)),
            Err(e) => Err(e),
        }
    }

    /// Takes a `u8`: one byte.
    pub fn take_u8(&mut self) -> (r: Result<u8, Error>)
        ensures
            took(Shape::U8, old(self)@, final(self)@, match r { Ok(x) => Ok(Val::U8(x)), Err(e) => Err(e) }),
    {
        proof {
            reveal(took);
        }
        match self.take_fixed(1) {
            Ok(x) => Ok(x as u8),
            Err(e) => Err(e),
        }
    }

    /// Takes a `u16`: two bytes, little-endian.
    pub fn take_u16(&mut self) -> (r: Result<u16, Error>)
        ensures
            took(Shape::U16, old(self)@, final(self)@, match r { Ok(x) => Ok(Val::U16(x)), Err(e) => Err(e) }),
    {
        proof {
            reveal(took);
        }
        match self.take_fixed(2) {
            Ok(x) => Ok(x as u16),
            Err(e) => Err(e),
        }
    }

    /// Takes a `u32`: four bytes, little-endian.
    pub fn take_u32(&mut self) -> (r: Result<u32, Error>)
        ensures
            took(Shape::U32, old(self)@, final(self)@, match r { Ok(x) => Ok(Val::U32(x)), Err(e) => Err(e) }),
    {
        proof {
            reveal(took);
        }
        match self.take_fixed(4) {
            Ok(x) => Ok(x as u32),
            Err(e) => Err(e),
        }
    }

    /// Takes a `u64`: eight bytes, little-endian.
    pub fn take_u64(&mut self) -> (r: Result<u64, Error>)
        ensures
            took(Shape::U64, old(self)@, final(self)@, match r { Ok(x) => Ok(Val::U64(x)), Err(e) => Err(e) }),
    {
        proof {
            reveal(took);
        }
        self.take_fixed(8)
    }

    /// Takes an `i8`: one byte, two's complement.
    pub fn take_i8(&mut self) -> (r: Result<i8, Error>)
        ensures
            took(Shape::I8, old(self)@, final(self)@, match r { Ok(x) => Ok(Val::I8(x)), Err(e) => Err(e) }),
    {
        proof {
            reveal(took);
        }
        match self.take_fixed(1) {
            Ok(x) => Ok(x as u8 as i8),
            Err(e) => Err(e),
        }
    }

    /// Takes an `i16`: two bytes, little-endian two's complement.
    pub fn take_i16(&mut self) -> (r: Result<i16, Error>)
        ensures
            took(Shape::I16, old(self)@, final(self)@, match r { Ok(x) => Ok(Val::I16(x)), Err(e) => Err(e) }),
    {
        proof {
            reveal(took);
        }
        match self.take_fixed(2) {
            Ok(x) => Ok(x as u16 as i16),
            Err(e) => Err(e),
        }
    }

    /// Takes an `i32`: four bytes, little-endian two's complement.
    pub fn take_i32(&mut self) -> (r: Result<i32, Error>)
        ensures
            took(Shape::I32, old(self)@, final(self)@, match r { Ok(x) => Ok(Val::I32(x)), Err(e) => Err(e) }),
    {
        proof {
            reveal(took);
        }
        match self.take_fixed(4) {
            Ok(x) => Ok(x as u32 as i32),
            Err(e) => Err(e),
        }
    }

    /// Takes an `i64`: eight bytes, little-endian two's complement.
    pub fn take_i64(&mut self) -> (r: Result<i64, Error>)
        ensures
            took(Shape::I64, old(self)@, final(self)@, match r { Ok(x) => Ok(Val::I64(x)), Err(e) => Err(e) }),
    {
        proof {
            reveal(took);
        }
        match self.take_fixed(8) {
            Ok(x) => Ok(x as i64),
            Err(e) => Err(e),
        }
    }

    /// Takes the bit pattern of an `f32`: four bytes, little-endian.
    pub fn take_f32_bits(&mut self) -> (r: Result<u32, Error>)
        ensures
            took(Shape::F32, old(self)@, final(self)@, match r { Ok(x) => Ok(Val::F32(x)), Err(e) => Err(e) }),
    {
        proof {
            reveal(took);
        }
        match self.take_fixed(4) {
            Ok(x) => Ok(x as u32),
            Err(e) => Err(e),
        }
    }

    /// Takes the bit pattern of an `f64`: eight bytes, little-endian.
    pub fn take_f64_bits(&mut self) -> (r: Result<u64, Error>)
        ensures
            took(Shape::F64, old(self)@, final(self)@, match r { Ok(x) => Ok(Val::F64(x)), Err(e) => Err(e) }),
    {
        proof {
            reveal(took);
        }
        self.take_fixed(8)
    }

    /// Takes a `char`: four bytes, little-endian, that must be a Unicode scalar value.
    pub fn take_char(&mut self) -> (r: Result<char, Error>)
        ensures
            took(Shape::Char, old(self)@, final(self)@, match r { Ok(c) => Ok(Val::Char(c as u32)), Err(e) => Err(e) }),
    {
        proof {
            reveal(took);
        }
        match self.take_fixed(4) {
            Ok(x) => {
                proof {
                    lemma_le_value_bound(old(self)@.take(4));
                    lemma_pow256_values();
                }
                match char_from_u32(x as u32) {
                    Some(c) => Ok(c),
                    None => Err(Error::DeserializeBadChar),
                }
            }
            Err(e) => Err(e),
        }
    }

    /// Takes a varint length and then that many bytes, borrowed from the input.
    fn take_prefixed(&mut self) -> (r: Result<&'de [u8], Error>)
        ensures
            match crate::value::prefixed_field(old(self)@) {
                Ok((b, n)) => r matches Ok(x) && x@ == b && final(self)@ == old(self)@.skip(n as int),
                Err(e) => r == Err::<&'de [u8], Error>(e),
            },
    {
        let sz = match self.try_take_varint() {
            Ok(sz) => sz,
            Err(e) => return Err(e),
        };
        let ghost mid = self@;
        if sz > self.input.len() as u64 {
            return Err(Error::DeserializeUnexpectedEnd);
        }
        let r = self.try_take_n(sz as usize);
        proof {
            let k = varint_decode(old(self)@)->Ok_0.1;
            lemma_varint_scan_len(old(self)@, 0);
            assert(mid == old(self)@.skip(k as int));
            assert(mid.take(sz as int) =~= old(self)@.subrange(k as int, k + sz));
            assert(self@ =~= old(self)@.skip(k + sz));
        }
        r
    }

    /// Takes a string: a varint byte length, then UTF-8 bytes. The result
    /// borrows from the input.
    pub fn take_str(&mut self) -> (r: Result<&'de str, Error>)
        ensures
            took(Shape::Str, old(self)@, final(self)@, match r { Ok(s) => Ok(Val::Str(s@)), Err(e) => Err(e) }),
    {
        proof {
            reveal(took);
        }
        let b = match self.take_prefixed() {
            Ok(b) => b,
            Err(e) => return Err(e),
        };
        match str_from_utf8(b) {
            Some(s) => {
                proof {
                    encode_utf8_decode_utf8(s@);
                }
                Ok(s)
            }
            None => Err(Error::DeserializeBadUtf8),
        }
    }

    /// Takes a byte buffer: a varint length, then that many bytes, borrowed
    /// from the input.
    pub fn take_bytes(&mut self) -> (r: Result<&'de [u8], Error>)
        ensures
            took(Shape::Bytes, old(self)@, final(self)@, match r { Ok(b) => Ok(Val::Bytes(b@)), Err(e) => Err(e) }),
    {
        proof {
            reveal(took);
        }
        self.take_prefixed()
    }

    /// Takes the tag byte of an option: 0 for absent, 1 for present.
    pub fn take_option_tag(&mut self) -> (r: Result<bool, Error>)
        ensures
            old(self)@.len() == 0 ==> r == Err::<bool, Error>(Error::DeserializeUnexpectedEnd),
            old(self)@.len() > 0 ==> {
                &&& old(self)@[0] == 0 ==> r == Ok::<bool, Error>(false)
                &&& old(self)@[0] == 1 ==> r == Ok::<bool, Error>(true)
                &&& old(self)@[0] > 1 ==> r == Err::<bool, Error>(Error::DeserializeBadOption)
                &&& r is Ok ==> final(self)@ == old(self)@.skip(1)
            },
    {
        let b = match self.try_take_n(1) {
            Ok(b) => b,
            Err(e) => return Err(e),
        };
        if b[0] == 0 {
            Ok(false)
        } else if b[0] == 1 {
            Ok(true)
        } else {
            Err(Error::DeserializeBadOption)
        }
    }

    /// Takes an enum ordinal: a varint that must fit in 32 bits.
    pub fn take_variant_index(&mut self) -> (r: Result<u32, Error>)
        ensures
            match varint_decode(old(self)@) {
                Ok((k, n)) => if k > 0xFFFF_FFFF {
                    r == Err::<u32, Error>(Error::DeserializeBadEnum)
                } else {
                    r == Ok::<u32, Error>(k as u32) && final(self)@ == old(self)@.skip(n as int)
                },
                Err(e) => r == Err::<u32, Error>(e),
            },
    {
        match self.try_take_varint() {
            Ok(k) => if k > 0xFFFF_FFFF {
                Err(Error::DeserializeBadEnum)
            } else {
                Ok(k as u32)
            },
            Err(e) => Err(e),
        }
    }
    /// Decodes one value of the shape `sh`, as `decode` says, and takes the
    /// bytes it used.
    pub fn decode_value(&mut self, sh: &Shape) -> (r: Result<Value, Error>)
        ensures
            took(*sh, old(self)@, final(self)@, match r { Ok(v) => Ok(v@), Err(e) => Err(e) }),
        decreases sh, 1nat,
    {
        match sh {
            Shape::Option(_) => self.decode_option(sh),
            Shape::Unit => {
                assert(took(*sh, old(self)@, self@, Ok(Val::Unit))) by {
                    reveal(took);
                    assert(self@ =~= old(self)@.skip(0));
                }
                Ok(Value::Unit)
            },
            Shape::Sequence(_) => self.decode_sequence(sh),
            Shape::Pair(_, _) => self.decode_pair(sh),
            Shape::Enum(_) => self.decode_variant(sh),
            Shape::KeyValue => {
                assert(took(*sh, old(self)@, self@, Err(Error::NotYetImplemented))) by {
                    reveal(took);
                }
                Err(Error::NotYetImplemented)
            },
            Shape::Any => {
                assert(took(*sh, old(self)@, self@, Err(Error::WontImplement))) by {
                    reveal(took);
                }
                Err(Error::WontImplement)
            },
            _ => self.decode_leaf(sh),
        }
    }
    /// Decodes a value of a shape with no inner shape.
    fn decode_leaf(&mut self, sh: &Shape) -> (r: Result<Value, Error>)
        requires
            sh is Bool || sh is Char || sh is Str || sh is Bytes || sh is U8 || sh is U16 || sh is U32 || sh is U64 || sh is I8 || sh is I16 || sh is I32 || sh is I64 || sh is F32 || sh is F64,
        ensures
            took(*sh, old(self)@, final(self)@, match r { Ok(v) => Ok(v@), Err(e) => Err(e) }),
    {
        match sh {
            Shape::Bool => match self.take_bool() {
                Ok(x) => Ok(Value::Bool(x)),
                Err(e) => Err(e),
            },
            Shape::Char => match self.take_char() {
                Ok(x) => Ok(Value::Char(x as u32)),
                Err(e) => Err(e),
            },
            Shape::Str => match self.take_str() {
                Ok(x) => {
                    Ok(Value::Str(x.to_owned()))
                }
                Err(e) => Err(e),
            },
            Shape::Bytes => match self.take_bytes() {
                Ok(x) => {
                    Ok(Value::Bytes(slice_to_vec(x)))
                }
                Err(e) => Err(e),
            },
            Shape::U8 | Shape::U16 | Shape::U32 | Shape::U64 | Shape::I8 | Shape::I16 | Shape::I32
            | Shape::I64 | Shape::F32 | Shape::F64 => self.decode_number(sh),
            _ => Err(Error::WontImplement),
        }
    }

    /// Decodes a fixed-width number.
    fn decode_number(&mut self, sh: &Shape) -> (r: Result<Value, Error>)
        requires
            sh is U8 || sh is U16 || sh is U32 || sh is U64 || sh is I8 || sh is I16 || sh is I32 || sh is I64 || sh is F32 || sh is F64,
        ensures
            took(*sh, old(self)@, final(self)@, match r { Ok(v) => Ok(v@), Err(e) => Err(e) }),
    {
        match sh {
            Shape::U8 => match self.take_u8() {
                Ok(x) => Ok(Value::U8(x)),
                Err(e) => Err(e),
            },
            Shape::U16 => match self.take_u16() {
                Ok(x) => Ok(Value::U16(x)),
                Err(e) => Err(e),
            },
            Shape::U32 => match self.take_u32() {
                Ok(x) => Ok(Value::U32(x)),
                Err(e) => Err(e),
            },
            Shape::U64 => match self.take_u64() {
                Ok(x) => Ok(Value::U64(x)),
                Err(e) => Err(e),
            },
            Shape::I8 => match self.take_i8() {
                Ok(x) => Ok(Value::I8(x)),
                Err(e) => Err(e),
            },
            Shape::I16 => match self.take_i16() {
                Ok(x) => Ok(Value::I16(x)),
                Err(e) => Err(e),
            },
            Shape::I32 => match self.take_i32() {
                Ok(x) => Ok(Value::I32(x)),
                Err(e) => Err(e),
            },
            Shape::I64 => match self.take_i64() {
                Ok(x) => Ok(Value::I64(x)),
                Err(e) => Err(e),
            },
            Shape::F32 => match self.take_f32_bits() {
                Ok(x) => Ok(Value::F32(x)),
                Err(e) => Err(e),
            },
            Shape::F64 => match self.take_f64_bits() {
                Ok(x) => Ok(Value::F64(x)),
                Err(e) => Err(e),
            },
            _ => Err(Error::WontImplement),
        }
    }

    /// Decodes an option: a tag byte, then the payload if the tag is 1.
    fn decode_option(&mut self, sh: &Shape) -> (r: Result<Value, Error>)
        requires
            sh is Option,
        ensures
            took(*sh, old(self)@, final(self)@, match r { Ok(v) => Ok(v@), Err(e) => Err(e) }),
        decreases sh, 0nat,
    {
        proof {
            reveal(took);
        }
        let inner: &Shape = match sh {
            Shape::Option(inner) => inner,
            _ => return Err(Error::WontImplement),
        };
        assert(decreases_to!(*sh => *inner));
        match self.take_option_tag() {
            Ok(false) => Ok(Value::Absent),
            Ok(true) => {
                let ghost mid = self@;
                match self.decode_value(inner) {
                    Ok(x) => {
                        proof {
                            assert(mid == old(self)@.skip(1));
                            lemma_decode_len(*inner, mid);
                            assert(self@ =~= old(self)@.skip((1 + decode(*inner, mid)->Ok_0.1) as int));
                        }
                        Ok(Value::Present(Box::new(x)))
                    }
                    Err(e) => Err(e),
                }
            }
            Err(e) => Err(e),
        }
    }

    /// Decodes a pair: the first part, then the second.
    fn decode_pair(&mut self, sh: &Shape) -> (r: Result<Value, Error>)
        requires
            sh is Pair,
        ensures
            took(*sh, old(self)@, final(self)@, match r { Ok(v) => Ok(v@), Err(e) => Err(e) }),
        decreases sh, 0nat,
    {
        proof {
            reveal(took);
        }
        let (sa, sb): (&Shape, &Shape) = match sh {
            Shape::Pair(sa, sb) => (sa, sb),
            _ => return Err(Error::WontImplement),
        };
        assert(decreases_to!(*sh => *sa));
        assert(decreases_to!(*sh => *sb));
        let a = match self.decode_value(sa) {
            Ok(a) => a,
            Err(e) => return Err(e),
        };
        let ghost mid = self@;
        proof {
            lemma_decode_len(*sa, old(self)@);
        }
        let b = match self.decode_value(sb) {
            Ok(b) => b,
            Err(e) => return Err(e),
        };
        proof {
            let na = decode(*sa, old(self)@)->Ok_0.1;
            let nb = decode(*sb, mid)->Ok_0.1;
            lemma_decode_len(*sb, mid);
            assert(self@ =~= old(self)@.skip((na + nb) as int));
        }
        Ok(Value::Pair(Box::new(a), Box::new(b)))
    }

    /// Decodes a sequence: a varint count, then that many elements.
    fn decode_sequence(&mut self, sh: &Shape) -> (r: Result<Value, Error>)
        requires
            sh is Sequence,
        ensures
            took(*sh, old(self)@, final(self)@, match r { Ok(v) => Ok(v@), Err(e) => Err(e) }),
        decreases sh, 0nat,
    {
        let elem: &Shape = match sh {
            Shape::Sequence(elem) => elem,
            _ => return Err(Error::WontImplement),
        };
        assert(decreases_to!(*sh => *elem));
        let count = match self.try_take_varint() {
            Ok(c) => c,
            Err(e) => {
                assert(took(*sh, old(self)@, final(self)@, Err(e))) by {
                    reveal(took);
                }
                return Err(e);
            }
        };
        let ghost k = varint_decode(old(self)@)->Ok_0.1;
        let ghost s1 = self@;
        proof {
            lemma_varint_scan_len(old(self)@, 0);
        }
        let mut items: Vec<Value> = Vec::new();
        let ghost mut used: nat = 0;
        let mut i: u64 = 0;
        while i < count
            invariant
                i <= count,
                decreases_to!(*sh => *elem),
                *sh == Shape::Sequence(Box::new(*elem)),
                varint_decode(old(self)@) == Ok::<(u64, nat), Error>((count, k)),
                s1 == old(self)@.skip(k as int),
                k <= old(self)@.len(),
                used <= s1.len(),
                self@ == s1.skip(used as int),
                decode_list(*elem, count as nat, s1) == match decode_list(
                    *elem,
                    (count - i) as nat,
                    self@,
                ) {
                    Ok((vs, m)) => Ok::<(Seq<Val>, nat), Error>((view_list(items@) + vs, used + m)),
                    Err(e) => Err(e),
                },
            decreases count - i,
        {
            let ghost t = self@;
            let ghost before = items@;
            let ghost res = decode(*elem, t);
            match self.decode_value(elem) {
                Ok(v) => {
                    assert(res == Ok::<(Val, nat), Error>((v@, res->Ok_0.1))
                        && self@ == t.skip(res->Ok_0.1 as int)) by {
                        reveal(took);
                    }
                    items.push(v);
                    proof {
                        let n = res->Ok_0.1;
                        assert(items@.drop_last() =~= before);
                        assert(view_list(items@) == view_list(before).push(v@));
                        lemma_decode_len(*elem, t);
                        assert(self@ =~= s1.skip((used + n) as int));
                        let rest = decode_list(*elem, (count - i - 1) as nat, self@);
                        if rest is Ok {
                            let vs = rest->Ok_0.0;
                            assert(view_list(items@) + vs =~= view_list(before) + (seq![v@] + vs));
                        }
                        used = used + n;
                    }
                }
                Err(e) => {
                    assert(res == Err::<(Val, nat), Error>(e)) by {
                        reveal(took);
                    }
                    assert(decode_list(*elem, (count - i) as nat, t) == Err::<(Seq<Val>, nat), Error>(e));
                    assert(decode(*sh, old(self)@) == Err::<(Val, nat), Error>(e));
                    assert(took(*sh, old(self)@, final(self)@, Err(e))) by {
                        reveal(took);
                    }
                    return Err(e);
                }
            }
            i += 1;
        }
        proof {
            assert(view_list(items@) + Seq::<Val>::empty() =~= view_list(items@));
            assert(self@ =~= old(self)@.skip((k + used) as int));
            assert(Value::Sequence(items)@ == Val::Sequence(view_list(items@)));
            assert(decode(*sh, old(self)@) == Ok::<(Val, nat), Error>((Val::Sequence(view_list(items@)), k + used)));
            assert(took(*sh, old(self)@, self@, Ok(Value::Sequence(items)@))) by {
                reveal(took);
            }
        }
        Ok(Value::Sequence(items))
    }

    /// Decodes an enum value: a varint ordinal, then the payload of that variant.
    fn decode_variant(&mut self, sh: &Shape) -> (r: Result<Value, Error>)
        requires
            sh is Enum,
        ensures
            took(*sh, old(self)@, final(self)@, match r { Ok(v) => Ok(v@), Err(e) => Err(e) }),
        decreases sh, 0nat,
    {
        proof {
            reveal(took);
        }
        let vars = match sh {
            Shape::Enum(vars) => vars,
            _ => return Err(Error::WontImplement),
        };
        let k = match self.try_take_varint() {
            Ok(k) => k,
            Err(e) => return Err(e),
        };
        if k > 0xFFFF_FFFF || k >= vars.len() as u64 {
            return Err(Error::DeserializeBadEnum);
        }
        let ghost mid = self@;
        proof {
            lemma_varint_scan_len(old(self)@, 0);
        }
        match self.decode_value(&vars[k as usize]) {
            Ok(x) => {
                proof {
                    lemma_decode_len(vars@[k as int], mid);
                    let n = varint_decode(old(self)@)->Ok_0.1;
                    let m = decode(vars@[k as int], mid)->Ok_0.1;
                    assert(self@ =~= old(self)@.skip((n + m) as int));
                }
                Ok(Value::Variant(k as u32, Box::new(x)))
            }
            Err(e) => Err(e),
        }
    }
}

/// Decodes one value of the shape `sh` from the front of `s`; bytes after it
/// are ignored.
pub fn from_bytes(sh: &Shape, s: &[u8]) -> (r: Result<Value, Error>)
    ensures
        match decode(*sh, s@) {
            Ok((v, _)) => r matches Ok(x) && x@ == v,
            Err(e) => r == Err::<Value, Error>(e),
        },
{
    let mut de = Deserializer::from_bytes(s);
    let r = de.decode_value(sh);
    proof {
        reveal(took);
    }
    r
}

/// Decodes one value of the shape `sh` from the front of `s`, and hands back
/// the bytes after it.
pub fn take_from_bytes<'a>(sh: &Shape, s: &'a [u8]) -> (r: Result<(Value, &'a [u8]), Error>)
    ensures
        match decode(*sh, s@) {
            Ok((v, n)) => r matches Ok((x, rest)) && x@ == v && rest@ == s@.skip(n as int),
            Err(e) => r matches Err(f) && f == e,
        },
{
    let mut de = Deserializer::from_bytes(s);
    let r = de.decode_value(sh);
    proof {
        reveal(took);
    }
    match r {
        Ok(v) => Ok((v, de.remaining())),
        Err(e) => Err(e),
    }
}

} // verus!
