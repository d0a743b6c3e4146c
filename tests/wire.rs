use postcard::de::{from_bytes, take_from_bytes, Deserializer};
use postcard::error::Error;
use postcard::frame::{from_bytes_cobs, take_from_bytes_cobs, to_vec_cobs};
use postcard::ser::to_vec;
use postcard::value::{Shape, Value};

fn pair(a: Shape, b: Shape) -> Shape {
    Shape::Pair(Box::new(a), Box::new(b))
}

fn vpair(a: Value, b: Value) -> Value {
    Value::Pair(Box::new(a), Box::new(b))
}

fn nested_shape() -> Shape {
    let tuple = pair(Shape::I16, pair(Shape::Char, Shape::Bytes));
    let en = Shape::Enum(vec![Shape::Unit, tuple, Shape::Option(Box::new(Shape::Str))]);
    pair(Shape::Bool, Shape::Sequence(Box::new(en)))
}

fn nested_value() -> Value {
    let t = vpair(Value::I16(-2), vpair(Value::Char('é' as u32), Value::Bytes(vec![0, 1, 0])));
    vpair(
        Value::Bool(true),
        Value::Sequence(vec![
            Value::Variant(0, Box::new(Value::Unit)),
            Value::Variant(1, Box::new(t)),
            Value::Variant(2, Box::new(Value::Present(Box::new(Value::Str("ok".to_string()))))),
            Value::Variant(2, Box::new(Value::Absent)),
        ]),
    )
}

#[test]
fn round_trip_nested() {
    let v = nested_value();
    let bytes = to_vec(&v);
    assert_eq!(from_bytes(&nested_shape(), &bytes).unwrap(), v);
}

#[test]
fn round_trip_signed_and_floats() {
    let shape = pair(Shape::I8, pair(Shape::I32, pair(Shape::I64, pair(Shape::F32, Shape::F64))));
    let v = vpair(
        Value::I8(-128),
        vpair(
            Value::I32(-1),
            vpair(Value::I64(i64::MIN), vpair(Value::F32(1.5f32.to_bits()), Value::F64((-0.25f64).to_bits()))),
        ),
    );
    let bytes = to_vec(&v);
    assert_eq!(&bytes[..5], &[0x80, 0xFF, 0xFF, 0xFF, 0xFF]);
    assert_eq!(from_bytes(&shape, &bytes).unwrap(), v);
}

#[test]
fn fixed_width_little_endian() {
    assert_eq!(to_vec(&Value::U16(0xA5C7)), vec![0xC7, 0xA5]);
    assert_eq!(to_vec(&Value::I16(-2)), vec![0xFE, 0xFF]);
    assert_eq!(to_vec(&Value::U32(1)), vec![1, 0, 0, 0]);
    assert_eq!(to_vec(&Value::U64(0)).len(), 8);
    assert_eq!(to_vec(&Value::Char('A' as u32)), vec![0x41, 0, 0, 0]);
}

#[test]
fn varint_three_hundred() {
    let mut units = Vec::new();
    for _ in 0..300 {
        units.push(Value::Unit);
    }
    let v = Value::Sequence(units);
    assert_eq!(to_vec(&v), vec![0xAC, 0x02]);
    let e = Value::Variant(300, Box::new(Value::Unit));
    assert_eq!(to_vec(&e), vec![0xAC, 0x02]);
    let small = Value::Bytes(vec![9; 127]);
    assert_eq!(to_vec(&small)[0], 127);
    assert_eq!(to_vec(&small).len(), 128);
}

#[test]
fn varint_read_back() {
    let data = [0xAC, 0x02, 0x07];
    let mut de = Deserializer::from_bytes(&data);
    assert_eq!(de.try_take_varint(), Ok(300));
    assert_eq!(de.remaining(), &[0x07]);
    assert_eq!(de.try_take_varint(), Ok(7));
    assert_eq!(de.try_take_varint(), Err(Error::DeserializeUnexpectedEnd));
}

#[test]
fn varint_non_minimal_accepted() {
    let data = [0x81, 0x80, 0x00];
    let mut de = Deserializer::from_bytes(&data);
    assert_eq!(de.try_take_varint(), Ok(1));
    assert_eq!(de.remaining().len(), 0);
}

#[test]
fn varint_too_long() {
    let data = [0xFFu8; 11];
    let mut de = Deserializer::from_bytes(&data);
    assert_eq!(de.try_take_varint(), Err(Error::DeserializeBadVarint));
    let max = [0xFF, 0xFF, 0xFF, 0xFF, 0xFF, 0xFF, 0xFF, 0xFF, 0xFF, 0x01];
    let mut de = Deserializer::from_bytes(&max);
    assert_eq!(de.try_take_varint(), Ok(u64::MAX));
}

#[test]
fn string_prefix() {
    let s = "hello, postcard!";
    let bytes = to_vec(&Value::Str(s.to_string()));
    assert_eq!(bytes[0], 0x10);
    assert_eq!(&bytes[1..], s.as_bytes());
    let mut de = Deserializer::from_bytes(&bytes);
    let borrowed = de.take_str().unwrap();
    assert_eq!(borrowed, s);
    assert_eq!(borrowed.as_ptr(), bytes[1..].as_ptr());
}

#[test]
fn enum_ordinal_and_payload() {
    let bytes = to_vec(&Value::Variant(1, Box::new(Value::U64(u64::MAX))));
    assert_eq!(bytes, vec![0x01, 0xFF, 0xFF, 0xFF, 0xFF, 0xFF, 0xFF, 0xFF, 0xFF]);
    let bytes = to_vec(&Value::Variant(0, Box::new(Value::U16(u16::MAX))));
    assert_eq!(bytes, vec![0x00, 0xFF, 0xFF]);
}

#[test]
fn struct_concatenation() {
    let v = vpair(Value::U16(0xABCD), Value::U8(0xFE));
    assert_eq!(to_vec(&v), vec![0xCD, 0xAB, 0xFE]);
}

#[test]
fn truncation_is_unexpected_end() {
    let v = nested_value();
    let bytes = to_vec(&v);
    for n in 0..bytes.len() {
        assert_eq!(from_bytes(&nested_shape(), &bytes[..n]), Err(Error::DeserializeUnexpectedEnd));
    }
}

#[test]
fn remainder_is_extra_bytes() {
    let v = vpair(Value::U16(7), Value::Str("ab".to_string()));
    let mut bytes = to_vec(&v);
    bytes.extend_from_slice(&[0xDE, 0xAD, 0x00]);
    let (out, rest) = take_from_bytes(&pair(Shape::U16, Shape::Str), &bytes).unwrap();
    assert_eq!(out, v);
    assert_eq!(rest, &[0xDE, 0xAD, 0x00]);
    assert_eq!(from_bytes(&pair(Shape::U16, Shape::Str), &bytes).unwrap(), v);
}

#[test]
fn error_bad_bool() {
    assert_eq!(from_bytes(&Shape::Bool, &[2]), Err(Error::DeserializeBadBool));
    assert_eq!(from_bytes(&Shape::Bool, &[1]), Ok(Value::Bool(true)));
}

#[test]
fn error_bad_option() {
    let shape = Shape::Option(Box::new(Shape::U8));
    assert_eq!(from_bytes(&shape, &[2, 0]), Err(Error::DeserializeBadOption));
    assert_eq!(from_bytes(&shape, &[0]), Ok(Value::Absent));
    assert_eq!(from_bytes(&shape, &[1, 9]), Ok(Value::Present(Box::new(Value::U8(9)))));
}

#[test]
fn error_bad_char() {
    assert_eq!(from_bytes(&Shape::Char, &[0x00, 0xD8, 0, 0]), Err(Error::DeserializeBadChar));
    assert_eq!(from_bytes(&Shape::Char, &[0x00, 0x00, 0x11, 0]), Err(Error::DeserializeBadChar));
    assert_eq!(from_bytes(&Shape::Char, &[0xE9, 0, 0, 0]), Ok(Value::Char(0xE9)));
    let mut de = Deserializer::from_bytes(&[0xE9, 0, 0, 0]);
    assert_eq!(de.take_char(), Ok('é'));
}

#[test]
fn error_bad_utf8() {
    assert_eq!(from_bytes(&Shape::Str, &[2, 0xC3, 0x28]), Err(Error::DeserializeBadUtf8));
}

#[test]
fn error_bad_enum() {
    let shape = Shape::Enum(vec![Shape::Unit, Shape::Unit]);
    assert_eq!(from_bytes(&shape, &[2]), Err(Error::DeserializeBadEnum));
    let big = [0x80, 0x80, 0x80, 0x80, 0x10];
    assert_eq!(from_bytes(&shape, &big), Err(Error::DeserializeBadEnum));
    let mut de = Deserializer::from_bytes(&big);
    assert_eq!(de.take_variant_index(), Err(Error::DeserializeBadEnum));
}

#[test]
fn error_not_supported() {
    assert_eq!(from_bytes(&Shape::Any, &[0]), Err(Error::WontImplement));
    assert_eq!(from_bytes(&Shape::KeyValue, &[0]), Err(Error::NotYetImplemented));
}

#[test]
fn take_n_bounds() {
    let data = [1u8, 2, 3];
    let mut de = Deserializer::from_bytes(&data);
    assert_eq!(de.try_take_n(4), Err(Error::DeserializeUnexpectedEnd));
    assert_eq!(de.try_take_n(2), Ok(&data[..2]));
    assert_eq!(de.remaining(), &[3]);
    assert_eq!(de.try_take_n(0), Ok(&data[..0]));
}

#[test]
fn frame_round_trip() {
    let v = vpair(Value::Bytes(vec![0, 0, 5, 0]), Value::U32(0));
    let mut frame = to_vec_cobs(&v);
    assert_eq!(frame.last(), Some(&0));
    assert!(frame[..frame.len() - 1].iter().all(|b| *b != 0));
    let shape = pair(Shape::Bytes, Shape::U32);
    assert_eq!(from_bytes_cobs(&shape, &mut frame).unwrap(), v);
}

#[test]
fn frame_take_remainder() {
    let v = Value::U16(0x0100);
    let mut frame = to_vec_cobs(&v);
    let len = frame.len();
    let (out, rest) = take_from_bytes_cobs(&Shape::U16, &mut frame).unwrap();
    assert_eq!(out, v);
    // The frame is [0x01, 0x02, 0x01, 0x00]; unstuffing it recovers
    // [0x00, 0x01, 0x00], and one byte of the buffer is left over.
    assert_eq!(len, 4);
    assert_eq!(rest.len(), 1);
}

#[test]
fn frame_bad_encoding() {
    let mut frame = [0x05, 0x01];
    assert_eq!(from_bytes_cobs(&Shape::U8, &mut frame), Err(Error::DeserializeBadEncoding));
}
