use postcard::de::from_bytes;
use postcard::frame::from_bytes_cobs;
use postcard::ser::to_vec;
use postcard::value::{Shape, Value};

fn pair(a: Shape, b: Shape) -> Shape {
    Shape::Pair(Box::new(a), Box::new(b))
}

fn vpair(a: Value, b: Value) -> Value {
    Value::Pair(Box::new(a), Box::new(b))
}

fn variant(k: u32, v: Value) -> Value {
    Value::Variant(k, Box::new(v))
}

fn bytes_value(b: &[u8]) -> Value {
    Value::Bytes(b.to_vec())
}

#[test]
fn de_u8() {
    let output = to_vec(&Value::U8(0x05));
    assert!(&[5] == output.as_slice());

    let out = from_bytes(&Shape::U8, &output).unwrap();
    assert_eq!(out, Value::U8(0x05));
}

#[test]
fn de_u16() {
    let output = to_vec(&Value::U16(0xA5C7));
    assert!(&[0xC7, 0xA5] == output.as_slice());

    let out = from_bytes(&Shape::U16, &output).unwrap();
    assert_eq!(out, Value::U16(0xA5C7));
}

#[test]
fn de_u32() {
    let output = to_vec(&Value::U32(0xCDAB3412));
    assert!(&[0x12, 0x34, 0xAB, 0xCD] == output.as_slice());

    let out = from_bytes(&Shape::U32, &output).unwrap();
    assert_eq!(out, Value::U32(0xCDAB3412));
}

#[test]
fn de_u64() {
    let output = to_vec(&Value::U64(0x1234_5678_90AB_CDEF));
    assert!(&[0xEF, 0xCD, 0xAB, 0x90, 0x78, 0x56, 0x34, 0x12] == output.as_slice());

    let out = from_bytes(&Shape::U64, &output).unwrap();
    assert_eq!(out, Value::U64(0x1234_5678_90AB_CDEF));
}

fn basic_u8s_shape() -> Shape {
    pair(Shape::U16, pair(Shape::U8, pair(Shape::U64, Shape::U32)))
}

fn basic_u8s(st: u16, ei: u8, sf: u64, tt: u32) -> Value {
    vpair(Value::U16(st), vpair(Value::U8(ei), vpair(Value::U64(sf), Value::U32(tt))))
}

#[test]
fn de_struct_unsigned() {
    let data = basic_u8s(0xABCD, 0xFE, 0x1234_4321_ABCD_DCBA, 0xACAC_ACAC);

    let output = to_vec(&data);

    assert!(
        &[
            0xCD, 0xAB, 0xFE, 0xBA, 0xDC, 0xCD, 0xAB, 0x21, 0x43, 0x34, 0x12, 0xAC, 0xAC, 0xAC,
            0xAC
        ] == output.as_slice()
    );

    let out = from_bytes(&basic_u8s_shape(), &output).unwrap();
    assert_eq!(out, data);
}

#[test]
fn de_byte_slice() {
    let input: &[u8] = &[1u8, 2, 3, 4, 5, 6, 7, 8];
    let output = to_vec(&bytes_value(input));
    assert_eq!(
        &[0x08, 0x01, 0x02, 0x03, 0x04, 0x05, 0x06, 0x07, 0x08],
        output.as_slice()
    );

    let out = from_bytes(&Shape::Bytes, &output).unwrap();
    assert_eq!(out, bytes_value(input));

    let mut input: Vec<u8> = Vec::new();
    for i in 0..1024 {
        input.push((i & 0xFF) as u8);
    }
    let output = to_vec(&bytes_value(&input));
    assert_eq!(&[0x80, 0x08], &output[..2]);

    assert_eq!(output.len(), 1026);
    for (i, val) in output[2..].iter().enumerate() {
        assert_eq!((i & 0xFF) as u8, *val);
    }

    let de = from_bytes(&Shape::Bytes, &output).unwrap();
    assert_eq!(de, bytes_value(&input));
}

#[test]
fn de_str() {
    let input: &str = "hello, postcard!";
    let output = to_vec(&Value::Str(input.to_string()));
    assert_eq!(0x10, output[0]);
    assert_eq!(input.as_bytes(), &output[1..]);

    let mut input = String::new();
    for _ in 0..256 {
        input.push_str("abcd");
    }
    let output = to_vec(&Value::Str(input.clone()));
    assert_eq!(&[0x80, 0x08], &output[..2]);

    assert_eq!(output.len(), 1026);
    for ch in output[2..].chunks(4) {
        assert_eq!("abcd", core::str::from_utf8(ch).unwrap());
    }

    let de = from_bytes(&Shape::Str, &output).unwrap();
    assert_eq!(de, Value::Str(input));
}

fn basic_enum_shape() -> Shape {
    Shape::Enum(vec![Shape::Unit, Shape::Unit, Shape::Unit])
}

fn data_enum_shape() -> Shape {
    Shape::Enum(vec![
        Shape::U16,
        Shape::U64,
        Shape::U8,
        pair(Shape::U8, Shape::U16),
        pair(Shape::U8, Shape::U32),
        pair(Shape::U16, Shape::U8),
    ])
}

#[test]
fn enums() {
    let output = to_vec(&variant(1, Value::Unit));
    assert_eq!(&[0x01], output.as_slice());
    let out = from_bytes(&basic_enum_shape(), &output).unwrap();
    assert_eq!(out, variant(1, Value::Unit));

    let output = to_vec(&variant(1, Value::U64(u64::MAX)));
    assert_eq!(
        &[0x01, 0xFF, 0xFF, 0xFF, 0xFF, 0xFF, 0xFF, 0xFF, 0xFF],
        output.as_slice()
    );

    let output = to_vec(&variant(0, Value::U16(u16::MAX)));
    assert_eq!(&[0x00, 0xFF, 0xFF], output.as_slice());
    let out = from_bytes(&data_enum_shape(), &output).unwrap();
    assert_eq!(out, variant(0, Value::U16(u16::MAX)));

    let output = to_vec(&variant(2, Value::U8(u8::MAX)));
    assert_eq!(&[0x02, 0xFF], output.as_slice());
    let out = from_bytes(&data_enum_shape(), &output).unwrap();
    assert_eq!(out, variant(2, Value::U8(u8::MAX)));

    let kim = variant(3, vpair(Value::U8(0xF0), Value::U16(0xACAC)));
    let output = to_vec(&kim);
    assert_eq!(&[0x03, 0xF0, 0xAC, 0xAC,], output.as_slice());
    let out = from_bytes(&data_enum_shape(), &output).unwrap();
    assert_eq!(out, kim);

    let chi = variant(4, vpair(Value::U8(0x0F), Value::U32(0xC7C7C7C7)));
    let output = to_vec(&chi);
    assert_eq!(&[0x04, 0x0F, 0xC7, 0xC7, 0xC7, 0xC7], output.as_slice());
    let out = from_bytes(&data_enum_shape(), &output).unwrap();
    assert_eq!(out, chi);

    let sho = variant(5, vpair(Value::U16(0x6969), Value::U8(0x07)));
    let output = to_vec(&sho);
    assert_eq!(&[0x05, 0x69, 0x69, 0x07], output.as_slice());
    let out = from_bytes(&data_enum_shape(), &output).unwrap();
    assert_eq!(out, sho);
}

#[test]
fn tuples() {
    let value = vpair(Value::U8(1), vpair(Value::U32(10), Value::Str("Hello!".to_string())));
    let output = to_vec(&value);
    assert_eq!(
        &[1u8, 0x0A, 0x00, 0x00, 0x00, 0x06, b'H', b'e', b'l', b'l', b'o', b'!'],
        output.as_slice()
    );
    let shape = pair(Shape::U8, pair(Shape::U32, Shape::Str));
    let out = from_bytes(&shape, &output).unwrap();
    assert_eq!(out, value);
}

fn array_of_u8(n: usize) -> (Shape, Value) {
    let mut shape = Shape::U8;
    let mut value = Value::U8(0);
    for _ in 1..n {
        shape = pair(Shape::U8, shape);
        value = vpair(Value::U8(0), value);
    }
    (shape, value)
}

#[test]
fn bytes() {
    let (shape, value) = array_of_u8(32);
    let output = to_vec(&value);
    assert_eq!(output.len(), 32);
    let out = from_bytes(&shape, &output).unwrap();
    assert_eq!(out, value);
}

#[test]
fn structs() {
    let output = to_vec(&Value::U32(5));
    assert_eq!(&[0x05, 0x00, 0x00, 0x00], output.as_slice());
    let out = from_bytes(&Shape::U32, &output).unwrap();
    assert_eq!(out, Value::U32(5));

    let tuple_struct = vpair(Value::U8(0xA0), Value::U16(0x1234));
    let output = to_vec(&tuple_struct);
    assert_eq!(&[0xA0, 0x34, 0x12], output.as_slice());
    let out = from_bytes(&pair(Shape::U8, Shape::U16), &output).unwrap();
    assert_eq!(out, tuple_struct);
}

fn ref_struct_value(bytes: &[u8], s: &str) -> Value {
    vpair(bytes_value(bytes), Value::Str(s.to_string()))
}

#[test]
fn ref_struct() {
    let message = "hElLo";
    let bytes = [0x01, 0x10, 0x02, 0x20];
    let output = to_vec(&ref_struct_value(&bytes, message));

    assert_eq!(
        &[0x04, 0x01, 0x10, 0x02, 0x20, 0x05, b'h', b'E', b'l', b'L', b'o',],
        output.as_slice()
    );

    let out = from_bytes(&pair(Shape::Bytes, Shape::Str), &output).unwrap();
    assert_eq!(out, ref_struct_value(&bytes, message));
}

#[test]
fn unit() {
    let output = to_vec(&Value::Unit);
    assert_eq!(output.len(), 0);
    let out = from_bytes(&Shape::Unit, &output).unwrap();
    assert_eq!(out, Value::Unit);
}

#[test]
fn heapless_data() {
    let input = Value::Sequence(vec![Value::U8(1), Value::U8(2), Value::U8(3), Value::U8(4)]);
    let output = to_vec(&input);
    assert_eq!(&[0x04, 0x01, 0x02, 0x03, 0x04], output.as_slice());
    let out = from_bytes(&Shape::Sequence(Box::new(Shape::U8)), &output).unwrap();
    assert_eq!(out, input);

    let input = Value::Str("helLO!".to_string());
    let output = to_vec(&input);
    assert_eq!(&[0x06, b'h', b'e', b'l', b'L', b'O', b'!'], output.as_slice());
    let out = from_bytes(&Shape::Str, &output).unwrap();
    assert_eq!(input, out);
}

#[test]
fn cobs_test() {
    let message = "hElLo";
    let bytes = [0x01, 0x00, 0x02, 0x20];
    let input = ref_struct_value(&bytes, message);

    let output = to_vec(&input);

    let mut encode_buf = [0u8; 32];
    let sz = cobs::encode(&output, &mut encode_buf);
    let out = from_bytes_cobs(&pair(Shape::Bytes, Shape::Str), &mut encode_buf[..sz]).unwrap();

    assert_eq!(input, out);
}
