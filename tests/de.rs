use byteorder::{BigEndian, ByteOrder as _, LittleEndian};
use serde_pod::{from_bytes, ByteOrder, Deserializer, ErrorKind, Shape, Value};

const BE: ByteOrder = ByteOrder::Big;
const LE: ByteOrder = ByteOrder::Little;

fn u16s(v: &Value) -> Vec<u16> {
    let items = match v {
        Value::Sequence(items) | Value::Tuple(items) => items,
        other => panic!("not a list: {:?}", other),
    };
    items
        .iter()
        .map(|x| match x {
            Value::U16(n) => *n,
            other => panic!("not a u16: {:?}", other),
        })
        .collect()
}

fn u16_array(n: usize) -> Shape {
    Shape::Tuple((0..n).map(|_| Shape::U16).collect())
}

#[test]
fn de_test_u8() {
    let test: u8 = 0x12;
    assert!(matches!(from_bytes(&[0x12], &Shape::U8, BE).unwrap(), Value::U8(x) if x == test));
    assert!(matches!(from_bytes(&[0x12], &Shape::U8, LE).unwrap(), Value::U8(x) if x == test));
}

#[test]
fn de_test_i8() {
    let test: i8 = 0x12;
    assert!(matches!(from_bytes(&[0x12], &Shape::I8, BE).unwrap(), Value::I8(x) if x == test));
    assert!(matches!(from_bytes(&[0x12], &Shape::I8, LE).unwrap(), Value::I8(x) if x == test));
}

#[test]
fn de_test_u16() {
    let test: u16 = 0x1234;
    assert!(matches!(from_bytes(&[0x12, 0x34], &Shape::U16, BE).unwrap(), Value::U16(x) if x == test));
    assert!(matches!(from_bytes(&[0x34, 0x12], &Shape::U16, LE).unwrap(), Value::U16(x) if x == test));
}

#[test]
fn de_test_i16() {
    let test: i16 = 0x1234;
    assert!(matches!(from_bytes(&[0x12, 0x34], &Shape::I16, BE).unwrap(), Value::I16(x) if x == test));
    assert!(matches!(from_bytes(&[0x34, 0x12], &Shape::I16, LE).unwrap(), Value::I16(x) if x == test));
}

#[test]
fn de_test_u32() {
    let test: u32 = 0x12345678;
    assert!(matches!(from_bytes(&[0x12, 0x34, 0x56, 0x78], &Shape::U32, BE).unwrap(), Value::U32(x) if x == test));
    assert!(matches!(from_bytes(&[0x78, 0x56, 0x34, 0x12], &Shape::U32, LE).unwrap(), Value::U32(x) if x == test));
}

#[test]
fn de_test_i32() {
    let test: i32 = 0x12345678;
    assert!(matches!(from_bytes(&[0x12, 0x34, 0x56, 0x78], &Shape::I32, BE).unwrap(), Value::I32(x) if x == test));
    assert!(matches!(from_bytes(&[0x78, 0x56, 0x34, 0x12], &Shape::I32, LE).unwrap(), Value::I32(x) if x == test));
}

#[test]
fn de_test_u64() {
    let test: u64 = 0x12345678_90ABCDEF;
    assert!(matches!(from_bytes(&[0x12, 0x34, 0x56, 0x78, 0x90, 0xAB, 0xCD, 0xEF], &Shape::U64, BE).unwrap(), Value::U64(x) if x == test));
    assert!(matches!(from_bytes(&[0xEF, 0xCD, 0xAB, 0x90, 0x78, 0x56, 0x34, 0x12], &Shape::U64, LE).unwrap(), Value::U64(x) if x == test));
}

#[test]
fn de_test_i64() {
    let test: i64 = 0x12345678_90ABCDEF;
    assert!(matches!(from_bytes(&[0x12, 0x34, 0x56, 0x78, 0x90, 0xAB, 0xCD, 0xEF], &Shape::I64, BE).unwrap(), Value::I64(x) if x == test));
    assert!(matches!(from_bytes(&[0xEF, 0xCD, 0xAB, 0x90, 0x78, 0x56, 0x34, 0x12], &Shape::I64, LE).unwrap(), Value::I64(x) if x == test));
}

#[test]
fn de_test_u128() {
    let test: u128 = 0x12345678_90ABCDEF_12345678_90ABCDEF;
    assert!(matches!(from_bytes(&[0x12, 0x34, 0x56, 0x78, 0x90, 0xAB, 0xCD, 0xEF, 0x12, 0x34, 0x56, 0x78, 0x90, 0xAB, 0xCD, 0xEF], &Shape::U128, BE).unwrap(), Value::U128(x) if x == test));
    assert!(matches!(from_bytes(&[0xEF, 0xCD, 0xAB, 0x90, 0x78, 0x56, 0x34, 0x12, 0xEF, 0xCD, 0xAB, 0x90, 0x78, 0x56, 0x34, 0x12], &Shape::U128, LE).unwrap(), Value::U128(x) if x == test));
}

#[test]
fn de_test_i128() {
    let test: i128 = 0x12345678_90ABCDEF_12345678_90ABCDEF;
    assert!(matches!(from_bytes(&[0x12, 0x34, 0x56, 0x78, 0x90, 0xAB, 0xCD, 0xEF, 0x12, 0x34, 0x56, 0x78, 0x90, 0xAB, 0xCD, 0xEF], &Shape::I128, BE).unwrap(), Value::I128(x) if x == test));
    assert!(matches!(from_bytes(&[0xEF, 0xCD, 0xAB, 0x90, 0x78, 0x56, 0x34, 0x12, 0xEF, 0xCD, 0xAB, 0x90, 0x78, 0x56, 0x34, 0x12], &Shape::I128, LE).unwrap(), Value::I128(x) if x == test));
}

#[test]
fn de_test_unit() {
    assert!(matches!(from_bytes(&[], &Shape::UnitStruct, BE).unwrap(), Value::UnitStruct));
    assert!(matches!(from_bytes(&[], &Shape::UnitStruct, LE).unwrap(), Value::UnitStruct));
}

#[test]
fn de_test_newtype() {
    let shape = Shape::Newtype(Box::new(Shape::U32));
    let check = |v: Value| matches!(v, Value::Newtype(b) if matches!(*b, Value::U32(0x12345678)));
    assert!(check(from_bytes(&[0x12, 0x34, 0x56, 0x78], &shape, BE).unwrap()));
    assert!(check(from_bytes(&[0x78, 0x56, 0x34, 0x12], &shape, LE).unwrap()));
}

fn u32_u16(v: &Value) -> (u32, u16) {
    let items = match v {
        Value::Tuple(items) | Value::Struct(items) => items,
        other => panic!("not a tuple or struct: {:?}", other),
    };
    assert_eq!(items.len(), 2);
    match (&items[0], &items[1]) {
        (Value::U32(a), Value::U16(b)) => (*a, *b),
        other => panic!("unexpected fields: {:?}", other),
    }
}

#[test]
fn de_test_tuple() {
    let shape = Shape::Tuple(vec![Shape::U32, Shape::U16]);
    let test = (0x12345678, 0xABCD);
    assert_eq!(u32_u16(&from_bytes(&[0x12, 0x34, 0x56, 0x78, 0xAB, 0xCD], &shape, BE).unwrap()), test);
    assert_eq!(u32_u16(&from_bytes(&[0x78, 0x56, 0x34, 0x12, 0xCD, 0xAB], &shape, LE).unwrap()), test);
}

#[test]
fn de_test_struct() {
    let shape = Shape::Struct(vec![Shape::U32, Shape::U16]);
    let test = (0x12345678, 0xABCD);
    let be = from_bytes(&[0x12, 0x34, 0x56, 0x78, 0xAB, 0xCD], &shape, BE).unwrap();
    assert!(matches!(be, Value::Struct(_)));
    assert_eq!(u32_u16(&be), test);
    let le = from_bytes(&[0x78, 0x56, 0x34, 0x12, 0xCD, 0xAB], &shape, LE).unwrap();
    assert!(matches!(le, Value::Struct(_)));
    assert_eq!(u32_u16(&le), test);
}

#[test]
#[should_panic]
fn test_option_be() {
    from_bytes(&[0x12, 0x34], &Shape::Optional, BE).unwrap();
}

#[test]
#[should_panic]
fn test_option_le() {
    from_bytes(&[0x12, 0x34], &Shape::Optional, LE).unwrap();
}

#[test]
fn de_test_seq() {
    let test = [0x12, 0x34, 0x56, 0x78, 0xAB, 0xCD];
    let shape = Shape::Sequence(Box::new(Shape::U16));
    assert_eq!(u16s(&from_bytes(&test, &shape, BE).unwrap()), vec![0x1234, 0x5678, 0xABCD]);
    assert_eq!(u16s(&from_bytes(&test, &shape, LE).unwrap()), vec![0x3412, 0x7856, 0xCDAB]);
}

#[test]
fn test_string() {
    let test = "тест";
    for order in [BE, LE] {
        match from_bytes(test.as_bytes(), &Shape::Str, order).unwrap() {
            Value::Str(s) => assert_eq!(s, test),
            other => panic!("not a string: {:?}", other),
        }
    }
}

#[test]
fn de_test_array_empty() {
    assert_eq!(u16s(&from_bytes(&[], &u16_array(0), BE).unwrap()), Vec::<u16>::new());
    assert_eq!(u16s(&from_bytes(&[], &u16_array(0), LE).unwrap()), Vec::<u16>::new());
}

#[test]
fn de_test_array() {
    let test = [0x12, 0x34, 0x56, 0x78, 0xAB, 0xCD];
    assert_eq!(u16s(&from_bytes(&test, &u16_array(3), BE).unwrap()), [0x1234, 0x5678, 0xABCD]);
    assert_eq!(u16s(&from_bytes(&test, &u16_array(3), LE).unwrap()), [0x3412, 0x7856, 0xCDAB]);
}

#[test]
#[should_panic]
fn test_array_no_data_be() {
    let test = [0x12, 0x34, 0x56, 0x78, 0xAB];
    from_bytes(&test, &u16_array(3), BE).unwrap();
}

#[test]
#[should_panic]
fn test_array_no_data_le() {
    let test = [0x12, 0x34, 0x56, 0x78, 0xAB];
    from_bytes(&test, &u16_array(3), LE).unwrap();
}

#[test]
fn test_vec() {
    let test = [0x12, 0x34, 0x56, 0x78, 0xAB, 0xCD];
    let shape = Shape::Sequence(Box::new(Shape::U16));
    assert_eq!(u16s(&from_bytes(&test, &shape, BE).unwrap()), vec![0x1234, 0x5678, 0xABCD]);
    assert_eq!(u16s(&from_bytes(&test, &shape, LE).unwrap()), vec![0x3412, 0x7856, 0xCDAB]);
}

#[test]
#[should_panic]
fn test_vec_no_data_be() {
    let test = [0x12, 0x34, 0x56, 0x78, 0xAB];
    from_bytes(&test, &Shape::Sequence(Box::new(Shape::U16)), BE).unwrap();
}

#[test]
#[should_panic]
fn test_vec_no_data_le() {
    let test = [0x12, 0x34, 0x56, 0x78, 0xAB];
    from_bytes(&test, &Shape::Sequence(Box::new(Shape::U16)), LE).unwrap();
}

fn f32_be(test: f32) -> bool {
    let mut buf = [0; 4];
    BigEndian::write_f32(&mut buf, test);
    matches!(from_bytes(&buf, &Shape::F32, BE).unwrap(), Value::F32(bits) if bits == test.to_bits())
}

fn f32_le(test: f32) -> bool {
    let mut buf = [0; 4];
    LittleEndian::write_f32(&mut buf, test);
    matches!(from_bytes(&buf, &Shape::F32, LE).unwrap(), Value::F32(bits) if bits == test.to_bits())
}

fn f64_be(test: f64) -> bool {
    let mut buf = [0; 8];
    BigEndian::write_f64(&mut buf, test);
    matches!(from_bytes(&buf, &Shape::F64, BE).unwrap(), Value::F64(bits) if bits == test.to_bits())
}

fn f64_le(test: f64) -> bool {
    let mut buf = [0; 8];
    LittleEndian::write_f64(&mut buf, test);
    matches!(from_bytes(&buf, &Shape::F64, LE).unwrap(), Value::F64(bits) if bits == test.to_bits())
}

#[test]
fn de_test_f32_be() {
    quickcheck::quickcheck(f32_be as fn(f32) -> bool);
}

#[test]
fn de_test_f32_le() {
    quickcheck::quickcheck(f32_le as fn(f32) -> bool);
}

#[test]
fn de_test_f64_be() {
    quickcheck::quickcheck(f64_be as fn(f64) -> bool);
}

#[test]
fn de_test_f64_le() {
    quickcheck::quickcheck(f64_le as fn(f64) -> bool);
}

#[test]
fn de_bool_is_unsupported_for_every_byte() {
    for byte in 0..=255u8 {
        let err = from_bytes(&[byte], &Shape::Bool, BE).unwrap_err();
        assert_eq!(err.kind(), ErrorKind::Unsupported);
    }
}

#[test]
fn streaming_sequence_reads_until_exhausted() {
    let bytes = [0x12, 0x34, 0x56, 0x78, 0xAB, 0xCD];
    let shape = Shape::Sequence(Box::new(Shape::U16));
    let mut de = Deserializer::new(&bytes, BE);
    assert_eq!(u16s(&de.deserialize(&shape).unwrap()), vec![0x1234, 0x5678, 0xABCD]);
    assert!(de.is_exhausted());
    let mut de = Deserializer::new(&bytes, LE);
    assert_eq!(u16s(&de.deserialize(&shape).unwrap()), vec![0x3412, 0x7856, 0xCDAB]);
    assert!(de.is_exhausted());
}

#[test]
fn truncated_array_is_an_io_error() {
    let bytes = [0x12, 0x34, 0x56, 0x78, 0xAB];
    for order in [BE, LE] {
        let err = from_bytes(&bytes, &u16_array(3), order).unwrap_err();
        assert_eq!(err.kind(), ErrorKind::Io);
    }
}

#[test]
fn char_decodes_two_byte_sequence() {
    let bytes = [0xD1, 0x82, 0x41];
    let mut de = Deserializer::new(&bytes, BE);
    assert_eq!(de.read_char().unwrap(), 'т');
    assert_eq!(de.read_char().unwrap(), 'A');
    assert!(de.is_exhausted());
}

#[test]
fn char_rejects_lone_continuation_byte() {
    let err = from_bytes(&[0x80], &Shape::Char, BE).unwrap_err();
    assert_eq!(err.kind(), ErrorKind::Encoding);
    let err = from_bytes(&[0xC0, 0x80], &Shape::Char, LE).unwrap_err();
    assert_eq!(err.kind(), ErrorKind::Encoding);
}

#[test]
fn char_rejects_bad_continuation() {
    let err = from_bytes(&[0xD1, 0x41], &Shape::Char, BE).unwrap_err();
    assert_eq!(err.kind(), ErrorKind::Encoding);
}

#[test]
fn char_truncated_is_an_io_error() {
    assert_eq!(from_bytes(&[0xE2, 0x82], &Shape::Char, BE).unwrap_err().kind(), ErrorKind::Io);
    assert_eq!(from_bytes(&[], &Shape::Char, BE).unwrap_err().kind(), ErrorKind::Io);
}

#[test]
fn char_four_bytes() {
    let bytes = "😀".as_bytes();
    assert!(matches!(from_bytes(bytes, &Shape::Char, LE).unwrap(), Value::Char('😀')));
}

#[test]
fn unsupported_shapes_read_nothing() {
    let bytes = [0x01, 0x02];
    for shape in [
        Shape::Bool,
        Shape::Optional,
        Shape::Enum,
        Shape::Mapping,
        Shape::Any,
        Shape::Identifier,
        Shape::IgnoredAny,
    ] {
        let mut de = Deserializer::new(&bytes, BE);
        let err = de.deserialize(&shape).unwrap_err();
        assert_eq!(err.kind(), ErrorKind::Unsupported);
        assert_eq!(de.read_to_end().unwrap(), vec![0x01, 0x02]);
    }
}

#[test]
fn unsupported_error_names_the_operation() {
    match from_bytes(&[], &Shape::Enum, BE).unwrap_err() {
        serde_pod::Error::Unsupported(msg) => assert_eq!(msg, "`deserialize_enum` is not supported"),
        other => panic!("unexpected error: {:?}", other),
    }
}

#[test]
fn struct_field_order() {
    let shape = Shape::Struct(vec![Shape::U32, Shape::U16]);
    let be = from_bytes(&[0x12, 0x34, 0x56, 0x78, 0xAB, 0xCD], &shape, BE).unwrap();
    let le = from_bytes(&[0x78, 0x56, 0x34, 0x12, 0xCD, 0xAB], &shape, LE).unwrap();
    assert_eq!(u32_u16(&be), (0x12345678, 0xABCD));
    assert_eq!(u32_u16(&le), u32_u16(&be));
}

#[test]
fn struct_leaves_trailing_bytes() {
    let bytes = [0x00, 0x01, 0xFF];
    let mut de = Deserializer::new(&bytes, BE);
    assert!(matches!(de.deserialize(&Shape::U16).unwrap(), Value::U16(1)));
    assert_eq!(de.read_to_end().unwrap(), vec![0xFF]);
}

#[test]
fn invalid_utf8_string_is_an_encoding_error() {
    let err = from_bytes(&[0x61, 0xFF], &Shape::Str, BE).unwrap_err();
    assert_eq!(err.kind(), ErrorKind::Encoding);
}

#[test]
fn bytes_read_to_end() {
    match from_bytes(&[0x00, 0xFF, 0x10], &Shape::Bytes, BE).unwrap() {
        Value::Bytes(b) => assert_eq!(b, vec![0x00, 0xFF, 0x10]),
        other => panic!("not bytes: {:?}", other),
    }
}

#[test]
fn negative_numbers_decode_in_twos_complement() {
    assert!(matches!(from_bytes(&[0xFF], &Shape::I8, BE).unwrap(), Value::I8(-1)));
    assert!(matches!(from_bytes(&[0xFE, 0xFF], &Shape::I16, LE).unwrap(), Value::I16(-2)));
    assert!(matches!(from_bytes(&[0x80, 0, 0, 0], &Shape::I32, BE).unwrap(), Value::I32(i32::MIN)));
    let mut min = [0u8; 16];
    min[0] = 0x80;
    assert!(matches!(from_bytes(&min, &Shape::I128, BE).unwrap(), Value::I128(i128::MIN)));
    assert!(matches!(from_bytes(&[0xFF; 16], &Shape::I128, LE).unwrap(), Value::I128(-1)));
    assert!(matches!(from_bytes(&[0xFF; 8], &Shape::U64, LE).unwrap(), Value::U64(u64::MAX)));
}

#[test]
fn sequence_of_zero_width_elements_is_refused() {
    let shape = Shape::Sequence(Box::new(Shape::Unit));
    assert_eq!(from_bytes(&[0x01], &shape, BE).unwrap_err().kind(), ErrorKind::Unsupported);
    assert!(matches!(from_bytes(&[], &shape, BE).unwrap(), Value::Sequence(v) if v.is_empty()));
}

#[test]
fn unit_reads_nothing() {
    let bytes = [0x07];
    let mut de = Deserializer::new(&bytes, LE);
    assert!(matches!(de.deserialize(&Shape::Unit).unwrap(), Value::Unit));
    assert!(!de.is_exhausted());
}
