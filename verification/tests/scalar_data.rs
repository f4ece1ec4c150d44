use readap::data::DataArray;
use readap::data::DataType;
use readap::data::DataValue;
use readap::data::DataValueIterator;
use readap::errors::Error;

#[test]
fn parse_data_type() {
    let (_, data_type) = DataType::parse("Int32", 0).unwrap();
    assert_eq!(data_type, DataType::Int32);

    let (_, data_type) = DataType::parse("Float32", 0).unwrap();
    assert_eq!(data_type, DataType::Float32);

    let (_, data_type) = DataType::parse("String", 0).unwrap();
    assert_eq!(data_type, DataType::String);
}

#[test]
fn test_parse_all_data_types() {
    let test_cases = vec![
        ("Byte", DataType::Byte),
        ("Int16", DataType::Int16),
        ("UInt16", DataType::UInt16),
        ("Int32", DataType::Int32),
        ("UInt32", DataType::UInt32),
        ("Float32", DataType::Float32),
        ("Float64", DataType::Float64),
        ("String", DataType::String),
        ("URL", DataType::URL),
    ];

    for (input, expected) in test_cases {
        let (_, parsed) = DataType::parse(input, 0).unwrap();
        assert_eq!(parsed, expected, "failed to parse {}", input);
    }
}

#[test]
fn test_data_type_byte_counts() {
    assert_eq!(DataType::Byte.byte_count(), 1);
    assert_eq!(DataType::Int16.byte_count(), 2);
    assert_eq!(DataType::UInt16.byte_count(), 2);
    assert_eq!(DataType::Int32.byte_count(), 4);
    assert_eq!(DataType::UInt32.byte_count(), 4);
    assert_eq!(DataType::Float32.byte_count(), 4);
    assert_eq!(DataType::Float64.byte_count(), 8);
    assert_eq!(DataType::String.byte_count(), 0); // variable length
    assert_eq!(DataType::URL.byte_count(), 0); // variable length
}

#[test]
fn data_test_data_type_byte_counts() {
    assert_eq!(DataType::Byte.byte_count(), 1);
    assert_eq!(DataType::Int16.byte_count(), 2);
    assert_eq!(DataType::UInt16.byte_count(), 2);
    assert_eq!(DataType::Int32.byte_count(), 4);
    assert_eq!(DataType::UInt32.byte_count(), 4);
    assert_eq!(DataType::Float32.byte_count(), 4);
    assert_eq!(DataType::Float64.byte_count(), 8);
    assert_eq!(DataType::String.byte_count(), 0);
    assert_eq!(DataType::URL.byte_count(), 0);
}

#[test]
fn new_data_types_test_data_type_byte_counts() {
    assert_eq!(DataType::Byte.byte_count(), 1);
    assert_eq!(DataType::Int16.byte_count(), 2);
    assert_eq!(DataType::UInt16.byte_count(), 2);
    assert_eq!(DataType::Int32.byte_count(), 4);
    assert_eq!(DataType::UInt32.byte_count(), 4);
    assert_eq!(DataType::Float32.byte_count(), 4);
    assert_eq!(DataType::Float64.byte_count(), 8);
    assert_eq!(DataType::String.byte_count(), 0);
    assert_eq!(DataType::URL.byte_count(), 0);
}

#[test]
fn test_not_implemented_data_value_iterator() {
    // String and URL kinds are refused before the header is read.
    let dummy_data = [0u8; 16];

    let result = DataValueIterator::new(&dummy_data, DataType::String);
    assert!(matches!(result, Err(Error::NotImplemented)));

    let result = DataValueIterator::new(&dummy_data, DataType::URL);
    assert!(matches!(result, Err(Error::NotImplemented)));

    // Numeric kinds work.
    let result = DataValueIterator::new(&dummy_data, DataType::Int32);
    assert!(result.is_ok());
}

#[test]
fn data_test_not_implemented_data_value_iterator() {
    let dummy_data = [0u8; 16];

    let result = DataValueIterator::new(&dummy_data, DataType::String);
    assert!(matches!(result, Err(Error::NotImplemented)));

    let result = DataValueIterator::new(&dummy_data, DataType::URL);
    assert!(matches!(result, Err(Error::NotImplemented)));

    let result = DataValueIterator::new(&dummy_data, DataType::Int32);
    assert!(result.is_ok());
}

#[test]
fn iterator_walks_int32_values() {
    // Two Int32 values 7 and -1, after the double length header (2, 2).
    let data: Vec<u8> = vec![
        0, 0, 0, 2, 0, 0, 0, 2, 0, 0, 0, 7, 0xff, 0xff, 0xff, 0xff,
    ];
    let mut it = DataValueIterator::new(&data, DataType::Int32).unwrap();
    assert_eq!(it.len(), 2);
    assert!(!it.is_empty());
    assert!(matches!(it.next(), Some(DataValue::Int32(7))));
    assert!(matches!(it.next(), Some(DataValue::Int32(-1))));
    assert!(it.next().is_none());
}

#[test]
fn iterator_mismatched_headers() {
    let data: Vec<u8> = vec![0, 0, 0, 2, 0, 0, 0, 3, 0, 0, 0, 7, 0, 0, 0, 8];
    let result = DataValueIterator::new(&data, DataType::Int32);
    assert!(matches!(result, Err(Error::InvalidData)));
}

#[test]
fn iterator_short_header() {
    let data: Vec<u8> = vec![0, 0, 0];
    let result = DataValueIterator::new(&data, DataType::Int32);
    assert!(matches!(result, Err(Error::ParseError)));
}

#[test]
fn decode_float32_bits() {
    // 10.0f32 and 20.0f32, big-endian, after the double length header.
    let data: Vec<u8> = vec![
        0x00, 0x00, 0x00, 0x02, 0x00, 0x00, 0x00, 0x02, 0x41, 0x20, 0x00, 0x00, 0x41, 0xA0,
        0x00, 0x00,
    ];
    let decoded = DataArray::parse(&data, DataType::Float32).unwrap();
    match decoded {
        DataArray::Float32(bits) => {
            assert_eq!(bits.len(), 2);
            assert_eq!(f32::from_bits(bits[0]), 10.0);
            assert_eq!(f32::from_bits(bits[1]), 20.0);
        }
        _ => panic!("expected a Float32 array"),
    }
}

#[test]
fn decode_length_mismatch() {
    let data: Vec<u8> = vec![
        0x00, 0x00, 0x00, 0x02, 0x00, 0x00, 0x00, 0x03, 0x41, 0x20, 0x00, 0x00, 0x41, 0xA0,
        0x00, 0x00,
    ];
    let result = DataArray::parse(&data, DataType::Float32);
    assert!(matches!(result, Err(Error::InvalidData)));
}

#[test]
fn decode_truncated_payload() {
    let data: Vec<u8> = vec![0x00, 0x00, 0x00, 0x02, 0x00, 0x00, 0x00, 0x02, 0x41, 0x20];
    let result = DataArray::parse(&data, DataType::Float32);
    assert!(matches!(result, Err(Error::ParseError)));
}

#[test]
fn decode_text_kinds_not_implemented() {
    let data: Vec<u8> = vec![0, 0, 0, 1, 0, 0, 0, 1, 65];
    assert!(matches!(
        DataArray::parse(&data, DataType::String),
        Err(Error::NotImplemented)
    ));
    assert!(matches!(
        DataArray::parse(&data, DataType::URL),
        Err(Error::NotImplemented)
    ));
}

#[test]
fn decode_every_numeric_kind() {
    // One element each, checking exact big-endian decoding.
    let byte = DataArray::parse(&[0, 0, 0, 1, 0, 0, 0, 1, 0x80], DataType::Byte).unwrap();
    assert!(matches!(byte, DataArray::Byte(v) if v == vec![-128i8]));

    let i16v = DataArray::parse(&[0, 0, 0, 1, 0, 0, 0, 1, 0xff, 0xfe], DataType::Int16).unwrap();
    assert!(matches!(i16v, DataArray::Int16(v) if v == vec![-2i16]));

    let u16v = DataArray::parse(&[0, 0, 0, 1, 0, 0, 0, 1, 0x01, 0x02], DataType::UInt16).unwrap();
    assert!(matches!(u16v, DataArray::UInt16(v) if v == vec![258u16]));

    let i32v = DataArray::parse(
        &[0, 0, 0, 1, 0, 0, 0, 1, 0xff, 0xff, 0xff, 0xff],
        DataType::Int32,
    )
    .unwrap();
    assert!(matches!(i32v, DataArray::Int32(v) if v == vec![-1i32]));

    let u32v = DataArray::parse(
        &[0, 0, 0, 1, 0, 0, 0, 1, 0xde, 0xad, 0xbe, 0xef],
        DataType::UInt32,
    )
    .unwrap();
    assert!(matches!(u32v, DataArray::UInt32(v) if v == vec![0xdeadbeefu32]));

    let f64v = DataArray::parse(
        &[0, 0, 0, 1, 0, 0, 0, 1, 0x40, 0x09, 0x21, 0xfb, 0x54, 0x44, 0x2d, 0x18],
        DataType::Float64,
    )
    .unwrap();
    match f64v {
        DataArray::Float64(bits) => {
            assert!((f64::from_bits(bits[0]) - 3.141592653589793).abs() < 1e-15);
        }
        _ => panic!("expected a Float64 array"),
    }
}

#[test]
fn test_data_value_conversions() {
    let byte_val = DataValue::Byte(42);
    assert_eq!(byte_val.try_to_i32().unwrap(), 42);
    assert_eq!(byte_val.try_to_i64().unwrap(), 42);

    let int16_val = DataValue::Int16(-1000);
    assert_eq!(int16_val.try_to_i32().unwrap(), -1000);
    assert_eq!(int16_val.try_to_i64().unwrap(), -1000);

    let uint16_val = DataValue::UInt16(65000);
    assert_eq!(uint16_val.try_to_i32().unwrap(), 65000);
    assert_eq!(uint16_val.try_to_i64().unwrap(), 65000);

    // two's-complement wrap on narrowing
    let uint32_val = DataValue::UInt32(4000000000);
    assert_eq!(uint32_val.try_to_i32().unwrap(), -294967296);
    assert_eq!(uint32_val.try_to_i64().unwrap(), 4000000000);

    // floats truncate toward zero
    let float64_val = DataValue::Float64(3.14159265359f64.to_bits());
    assert_eq!(float64_val.try_to_i32().unwrap(), 3);
    assert_eq!(float64_val.try_to_i64().unwrap(), 3);

    let float32_val = DataValue::Float32((-2.9f32).to_bits());
    assert_eq!(float32_val.try_to_i32().unwrap(), -2);

    let string_val = DataValue::String("test".to_string());
    assert_eq!(string_val.try_to_string().unwrap(), "test");

    let url_val = DataValue::URL("http://example.com".to_string());
    assert_eq!(url_val.try_to_string().unwrap(), "http://example.com");
}

#[test]
fn test_invalid_conversions() {
    let string_val = DataValue::String("not_a_number".to_string());
    assert!(string_val.try_to_i32().is_err());
    assert!(string_val.try_to_i64().is_err());

    let url_val = DataValue::URL("http://example.com".to_string());
    assert!(url_val.try_to_i32().is_err());
    assert!(url_val.try_to_i64().is_err());

    let byte_val = DataValue::Byte(42);
    assert!(byte_val.try_to_string().is_err());
}

#[test]
fn float_truncation_matches_the_standard_casts() {
    let cases: Vec<f32> = vec![
        0.0, -0.0, 1.5, -1.5, 2.999, -2.999, 1e10, -1e10, f32::NAN, f32::INFINITY,
        f32::NEG_INFINITY, 1e-10, -1e-10,
    ];
    for x in cases {
        let v = DataValue::Float32(x.to_bits());
        assert_eq!(v.try_to_i32().unwrap(), x as i32, "f32 {} to i32", x);
        assert_eq!(v.try_to_i64().unwrap(), x as i64, "f32 {} to i64", x);
    }
    let dcases: Vec<f64> = vec![
        0.0, -0.0, 3.14159265359, -3.9, 1e300, -1e300, f64::NAN, f64::INFINITY,
        f64::NEG_INFINITY, 2147483647.9, -2147483648.9,
    ];
    for x in dcases {
        let v = DataValue::Float64(x.to_bits());
        assert_eq!(v.try_to_i32().unwrap(), x as i32, "f64 {} to i32", x);
        assert_eq!(v.try_to_i64().unwrap(), x as i64, "f64 {} to i64", x);
    }
}

#[test]
fn test_data_array_conversions() {
    let int32_array = DataArray::Int32(vec![1, 2, 3, 4, 5]);
    assert_eq!(int32_array.try_to_i32s().unwrap(), vec![1, 2, 3, 4, 5]);

    let byte_array = DataArray::Byte(vec![1, 2, 3]);
    assert_eq!(byte_array.try_to_i32s().unwrap(), vec![1, 2, 3]);

    let float64_array = DataArray::Float64(vec![1.9f64.to_bits(), (-2.2f64).to_bits()]);
    assert_eq!(float64_array.try_to_i32s().unwrap(), vec![1, -2]);

    let string_array = DataArray::String(vec!["a".to_string(), "b".to_string()]);
    assert!(string_array.try_to_i32s().is_err());
    assert!(string_array.try_to_i64s().is_err());
}

#[test]
fn test_data_array_to_i32_conversions() {
    let byte_array = DataArray::Byte(vec![-128, 0, 127]);
    assert_eq!(byte_array.try_to_i32s().unwrap(), vec![-128, 0, 127]);

    let int16_array = DataArray::Int16(vec![-32768, 0, 32767]);
    assert_eq!(int16_array.try_to_i32s().unwrap(), vec![-32768, 0, 32767]);

    let uint16_array = DataArray::UInt16(vec![0, 32768, 65535]);
    assert_eq!(uint16_array.try_to_i32s().unwrap(), vec![0, 32768, 65535]);

    // the last value wraps
    let uint32_array = DataArray::UInt32(vec![0, 2147483647, 4294967295]);
    assert_eq!(uint32_array.try_to_i32s().unwrap(), vec![0, 2147483647, -1]);
}
