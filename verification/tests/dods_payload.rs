use readap::data::DataArray;
use readap::data::DataValue;
use readap::dods::DodsDataset;
use readap::errors::Error;

fn payload(dds: &str, binary: &[u8]) -> Vec<u8> {
    let mut out: Vec<u8> = dds.as_bytes().to_vec();
    out.extend_from_slice(b"Data:\n");
    out.extend_from_slice(binary);
    out
}

#[test]
fn binary_decode_scenario() {
    // Two Float32 values, 10.0 and 20.0, against a one-variable dataset.
    let dds = "Dataset {\n    Float32 x[x = 2];\n} d;\n";
    let binary: [u8; 16] = [
        0x00, 0x00, 0x00, 0x02, 0x00, 0x00, 0x00, 0x02, 0x41, 0x20, 0x00, 0x00, 0x41, 0xA0,
        0x00, 0x00,
    ];
    let bytes = payload(dds, &binary);
    let dataset = DodsDataset::from_bytes(&bytes).unwrap();

    assert_eq!(dataset.variables(), vec!["x".to_string()]);
    assert_eq!(dataset.variable_index("x"), Some(0));
    assert_eq!(dataset.variable_byte_offset("x"), Some(0));

    match dataset.variable_data("x").unwrap() {
        DataArray::Float32(bits) => {
            assert_eq!(bits.len(), 2);
            assert_eq!(f32::from_bits(bits[0]), 10.0);
            assert_eq!(f32::from_bits(bits[1]), 20.0);
        }
        _ => panic!("expected a Float32 array"),
    }
}

#[test]
fn length_mismatch_scenario() {
    let dds = "Dataset {\n    Float32 x[x = 2];\n} d;\n";
    let binary: [u8; 16] = [
        0x00, 0x00, 0x00, 0x02, 0x00, 0x00, 0x00, 0x03, 0x41, 0x20, 0x00, 0x00, 0x41, 0xA0,
        0x00, 0x00,
    ];
    let bytes = payload(dds, &binary);
    let dataset = DodsDataset::from_bytes(&bytes).unwrap();
    let result = dataset.variable_data("x");
    assert!(matches!(result, Err(Error::InvalidData)));
}

#[test]
fn separator_tolerates_padding() {
    // CR LF after the separator, as some servers emit it.
    let dds = "Dataset {\n    Int32 a[a = 1];\n} d;\n";
    let mut bytes: Vec<u8> = dds.as_bytes().to_vec();
    bytes.extend_from_slice(b"Data:\r\n");
    bytes.extend_from_slice(&[0, 0, 0, 1, 0, 0, 0, 1, 0, 0, 0, 7]);
    let dataset = DodsDataset::from_bytes(&bytes).unwrap();
    match dataset.variable_data("a").unwrap() {
        DataArray::Int32(v) => assert_eq!(v, vec![7]),
        _ => panic!("expected an Int32 array"),
    }

    // a run of spaces and newlines after the separator is skipped too
    let mut bytes: Vec<u8> = dds.as_bytes().to_vec();
    bytes.extend_from_slice(b"Data: \r\n\n");
    bytes.extend_from_slice(&[0, 0, 0, 1, 0, 0, 0, 1, 0, 0, 0, 7]);
    let dataset = DodsDataset::from_bytes(&bytes).unwrap();
    match dataset.variable_data("a").unwrap() {
        DataArray::Int32(v) => assert_eq!(v, vec![7]),
        _ => panic!("expected an Int32 array"),
    }
}

#[test]
fn missing_separator_is_invalid_data() {
    let bytes = b"Dataset {\n    Float32 x[x = 2];\n} d;\n".to_vec();
    assert!(matches!(
        DodsDataset::from_bytes(&bytes),
        Err(Error::InvalidData)
    ));
}

#[test]
fn bad_dds_before_separator_is_a_parse_error() {
    let bytes = payload("this is not a dataset\n", &[0, 0, 0, 0]);
    assert!(matches!(
        DodsDataset::from_bytes(&bytes),
        Err(Error::ParseError)
    ));
}

#[test]
fn second_variable_offset() {
    // Int32 a[a = 2] occupies 8 + 8 = 16 bytes; b follows at offset 16.
    let dds = "Dataset {\n    Int32 a[a = 2];\n    Int32 b[b = 1];\n} d;\n";
    let binary: [u8; 28] = [
        0, 0, 0, 2, 0, 0, 0, 2, // header of a
        0, 0, 0, 5, 0, 0, 0, 6, // values of a: 5, 6
        0, 0, 0, 1, 0, 0, 0, 1, // header of b
        0, 0, 0, 9, // value of b: 9
    ];
    let bytes = payload(dds, &binary);
    let dataset = DodsDataset::from_bytes(&bytes).unwrap();

    assert_eq!(dataset.variable_byte_offset("a"), Some(0));
    assert_eq!(dataset.variable_byte_offset("b"), Some(16));
    assert_eq!(dataset.variable_byte_offset("c"), None);

    match dataset.variable_data("a").unwrap() {
        DataArray::Int32(v) => assert_eq!(v, vec![5, 6]),
        _ => panic!("expected an Int32 array"),
    }
    match dataset.variable_data("b").unwrap() {
        DataArray::Int32(v) => assert_eq!(v, vec![9]),
        _ => panic!("expected an Int32 array"),
    }
}

#[test]
fn grid_main_array_iterator() {
    // A 2x1 grid: main array (8 + 8 bytes), then the two maps.
    let dds = "Dataset {
    Grid {
     ARRAY:
        Int32 t[lat = 2][lon = 1];
     MAPS:
        Int32 lat[lat = 2];
        Int32 lon[lon = 1];
    } t;
} d;
";
    let binary: [u8; 44] = [
        0, 0, 0, 2, 0, 0, 0, 2, // main header
        0, 0, 0, 11, 0, 0, 0, 12, // main values
        0, 0, 0, 2, 0, 0, 0, 2, // lat header
        0, 0, 0, 1, 0, 0, 0, 2, // lat values
        0, 0, 0, 1, 0, 0, 0, 1, // lon header
        0, 0, 0, 3, // lon value
    ];
    let bytes = payload(dds, &binary);
    let dataset = DodsDataset::from_bytes(&bytes).unwrap();

    let mut it = dataset.variable_data_iter("t").unwrap();
    assert_eq!(it.len(), 2);
    assert!(matches!(it.next(), Some(DataValue::Int32(11))));
    assert!(matches!(it.next(), Some(DataValue::Int32(12))));
    assert!(it.next().is_none());
}

#[test]
fn structure_slot_is_not_decodable() {
    let dds = "Dataset {
    Structure {
        Int32 id;
    } meta;
} d;
";
    let bytes = payload(dds, &[0, 0, 0, 0]);
    let dataset = DodsDataset::from_bytes(&bytes).unwrap();
    assert!(matches!(
        dataset.variable_data("meta"),
        Err(Error::NotImplemented)
    ));
    assert!(matches!(
        dataset.variable_data_iter("meta"),
        Err(Error::NotImplemented)
    ));
}

#[test]
fn sequence_slot_is_not_implemented() {
    let dds = "Dataset {
    Sequence {
        Int32 id;
    } records;
} d;
";
    let bytes = payload(dds, &[0, 0, 0, 0]);
    let dataset = DodsDataset::from_bytes(&bytes).unwrap();
    assert!(matches!(
        dataset.variable_data("records"),
        Err(Error::NotImplemented)
    ));
    assert!(matches!(
        dataset.variable_data_iter("records"),
        Err(Error::NotImplemented)
    ));
}

#[test]
fn unknown_variable_is_a_parse_error() {
    let dds = "Dataset {\n    Int32 a[a = 1];\n} d;\n";
    let bytes = payload(dds, &[0, 0, 0, 1, 0, 0, 0, 1, 0, 0, 0, 7]);
    let dataset = DodsDataset::from_bytes(&bytes).unwrap();
    assert!(matches!(
        dataset.variable_data("missing"),
        Err(Error::ParseError)
    ));
    assert!(matches!(
        dataset.variable_data_iter("missing"),
        Err(Error::ParseError)
    ));
}
