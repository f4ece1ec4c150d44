use readap::data::DataType;
use readap::dds::parse_coordinate;
use readap::dds::DdsArray;
use readap::dds::DdsDataset;
use readap::dds::DdsGrid;
use readap::dds::DdsSequence;
use readap::dds::DdsStructure;
use readap::dds::DdsValue;

#[test]
fn parse_coords() {
    let coord = "[time = 7];";
    let (_, coords) = parse_coordinate(coord, 0).unwrap();
    assert_eq!(coords.0, "time");
    assert_eq!(coords.1, 7);
}

#[test]
fn parse_array() {
    let single_array_input = "Int32 time[time = 7];";
    let (_, time_array) = DdsArray::parse(single_array_input, 0).unwrap();

    assert_eq!(time_array.data_type, DataType::Int32);
    assert_eq!(time_array.name, "time");
    assert_eq!(time_array.coords[0].0, "time");
    assert_eq!(time_array.coords[0].1, 7);
    assert_eq!(time_array.array_length(), 7);

    let multi_array_input =
        "Float32 spectral_wave_density[time = 7][frequency = 64][latitude = 1][longitude = 1];";
    let (_, spectral_density_array) = DdsArray::parse(multi_array_input, 0).unwrap();
    assert_eq!(spectral_density_array.data_type, DataType::Float32);
    assert_eq!(spectral_density_array.name, "spectral_wave_density");
    assert_eq!(spectral_density_array.coords.len(), 4);
    assert_eq!(spectral_density_array.coords[0].0, "time");
    assert_eq!(spectral_density_array.coords[0].1, 7);
    assert_eq!(spectral_density_array.coords[1].0, "frequency");
    assert_eq!(spectral_density_array.coords[1].1, 64);
    assert_eq!(spectral_density_array.coords[2].0, "latitude");
    assert_eq!(spectral_density_array.coords[2].1, 1);
    assert_eq!(spectral_density_array.coords[3].0, "longitude");
    assert_eq!(spectral_density_array.coords[3].1, 1);

    assert_eq!(spectral_density_array.array_length(), 7 * 64);
}

#[test]
fn parse_grid() {
    let grid_input = "Grid {
     ARRAY:
        Float32 spectral_wave_density[time = 7][frequency = 64][latitude = 1][longitude = 1];
     MAPS:
        Int32 time[time = 7];
        Float32 frequency[frequency = 64];
        Float32 latitude[latitude = 1];
        Float32 longitude[longitude = 1];
    } spectral_wave_density;";

    let (_, grid) = DdsGrid::parse(grid_input, 0).unwrap();

    assert_eq!(grid.name, "spectral_wave_density");
    assert_eq!(grid.array.data_type, DataType::Float32);
    assert_eq!(grid.array.name, "spectral_wave_density");
    assert_eq!(grid.array.coords.len(), 4);
    assert_eq!(grid.array.coords[0].0, "time");
    assert_eq!(grid.array.coords[0].1, 7);
    assert_eq!(grid.array.coords[1].0, "frequency");
    assert_eq!(grid.array.coords[1].1, 64);
    assert_eq!(grid.array.coords[2].0, "latitude");
    assert_eq!(grid.array.coords[2].1, 1);
    assert_eq!(grid.array.coords[3].0, "longitude");
    assert_eq!(grid.array.coords[3].1, 1);
    assert_eq!(grid.array.array_length(), 7 * 64);

    assert_eq!(grid.coords.len(), 4);
    assert_eq!(grid.coords[0].name, "time");
    assert_eq!(grid.coords[0].array_length(), 7);
    assert_eq!(grid.coords[1].name, "frequency");
    assert_eq!(grid.coords[1].array_length(), 64);
    assert_eq!(grid.coords[2].name, "latitude");
    assert_eq!(grid.coords[2].array_length(), 1);
    assert_eq!(grid.coords[3].name, "longitude");
    assert_eq!(grid.coords[3].array_length(), 1);
}

#[test]
fn parse_dds() {
    let dataset_input = "Dataset {
    Int32 time[time = 7];
    Float32 frequency[frequency = 64];
    Grid {
     ARRAY:
        Float32 spectral_wave_density[time = 7][frequency = 64][latitude = 1][longitude = 1];
     MAPS:
        Int32 time[time = 7];
        Float32 frequency[frequency = 64];
        Float32 latitude[latitude = 1];
        Float32 longitude[longitude = 1];
    } spectral_wave_density;
} data/swden/44097/44097w9999.nc;
";

    let dataset = DdsDataset::from_bytes(dataset_input).unwrap();

    assert_eq!(dataset.name, "data/swden/44097/44097w9999.nc");
    assert_eq!(dataset.values.len(), 3);
    assert!(matches!(dataset.values[0], DdsValue::Array(_)));
    assert!(matches!(dataset.values[1], DdsValue::Array(_)));
    assert!(matches!(dataset.values[2], DdsValue::Grid(_)));
}

#[test]
fn test_parse_new_data_type_arrays() {
    // Byte array
    let input = "Byte quality_flags[time = 10];";
    let (_, array) = DdsArray::parse(input, 0).unwrap();
    assert_eq!(array.data_type, DataType::Byte);
    assert_eq!(array.name, "quality_flags");
    assert_eq!(array.coords.len(), 1);
    assert_eq!(array.coords[0].0, "time");
    assert_eq!(array.coords[0].1, 10);
    assert_eq!(array.array_length(), 10);
    assert_eq!(array.byte_count(), 8 + 10 * 1);

    // Int16 array
    let input = "Int16 elevations[latitude = 5][longitude = 5];";
    let (_, array) = DdsArray::parse(input, 0).unwrap();
    assert_eq!(array.data_type, DataType::Int16);
    assert_eq!(array.name, "elevations");
    assert_eq!(array.coords.len(), 2);
    assert_eq!(array.array_length(), 25);
    assert_eq!(array.byte_count(), 8 + 25 * 2);

    // UInt32 array
    let input = "UInt32 file_sizes[files = 100];";
    let (_, array) = DdsArray::parse(input, 0).unwrap();
    assert_eq!(array.data_type, DataType::UInt32);
    assert_eq!(array.name, "file_sizes");
    assert_eq!(array.coords.len(), 1);
    assert_eq!(array.array_length(), 100);
    assert_eq!(array.byte_count(), 8 + 100 * 4);

    // Float64 array
    let input = "Float64 precise_measurements[samples = 50];";
    let (_, array) = DdsArray::parse(input, 0).unwrap();
    assert_eq!(array.data_type, DataType::Float64);
    assert_eq!(array.name, "precise_measurements");
    assert_eq!(array.coords.len(), 1);
    assert_eq!(array.array_length(), 50);
    assert_eq!(array.byte_count(), 8 + 50 * 8);
}

#[test]
fn test_parse_uint16_array() {
    let input = "UInt16 port_numbers[servers = 3];";
    let (_, array) = DdsArray::parse(input, 0).unwrap();
    assert_eq!(array.data_type, DataType::UInt16);
    assert_eq!(array.name, "port_numbers");
    assert_eq!(array.coords.len(), 1);
    assert_eq!(array.array_length(), 3);
    assert_eq!(array.byte_count(), 8 + 3 * 2);
}

#[test]
fn test_multidimensional_arrays() {
    let test_cases = vec![
        ("Byte data[x = 10][y = 20][z = 5];", DataType::Byte, 1000, 8 + 1000),
        ("Int16 data[x = 5][y = 5];", DataType::Int16, 25, 8 + 50),
        ("UInt16 data[x = 3][y = 3][z = 3];", DataType::UInt16, 27, 8 + 54),
        ("UInt32 data[x = 2][y = 2];", DataType::UInt32, 4, 8 + 16),
        ("Float64 data[x = 10];", DataType::Float64, 10, 8 + 80),
    ];

    for (input, expected_type, expected_length, expected_bytes) in test_cases {
        let (_, array) = DdsArray::parse(input, 0).unwrap();
        assert_eq!(array.data_type, expected_type);
        assert_eq!(array.array_length(), expected_length);
        assert_eq!(array.byte_count(), expected_bytes);
    }
}

#[test]
fn test_parse_structures_and_sequences() {
    let input = "Structure {
    Int32 id;
    Float32 value;
} measurement;";
    let (_, structure) = DdsStructure::parse(input, 0).unwrap();
    assert_eq!(structure.name, "measurement");
    assert_eq!(structure.fields.len(), 2);

    let input = "Sequence {
    Int32 timestamp;
    Float32 temperature;
} readings;";
    let (_, sequence) = DdsSequence::parse(input, 0).unwrap();
    assert_eq!(sequence.name, "readings");
    assert_eq!(sequence.fields.len(), 2);
}

#[test]
fn test_parse_nested_structure() {
    let input = "Structure {
    Int32 outer_id;
    Structure {
        Float32 inner_value;
        String inner_name;
    } inner_struct;
} nested_data;";

    let (_, structure) = DdsStructure::parse(input, 0).unwrap();
    assert_eq!(structure.name, "nested_data");
    assert_eq!(structure.fields.len(), 2);

    let outer_id = structure.fields[0].array().unwrap();
    assert_eq!(outer_id.data_type, DataType::Int32);
    assert_eq!(outer_id.name, "outer_id");

    let inner_struct = structure.fields[1].structure().unwrap();
    assert_eq!(inner_struct.name, "inner_struct");
    assert_eq!(inner_struct.fields.len(), 2);

    let inner_value = inner_struct.fields[0].array().unwrap();
    assert_eq!(inner_value.data_type, DataType::Float32);
    assert_eq!(inner_value.name, "inner_value");

    let inner_name = inner_struct.fields[1].array().unwrap();
    assert_eq!(inner_name.data_type, DataType::String);
    assert_eq!(inner_name.name, "inner_name");
}

#[test]
fn test_parse_nested_sequences() {
    let input = "Sequence {
    Int32 group_id;
    Sequence {
        Int32 item_id;
        Float32 value;
    } items;
} grouped_data;";

    let (_, sequence) = DdsSequence::parse(input, 0).unwrap();
    assert_eq!(sequence.name, "grouped_data");
    assert_eq!(sequence.fields.len(), 2);

    let group_id = sequence.fields[0].array().unwrap();
    assert_eq!(group_id.data_type, DataType::Int32);
    assert_eq!(group_id.name, "group_id");

    let items = sequence.fields[1].sequence().unwrap();
    assert_eq!(items.name, "items");
    assert_eq!(items.fields.len(), 2);

    let item_id = items.fields[0].array().unwrap();
    assert_eq!(item_id.data_type, DataType::Int32);
    assert_eq!(item_id.name, "item_id");

    let value = items.fields[1].array().unwrap();
    assert_eq!(value.data_type, DataType::Float32);
    assert_eq!(value.name, "value");
}

#[test]
fn test_structure_with_arrays() {
    let input = "Structure {
    Int32 timestamps[time = 100];
    Float32 measurements[time = 100][sensors = 5];
    Byte quality_flags[time = 100];
} time_series;";

    let (_, structure) = DdsStructure::parse(input, 0).unwrap();
    assert_eq!(structure.name, "time_series");
    assert_eq!(structure.fields.len(), 3);

    let timestamps = structure.fields[0].array().unwrap();
    assert_eq!(timestamps.data_type, DataType::Int32);
    assert_eq!(timestamps.array_length(), 100);

    let measurements = structure.fields[1].array().unwrap();
    assert_eq!(measurements.data_type, DataType::Float32);
    assert_eq!(measurements.array_length(), 500);

    let quality_flags = structure.fields[2].array().unwrap();
    assert_eq!(quality_flags.data_type, DataType::Byte);
    assert_eq!(quality_flags.array_length(), 100);
}

#[test]
fn test_complete_dds_with_new_types() {
    let input = "Dataset {
    Byte quality_flags[time = 100];
    Int16 elevations[latitude = 180][longitude = 360];
    UInt16 port_numbers[servers = 10];
    UInt32 file_sizes[files = 1000];
    Float64 precise_coords[points = 50];
    Int32 timestamps[time = 100];
    Float32 temperatures[time = 100];
} test_dataset;";

    let dataset = DdsDataset::from_bytes(input).unwrap();
    assert_eq!(dataset.name, "test_dataset");
    assert_eq!(dataset.values.len(), 7);

    let quality_flags = dataset.values[0].array().unwrap();
    assert_eq!(quality_flags.data_type, DataType::Byte);
    assert_eq!(quality_flags.array_length(), 100);

    let elevations = dataset.values[1].array().unwrap();
    assert_eq!(elevations.data_type, DataType::Int16);
    assert_eq!(elevations.array_length(), 180 * 360);

    let port_numbers = dataset.values[2].array().unwrap();
    assert_eq!(port_numbers.data_type, DataType::UInt16);
    assert_eq!(port_numbers.array_length(), 10);

    let file_sizes = dataset.values[3].array().unwrap();
    assert_eq!(file_sizes.data_type, DataType::UInt32);
    assert_eq!(file_sizes.array_length(), 1000);

    let precise_coords = dataset.values[4].array().unwrap();
    assert_eq!(precise_coords.data_type, DataType::Float64);
    assert_eq!(precise_coords.array_length(), 50);
}

#[test]
fn test_dataset_with_all_constructor_types() {
    let input = "Dataset {
    Int32 simple_array[time = 10];
    Grid {
     ARRAY:
        Float32 temperature[time = 10][lat = 5][lon = 5];
     MAPS:
        Int32 time[time = 10];
        Float32 lat[lat = 5];
        Float32 lon[lon = 5];
    } temperature_grid;
    Structure {
        Int32 station_id;
        Float32 elevation;
        String name;
    } station_info;
    Sequence {
        Int32 measurement_id;
        Float64 timestamp;
        Float32 value;
        Byte quality_flag;
    } measurements;
} comprehensive_dataset;";

    let dataset = DdsDataset::from_bytes(input).unwrap();
    assert_eq!(dataset.name, "comprehensive_dataset");
    assert_eq!(dataset.values.len(), 4);

    let simple_array = dataset.values[0].array().unwrap();
    assert_eq!(simple_array.data_type, DataType::Int32);
    assert_eq!(simple_array.name, "simple_array");

    let grid = dataset.values[1].grid().unwrap();
    assert_eq!(grid.name, "temperature_grid");
    assert_eq!(grid.array.data_type, DataType::Float32);

    let structure = dataset.values[2].structure().unwrap();
    assert_eq!(structure.name, "station_info");
    assert_eq!(structure.fields.len(), 3);

    let sequence = dataset.values[3].sequence().unwrap();
    assert_eq!(sequence.name, "measurements");
    assert_eq!(sequence.fields.len(), 4);

    let measurement_id = sequence.fields[0].array().unwrap();
    assert_eq!(measurement_id.data_type, DataType::Int32);

    let timestamp = sequence.fields[1].array().unwrap();
    assert_eq!(timestamp.data_type, DataType::Float64);

    let value = sequence.fields[2].array().unwrap();
    assert_eq!(value.data_type, DataType::Float32);

    let quality_flag = sequence.fields[3].array().unwrap();
    assert_eq!(quality_flag.data_type, DataType::Byte);
}

#[test]
fn test_error_handling_for_type_casting() {
    let input = "Dataset {
    Structure {
        Int32 id;
        String name;
    } metadata;
} test_dataset;";

    let dataset = DdsDataset::from_bytes(input).unwrap();
    let structure_value = &dataset.values[0];

    assert!(structure_value.array().is_err());
    assert!(structure_value.grid().is_err());
    assert!(structure_value.sequence().is_err());

    assert!(structure_value.structure().is_ok());
}

#[test]
fn minimal_array_dataset() {
    let dataset = DdsDataset::from_bytes("Dataset {\n    Int32 time[time = 7];\n} x;\n").unwrap();
    assert_eq!(dataset.name, "x");
    assert_eq!(dataset.values.len(), 1);
    let a = dataset.values[0].array().unwrap();
    assert_eq!(a.name, "time");
    assert_eq!(a.coords.len(), 1);
    assert_eq!(a.coords[0].0, "time");
    assert_eq!(a.coords[0].1, 7);
    assert_eq!(a.array_length(), 7);
    assert_eq!(a.byte_count(), 36);
}

#[test]
fn grid_byte_layout() {
    let input = "Dataset {
    Grid {
     ARRAY:
        Float32 t[lat = 2][lon = 3];
     MAPS:
        Float32 lat[lat = 2];
        Float32 lon[lon = 3];
    } t;
} x;
";
    let dataset = DdsDataset::from_bytes(input).unwrap();
    let grid = dataset.values[0].grid().unwrap();
    assert_eq!(grid.array.byte_count(), 8 + 2 * 3 * 4);
    assert_eq!(dataset.values[0].byte_count(), 32 + 16 + 20);
    assert_eq!(grid.byte_count(), 68);
    assert_eq!(grid.coords_offset(), 32);
    assert_eq!(grid.coord_offsets(), vec![32, 48]);
}

#[test]
fn check_fits_accepts_sane_datasets() {
    let dataset = DdsDataset::from_bytes("Dataset {\n    Int32 time[time = 7];\n} x;\n").unwrap();
    assert!(dataset.check_fits());
}

#[test]
fn check_fits_rejects_zero_and_oversized_dimensions() {
    // a zero-sized dimension breaks the documented DDS invariant
    let dataset = DdsDataset::from_bytes("Dataset {\n    Int32 time[time = 0];\n} x;\n").unwrap();
    assert!(!dataset.check_fits());

    // an element count past u32 is out of machine bounds
    let dataset = DdsDataset::from_bytes(
        "Dataset {\n    Int32 big[a = 4294967295][b = 4294967295];\n} x;\n",
    )
    .unwrap();
    assert!(!dataset.check_fits());
}

#[test]
fn malformed_dds_is_a_parse_error() {
    assert!(DdsDataset::from_bytes("not a dataset").is_err());
    assert!(DdsDataset::from_bytes("Dataset {\n    Int32 time[time = x];\n} x;\n").is_err());
    assert!(DdsDataset::from_bytes("Dataset {\n    Int32 time[time = 7]\n} x;\n").is_err());
}
