use readap::data::DataType;
use readap::dds::DdsDataset;
use readap::query::VariableType;

fn create_test_dataset() -> DdsDataset {
    let dds_content = "Dataset {
    Float32 latitude[latitude = 5];
    Float32 longitude[longitude = 10];
    Int32 time[time = 100];
    Grid {
     ARRAY:
        Float32 temperature[time = 100][latitude = 5][longitude = 10];
     MAPS:
        Int32 time[time = 100];
        Float32 latitude[latitude = 5];
        Float32 longitude[longitude = 10];
    } temperature;
    Grid {
     ARRAY:
        Float32 wind_speed[time = 100][latitude = 5][longitude = 10];
     MAPS:
        Int32 time[time = 100];
        Float32 latitude[latitude = 5];
        Float32 longitude[longitude = 10];
    } wind_speed;
} test_dataset;";

    DdsDataset::from_bytes(dds_content).unwrap()
}

#[test]
fn test_dataset_metadata_methods() {
    let dataset = create_test_dataset();

    let variables = dataset.list_variables();
    assert_eq!(variables.len(), 5);
    assert!(variables.contains(&"latitude".to_string()));
    assert!(variables.contains(&"longitude".to_string()));
    assert!(variables.contains(&"time".to_string()));
    assert!(variables.contains(&"temperature".to_string()));
    assert!(variables.contains(&"wind_speed".to_string()));

    let coordinates = dataset.list_coordinates();
    assert_eq!(coordinates.len(), 3);
    assert!(coordinates.contains(&"latitude".to_string()));
    assert!(coordinates.contains(&"longitude".to_string()));
    assert!(coordinates.contains(&"time".to_string()));

    assert!(dataset.has_variable("temperature"));
    assert!(!dataset.has_variable("nonexistent"));

    assert!(dataset.has_coordinate("time"));
    assert!(!dataset.has_coordinate("nonexistent"));
}

#[test]
fn test_variable_info() {
    let dataset = create_test_dataset();

    let temp_info = dataset.get_variable_info("temperature").unwrap();
    assert_eq!(temp_info.name, "temperature");
    assert_eq!(temp_info.data_type, DataType::Float32);
    assert_eq!(temp_info.variable_type, VariableType::Grid);
    assert_eq!(temp_info.coordinates, vec!["time", "latitude", "longitude"]);
    assert_eq!(temp_info.dimensions.len(), 3);
    assert_eq!(temp_info.dimensions[0], ("time".to_string(), 100));
    assert_eq!(temp_info.dimensions[1], ("latitude".to_string(), 5));
    assert_eq!(temp_info.dimensions[2], ("longitude".to_string(), 10));

    let lat_info = dataset.get_variable_info("latitude").unwrap();
    assert_eq!(lat_info.variable_type, VariableType::Array);
    assert_eq!(lat_info.coordinates, vec!["latitude"]);
}

#[test]
fn test_coordinate_info() {
    let dataset = create_test_dataset();

    let time_info = dataset.get_coordinate_info("time").unwrap();
    assert_eq!(time_info.name, "time");
    assert_eq!(time_info.size, 100);
    assert!(time_info.variables_using.contains(&"temperature".to_string()));
    assert!(time_info.variables_using.contains(&"wind_speed".to_string()));

    let lat_info = dataset.get_coordinate_info("latitude").unwrap();
    assert_eq!(lat_info.size, 5);
}
