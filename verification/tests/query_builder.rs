use readap::dds::DdsDataset;
use readap::query::CoordinateConstraint;
use readap::query::QueryError;

fn create_test_dataset() -> DdsDataset {
    let dds_content = "Dataset {
    Float32 latitude[latitude = 5];
    Float32 longitude[longitude = 10];
    Int32 time[time = 100];
    Grid {
     ARRAY:
        Float32 temperature[time = 100][latitude = 5][longitude = 10];
     MAPS:
        Int32 time[time = 100];
        Float32 latitude[latitude = 5];
        Float32 longitude[longitude = 10];
    } temperature;
    Grid {
     ARRAY:
        Float32 wind_speed[time = 100][latitude = 5][longitude = 10];
     MAPS:
        Int32 time[time = 100];
        Float32 latitude[latitude = 5];
        Float32 longitude[longitude = 10];
    } wind_speed;
} test_dataset;";

    DdsDataset::from_bytes(dds_content).unwrap()
}

#[test]
fn test_coordinate_constraint_creation() {
    let single = CoordinateConstraint::single(5);
    assert_eq!(single, CoordinateConstraint::Single(5));

    let range = CoordinateConstraint::range(0, 10);
    assert_eq!(
        range,
        CoordinateConstraint::Indices { start: 0, end: 10, stride: None }
    );

    let range_with_stride = CoordinateConstraint::range_with_stride(0, 20, 2);
    assert_eq!(
        range_with_stride,
        CoordinateConstraint::Indices { start: 0, end: 20, stride: Some(2) }
    );

    let first = CoordinateConstraint::first();
    assert_eq!(first, CoordinateConstraint::Single(0));

    let last = CoordinateConstraint::last(100);
    assert_eq!(last, CoordinateConstraint::Single(99));
}

#[test]
fn test_coordinate_constraint_validation() {
    let constraint = CoordinateConstraint::single(5);
    assert!(constraint.validate("test", 10).is_ok());
    assert!(constraint.validate("test", 5).is_err()); // index 5 is out of bounds for size 5

    let range_constraint = CoordinateConstraint::range(0, 9);
    assert!(range_constraint.validate("test", 10).is_ok());
    assert!(range_constraint.validate("test", 5).is_err()); // end index 9 is out of bounds for size 5

    let invalid_range = CoordinateConstraint::range(10, 5);
    assert!(matches!(
        invalid_range.validate("test", 20),
        Err(QueryError::InvalidCoordinateRange(_))
    )); // start > end

    let out_of_bounds = CoordinateConstraint::single(7);
    match out_of_bounds.validate("depth", 5) {
        Err(QueryError::IndexOutOfBounds(i, name, size)) => {
            assert_eq!(i, 7);
            assert_eq!(name, "depth");
            assert_eq!(size, 5);
        }
        _ => panic!("expected the out-of-bounds error"),
    }
}

#[test]
fn test_basic_query_building() {
    let dataset = create_test_dataset();

    let query = dataset
        .query("https://example.com/data")
        .select_variable("temperature")
        .unwrap();

    assert_eq!(query.selected_variables(), &["temperature"]);

    let url = query.dods_url().unwrap();
    assert_eq!(url, "https://example.com/data.dods?temperature");
}

#[test]
fn test_multiple_variable_selection() {
    let dataset = create_test_dataset();

    let query = dataset
        .query("https://example.com/data")
        .select_variables(&["temperature", "wind_speed"])
        .unwrap();

    assert_eq!(query.selected_variables(), &["temperature", "wind_speed"]);

    let url = query.dods_url().unwrap();
    assert_eq!(url, "https://example.com/data.dods?temperature,wind_speed");
}

#[test]
fn test_coordinate_constraints() {
    let dataset = create_test_dataset();

    let query = dataset
        .query("https://example.com/data")
        .select_variable("temperature")
        .unwrap()
        .select_by_coordinate("time", CoordinateConstraint::range(0, 10))
        .unwrap()
        .select_by_coordinate("latitude", CoordinateConstraint::single(2))
        .unwrap()
        .select_by_coordinate("longitude", CoordinateConstraint::range_with_stride(0, 8, 2))
        .unwrap();

    let url = query.dods_url().unwrap();
    assert_eq!(url, "https://example.com/data.dods?temperature[0:10][2][0:2:8]");
}

#[test]
fn test_query_validation_errors() {
    let dataset = create_test_dataset();

    // variable not found
    let result = dataset
        .query("https://example.com/data")
        .select_variable("nonexistent");
    assert!(matches!(result, Err(QueryError::VariableNotFound(_))));

    // coordinate not found
    let result = dataset
        .query("https://example.com/data")
        .select_variable("temperature")
        .unwrap()
        .select_by_coordinate("nonexistent", CoordinateConstraint::single(0));
    assert!(matches!(result, Err(QueryError::CoordinateNotFound(_))));

    // coordinate not available for the selected variable
    let result = dataset
        .query("https://example.com/data")
        .select_variable("latitude")
        .unwrap()
        .select_by_coordinate("time", CoordinateConstraint::single(0));
    assert!(matches!(
        result,
        Err(QueryError::CoordinateNotAvailableForVariable(_, _))
    ));

    // index out of bounds
    let result = dataset
        .query("https://example.com/data")
        .select_variable("temperature")
        .unwrap()
        .select_by_coordinate("latitude", CoordinateConstraint::single(10));
    assert!(matches!(result, Err(QueryError::IndexOutOfBounds(_, _, _))));

    // no variables selected
    let result = dataset.query("https://example.com/data").dods_url();
    assert!(matches!(result, Err(QueryError::NoVariablesSelected)));
}

#[test]
fn test_estimated_size() {
    let dataset = create_test_dataset();

    // full temperature variable: 100 * 5 * 10 * 4 bytes
    let query = dataset
        .query("https://example.com/data")
        .select_variable("temperature")
        .unwrap();
    assert_eq!(query.estimated_size(), 20000);

    // subset: 11 * 1 * 5 * 4 bytes
    let query = dataset
        .query("https://example.com/data")
        .select_variable("temperature")
        .unwrap()
        .select_by_coordinate("time", CoordinateConstraint::range(0, 10))
        .unwrap()
        .select_by_coordinate("latitude", CoordinateConstraint::single(2))
        .unwrap()
        .select_by_coordinate("longitude", CoordinateConstraint::range_with_stride(0, 8, 2))
        .unwrap();
    assert_eq!(query.estimated_size(), 220);
}

#[test]
fn test_das_dds_urls() {
    let dataset = create_test_dataset();

    let query = dataset
        .query("https://example.com/data")
        .select_variable("temperature")
        .unwrap();

    assert_eq!(query.das_url(), "https://example.com/data.das");
    assert_eq!(query.dds_url(), "https://example.com/data.dds");
}

#[test]
fn query_urls_strip_the_base() {
    let dataset = create_test_dataset();

    // a trailing .nc is stripped from every endpoint
    let query = dataset
        .query("https://example.com/data.nc")
        .select_variable("temperature")
        .unwrap();
    assert_eq!(query.das_url(), "https://example.com/data.das");
    assert_eq!(query.dds_url(), "https://example.com/data.dds");
    assert_eq!(
        query.dods_url().unwrap(),
        "https://example.com/data.dods?temperature"
    );

    // a trailing slash likewise
    let query = dataset
        .query("https://example.com/data/")
        .select_variable("temperature")
        .unwrap();
    assert_eq!(query.das_url(), "https://example.com/data.das");
}

#[test]
fn test_query_introspection() {
    let dataset = create_test_dataset();

    let query = dataset
        .query("https://example.com/data")
        .select_variable("temperature")
        .unwrap()
        .select_by_coordinate("time", CoordinateConstraint::range(0, 10))
        .unwrap();

    assert_eq!(query.selected_variables(), &["temperature"]);

    let constraints = query.active_constraints();
    assert_eq!(constraints.len(), 1);
    assert!(constraints.iter().any(|p| p.0 == "time"));
    let time_constraint = constraints.iter().find(|p| p.0 == "time").unwrap();
    assert_eq!(time_constraint.1, CoordinateConstraint::range(0, 10));

    assert!(query.validate().is_ok());
}

#[test]
fn size_estimation_scenario() {
    // Float32 temperature[time=100][lat=5][lon=10] with time in [0:10],
    // lat a single pick, lon strided by 2 over [0:8]: 11 * 1 * 5 * 4.
    let dds_content = "Dataset {
    Grid {
     ARRAY:
        Float32 temperature[time = 100][lat = 5][lon = 10];
     MAPS:
        Int32 time[time = 100];
        Float32 lat[lat = 5];
        Float32 lon[lon = 10];
    } temperature;
} sizes;";
    let dataset = DdsDataset::from_bytes(dds_content).unwrap();
    let query = dataset
        .query("https://example.com/data")
        .select_variable("temperature")
        .unwrap()
        .select_by_coordinate("time", CoordinateConstraint::range(0, 10))
        .unwrap()
        .select_by_coordinate("lat", CoordinateConstraint::single(2))
        .unwrap()
        .select_by_coordinate("lon", CoordinateConstraint::range_with_stride(0, 8, 2))
        .unwrap();
    assert_eq!(query.estimated_size(), 11 * 1 * 5 * 4);
}
