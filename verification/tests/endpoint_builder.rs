use readap::url_builder::Constraint;
use readap::url_builder::IndexRange;
use readap::url_builder::UrlBuilder;

#[test]
fn test_basic_urls() {
    let builder = UrlBuilder::new("http://example.com/data/dataset");

    assert_eq!(builder.das_url(), "http://example.com/data/dataset.das");
    assert_eq!(builder.dds_url(), "http://example.com/data/dataset.dds");
    assert_eq!(builder.dods_url().unwrap(), "http://example.com/data/dataset.dods");
}

#[test]
fn test_trailing_slash_removal() {
    let builder = UrlBuilder::new("http://example.com/data/dataset/");

    assert_eq!(builder.das_url(), "http://example.com/data/dataset.das");
    assert_eq!(builder.dds_url(), "http://example.com/data/dataset.dds");
    assert_eq!(builder.dods_url().unwrap(), "http://example.com/data/dataset.dods");
}

#[test]
fn test_nc_extension_removal() {
    let builder = UrlBuilder::new("http://example.com/data/dataset.nc");

    assert_eq!(builder.das_url(), "http://example.com/data/dataset.das");
    assert_eq!(builder.dds_url(), "http://example.com/data/dataset.dds");
    assert_eq!(builder.dods_url().unwrap(), "http://example.com/data/dataset.dods");
}

#[test]
fn test_simple_variable_selection() {
    let builder = UrlBuilder::new("http://example.com/data/dataset")
        .add_variable("temperature")
        .add_variable("pressure");

    let url = builder.dods_url().unwrap();
    assert_eq!(url, "http://example.com/data/dataset.dods?temperature,pressure");
}

#[test]
fn test_single_index_constraint() {
    let builder = UrlBuilder::new("http://example.com/data/dataset")
        .add_variable("temperature")
        .add_single_index("temperature", 5);

    let url = builder.dods_url().unwrap();
    assert_eq!(url, "http://example.com/data/dataset.dods?temperature[5]");
}

#[test]
fn test_range_constraint() {
    let builder = UrlBuilder::new("http://example.com/data/dataset")
        .add_variable("temperature")
        .add_range("temperature", 0, 10, None);

    let url = builder.dods_url().unwrap();
    assert_eq!(url, "http://example.com/data/dataset.dods?temperature[0:10]");
}

#[test]
fn test_range_with_stride() {
    let builder = UrlBuilder::new("http://example.com/data/dataset")
        .add_variable("temperature")
        .add_range("temperature", 0, 20, Some(2));

    let url = builder.dods_url().unwrap();
    assert_eq!(url, "http://example.com/data/dataset.dods?temperature[0:2:20]");
}

#[test]
fn test_multiple_dimensions() {
    let constraint = Constraint::new(
        "temperature",
        vec![
            IndexRange::Range { start: 0, end: 10, stride: None },
            IndexRange::Single(5),
            IndexRange::Range { start: 20, end: 30, stride: Some(2) },
        ],
    );

    let builder = UrlBuilder::new("http://example.com/data/dataset")
        .add_variable("temperature")
        .add_constraint(constraint);

    let url = builder.dods_url().unwrap();
    assert_eq!(
        url,
        "http://example.com/data/dataset.dods?temperature[0:10][5][20:2:30]"
    );
}

#[test]
fn test_negative_index_bounds() {
    let url = UrlBuilder::new("https://example.com/data/ocean")
        .add_variable("temperature")
        .add_multidimensional_constraint(
            "temperature",
            vec![
                IndexRange::Range { start: 0, end: 10, stride: None },
                IndexRange::Single(5),
                IndexRange::Range { start: 20, end: 50, stride: Some(2) },
                IndexRange::Range { start: -180, end: 180, stride: None },
            ],
        )
        .dods_url()
        .unwrap();

    assert_eq!(
        url,
        "https://example.com/data/ocean.dods?temperature[0:10][5][20:2:50][-180:180]"
    );
}

#[test]
fn test_multiple_variables_with_constraints() {
    let builder = UrlBuilder::new("http://example.com/data/dataset")
        .add_variable("temperature")
        .add_variable("pressure")
        .add_range("temperature", 0, 10, None)
        .add_single_index("pressure", 3);

    let url = builder.dods_url().unwrap();
    assert_eq!(
        url,
        "http://example.com/data/dataset.dods?temperature[0:10],pressure[3]"
    );
}

#[test]
fn test_constraint_without_variable() {
    let builder =
        UrlBuilder::new("http://example.com/data/dataset").add_range("temperature", 0, 10, None);

    let url = builder.dods_url().unwrap();
    assert_eq!(url, "http://example.com/data/dataset.dods?temperature[0:10]");
}

#[test]
fn test_clear_operations() {
    let builder = UrlBuilder::new("http://example.com/data/dataset")
        .add_variable("temperature")
        .add_variable("pressure")
        .add_range("temperature", 0, 10, None)
        .clear_variables();

    let url = builder.dods_url().unwrap();
    assert_eq!(url, "http://example.com/data/dataset.dods?temperature[0:10]");

    let builder = builder.clear_constraints();
    let url = builder.dods_url().unwrap();
    assert_eq!(url, "http://example.com/data/dataset.dods");
}

#[test]
fn test_constraint_display() {
    let constraint = Constraint::single("temp", 5);
    assert_eq!(constraint.render(), "temp[5]");

    let constraint = Constraint::range("temp", 0, 10, None);
    assert_eq!(constraint.render(), "temp[0:10]");

    let constraint = Constraint::range("temp", 0, 20, Some(2));
    assert_eq!(constraint.render(), "temp[0:2:20]");
}

#[test]
fn test_index_range_display() {
    let single = IndexRange::Single(5);
    assert_eq!(single.render(), "5");

    let range = IndexRange::Range { start: 0, end: 10, stride: None };
    assert_eq!(range.render(), "0:10");

    let range_with_stride = IndexRange::Range { start: 0, end: 20, stride: Some(2) };
    assert_eq!(range_with_stride.render(), "0:2:20");
}

#[test]
fn test_builder_pattern_chaining() {
    let url = UrlBuilder::new("http://example.com/data/dataset")
        .add_variable("temperature")
        .add_variable("pressure")
        .add_range("temperature", 0, 10, None)
        .add_single_index("pressure", 5)
        .dods_url()
        .unwrap();

    assert_eq!(
        url,
        "http://example.com/data/dataset.dods?temperature[0:10],pressure[5]"
    );
}

#[test]
fn test_add_variables_batch() {
    let builder = UrlBuilder::new("http://example.com/data/dataset").add_variables(&[
        "temperature",
        "pressure",
        "humidity",
    ]);

    let url = builder.dods_url().unwrap();
    assert_eq!(
        url,
        "http://example.com/data/dataset.dods?temperature,pressure,humidity"
    );
}
