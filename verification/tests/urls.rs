use readap::url::ConstraintBuilder;
use readap::url::IndexSelection;
use readap::url::OpenDAPUrlBuilder;
use readap::url::Selection;
use readap::url::ValueSelection;

#[test]
fn test_url_builder() {
    let builder = OpenDAPUrlBuilder::new("http://example.com/data");

    assert_eq!(builder.das_url(), "http://example.com/data.das");
    assert_eq!(builder.dds_url(), "http://example.com/data.dds");
    assert_eq!(builder.dods_url(None), "http://example.com/data.dods");
    assert_eq!(
        builder.dods_url(Some("temp[0:10]")),
        "http://example.com/data.dods?temp[0:10]"
    );
}

#[test]
fn test_url_builder_with_extension() {
    let builder = OpenDAPUrlBuilder::new("http://example.com/data.nc");

    assert_eq!(builder.das_url(), "http://example.com/data.das");
    assert_eq!(builder.dds_url(), "http://example.com/data.dds");
    assert_eq!(builder.dods_url(None), "http://example.com/data.dods");
}

#[test]
fn test_opendap_url_builder_basic() {
    let builder = OpenDAPUrlBuilder::new("http://example.com/data");

    assert_eq!(builder.base_url(), "http://example.com/data");
    assert_eq!(builder.das_url(), "http://example.com/data.das");
    assert_eq!(builder.dds_url(), "http://example.com/data.dds");
    assert_eq!(builder.dods_url(None), "http://example.com/data.dods");
}

#[test]
fn test_opendap_url_builder_with_nc_extension() {
    let builder = OpenDAPUrlBuilder::new("http://example.com/data.nc");

    assert_eq!(builder.base_url(), "http://example.com/data");
    assert_eq!(builder.das_url(), "http://example.com/data.das");
    assert_eq!(builder.dds_url(), "http://example.com/data.dds");
    assert_eq!(builder.dods_url(None), "http://example.com/data.dods");
}

#[test]
fn test_dods_url_with_constraints() {
    let builder = OpenDAPUrlBuilder::new("http://example.com/data");

    assert_eq!(
        builder.dods_url(Some("temp[0:10],pressure[5]")),
        "http://example.com/data.dods?temp[0:10],pressure[5]"
    );

    assert_eq!(builder.dods_url(Some("")), "http://example.com/data.dods");
}

#[test]
fn test_constraint_builder_empty() {
    let builder = ConstraintBuilder::new();
    assert_eq!(builder.build(), "");
}

#[test]
fn test_constraint_builder_single_index() {
    let selections = vec![("temperature".to_string(), IndexSelection::Single(5))];
    let builder = ConstraintBuilder::new().isel(selections);
    assert_eq!(builder.build(), "temperature[5]");
}

#[test]
fn test_constraint_builder_range_index() {
    let selections = vec![("temperature".to_string(), IndexSelection::Range(0, 10))];
    let builder = ConstraintBuilder::new().isel(selections);
    assert_eq!(builder.build(), "temperature[0:10]");
}

#[test]
fn test_constraint_builder_stride_index() {
    let selections = vec![("temperature".to_string(), IndexSelection::Stride(0, 2, 10))];
    let builder = ConstraintBuilder::new().isel(selections);
    assert_eq!(builder.build(), "temperature[0:2:10]");
}

#[test]
fn stride_rendering() {
    let selections = vec![("t".to_string(), IndexSelection::Stride(0, 2, 20))];
    let builder = ConstraintBuilder::new().isel(selections);
    assert_eq!(builder.build(), "t[0:2:20]");
}

#[test]
fn multiple_rendering() {
    let selections = vec![("p".to_string(), IndexSelection::Multiple(vec![0, 5, 10]))];
    let builder = ConstraintBuilder::new().isel(selections);
    assert_eq!(builder.build(), "p[0][5][10]");
}

#[test]
fn test_constraint_builder_multiple_indices() {
    let selections = vec![(
        "temperature".to_string(),
        IndexSelection::Multiple(vec![0, 5, 10]),
    )];
    let builder = ConstraintBuilder::new().isel(selections);
    assert_eq!(builder.build(), "temperature[0][5][10]");
}

#[test]
fn test_constraint_builder_isel() {
    let selections = vec![
        ("temperature".to_string(), IndexSelection::Range(0, 10)),
        ("pressure".to_string(), IndexSelection::Single(5)),
    ];

    let builder = ConstraintBuilder::new().isel(selections);
    let constraint_str = builder.build();

    assert!(constraint_str.contains("temperature[0:10]"));
    assert!(constraint_str.contains("pressure[5]"));
}

#[test]
fn test_constraint_builder_multiple_variables() {
    let builder = ConstraintBuilder::new()
        .isel(vec![("temperature".to_string(), IndexSelection::Range(0, 10))])
        .isel(vec![("pressure".to_string(), IndexSelection::Single(5))]);

    let constraint_str = builder.build();

    assert!(constraint_str.contains("temperature[0:10]"));
    assert!(constraint_str.contains("pressure[5]"));
    assert!(constraint_str.contains(","));
}

#[test]
fn test_constraint_builder_chaining_same_variable() {
    let builder = ConstraintBuilder::new()
        .isel(vec![("temperature".to_string(), IndexSelection::Range(0, 10))])
        .isel(vec![("temperature".to_string(), IndexSelection::Single(5))]);

    let constraint_str = builder.build();

    assert!(constraint_str.contains("temperature[0:10][5]"));
}

#[test]
fn test_url_builder_with_constraint_builder() {
    let url_builder = OpenDAPUrlBuilder::new("http://example.com/data");

    let selections = vec![
        ("temperature".to_string(), IndexSelection::Range(0, 10)),
        ("pressure".to_string(), IndexSelection::Single(5)),
    ];

    let constraint_builder = ConstraintBuilder::new().isel(selections);
    let dods_url = url_builder.dods_url_with_constraints(&constraint_builder);

    assert!(dods_url.starts_with("http://example.com/data.dods?"));
    assert!(dods_url.contains("temperature[0:10]"));
    assert!(dods_url.contains("pressure[5]"));
}

#[test]
fn insertion_order_is_kept() {
    let builder = ConstraintBuilder::new()
        .isel(vec![("temp".to_string(), IndexSelection::Range(0, 10))])
        .isel(vec![("pressure".to_string(), IndexSelection::Single(5))]);
    assert_eq!(builder.build(), "temp[0:10],pressure[5]");
}

#[test]
fn value_selection_renders_placeholder() {
    // A value selection has no index form until it is resolved; the
    // rendering marks it explicitly. 2.5f64 is carried as its bits.
    let builder = ConstraintBuilder::new().sel(vec![(
        "time".to_string(),
        ValueSelection::Single(2.5f64.to_bits()),
    )]);
    assert_eq!(builder.build(), "time[VALUE_LOOKUP_NEEDED]");
}

#[test]
fn constraints_accessor_reports_entries() {
    let builder = ConstraintBuilder::new().isel(vec![(
        "temp".to_string(),
        IndexSelection::Range(0, 10),
    )]);
    let cs = builder.constraints();
    assert_eq!(cs.len(), 1);
    assert_eq!(cs[0].name, "temp");
    assert_eq!(cs[0].dimensions.len(), 1);
    assert!(matches!(
        cs[0].dimensions[0],
        Selection::Index(IndexSelection::Range(0, 10))
    ));
}

#[test]
fn resolution_requests_and_resolve() {
    // a value selection resolves through supplied nearest indices
    let builder = ConstraintBuilder::new().sel(vec![(
        "time".to_string(),
        ValueSelection::Single(2.3f64.to_bits()),
    )]);
    let requests = builder.resolution_requests();
    assert_eq!(requests.len(), 1);
    assert_eq!(requests[0].0, "time");
    assert_eq!(f64::from_bits(requests[0].1), 2.3);
    let resolved = builder.resolve_with(&vec![2]).unwrap();
    assert_eq!(resolved.build(), "time[2]");
}

#[test]
fn resolve_orders_value_ranges() {
    // a value range resolves to the ascending index pair
    let builder = ConstraintBuilder::new().sel(vec![(
        "t".to_string(),
        ValueSelection::Range(9.0f64.to_bits(), 1.0f64.to_bits()),
    )]);
    let resolved = builder.resolve_with(&vec![4, 1]).unwrap();
    assert_eq!(resolved.build(), "t[1:4]");
}

#[test]
fn resolve_is_identity_on_index_builders() {
    let builder = ConstraintBuilder::new()
        .isel(vec![("temp".to_string(), IndexSelection::Range(0, 10))])
        .isel(vec![("pressure".to_string(), IndexSelection::Single(5))]);
    assert_eq!(builder.resolution_requests().len(), 0);
    let resolved = builder.resolve_with(&vec![]).unwrap();
    assert_eq!(resolved.build(), builder.build());
}

#[test]
fn resolve_refuses_string_selections_and_bad_counts() {
    let builder = ConstraintBuilder::new().sel(vec![(
        "time".to_string(),
        ValueSelection::String("midnight".to_string()),
    )]);
    assert_eq!(
        builder.resolve_with(&vec![]).unwrap_err(),
        "String coordinate lookup not yet implemented"
    );

    let builder = ConstraintBuilder::new().sel(vec![(
        "time".to_string(),
        ValueSelection::Multiple(vec![1.0f64.to_bits(), 2.0f64.to_bits()]),
    )]);
    assert_eq!(
        builder.resolve_with(&vec![0]).unwrap_err(),
        "resolved index count does not match the value selections"
    );
    let resolved = builder.resolve_with(&vec![0, 1]).unwrap();
    assert_eq!(resolved.build(), "time[0][1]");
}

#[test]
fn url_emission_scenario() {
    let b = OpenDAPUrlBuilder::new("https://x.example/data.nc");
    assert_eq!(b.das_url(), "https://x.example/data.das");
    assert_eq!(b.dds_url(), "https://x.example/data.dds");
    assert_eq!(b.dods_url(None), "https://x.example/data.dods");
    assert_eq!(
        b.dods_url(Some("temp[0:10]")),
        "https://x.example/data.dods?temp[0:10]"
    );
}

#[test]
fn trailing_slash_is_stripped_too() {
    let b = OpenDAPUrlBuilder::new("http://example.com/data/");
    assert_eq!(b.base_url(), "http://example.com/data");
    assert_eq!(b.das_url(), "http://example.com/data.das");

    // one trailing slash, then one trailing extension
    let b = OpenDAPUrlBuilder::new("http://example.com/data.nc/");
    assert_eq!(b.base_url(), "http://example.com/data");
    assert_eq!(b.dds_url(), "http://example.com/data.dds");
}

#[test]
fn doubled_suffix_strips_once() {
    // A doubled suffix is stripped only once: stripping is not iterated.
    let b = OpenDAPUrlBuilder::new("http://example.com/data.nc.nc");
    assert_eq!(b.base_url(), "http://example.com/data.nc");
}
