use readap::das::parse_das_attributes;
use readap::errors::Error;
use readap::das::parse_das_variable;
use readap::das::DasAttribute;
use readap::das::DasValue;
use readap::data::DataType;

#[test]
fn parse_attribute() {
    let input = "String long_name \"Longitude\";";
    let (_, string_value) = DasAttribute::parse(input, 0).unwrap();
    assert_eq!(string_value.data_type, DataType::String);
    assert_eq!(string_value.name, "long_name");
    let value = if let DasValue::String(s) = string_value.value {
        s
    } else {
        "".to_string()
    };
    assert_eq!(value, "Longitude");

    let input = "Int32 _FillValue 999;";
    let (_, int_value) = DasAttribute::parse(input, 0).unwrap();
    assert_eq!(int_value.data_type, DataType::Int32);
    assert_eq!(int_value.name, "_FillValue");
    let value = if let DasValue::Int32(i) = int_value.value { i } else { 0 };
    assert_eq!(value, 999);

    let input = "Float32 _FillValue 999.0;";
    let (_, float_value) = DasAttribute::parse(input, 0).unwrap();
    assert_eq!(float_value.data_type, DataType::Float32);
    assert_eq!(float_value.name, "_FillValue");
    let value: f32 = if let DasValue::Float32(t) = float_value.value {
        t.parse().unwrap()
    } else {
        0.0
    };
    assert!((value - 999.0).abs() < 0.0001);
}

#[test]
fn parse_variable() {
    let input = "    spectral_wave_density {
        String long_name \"Spectral Wave Density\";
        String short_name \"swden\";
        String standard_name \"spectral_wave_density\";
        String units \"(meter * meter)/Hz\";
        Float32 _FillValue 999.0;
    }";

    let (_, (name, attrs)) = parse_das_variable(input, 0).unwrap();
    assert_eq!(name, "spectral_wave_density");
    assert_eq!(attrs.len(), 5);
    let long_name = attrs.get("long_name").unwrap();
    assert_eq!(long_name.data_type, DataType::String);
    assert_eq!(long_name.name, "long_name");
    assert!(if let DasValue::String(s) = &long_name.value {
        s == "Spectral Wave Density"
    } else {
        false
    });

    assert!(if let DasValue::Float32(t) = &attrs.get("_FillValue").unwrap().value {
        (t.parse::<f32>().unwrap() - 999.0).abs() < 0.0001
    } else {
        false
    });
}

#[test]
fn parse_das() {
    let input = "Attributes {
    time {
        String long_name \"Epoch Time\";
        String short_name \"time\";
        String standard_name \"time\";
        String units \"seconds since 1970-01-01 00:00:00 UTC\";
    }
    frequency {
        String long_name \"Frequency\";
        String short_name \"frequency\";
        String standard_name \"frequency\";
        String units \"Hz\";
    }
}";
    let attrs = parse_das_attributes(input).unwrap();

    assert_eq!(attrs.len(), 2);
    assert!(attrs.contains_key("time"));
    assert!(attrs.contains_key("frequency"));
}

#[test]
fn parse_invalid_attribute_values() {
    // invalid integer
    let input = "Int32 _FillValue not_a_number;";
    let r = DasAttribute::parse(input, 0);
    assert!(matches!(r, Err(Error::InvalidAttributeValue(ref t)) if t == "not_a_number"));

    // invalid float
    let input = "Float32 _FillValue invalid_float;";
    assert!(matches!(
        DasAttribute::parse(input, 0),
        Err(Error::InvalidAttributeValue(_))
    ));

    // out of range for a signed byte
    let input = "Byte quality_flag 999;";
    assert!(matches!(
        DasAttribute::parse(input, 0),
        Err(Error::InvalidAttributeValue(_))
    ));

    // a structurally broken line is a plain parse error
    let input = "Int32 _FillValue 999";
    assert!(matches!(DasAttribute::parse(input, 0), Err(Error::ParseError)));
}

#[test]
fn test_parse_new_data_type_attributes() {
    let input = "Byte quality_flag 1;";
    let (_, attr) = DasAttribute::parse(input, 0).unwrap();
    assert_eq!(attr.data_type, DataType::Byte);
    assert_eq!(attr.name, "quality_flag");
    if let DasValue::Byte(val) = attr.value {
        assert_eq!(val, 1);
    } else {
        panic!("expected a Byte value");
    }

    let input = "Int16 elevation -500;";
    let (_, attr) = DasAttribute::parse(input, 0).unwrap();
    assert_eq!(attr.data_type, DataType::Int16);
    assert_eq!(attr.name, "elevation");
    if let DasValue::Int16(val) = attr.value {
        assert_eq!(val, -500);
    } else {
        panic!("expected an Int16 value");
    }

    let input = "UInt16 port_number 8080;";
    let (_, attr) = DasAttribute::parse(input, 0).unwrap();
    assert_eq!(attr.data_type, DataType::UInt16);
    assert_eq!(attr.name, "port_number");
    if let DasValue::UInt16(val) = attr.value {
        assert_eq!(val, 8080);
    } else {
        panic!("expected a UInt16 value");
    }

    let input = "UInt32 file_size 4294967295;";
    let (_, attr) = DasAttribute::parse(input, 0).unwrap();
    assert_eq!(attr.data_type, DataType::UInt32);
    assert_eq!(attr.name, "file_size");
    if let DasValue::UInt32(val) = attr.value {
        assert_eq!(val, 4294967295);
    } else {
        panic!("expected a UInt32 value");
    }

    let input = "Float64 precision_value 3.141592653589793;";
    let (_, attr) = DasAttribute::parse(input, 0).unwrap();
    assert_eq!(attr.data_type, DataType::Float64);
    assert_eq!(attr.name, "precision_value");
    if let DasValue::Float64(t) = attr.value {
        assert!((t.parse::<f64>().unwrap() - 3.141592653589793).abs() < 1e-15);
    } else {
        panic!("expected a Float64 value");
    }

    let input = "URL data_source \"http://example.com/data.nc\";";
    let (_, attr) = DasAttribute::parse(input, 0).unwrap();
    assert_eq!(attr.data_type, DataType::URL);
    assert_eq!(attr.name, "data_source");
    if let DasValue::URL(val) = attr.value {
        assert_eq!(val, "http://example.com/data.nc");
    } else {
        panic!("expected a URL value");
    }
}

#[test]
fn test_das_variable_with_new_types() {
    let input = "    sensor_data {
        Byte quality_flag 1;
        Int16 elevation -500;
        UInt16 port_number 8080;
        UInt32 file_size 4294967295;
        Float64 precision_value 3.141592653589793;
        URL data_source \"http://example.com/data.nc\";
    }";

    let (_, (name, attrs)) = parse_das_variable(input, 0).unwrap();
    assert_eq!(name, "sensor_data");
    assert_eq!(attrs.len(), 6);

    assert_eq!(attrs.get("quality_flag").unwrap().data_type, DataType::Byte);
    assert_eq!(attrs.get("elevation").unwrap().data_type, DataType::Int16);
    assert_eq!(attrs.get("port_number").unwrap().data_type, DataType::UInt16);
    assert_eq!(attrs.get("file_size").unwrap().data_type, DataType::UInt32);
    assert_eq!(attrs.get("precision_value").unwrap().data_type, DataType::Float64);
    assert_eq!(attrs.get("data_source").unwrap().data_type, DataType::URL);
}

#[test]
fn parse_real_gfs_das() {
    let input = "Attributes {
    longitude {
        String axis \"X\";
        String standard_name \"longitude\";
        String units \"degrees_east\";
        Float64 _FillValue nan;
    }
    latitude {
        String axis \"Y\";
        String standard_name \"latitude\";
        String units \"degrees_north\";
        Float64 _FillValue nan;
    }
    time {
        String axis \"T\";
        String standard_name \"forecast_reference_time\";
        String units \"hours since 2024-05-12T18:00:00\";
        String calendar \"proleptic_gregorian\";
    }
    step {
        String standard_name \"forecast_period\";
        String units \"hours\";
    }
    t2m {
        Int32 GRIB_NV 0;
        Int32 GRIB_Nx 1440;
        Int32 GRIB_Ny 721;
        String GRIB_cfName \"air_temperature\";
        String GRIB_cfVarName \"t2m\";
        String GRIB_dataType \"fc\";
        String GRIB_gridDefinitionDescription \"Latitude/longitude. Also called equidistant cylindrical, or Plate Carree\";
        String GRIB_gridType \"regular_ll\";
        Float64 GRIB_iDirectionIncrementInDegrees 0.25;
        Int32 GRIB_iScansNegatively 0;
        Float64 GRIB_jDirectionIncrementInDegrees 0.25;
        Int32 GRIB_jPointsAreConsecutive 0;
        Int32 GRIB_jScansPositively 0;
        Float64 GRIB_latitudeOfFirstGridPointInDegrees 90.0;
        Float64 GRIB_latitudeOfLastGridPointInDegrees -90.0;
        Float64 GRIB_longitudeOfFirstGridPointInDegrees 0.0;
        Float64 GRIB_longitudeOfLastGridPointInDegrees 359.75;
        Float64 GRIB_missingValue 3.4028234663852886e+38;
        String GRIB_name \"2 metre temperature\";
        Int32 GRIB_numberOfPoints 1038240;
        Int32 GRIB_paramId 167;
        String GRIB_parameterName \"Temperature\";
        String GRIB_parameterUnits \"K\";
        String GRIB_shortName \"2t\";
        String GRIB_stepRange \"0\";
        String GRIB_stepType \"instant\";
        Int32 GRIB_stepUnits 1;
        String GRIB_typeOfLevel \"heightAboveGround\";
        String GRIB_units \"K\";
        String grid_mapping \"gribfile_projection\";
        String long_name \"2 metre temperature\";
        String standard_name \"air_temperature\";
        String units \"K\";
    }
    String description \"GFS data ingested for forecasting demo\";
}";

    let attrs = parse_das_attributes(input).unwrap();

    assert!(attrs.contains_key("longitude"));
    assert!(attrs.contains_key("latitude"));
    assert!(attrs.contains_key("time"));
    assert!(attrs.contains_key("step"));
    assert!(attrs.contains_key("t2m"));

    let longitude = attrs.get("longitude").unwrap();
    assert!(longitude.contains_key("axis"));
    assert!(longitude.contains_key("standard_name"));
    assert!(longitude.contains_key("units"));

    let t2m = attrs.get("t2m").unwrap();
    assert!(t2m.contains_key("GRIB_name"));
    assert!(t2m.contains_key("units"));
    assert!(t2m.contains_key("standard_name"));

    // the loose top-level attribute lands in the reserved bucket
    let global = attrs.get("__global__").unwrap();
    assert!(global.contains_key("description"));
}

#[test]
fn das_round_trip_scenario() {
    let input = "Attributes {
    temp {
        String units \"C\";
        Float32 _FillValue 999.0;
    }
}";
    let attrs = parse_das_attributes(input).unwrap();
    let temp = attrs.get("temp").unwrap();
    match &temp.get("units").unwrap().value {
        DasValue::String(s) => assert_eq!(s, "C"),
        _ => panic!("expected a String value"),
    }
    match &temp.get("_FillValue").unwrap().value {
        DasValue::Float32(t) => assert_eq!(t.parse::<f32>().unwrap(), 999.0),
        _ => panic!("expected a Float32 value"),
    }
}

#[test]
fn float_literal_domain() {
    assert!(DasAttribute::parse("Float32 v nan;", 0).is_ok());
    assert!(DasAttribute::parse("Float32 v -nan;", 0).is_ok());
    assert!(DasAttribute::parse("Float32 v inf;", 0).is_ok());
    assert!(DasAttribute::parse("Float32 v -inf;", 0).is_ok());
    assert!(DasAttribute::parse("Float64 v 3.4028234663852886e+38;", 0).is_ok());
    assert!(DasAttribute::parse("Float64 v 1.;", 0).is_ok());
    assert!(DasAttribute::parse("Float64 v .5;", 0).is_ok());
    assert!(DasAttribute::parse("Float64 v .;", 0).is_err());
    assert!(DasAttribute::parse("Float64 v 1e;", 0).is_err());
    assert!(DasAttribute::parse("Float64 v e5;", 0).is_err());
}
