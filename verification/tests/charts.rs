//! The chart pipelines end to end: CSV text to validated, laid-out data.
use csv_charts::bar::layout_bars;
use csv_charts::csvio::parse_records;
use csv_charts::error::ChartError;
use csv_charts::pipeline::line_chart_data;
use csv_charts::pipeline::pie_chart_data;
use csv_charts::pipeline::radar_chart_data;
use csv_charts::pipeline::scatter_chart_data;
use csv_charts::rows::load_csv;
use csv_charts::template::parse_template;
use csv_charts::xy::load_xy_records;
use csv_charts::xy::validate_xy_records;

#[test]
fn csv_records_split_into_cells() {
    let recs = parse_records("a,b\n1,2").unwrap();
    assert_eq!(recs.len(), 2);
    assert_eq!(recs[0], vec!["a".to_string(), "b".to_string()]);
    assert_eq!(recs[1], vec!["1".to_string(), "2".to_string()]);
}

#[test]
fn csv_quoted_cells_keep_commas() {
    let recs = parse_records("a,b\n\"x,y\",2").unwrap();
    assert_eq!(recs[1], vec!["x,y".to_string(), "2".to_string()]);
}

#[test]
fn csv_empty_text_has_no_records() {
    let recs = parse_records("").unwrap();
    assert!(recs.is_empty());
}

#[test]
fn csv_unequal_record_lengths_fault() {
    let r = parse_records("a,b\n1,2,3");
    assert!(matches!(r, Err(ChartError::Malformed { .. })));
}

#[test]
fn valid_table_loads_one_point_per_row() {
    let recs = parse_records("x,y\n1,2\n3,4\n-5,6").unwrap();
    assert!(validate_xy_records(&recs).is_ok());
    let pts = load_xy_records(&recs).unwrap();
    assert_eq!(pts, vec![(1, 2), (3, 4), (-5, 6)]);
}

#[test]
fn cells_are_trimmed_before_parsing() {
    let recs = parse_records("x,y\n 5 , 6").unwrap();
    assert!(validate_xy_records(&recs).is_ok());
    let pts = load_xy_records(&recs).unwrap();
    assert_eq!(pts, vec![(5, 6)]);
}

#[test]
fn scatter_three_columns_rejected() {
    let recs = parse_records("h1,h2,h3\n1,2,3").unwrap();
    let e = match validate_xy_records(&recs) {
        Err(e) => e,
        Ok(()) => panic!("three columns must not validate"),
    };
    assert_eq!(
        e.message().as_str(),
        "Line 1: Expected exactly 2 columns for x and y values."
    );
}

#[test]
fn scatter_bad_x_and_y_messages() {
    let recs = parse_records("x,y\nfoo,2").unwrap();
    let e = validate_xy_records(&recs).unwrap_err();
    assert_eq!(e.message().as_str(), "Line 1: Invalid x value. Expected an integer.");
    let recs = parse_records("x,y\n1,2\n3,bar").unwrap();
    let e = validate_xy_records(&recs).unwrap_err();
    assert_eq!(e.message().as_str(), "Line 2: Invalid y value. Expected an integer.");
}

#[test]
fn scatter_pipeline_two_files() {
    let r = scatter_chart_data("x,y\n0,0\n10,20", "x,y\n-3,4");
    let (d1, d2) = match r {
        Ok(p) => p,
        Err(_) => panic!("both tables are valid"),
    };
    assert_eq!(d1, vec![(0, 0), (10, 20)]);
    assert_eq!(d2, vec![(-3, 4)]);
}

#[test]
fn scatter_second_file_error_propagates() {
    let r = scatter_chart_data("x,y\n1,2", "a,b,c\n1,2,3");
    let e = match r {
        Err(e) => e,
        Ok(_) => panic!("second table is invalid"),
    };
    assert_eq!(
        e.message().as_str(),
        "Line 1: Expected exactly 2 columns for x and y values."
    );
}

#[test]
fn overflow_message() {
    assert_eq!(ChartError::Overflow.message().as_str(), "Value out of range.");
}

#[test]
fn line_axis_bounds_padded() {
    let l = match line_chart_data("x,y\n1,10\n5,3") {
        Ok(l) => l,
        Err(_) => panic!("valid line table"),
    };
    assert_eq!(l.points, vec![(1, 10), (5, 3)]);
    assert_eq!(l.x_bound, 6);
    assert_eq!(l.y_bound, 15);
}

#[test]
fn line_axis_bounds_fallback_when_empty() {
    let l = match line_chart_data("x,y") {
        Ok(l) => l,
        Err(_) => panic!("header-only table is valid"),
    };
    assert_eq!(l.points, vec![]);
    assert_eq!(l.x_bound, 11);
    assert_eq!(l.y_bound, 55);
}

#[test]
fn pie_quarter_and_three_quarters() {
    let l = match pie_chart_data("label,value\nA,25\nB,75") {
        Ok(l) => l,
        Err(_) => panic!("valid pie table"),
    };
    assert_eq!(l.total, 100_000_000);
    assert_eq!(l.slices.len(), 2);
    assert_eq!(l.slices[0].label.as_str(), "A");
    assert_eq!(l.slices[0].start, 0);
    assert_eq!(l.slices[0].end, 25_000_000);
    assert_eq!(l.slices[1].label.as_str(), "B");
    assert_eq!(l.slices[1].start, 25_000_000);
    assert_eq!(l.slices[1].end, 100_000_000);
    // angular spans: A covers [0, pi/2), B covers [pi/2, 2*pi)
    let tau = 2.0 * std::f64::consts::PI;
    let a_end = l.slices[0].end as f64 / l.total as f64 * tau;
    let b_start = l.slices[1].start as f64 / l.total as f64 * tau;
    let b_end = l.slices[1].end as f64 / l.total as f64 * tau;
    assert!((a_end - std::f64::consts::FRAC_PI_2).abs() < 1e-9);
    assert!((b_start - std::f64::consts::FRAC_PI_2).abs() < 1e-9);
    assert!((b_end - tau).abs() < 1e-9);
    // the values already sum to 100, so normalization changes nothing
    assert!((100.0 * l.slices[0].value as f64 / l.total as f64 - 25.0).abs() < 1e-9);
    assert!((100.0 * l.slices[1].value as f64 / l.total as f64 - 75.0).abs() < 1e-9);
}

#[test]
fn pie_normalized_values_sum_to_hundred() {
    let l = match pie_chart_data("l,v\nA,1.5\nB,2.25\nC,0.25\nD,12") {
        Ok(l) => l,
        Err(_) => panic!("valid pie table"),
    };
    let total = l.total as f64;
    let sum: f64 = l.slices.iter().map(|s| 100.0 * s.value as f64 / total).sum();
    assert!((sum - 100.0).abs() < 1e-6);
}

#[test]
fn pie_spans_are_contiguous() {
    let l = match pie_chart_data("l,v\nA,3\nB,1.5\nC,0.5\nD,5") {
        Ok(l) => l,
        Err(_) => panic!("valid pie table"),
    };
    assert_eq!(l.slices[0].start, 0);
    for i in 0..l.slices.len() - 1 {
        assert_eq!(l.slices[i].end, l.slices[i + 1].start);
    }
    assert_eq!(l.slices[l.slices.len() - 1].end, l.total);
}

#[test]
fn pie_accepts_bare_fraction_and_exponent_values() {
    let l = match pie_chart_data("l,v\nA,.5\nB,1.5e0") {
        Ok(l) => l,
        Err(_) => panic!("float-style values are valid"),
    };
    assert_eq!(l.slices[0].value, 500_000);
    assert_eq!(l.slices[1].value, 1_500_000);
    assert_eq!(l.total, 2_000_000);
}

#[test]
fn pie_all_zero_values_degenerate() {
    let r = pie_chart_data("l,v\nA,0\nB,0.0");
    let e = match r {
        Err(e) => e,
        Ok(_) => panic!("zero-sum pie must fail"),
    };
    assert!(matches!(e, ChartError::DegenerateData));
    assert_eq!(e.message().as_str(), "Degenerate data: values sum to zero.");
}

#[test]
fn pie_explicit_color_triple() {
    let l = match pie_chart_data("l,v,r,g,b\nA,10,1,2,3\nB,30,200,100,0") {
        Ok(l) => l,
        Err(_) => panic!("valid pie table with colors"),
    };
    assert_eq!(l.slices[0].color, (1, 2, 3));
    assert_eq!(l.slices[1].color, (200, 100, 0));
}

#[test]
fn pie_random_colors_still_load() {
    let l = match pie_chart_data("l,v\nA,10\nB,30") {
        Ok(l) => l,
        Err(_) => panic!("valid pie table without colors"),
    };
    assert_eq!(l.slices.len(), 2);
    assert_eq!(l.slices[0].value, 10_000_000);
    assert_eq!(l.slices[1].value, 30_000_000);
}

#[test]
fn pie_bad_value_message() {
    let e = match pie_chart_data("l,v\nA,xx") {
        Err(e) => e,
        Ok(_) => panic!("bad value must fail"),
    };
    assert_eq!(e.message().as_str(), "Line 2: Invalid value. Expected a number.");
}

#[test]
fn pie_too_few_columns_message() {
    let e = match pie_chart_data("l\nA") {
        Err(e) => e,
        Ok(_) => panic!("one column must fail"),
    };
    assert_eq!(
        e.message().as_str(),
        "Line 2: Expected at least 2 columns for label and value."
    );
}

#[test]
fn pie_bad_color_message() {
    let e = match pie_chart_data("l,v,r,g,b\nA,10,300,2,3") {
        Err(e) => e,
        Ok(_) => panic!("color out of range must fail"),
    };
    assert_eq!(
        e.message().as_str(),
        "Line 2: Invalid RGB color value at column 3. Expected a number between 0 and 255."
    );
}

#[test]
fn pie_six_columns_unsupported() {
    let e = match pie_chart_data("a,b,c,d,e,f\nA,1,2,3,4,5") {
        Err(e) => e,
        Ok(_) => panic!("six columns must fail"),
    };
    assert!(matches!(e, ChartError::UnsupportedColumns));
    assert_eq!(e.message().as_str(), "Unsupported number of columns");
}

#[test]
fn pie_running_sum_overflow() {
    let mut text = String::from("l,v");
    for _ in 0..10 {
        text.push_str("\nA,999999999999");
    }
    let e = match pie_chart_data(&text) {
        Err(e) => e,
        Ok(_) => panic!("the running sum leaves 64-bit range"),
    };
    assert!(matches!(e, ChartError::Overflow));
}

#[test]
fn radar_polygon_closes() {
    let l = match radar_chart_data("l,v\nA,1\nB,2\nC,3") {
        Ok(l) => l,
        Err(_) => panic!("valid radar table"),
    };
    assert_eq!(l.count, 3);
    assert_eq!(l.max_value, 3_000_000);
    assert_eq!(l.polygon.len(), 4);
    assert_eq!(l.polygon[0].index, 0);
    assert_eq!(l.polygon[0].value, 1_000_000);
    assert_eq!(l.polygon[1].index, 1);
    assert_eq!(l.polygon[2].index, 2);
    assert_eq!(l.polygon[3], l.polygon[0]);
}

#[test]
fn radar_bad_value_message() {
    let e = match radar_chart_data("l,v\nA,zz") {
        Err(e) => e,
        Ok(_) => panic!("bad radar value must fail"),
    };
    assert_eq!(e.message().as_str(), "Line 1: Invalid value. Expected a number.");
}

#[test]
fn radar_negative_values_keep_positive_maximum() {
    let l = match radar_chart_data("l,v\nA,-1\nB,2") {
        Ok(l) => l,
        Err(_) => panic!("a positive maximum exists"),
    };
    assert_eq!(l.max_value, 2_000_000);
    assert_eq!(l.polygon[0].value, -1_000_000);
}

#[test]
fn radar_accepts_exponent_values() {
    let l = match radar_chart_data("l,v\nA,1e3\nB,500.") {
        Ok(l) => l,
        Err(_) => panic!("float-style values are valid"),
    };
    assert_eq!(l.max_value, 1_000_000_000);
    assert_eq!(l.polygon[1].value, 500_000_000);
}

#[test]
fn radar_zero_maximum_degenerate() {
    assert!(matches!(radar_chart_data("l,v\nA,0\nB,0"), Err(ChartError::DegenerateData)));
    assert!(matches!(radar_chart_data("l,v\nA,-1\nB,-2"), Err(ChartError::DegenerateData)));
    assert!(matches!(radar_chart_data("l,v"), Err(ChartError::DegenerateData)));
}

#[test]
fn data_rows_are_header_addressed() {
    let rows = match load_csv("name,age\nAlice,30\nBob,40") {
        Ok(r) => r,
        Err(_) => panic!("valid table"),
    };
    assert_eq!(rows.len(), 2);
    assert_eq!(rows[0].headers, vec!["name".to_string(), "age".to_string()]);
    assert_eq!(rows[0].get("name").unwrap().as_str(), "Alice");
    assert_eq!(rows[0].get("age").unwrap().as_str(), "30");
    assert_eq!(rows[1].get("age").unwrap().as_str(), "40");
    assert!(rows[1].get("city").is_none());
}

#[test]
fn bar_layout_heights_and_palette() {
    let rows = load_csv("name,age\nAlice,30\nBob,x\nCara,45").unwrap();
    let l = layout_bars(&rows, "name", "age");
    assert_eq!(l.max_value, 45);
    assert_eq!(l.bars.len(), 3);
    assert_eq!(l.bars[0].label.as_str(), "Alice");
    assert_eq!(l.bars[0].height, Some(30));
    assert_eq!(l.bars[0].color_index, 0);
    assert_eq!(l.bars[1].height, None);
    assert_eq!(l.bars[1].color_index, 1);
    assert_eq!(l.bars[2].height, Some(45));
    assert_eq!(l.bars[2].color_index, 2);
}

#[test]
fn bar_palette_wraps_after_seven() {
    let mut text = String::from("name,age");
    for i in 0..9 {
        text.push_str(&format!("\np{},{}", i, i + 1));
    }
    let rows = load_csv(&text).unwrap();
    let l = layout_bars(&rows, "name", "age");
    assert_eq!(l.bars[6].color_index, 6);
    assert_eq!(l.bars[7].color_index, 0);
    assert_eq!(l.bars[8].color_index, 1);
    assert_eq!(l.max_value, 9);
}

#[test]
fn bar_empty_rows_fall_back_to_zero() {
    let rows = load_csv("name,age").unwrap();
    let l = layout_bars(&rows, "name", "age");
    assert_eq!(l.max_value, 0);
    assert_eq!(l.bars.len(), 0);
}

#[test]
fn template_table_columns() {
    let t = parse_template("type:table,columns:name|age|gender|city");
    assert_eq!(t.visualization_type.as_str(), "table");
    assert_eq!(
        t.columns,
        vec!["name".to_string(), "age".to_string(), "gender".to_string(), "city".to_string()]
    );
}

#[test]
fn template_last_key_wins() {
    let t = parse_template("type:a,type:b,columns:x");
    assert_eq!(t.visualization_type.as_str(), "b");
    assert_eq!(t.columns, vec!["x".to_string()]);
}

#[test]
fn template_value_stops_at_second_colon() {
    let t = parse_template("type:a:b,columns:x|y");
    assert_eq!(t.visualization_type.as_str(), "a");
    assert_eq!(t.columns, vec!["x".to_string(), "y".to_string()]);
}
