use scatters::cli::Cli;
use scatters::csv::table_from_csv_text;
use scatters::datetime::coerce_table;
use scatters::downsample::{
    downsample_series, downsample_with_choices, lttb_buckets, numeric_pairs, pairs_to_columns,
    NumVal,
};
use scatters::prepare::prepare_plot_data;
use scatters::paths::{
    classify_path, generate_output_path, is_supported_extension, path_is_supported, FileKind,
};
use scatters::render::{build_series_points, symbol_size, x_axis_type, AxisKind, JsonScalar};
use scatters::table::{Column, ColumnData};

fn base_cli() -> Cli {
    Cli {
        input_path: "data.csv".to_string(),
        output: None,
        index: None,
        use_first_column: false,
        columns: None,
        title: None,
        downsample: None,
        no_autoscale_y: false,
        animations: false,
        max_decimals: 2,
        special_marker: "|".to_string(),
        large_mode_threshold: 2000,
        debug: false,
        white_theme: false,
    }
}

#[test]
fn csv_round_trip_emits_every_point() {
    let mut t = table_from_csv_text("t,v\n1,10\n2,20\n3,30\n").unwrap();
    let cli = Cli { index: Some("t".to_string()), ..base_cli() };
    coerce_table(&mut t, &cli.special_marker);
    let pd = prepare_plot_data(&t, &cli, "data.csv").unwrap();
    assert_eq!(pd.series_list.len(), 1);
    let (name, x, y) = &pd.series_list[0];
    assert_eq!(name, "v");
    let (points, marks) = build_series_points(&x.data, &y.data, &pd.special_marker);
    assert_eq!(marks.len(), 0);
    assert_eq!(
        points,
        vec![
            (JsonScalar::Num("1".to_string()), JsonScalar::Num("10".to_string())),
            (JsonScalar::Num("2".to_string()), JsonScalar::Num("20".to_string())),
            (JsonScalar::Num("3".to_string()), JsonScalar::Num("30".to_string())),
        ]
    );
    assert_eq!(pd.title, "data.csv");
    assert!(pd.autoscale_y);
    assert!(!pd.downsampled);
}

#[test]
fn a_marker_cell_draws_a_line_and_no_point() {
    let x = ColumnData::Int(vec![Some(1), Some(2), Some(3)]);
    let y = ColumnData::Str(vec![
        Some("5".to_string()),
        Some("|".to_string()),
        Some("7".to_string()),
    ]);
    let (points, marks) = build_series_points(&x, &y, &"|".to_string());
    assert_eq!(marks, vec![JsonScalar::Int(2)]);
    assert_eq!(
        points,
        vec![
            (JsonScalar::Int(1), JsonScalar::Str("5".to_string())),
            (JsonScalar::Int(3), JsonScalar::Str("7".to_string())),
        ]
    );
}

#[test]
fn missing_cells_skip_their_rows() {
    let x = ColumnData::Int(vec![None, Some(2), Some(3)]);
    let y = ColumnData::Int(vec![Some(10), None, Some(30)]);
    let (points, marks) = build_series_points(&x, &y, &"|".to_string());
    assert_eq!(marks.len(), 0);
    assert_eq!(points, vec![(JsonScalar::Int(3), JsonScalar::Int(30))]);
}

#[test]
fn dates_emit_epoch_milliseconds() {
    let x = ColumnData::Date(vec![Some(2)]);
    let y = ColumnData::Datetime(vec![Some(1705307400000)]);
    let (points, _) = build_series_points(&x, &y, &"|".to_string());
    assert_eq!(
        points,
        vec![(JsonScalar::Int(172800000), JsonScalar::Int(1705307400000))]
    );
}

#[test]
fn symbol_size_shrinks_with_the_point_count() {
    assert_eq!(symbol_size(0), 8);
    assert_eq!(symbol_size(1000), 8);
    assert_eq!(symbol_size(1001), 5);
    assert_eq!(symbol_size(10000), 5);
    assert_eq!(symbol_size(10001), 3);
    assert_eq!(symbol_size(100000), 3);
    assert_eq!(symbol_size(100001), 2);
}

#[test]
fn the_axis_kind_follows_the_column_kind() {
    assert_eq!(x_axis_type(&ColumnData::Datetime(vec![])), AxisKind::Time);
    assert_eq!(x_axis_type(&ColumnData::Date(vec![])), AxisKind::Time);
    assert_eq!(x_axis_type(&ColumnData::Str(vec![])), AxisKind::Category);
    assert_eq!(x_axis_type(&ColumnData::Int(vec![])), AxisKind::Value);
    assert_eq!(x_axis_type(&ColumnData::Float(vec![])), AxisKind::Value);
}

#[test]
fn numeric_pairs_drop_unreadable_rows_and_strip_commas() {
    let x = ColumnData::Int(vec![Some(1), Some(2), Some(3), Some(4)]);
    let y = ColumnData::Str(vec![
        Some(" 1,234 ".to_string()),
        Some("abc".to_string()),
        None,
        Some("5".to_string()),
    ]);
    let pairs = numeric_pairs(&x, &y);
    assert_eq!(
        pairs,
        vec![
            (NumVal::Int(1), NumVal::Lit("1234".to_string())),
            (NumVal::Int(4), NumVal::Lit("5".to_string())),
        ]
    );
}

#[test]
fn downsampling_keeps_length_endpoints_and_order() {
    let n = 100000usize;
    let threshold = 1000usize;
    let mut points: Vec<(NumVal, NumVal)> = Vec::new();
    for i in 0..n {
        points.push((NumVal::Int(i as i64), NumVal::Int(((i * 7) % 1000) as i64)));
    }
    // One representative per bucket: here each bucket's largest-triangle
    // winner as a plain float computation, as a renderer would choose.
    let buckets = lttb_buckets(n, threshold);
    assert_eq!(buckets.len(), threshold - 2);
    assert_eq!(buckets[0].0, 1);
    assert_eq!(buckets[buckets.len() - 1].1, n - 1);
    let mut choices: Vec<usize> = Vec::new();
    for (lo, hi) in &buckets {
        let mut best = *lo;
        let mut best_y = f64::MIN;
        for k in *lo..*hi {
            let yv = match points[k].1 {
                NumVal::Int(v) => v as f64,
                _ => 0.0,
            };
            if yv > best_y {
                best_y = yv;
                best = k;
            }
        }
        choices.push(best);
    }
    let out = downsample_with_choices(&points, threshold, &choices).unwrap();
    assert!(out.len() <= threshold);
    assert_eq!(out.len(), threshold);
    assert_eq!(out[0], points[0]);
    assert_eq!(out[out.len() - 1], points[n - 1]);
    let mut prev = i64::MIN;
    for (xv, _) in &out {
        match xv {
            NumVal::Int(v) => {
                assert!(*v >= prev, "the X order was broken");
                prev = *v;
            }
            other => panic!("expected integer X values, got {:?}", other),
        }
    }
}

#[test]
fn a_short_series_passes_through_the_reducer_unchanged() {
    let x = ColumnData::Int(vec![Some(1), Some(2), Some(3)]);
    let y = ColumnData::Int(vec![Some(10), None, Some(30)]);
    let (xd, yd) = downsample_series(&x, &y, 1000, &Vec::new()).unwrap();
    match (xd, yd) {
        (ColumnData::Float(xs), ColumnData::Float(ys)) => {
            assert_eq!(xs, vec![Some("1".to_string()), Some("3".to_string())]);
            assert_eq!(ys, vec![Some("10".to_string()), Some("30".to_string())]);
        }
        other => panic!("expected numeric columns, got {:?}", other),
    }
}

#[test]
fn invalid_choices_are_rejected() {
    let mut points: Vec<(NumVal, NumVal)> = Vec::new();
    for i in 0..10 {
        points.push((NumVal::Int(i), NumVal::Int(i)));
    }
    let choices: Vec<usize> = vec![0; 3];
    assert!(downsample_with_choices(&points, 5, &choices).is_none());
}

#[test]
fn reduced_pairs_become_numeric_columns() {
    let pairs = vec![
        (NumVal::Int(-3), NumVal::Lit("1.5".to_string())),
        (NumVal::Int(4), NumVal::Lit("2e3".to_string())),
    ];
    let (xs, ys) = pairs_to_columns(&pairs);
    match xs {
        ColumnData::Float(v) => {
            assert_eq!(v, vec![Some("-3".to_string()), Some("4".to_string())])
        }
        other => panic!("expected a numeric column, got {:?}", other),
    }
    match ys {
        ColumnData::Float(v) => {
            assert_eq!(v, vec![Some("1.5".to_string()), Some("2e3".to_string())])
        }
        other => panic!("expected a numeric column, got {:?}", other),
    }
}

#[test]
fn prepare_resolves_titles_and_flags() {
    let t = scatters::table::Table {
        columns: vec![
            Column {
                name: "t".to_string(),
                data: ColumnData::Int(vec![Some(1)]),
            },
            Column {
                name: "v".to_string(),
                data: ColumnData::Int(vec![Some(2)]),
            },
        ],
    };
    let cli = Cli {
        index: Some("t".to_string()),
        title: Some("My plot".to_string()),
        no_autoscale_y: true,
        animations: true,
        white_theme: true,
        ..base_cli()
    };
    let pd = prepare_plot_data(&t, &cli, "file.csv").unwrap();
    assert_eq!(pd.title, "My plot");
    assert!(!pd.autoscale_y);
    assert!(pd.animations);
    assert!(pd.use_white_theme);
    assert_eq!(pd.series_list.len(), 1);
    assert_eq!(pd.series_list[0].0, "v");
}

#[test]
fn prepare_reports_a_missing_index_column() {
    let t = scatters::table::Table {
        columns: vec![Column {
            name: "t".to_string(),
            data: ColumnData::Int(vec![Some(1)]),
        }],
    };
    let cli = Cli { index: Some("nosuchcol".to_string()), ..base_cli() };
    match prepare_plot_data(&t, &cli, "file.csv") {
        Err(scatters::error::AppError::ColumnNotFound(n)) => assert_eq!(n, "nosuchcol"),
        other => panic!("expected the column-not-found failure, got {:?}", other),
    }
}

#[test]
fn output_paths_follow_the_output_directory() {
    let cli = base_cli();
    assert_eq!(generate_output_path("data/input.csv", &cli), "data/input.html");
    assert_eq!(generate_output_path("input.csv", &cli), "input.html");
    let with_dir = Cli { output: Some("out".to_string()), ..base_cli() };
    assert_eq!(generate_output_path("data/input.csv", &with_dir), "out/input.html");
    let with_slash = Cli { output: Some("out/".to_string()), ..base_cli() };
    assert_eq!(generate_output_path("data/input.csv", &with_slash), "out/input.html");
    assert_eq!(generate_output_path("a/.hidden", &cli), "a/.hidden.html");
}

#[test]
fn extensions_classify_case_insensitively() {
    assert_eq!(classify_path("a/b.CSV"), FileKind::Csv);
    assert_eq!(classify_path("a/b.parquet"), FileKind::Parquet);
    assert_eq!(classify_path("a/b.jsonl"), FileKind::Json);
    assert_eq!(classify_path("a/b.XLSX"), FileKind::Excel);
    assert_eq!(classify_path("a/b.ogg"), FileKind::Audio);
    assert_eq!(classify_path("a/b.zip"), FileKind::Unsupported);
    assert_eq!(classify_path("a/b"), FileKind::Unsupported);
    assert!(path_is_supported("x/y.Mp3"));
    assert!(path_is_supported("x/y.ogg"));
    assert!(path_is_supported("x/y.M4A"));
    assert!(is_supported_extension("flac"));
    assert!(is_supported_extension("aac"));
    assert!(!is_supported_extension("zip"));
    assert!(!path_is_supported("x/y.txt"));
}

#[test]
fn the_reducer_trips_on_long_series_and_sets_the_flag() {
    // One series above the threshold, one below.
    let mut rows = String::from("t,a,b
");
    for i in 0..10 {
        rows.push_str(&format!("{},{},{}
", i, i * 2, i * 3));
    }
    let mut t = table_from_csv_text(&rows).unwrap();
    let cli = Cli { index: Some("t".to_string()), ..base_cli() };
    coerce_table(&mut t, &cli.special_marker);
    let mut pd = prepare_plot_data(&t, &cli, "data.csv").unwrap();

    // Threshold 4: both series (length 10) trip it; reduction to 4 points.
    let mut choices: Vec<Vec<usize>> = Vec::new();
    for (_, x, y) in &pd.series_list {
        let pairs = numeric_pairs(&x.data, &y.data);
        let buckets = lttb_buckets(pairs.len(), 4);
        choices.push(buckets.iter().map(|(lo, _)| *lo).collect());
    }
    assert!(scatters::prepare::apply_downsampling(&mut pd, Some(4), &choices));
    assert!(pd.downsampled);
    for (_, x, y) in &pd.series_list {
        assert_eq!(x.data.len(), 4);
        assert_eq!(y.data.len(), 4);
        assert!(matches!(x.data, ColumnData::Float(_)));
        assert!(matches!(y.data, ColumnData::Float(_)));
    }
}

#[test]
fn the_reducer_leaves_short_series_and_clears_the_flag() {
    let mut t = table_from_csv_text("t,v
1,10
2,20
3,30
").unwrap();
    let cli = Cli { index: Some("t".to_string()), ..base_cli() };
    coerce_table(&mut t, &cli.special_marker);
    let mut pd = prepare_plot_data(&t, &cli, "data.csv").unwrap();
    let choices: Vec<Vec<usize>> = vec![Vec::new(); pd.series_list.len()];
    // Threshold 100: nothing trips; series keep their values.
    assert!(scatters::prepare::apply_downsampling(&mut pd, Some(100), &choices));
    assert!(!pd.downsampled);
    assert_eq!(pd.series_list[0].2.data.len(), 3);
    // No threshold at all: likewise.
    assert!(scatters::prepare::apply_downsampling(&mut pd, None, &choices));
    assert!(!pd.downsampled);
}

#[test]
fn a_tripped_series_with_few_readable_pairs_still_converts() {
    // Six rows, Y mostly unreadable: the series trips the threshold of 4,
    // the readable pairs (3) do not exceed it, so they pass through whole —
    // as numeric columns — and the flag still reads true.
    let x = ColumnData::Int(vec![Some(1), Some(2), Some(3), Some(4), Some(5), Some(6)]);
    let y = ColumnData::Str(vec![
        Some("10".to_string()),
        Some("oops".to_string()),
        Some("30".to_string()),
        None,
        Some("50".to_string()),
        Some("nope".to_string()),
    ]);
    let mut pd = scatters::prepare::PlotData {
        title: "t".to_string(),
        series_list: vec![(
            "y".to_string(),
            Column { name: "x".to_string(), data: x },
            Column { name: "y".to_string(), data: y },
        )],
        special_marker: "|".to_string(),
        autoscale_y: true,
        animations: false,
        max_decimals: 2,
        use_white_theme: false,
        large_mode_threshold: 2000,
        downsampled: false,
    };
    let choices: Vec<Vec<usize>> = vec![Vec::new()];
    assert!(scatters::prepare::apply_downsampling(&mut pd, Some(4), &choices));
    assert!(pd.downsampled);
    match &pd.series_list[0].2.data {
        ColumnData::Float(v) => assert_eq!(
            v,
            &vec![Some("10".to_string()), Some("30".to_string()), Some("50".to_string())]
        ),
        other => panic!("expected a numeric column, got {:?}", other),
    }
}

#[test]
fn bad_reduction_choices_change_nothing() {
    let mut rows = String::from("t,v
");
    for i in 0..10 {
        rows.push_str(&format!("{},{}
", i, i));
    }
    let mut t = table_from_csv_text(&rows).unwrap();
    let cli = Cli { index: Some("t".to_string()), ..base_cli() };
    coerce_table(&mut t, &cli.special_marker);
    let mut pd = prepare_plot_data(&t, &cli, "data.csv").unwrap();
    // Out-of-bucket choices: the reducer refuses and leaves the data alone.
    let choices: Vec<Vec<usize>> = vec![vec![0, 0]];
    assert!(!scatters::prepare::apply_downsampling(&mut pd, Some(4), &choices));
    assert!(!pd.downsampled);
    assert_eq!(pd.series_list[0].2.data.len(), 10);
}
