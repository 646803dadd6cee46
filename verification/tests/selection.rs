use scatters::cli::Cli;
use scatters::error::AppError;
use scatters::select::{select_x_series, select_y_series};
use scatters::table::{Column, ColumnData, Table};

fn base_cli() -> Cli {
    Cli {
        input_path: "data.csv".to_string(),
        output: None,
        index: None,
        use_first_column: false,
        columns: None,
        title: None,
        downsample: None,
        no_autoscale_y: false,
        animations: false,
        max_decimals: 2,
        special_marker: "|".to_string(),
        large_mode_threshold: 2000,
        debug: false,
        white_theme: false,
    }
}

fn str_column(name: &str, vals: &[Option<&str>]) -> Column {
    Column {
        name: name.to_string(),
        data: ColumnData::Str(vals.iter().map(|v| v.map(|s| s.to_string())).collect()),
    }
}

fn float_column(name: &str, vals: &[&str]) -> Column {
    Column {
        name: name.to_string(),
        data: ColumnData::Float(vals.iter().map(|v| Some(v.to_string())).collect()),
    }
}

fn int_column(name: &str, vals: &[i64]) -> Column {
    Column {
        name: name.to_string(),
        data: ColumnData::Int(vals.iter().map(|v| Some(*v)).collect()),
    }
}

fn datetime_column(name: &str, vals: &[Option<i64>]) -> Column {
    Column {
        name: name.to_string(),
        data: ColumnData::Datetime(vals.to_vec()),
    }
}

#[test]
fn sample_index_wins_over_a_datetime_column() {
    let t = Table {
        columns: vec![
            str_column("a", &[Some("x"), Some("y")]),
            datetime_column("b", &[Some(1), Some(2)]),
            int_column("sample_index", &[0, 1]),
        ],
    };
    let (col, name) = select_x_series(&t, &base_cli()).unwrap();
    assert_eq!(name, "sample_index");
    assert_eq!(col.name, "sample_index");
    assert!(matches!(col.data, ColumnData::Int(_)));
}

#[test]
fn the_index_option_wins_over_everything() {
    let t = Table {
        columns: vec![
            str_column("a", &[Some("x"), Some("y")]),
            datetime_column("b", &[Some(1), Some(2)]),
            int_column("sample_index", &[0, 1]),
        ],
    };
    let mut cli = base_cli();
    cli.index = Some("b".to_string());
    let (col, name) = select_x_series(&t, &cli).unwrap();
    assert_eq!(name, "b");
    assert!(matches!(col.data, ColumnData::Datetime(_)));
}

#[test]
fn a_datetime_column_beats_the_row_numbers() {
    let t = Table {
        columns: vec![
            str_column("a", &[Some("x"), Some("y")]),
            datetime_column("b", &[Some(1), None]),
        ],
    };
    let (_, name) = select_x_series(&t, &base_cli()).unwrap();
    assert_eq!(name, "b");
}

#[test]
fn an_entirely_missing_datetime_column_is_passed_over() {
    let t = Table {
        columns: vec![
            str_column("a", &[Some("x"), Some("y")]),
            datetime_column("b", &[None, None]),
        ],
    };
    let (col, name) = select_x_series(&t, &base_cli()).unwrap();
    assert_eq!(name, "row_index");
    match col.data {
        ColumnData::Int(v) => assert_eq!(v, vec![Some(0), Some(1)]),
        other => panic!("expected row numbers, got {:?}", other),
    }
}

#[test]
fn no_priority_source_synthesizes_row_numbers() {
    let t = Table {
        columns: vec![str_column("a", &[Some("x"), Some("y"), Some("z")])],
    };
    let (col, name) = select_x_series(&t, &base_cli()).unwrap();
    assert_eq!(name, "row_index");
    match col.data {
        ColumnData::Int(v) => assert_eq!(v, vec![Some(0), Some(1), Some(2)]),
        other => panic!("expected row numbers, got {:?}", other),
    }
}

#[test]
fn use_first_column_picks_the_first_column() {
    let t = Table {
        columns: vec![
            str_column("a", &[Some("x")]),
            int_column("sample_index", &[0]),
        ],
    };
    let mut cli = base_cli();
    cli.use_first_column = true;
    let (_, name) = select_x_series(&t, &cli).unwrap();
    assert_eq!(name, "a");
}

#[test]
fn a_missing_index_name_is_a_column_not_found_failure() {
    let t = Table {
        columns: vec![int_column("t", &[1, 2, 3])],
    };
    let mut cli = base_cli();
    cli.index = Some("nosuchcol".to_string());
    match select_x_series(&t, &cli) {
        Err(AppError::ColumnNotFound(n)) => assert_eq!(n, "nosuchcol"),
        other => panic!("expected the column-not-found failure, got {:?}", other),
    }
}

#[test]
fn default_y_selection_filters_by_kind_and_marker() {
    let t = Table {
        columns: vec![
            float_column("t", &["1", "2"]),
            float_column("y", &["10", "20"]),
            str_column("s", &[Some("hello"), Some("world")]),
            str_column("m", &[Some(" | "), Some("5")]),
        ],
    };
    let cols = select_y_series(&t, &base_cli(), &"t".to_string()).unwrap();
    let names: Vec<&str> = cols.iter().map(|c| c.name.as_str()).collect();
    // The X column and the plain text column fall out; the numeric column
    // and the marker-bearing text column stay.
    assert_eq!(names, vec!["y", "m"]);
}

#[test]
fn requested_y_columns_resolve_in_order() {
    let t = Table {
        columns: vec![
            float_column("t", &["1"]),
            float_column("y", &["10"]),
            str_column("s", &[Some("hello")]),
        ],
    };
    let mut cli = base_cli();
    cli.columns = Some(vec!["s".to_string(), "y".to_string()]);
    let cols = select_y_series(&t, &cli, &"t".to_string()).unwrap();
    let names: Vec<&str> = cols.iter().map(|c| c.name.as_str()).collect();
    assert_eq!(names, vec!["s", "y"]);
}

#[test]
fn a_missing_requested_y_column_is_a_failure() {
    let t = Table {
        columns: vec![float_column("t", &["1"])],
    };
    let mut cli = base_cli();
    cli.columns = Some(vec!["t".to_string(), "gone".to_string()]);
    match select_y_series(&t, &cli, &"t".to_string()) {
        Err(AppError::ColumnNotFound(n)) => assert_eq!(n, "gone"),
        other => panic!("expected the column-not-found failure, got {:?}", other),
    }
}

#[test]
fn the_first_missing_y_column_is_the_one_reported() {
    let t = Table {
        columns: vec![float_column("t", &["1"]), float_column("y", &["10"])],
    };
    let mut cli = base_cli();
    cli.columns = Some(vec![
        "y".to_string(),
        "gone".to_string(),
        "also_gone".to_string(),
    ]);
    match select_y_series(&t, &cli, &"t".to_string()) {
        Err(AppError::ColumnNotFound(n)) => assert_eq!(n, "gone"),
        other => panic!("expected the column-not-found failure, got {:?}", other),
    }
}

#[test]
fn an_empty_y_selection_is_the_no_numeric_columns_failure() {
    let t = Table {
        columns: vec![
            float_column("t", &["1"]),
            str_column("s", &[Some("hello")]),
        ],
    };
    match select_y_series(&t, &base_cli(), &"t".to_string()) {
        Err(AppError::NoNumericColumns) => {}
        other => panic!("expected the no-numeric-columns failure, got {:?}", other),
    }
}
