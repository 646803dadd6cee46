use scatters::audio::table_from_channels;
use scatters::csv::table_from_csv_text;
use scatters::datetime::coerce_table;
use scatters::error::AppError;
use scatters::excel::table_from_cells;
use scatters::table::{ColumnData, Table};

fn marker() -> String {
    "|".to_string()
}

fn str_col(t: &Table, j: usize) -> &Vec<Option<String>> {
    match &t.columns[j].data {
        ColumnData::Str(v) => v,
        other => panic!("expected a string column, got {:?}", other),
    }
}

fn float_col(t: &Table, j: usize) -> &Vec<Option<String>> {
    match &t.columns[j].data {
        ColumnData::Float(v) => v,
        other => panic!("expected a numeric column, got {:?}", other),
    }
}

fn datetime_col(t: &Table, j: usize) -> &Vec<Option<i64>> {
    match &t.columns[j].data {
        ColumnData::Datetime(v) => v,
        other => panic!("expected a datetime column, got {:?}", other),
    }
}

#[test]
fn csv_parses_header_rows_and_missing_fields() {
    let t = table_from_csv_text(" a , b ,c\n1, x ,\n2\n").unwrap();
    assert_eq!(t.columns.len(), 3);
    assert_eq!(t.columns[0].name, "a");
    assert_eq!(t.columns[1].name, "b");
    assert_eq!(t.columns[2].name, "c");
    assert_eq!(t.height(), 2);
    assert_eq!(str_col(&t, 0)[0], Some("1".to_string()));
    assert_eq!(str_col(&t, 1)[0], Some("x".to_string()));
    assert_eq!(str_col(&t, 2)[0], None);
    assert_eq!(str_col(&t, 0)[1], Some("2".to_string()));
    assert_eq!(str_col(&t, 1)[1], None);
    assert_eq!(str_col(&t, 2)[1], None);
}

#[test]
fn csv_handles_crlf_lines() {
    let t = table_from_csv_text("a,b\r\n1,2\r\n").unwrap();
    assert_eq!(t.height(), 1);
    assert_eq!(str_col(&t, 1)[0], Some("2".to_string()));
}

#[test]
fn csv_rejects_empty_text() {
    match table_from_csv_text("") {
        Err(AppError::EmptyData(_)) => {}
        other => panic!("expected the empty-data failure, got {:?}", other),
    }
}

#[test]
fn csv_rejects_duplicate_header() {
    match table_from_csv_text("a,b,a\n1,2,3\n") {
        Err(AppError::DuplicateColumn(n)) => assert_eq!(n, "a"),
        other => panic!("expected the duplicate-column failure, got {:?}", other),
    }
}

#[test]
fn numeric_coercion_converts_all_numeric_column() {
    let mut t = table_from_csv_text("v\n 1.5 \n\n-2e3\n").unwrap();
    coerce_table(&mut t, &marker());
    let cells = float_col(&t, 0);
    // Null positions stay where they were; values are the trimmed literals.
    assert_eq!(cells[0], Some("1.5".to_string()));
    assert_eq!(cells[1], None);
    assert_eq!(cells[2], Some("-2e3".to_string()));
}

#[test]
fn one_bad_value_prevents_numeric_coercion() {
    let mut t = table_from_csv_text("v\n1\n2\noops\n4\n").unwrap();
    coerce_table(&mut t, &marker());
    // The lone non-numeric, non-marker value keeps the column text.
    assert!(matches!(t.columns[0].data, ColumnData::Str(_)));
}

#[test]
fn marker_prevents_numeric_coercion() {
    let mut t = table_from_csv_text("v\n1\n2\n|\n4\n").unwrap();
    coerce_table(&mut t, &marker());
    assert!(matches!(t.columns[0].data, ColumnData::Str(_)));
}

#[test]
fn all_null_column_is_not_coerced() {
    let mut t = table_from_csv_text("v\n\n\n").unwrap();
    coerce_table(&mut t, &marker());
    assert!(matches!(t.columns[0].data, ColumnData::Str(_)));
}

#[test]
fn datetime_heuristic_parses_known_shapes() {
    let mut t = table_from_csv_text("d\n2024-01-15\n2024-01-16\n").unwrap();
    coerce_table(&mut t, &marker());
    let cells = datetime_col(&t, 0);
    assert_eq!(cells[0], Some(1705276800000));
    assert_eq!(cells[1], Some(1705363200000));
}

#[test]
fn datetime_heuristic_parses_day_first_dates() {
    let mut t = table_from_csv_text("d\n15/01/2024\n16/01/2024\n").unwrap();
    coerce_table(&mut t, &marker());
    let cells = datetime_col(&t, 0);
    assert_eq!(cells[0], Some(1705276800000));
    assert_eq!(cells[1], Some(1705363200000));
}

#[test]
fn datetime_heuristic_parses_date_with_time() {
    let mut t = table_from_csv_text("d\n2024-01-15T08:30:00\n2024-01-15T08:30:01\n").unwrap();
    coerce_table(&mut t, &marker());
    let cells = datetime_col(&t, 0);
    assert_eq!(cells[0], Some(1705307400000));
    assert_eq!(cells[1], Some(1705307401000));
}

#[test]
fn datetime_ninety_percent_rule() {
    // Nine of ten present values parse: the column converts.
    let mut text = String::from("d\n");
    for day in 10..19 {
        text.push_str(&format!("2024-01-{}\n", day));
    }
    text.push_str("garbage\n");
    let mut t = table_from_csv_text(&text).unwrap();
    coerce_table(&mut t, &marker());
    let cells = datetime_col(&t, 0);
    assert_eq!(cells[9], None);
    assert_eq!(cells[0], Some(1704844800000));

    // Eight of ten: the column stays text.
    let mut text = String::from("d\n");
    for day in 10..18 {
        text.push_str(&format!("2024-01-{}\n", day));
    }
    text.push_str("garbage\nmore garbage\n");
    let mut t = table_from_csv_text(&text).unwrap();
    coerce_table(&mut t, &marker());
    assert!(matches!(t.columns[0].data, ColumnData::Str(_)));
}

#[test]
fn datetime_values_normalize_interior_whitespace() {
    let mut t = table_from_csv_text("d
2024-01-15   08:30:00
2024-01-15	08:30:01
").unwrap();
    coerce_table(&mut t, &marker());
    let cells = datetime_col(&t, 0);
    assert_eq!(cells[0], Some(1705307400000));
    assert_eq!(cells[1], Some(1705307401000));
}

#[test]
fn rfc3339_timestamps_convert_generically() {
    let mut t =
        table_from_csv_text("d\n2024-01-15T08:30:00+00:00\n2024-01-15T09:30:00+01:00\n").unwrap();
    coerce_table(&mut t, &marker());
    let cells = datetime_col(&t, 0);
    assert_eq!(cells[0], Some(1705307400000));
    assert_eq!(cells[1], Some(1705307400000));
}

#[test]
fn purely_numeric_text_is_never_taken_for_dates() {
    let mut t = table_from_csv_text("v\n20240115\n20240116\n").unwrap();
    coerce_table(&mut t, &marker());
    assert!(matches!(t.columns[0].data, ColumnData::Float(_)));
}

#[test]
fn excel_rows_find_the_header_and_name_blank_columns() {
    let rows: Vec<Vec<Option<String>>> = vec![
        vec![None, None],
        vec![Some(" h1 ".to_string()), None],
        vec![Some("1".to_string()), Some("2".to_string())],
        vec![Some("3".to_string())],
    ];
    let t = table_from_cells(&rows).unwrap();
    assert_eq!(t.columns.len(), 2);
    assert_eq!(t.columns[0].name, "h1");
    assert_eq!(t.columns[1].name, "col_2");
    assert_eq!(t.height(), 2);
    assert_eq!(str_col(&t, 0)[0], Some("1".to_string()));
    assert_eq!(str_col(&t, 1)[0], Some("2".to_string()));
    assert_eq!(str_col(&t, 0)[1], Some("3".to_string()));
    assert_eq!(str_col(&t, 1)[1], None);
}

#[test]
fn excel_rows_with_no_values_fail() {
    let rows: Vec<Vec<Option<String>>> = vec![vec![None, None], vec![None]];
    match table_from_cells(&rows) {
        Err(AppError::SpreadsheetParse(_)) => {}
        other => panic!("expected the spreadsheet failure, got {:?}", other),
    }
}

#[test]
fn audio_channels_become_columns_with_a_sample_counter() {
    let channels: Vec<Vec<String>> = vec![
        vec!["0.5".to_string(), "0.25".to_string()],
        vec!["0.125".to_string()],
    ];
    let t = table_from_channels(&channels).unwrap();
    assert_eq!(t.columns.len(), 3);
    assert_eq!(t.columns[0].name, "sample_index");
    assert_eq!(t.columns[1].name, "channel_0");
    assert_eq!(t.columns[2].name, "channel_1");
    match &t.columns[0].data {
        ColumnData::Int(v) => assert_eq!(v, &vec![Some(0), Some(1)]),
        other => panic!("expected an integer column, got {:?}", other),
    }
    assert_eq!(float_col(&t, 1)[0], Some("0.5".to_string()));
    assert_eq!(float_col(&t, 1)[1], Some("0.25".to_string()));
    // The short channel pads with zero.
    assert_eq!(float_col(&t, 2)[1], Some("0".to_string()));
}

#[test]
fn audio_without_samples_gives_an_empty_table() {
    let channels: Vec<Vec<String>> = vec![];
    let t = table_from_channels(&channels).unwrap();
    assert_eq!(t.columns.len(), 0);
    let empty_channel: Vec<Vec<String>> = vec![Vec::new(), Vec::new()];
    let t = table_from_channels(&empty_channel).unwrap();
    assert_eq!(t.columns.len(), 0);
}

#[test]
fn many_audio_channels_all_get_their_own_column() {
    let channels: Vec<Vec<String>> = (0..12).map(|c| vec![format!("{}", c)]).collect();
    let t = table_from_channels(&channels).unwrap();
    assert_eq!(t.columns.len(), 13);
    assert_eq!(t.columns[10].name, "channel_9");
    assert_eq!(t.columns[12].name, "channel_11");
}
