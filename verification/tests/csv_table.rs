use markplus_core::csv::{csv_table_from_records, parse_csv_to_table_ast_str, CsvReadOptions};
use markplus_core::json_value::Json;

fn get<'a>(v: &'a Json, key: &str) -> &'a Json {
    match v {
        Json::Object(m) => &m.iter().find(|(k, _)| k == key).unwrap().1,
        _ => panic!("not an object"),
    }
}

fn items(v: &Json) -> &[Json] {
    match v {
        Json::Array(a) => a.as_slice(),
        _ => panic!("not an array"),
    }
}

fn cell_text(cell: &Json) -> &str {
    match get(&items(get(cell, "children"))[0], "text") {
        Json::Str(s) => s.as_str(),
        _ => panic!("not a string"),
    }
}

#[test]
fn simple_csv_no_header() {
    let csv = "1,2,3\n4,5,6\n";
    let opts = CsvReadOptions::default();
    let v = parse_csv_to_table_ast_str(csv, &opts).expect("parse failed");
    assert_eq!(get(&v, "t"), &Json::Str("table".to_string()));
    let rows = items(get(&v, "rows"));
    assert_eq!(rows.len(), 2);
    assert_eq!(cell_text(&items(&rows[0])[0]), "1");
}

#[test]
fn csv_with_header_and_slice_cols() {
    let csv = "Name,Value,Unit\nGain,12,dB\nLoss,3,dB\n";
    let mut opts = CsvReadOptions::default();
    opts.header = true;
    opts.col_range = Some((2, 3));
    let v = parse_csv_to_table_ast_str(csv, &opts).expect("parse failed");
    assert_eq!(items(get(&v, "headers")).len(), 2);
    let rows = items(get(&v, "rows"));
    assert_eq!(cell_text(&items(&rows[0])[0]), "12");
}

#[test]
fn start_line_zero_errors() {
    let csv = "a,b\n1,2\n";
    let mut opts = CsvReadOptions::default();
    opts.start_line = 0;
    let res = parse_csv_to_table_ast_str(csv, &opts);
    assert!(res.is_err());
    assert!(res.err().unwrap().contains("start_line must be >= 1"));
}

#[test]
fn header_line_out_of_range_errors() {
    let csv = "a,b\n1,2\n";
    let mut opts = CsvReadOptions::default();
    opts.header = true;
    opts.header_line = Some(10);
    let res = parse_csv_to_table_ast_str(csv, &opts);
    assert!(res.is_err());
    assert!(res.err().unwrap().contains("header_line out of range"));
}

#[test]
fn header_line_not_available_after_start_errors() {
    let csv = "h1,h2\na,1\nb,2\n";
    let mut opts = CsvReadOptions::default();
    opts.header = true;
    opts.start_line = 2;
    opts.header_line = Some(1);
    let res = parse_csv_to_table_ast_str(csv, &opts);
    assert!(res.is_err());
    assert!(res.err().unwrap().contains("header_line out of range"));
}

#[test]
fn invalid_col_range_errors() {
    let csv = "a,b\n1,2\n";
    let mut opts = CsvReadOptions::default();
    opts.col_range = Some((2, 1));
    let res = parse_csv_to_table_ast_str(csv, &opts);
    assert!(res.is_err());
    assert!(res.err().unwrap().contains("invalid col_range"));
}

#[test]
fn row_range_filters_rows() {
    let csv = "a,b,c\n1,2,3\n4,5,6\n7,8,9\n";
    let mut opts = CsvReadOptions::default();
    opts.row_range = Some((2, 3));
    let v = parse_csv_to_table_ast_str(csv, &opts).expect("parse failed");
    let rows = items(get(&v, "rows"));
    assert_eq!(rows.len(), 2);
    assert_eq!(cell_text(&items(&rows[0])[0]), "1");
}

#[test]
fn padding_short_rows_produces_empty_cells() {
    let csv = "a,b,c\n1,2\n3,4,5\n";
    let mut opts = CsvReadOptions::default();
    opts.row_range = None;
    let v = parse_csv_to_table_ast_str(csv, &opts).expect("parse failed");
    let rows = items(get(&v, "rows"));
    assert_eq!(items(&rows[1]).len(), 3);
    assert_eq!(cell_text(&items(&rows[1])[2]), "");
}

#[test]
fn custom_delimiter_parses_semicolon() {
    let csv = "a;b;c\n1;2;3\n";
    let mut opts = CsvReadOptions::default();
    opts.delimiter = b';';
    let v = parse_csv_to_table_ast_str(csv, &opts).expect("parse failed");
    let rows = items(get(&v, "rows"));
    assert_eq!(cell_text(&items(&rows[0])[1]), "b");
}

#[test]
fn csv_header_not_available_when_row_range_drops_it() {
    let rows = vec![
        vec!["h".to_string()],
        vec!["a".to_string()],
        vec!["b".to_string()],
    ];
    let opts = CsvReadOptions {
        header: true,
        header_line: Some(3),
        row_range: Some((1, 2)),
        ..CsvReadOptions::default()
    };
    let res = csv_table_from_records(&rows, &opts);
    assert_eq!(res.err().unwrap(), "header_line not available after start_line");
}

#[test]
fn csv_empty_text_has_no_columns() {
    let res = parse_csv_to_table_ast_str("", &CsvReadOptions::default());
    assert_eq!(res.err().unwrap(), "invalid col_range");
}

#[test]
fn csv_align_counts_all_columns_and_rows_are_rectangular() {
    let csv = "a,b,c\n1\n";
    let mut opts = CsvReadOptions::default();
    opts.col_range = Some((2, 4));
    let v = parse_csv_to_table_ast_str(csv, &opts).unwrap();
    assert_eq!(items(get(&v, "align")).len(), 3);
    for row in items(get(&v, "rows")) {
        assert_eq!(items(row).len(), 3);
    }
    assert_eq!(cell_text(&items(&items(get(&v, "rows"))[0])[0]), "b");
    assert_eq!(cell_text(&items(&items(get(&v, "rows"))[1])[0]), "");
}

#[test]
fn align_has_one_entry_per_output_column() {
    let csv = "Name,Value,Unit\nGain,12,dB\n";
    let mut opts = CsvReadOptions::default();
    opts.header = true;
    opts.col_range = Some((2, 3));
    let v = parse_csv_to_table_ast_str(csv, &opts).expect("parse failed");
    assert_eq!(items(get(&v, "align")).len(), 2);
    let all = parse_csv_to_table_ast_str("a,b,c\n1,2\n", &CsvReadOptions::default()).unwrap();
    assert_eq!(items(get(&all, "align")).len(), 3);
}
