use ez_excel_mgt::aggregate::{aggregate_range, AggregatePlan};
use ez_excel_mgt::copy::{copy_plan, copy_range_from_to, CellSnapshot};
use ez_excel_mgt::{
    Action, Column, ExcelCell, ExcelError, ExcelHeader, ExcelRange, ExcelTemplate, Mode, Table,
    Value,
};
use umya_spreadsheet::Workbook;

fn sheet_value(wb: &Workbook, name: &str, col: u32, row: u32) -> String {
    wb.sheet_by_name(name).unwrap().value((col, row))
}

fn set(wb: &mut Workbook, name: &str, col: u32, row: u32, text: &str) {
    wb.sheet_by_name_mut(name)
        .unwrap()
        .cell_mut((col, row))
        .set_value(text);
}

fn table(cols: Vec<(&str, Vec<Value>)>) -> Table {
    Table::from_columns(
        cols.into_iter()
            .map(|(n, cells)| Column { name: n.to_string(), cells })
            .collect(),
    )
    .unwrap()
}

fn sum_lines(lines: &[Vec<String>]) -> Vec<f64> {
    lines
        .iter()
        .map(|l| l.iter().map(|t| t.parse::<f64>().unwrap()).sum())
        .collect()
}

#[test]
fn fill_with_appends_records_below_headers() {
    // A sheet whose first row holds ["Name", "Age"] and nothing else.
    let mut book = umya_spreadsheet::new_file();
    set(&mut book, "Sheet1", 1, 1, "Name");
    set(&mut book, "Sheet1", 2, 1, "Age");

    let mut t = ExcelTemplate::new(book);
    t.goto_sheet("Sheet1", None).unwrap();
    t.set_header_location(ExcelHeader::First, Mode::Row).unwrap();
    let data = table(vec![
        ("Name", vec![Value::String("Ann".to_string()), Value::String("Bo".to_string())]),
        ("Age", vec![Value::Int(30), Value::Int(40)]),
    ]);
    t.fill_with(&data, Some(Mode::Row), None, None, Some(false)).unwrap();

    let wb = t.workbook();
    assert_eq!(sheet_value(wb, "Sheet1", 1, 2), "Ann");
    assert_eq!(sheet_value(wb, "Sheet1", 2, 2), "30");
    assert_eq!(sheet_value(wb, "Sheet1", 1, 3), "Bo");
    assert_eq!(sheet_value(wb, "Sheet1", 2, 3), "40");
}

#[test]
fn fill_without_overwrite_leaves_existing_rows() {
    // Rows 1..=3 are occupied; a fill without overwriting must land in
    // rows 4 and 5 and leave rows 1..=3 as they were.
    let mut book = umya_spreadsheet::new_file();
    set(&mut book, "Sheet1", 1, 1, "K");
    set(&mut book, "Sheet1", 1, 2, "keep2");
    set(&mut book, "Sheet1", 1, 3, "keep3");

    let mut t = ExcelTemplate::new(book);
    t.goto_sheet("Sheet1", None).unwrap();
    t.set_header_location(ExcelHeader::First, Mode::Row).unwrap();
    let data = table(vec![("K", vec![Value::Int(7), Value::Int(8)])]);
    t.fill_with(&data, None, None, None, Some(false)).unwrap();

    let wb = t.workbook();
    assert_eq!(sheet_value(wb, "Sheet1", 1, 1), "K");
    assert_eq!(sheet_value(wb, "Sheet1", 1, 2), "keep2");
    assert_eq!(sheet_value(wb, "Sheet1", 1, 3), "keep3");
    assert_eq!(sheet_value(wb, "Sheet1", 1, 4), "7");
    assert_eq!(sheet_value(wb, "Sheet1", 1, 5), "8");
}

#[test]
fn fill_strict_overwrite_rejects_mismatched_names() {
    let mut book = umya_spreadsheet::new_file();
    set(&mut book, "Sheet1", 1, 1, "Name");
    set(&mut book, "Sheet1", 2, 1, "Age");

    let mut t = ExcelTemplate::new(book);
    t.goto_sheet("Sheet1", None).unwrap();
    t.set_header_location(ExcelHeader::First, Mode::Row).unwrap();
    let data = table(vec![("Name", vec![Value::String("Ann".to_string())])]);
    let r = t.fill_with(&data, Some(Mode::Row), Some(true), None, Some(true));
    assert_eq!(r.err(), Some(ExcelError::ColumnMismatch));
}

#[test]
fn fill_overwrite_truncates_stale_rows() {
    // Four data rows exist; overwriting with one record leaves row 2
    // only and removes the stale rows below it.
    let mut book = umya_spreadsheet::new_file();
    set(&mut book, "Sheet1", 1, 1, "V");
    for row in 2..=5 {
        set(&mut book, "Sheet1", 1, row, "old");
    }

    let mut t = ExcelTemplate::new(book);
    t.goto_sheet("Sheet1", None).unwrap();
    t.set_header_location(ExcelHeader::First, Mode::Row).unwrap();
    let data = table(vec![("V", vec![Value::Int(9)])]);
    t.fill_with(&data, None, None, None, Some(true)).unwrap();

    let wb = t.workbook();
    assert_eq!(sheet_value(wb, "Sheet1", 1, 2), "9");
    assert_eq!(sheet_value(wb, "Sheet1", 1, 3), "");
    assert_eq!(wb.sheet_by_name("Sheet1").unwrap().highest_row(), 2);
}

#[test]
fn fill_lenient_appends_unknown_column_on_fresh_line() {
    let mut book = umya_spreadsheet::new_file();
    set(&mut book, "Sheet1", 1, 1, "A");

    let mut t = ExcelTemplate::new(book);
    t.goto_sheet("Sheet1", None).unwrap();
    t.set_header_location(ExcelHeader::First, Mode::Row).unwrap();
    let data = table(vec![
        ("A", vec![Value::Int(1)]),
        ("B", vec![Value::Int(2)]),
    ]);
    t.fill_with(&data, None, Some(false), None, Some(true)).unwrap();

    let wb = t.workbook();
    assert_eq!(sheet_value(wb, "Sheet1", 1, 2), "1");
    // The unknown column lands on the first free line: column 2.
    assert_eq!(sheet_value(wb, "Sheet1", 2, 2), "2");
}

#[test]
fn fill_duplicate_header_writes_last_occurrence() {
    // The header text "X" stands over columns 1 and 2; the later one
    // owns the name.
    let mut book = umya_spreadsheet::new_file();
    set(&mut book, "Sheet1", 1, 1, "X");
    set(&mut book, "Sheet1", 2, 1, "X");

    let mut t = ExcelTemplate::new(book);
    t.goto_sheet("Sheet1", None).unwrap();
    t.set_header_location(ExcelHeader::First, Mode::Row).unwrap();
    let data = table(vec![("X", vec![Value::Int(5)])]);
    t.fill_with(&data, None, None, None, Some(true)).unwrap();

    let wb = t.workbook();
    assert_eq!(sheet_value(wb, "Sheet1", 1, 2), "");
    assert_eq!(sheet_value(wb, "Sheet1", 2, 2), "5");
}

#[test]
fn fill_skip_null_keeps_prior_content() {
    let mut book = umya_spreadsheet::new_file();
    set(&mut book, "Sheet1", 1, 1, "A");
    set(&mut book, "Sheet1", 1, 2, "prior");
    set(&mut book, "Sheet1", 1, 3, "tail");

    let mut t = ExcelTemplate::new(book);
    t.goto_sheet("Sheet1", None).unwrap();
    t.set_header_location(ExcelHeader::First, Mode::Row).unwrap();
    let data = table(vec![("A", vec![Value::Null, Value::Int(3)])]);
    t.fill_with(&data, None, None, Some(true), Some(true)).unwrap();

    let wb = t.workbook();
    assert_eq!(sheet_value(wb, "Sheet1", 1, 2), "prior");
    assert_eq!(sheet_value(wb, "Sheet1", 1, 3), "3");
}

#[test]
fn cursor_state_errors() {
    let book = umya_spreadsheet::new_file();
    let mut t = ExcelTemplate::new(book);
    assert_eq!(t.set_value(Value::Int(1)).err(), Some(ExcelError::NoSheetSelected));
    t.goto_sheet("Sheet1", None).unwrap();
    assert_eq!(t.set_value(Value::Int(1)).err(), Some(ExcelError::NoCellSelected));
    t.goto_cell(ExcelCell::Tuple((1, 1))).unwrap();
    assert!(t.set_value(Value::Int(1)).is_ok());
    assert_eq!(sheet_value(t.workbook(), "Sheet1", 1, 1), "1");

    let mut t2 = ExcelTemplate::new(umya_spreadsheet::new_file());
    t2.goto_sheet("Nowhere", Some(ExcelCell::Tuple((1, 1)))).unwrap();
    assert_eq!(t2.set_value(Value::Int(1)).err(), Some(ExcelError::SheetNotFound));
    assert_eq!(
        t2.goto_cell(ExcelCell::String("5B".to_string())).err(),
        Some(ExcelError::InvalidReference)
    );
}

#[test]
fn add_sheet_and_sheet_names() {
    let book = umya_spreadsheet::new_file();
    let mut t = ExcelTemplate::new(book);
    t.add_sheet("Extra").unwrap();
    assert_eq!(t.add_sheet("Extra").err(), Some(ExcelError::SheetAlreadyExists));
    assert_eq!(t.sheet_names(), vec!["Sheet1".to_string(), "Extra".to_string()]);
}

#[test]
fn write_cell_by_symbolic_reference() {
    let book = umya_spreadsheet::new_file();
    let mut t = ExcelTemplate::new(book);
    t.write_cell("Sheet1", ExcelCell::String("B5".to_string()), Value::Boolean(true)).unwrap();
    assert_eq!(sheet_value(t.workbook(), "Sheet1", 2, 5), "TRUE");
}

#[test]
fn stored_text_takes_the_guessed_numeric_form() {
    // The worksheet guesses a type for what it is given: a numeric
    // "3.70" reads back in its numeric form.
    let book = umya_spreadsheet::new_file();
    let mut t = ExcelTemplate::new(book);
    t.write_cell("Sheet1", ExcelCell::Tuple((1, 1)), Value::String("3.70".to_string())).unwrap();
    assert_eq!(sheet_value(t.workbook(), "Sheet1", 1, 1), "3.7");
}

#[test]
fn set_header_location_last_row() {
    let mut book = umya_spreadsheet::new_file();
    set(&mut book, "Sheet1", 1, 3, "x");
    let mut t = ExcelTemplate::new(book);
    t.goto_sheet("Sheet1", None).unwrap();
    t.set_header_location(ExcelHeader::Last, Mode::Row).unwrap();
    t.set_value(Value::Int(8)).unwrap();
    assert_eq!(sheet_value(t.workbook(), "Sheet1", 1, 3), "8");
}

#[test]
fn remove_rows_shifts_later_rows_up() {
    let mut book = umya_spreadsheet::new_file();
    for row in 1..=4 {
        set(&mut book, "Sheet1", 1, row, &format!("r{}", row));
    }
    let mut t = ExcelTemplate::new(book);
    t.remove_rows_from("Sheet1", 2, 2).unwrap();
    let wb = t.workbook();
    assert_eq!(sheet_value(wb, "Sheet1", 1, 1), "r1");
    assert_eq!(sheet_value(wb, "Sheet1", 1, 2), "r4");
    assert_eq!(t.remove_row_from("Missing", 1).err(), Some(ExcelError::SheetNotFound));
}

#[test]
fn copy_range_without_transpose() {
    let mut src = umya_spreadsheet::new_file();
    set(&mut src, "Sheet1", 1, 1, "10");
    set(&mut src, "Sheet1", 2, 1, "20");
    set(&mut src, "Sheet1", 1, 2, "30");

    let mut t = ExcelTemplate::new(umya_spreadsheet::new_file());
    t.goto_sheet("Sheet1", Some(ExcelCell::Tuple((5, 3)))).unwrap();
    t.copy_range_from(&src, "Sheet1", &ExcelRange::String("A1:B2".to_string()), None).unwrap();

    let wb = t.workbook();
    assert_eq!(sheet_value(wb, "Sheet1", 3, 5), "10");
    assert_eq!(sheet_value(wb, "Sheet1", 4, 5), "20");
    assert_eq!(sheet_value(wb, "Sheet1", 3, 6), "30");
}

#[test]
fn copy_range_with_transpose_swaps_axes() {
    let mut src = umya_spreadsheet::new_file();
    set(&mut src, "Sheet1", 1, 1, "10");
    set(&mut src, "Sheet1", 2, 1, "20");
    set(&mut src, "Sheet1", 1, 2, "30");

    let mut t = ExcelTemplate::new(umya_spreadsheet::new_file());
    t.goto_sheet("Sheet1", Some(ExcelCell::Tuple((5, 3)))).unwrap();
    t.copy_range_from(&src, "Sheet1", &ExcelRange::String("A1:B2".to_string()), Some(true))
        .unwrap();

    let wb = t.workbook();
    // The cell at offsets (dc, dr) lands at (anchor + dr, anchor + dc).
    assert_eq!(sheet_value(wb, "Sheet1", 3, 5), "10");
    assert_eq!(sheet_value(wb, "Sheet1", 3, 6), "20");
    assert_eq!(sheet_value(wb, "Sheet1", 4, 5), "30");
}

#[test]
fn copy_with_integer_coercion_truncates() {
    // The landing half takes coerced snapshots: "3.7" becomes "3".
    let mut src = umya_spreadsheet::new_file();
    set(&mut src, "Sheet1", 1, 1, "3.7");
    set(&mut src, "Sheet1", 2, 1, "note");

    let snaps = copy_plan(&src, "Sheet1", 1, 1, 2, 1).unwrap();
    let coerced: Vec<CellSnapshot> = snaps
        .into_iter()
        .map(|s| {
            let text = match s.text.parse::<f64>() {
                Ok(v) => (v as i32).to_string(),
                Err(_) => String::new(),
            };
            CellSnapshot { col_off: s.col_off, row_off: s.row_off, text }
        })
        .collect();

    let mut t = ExcelTemplate::new(umya_spreadsheet::new_file());
    t.goto_sheet("Sheet1", Some(ExcelCell::Tuple((1, 1)))).unwrap();
    t.copy_snapshots_at_cursor(&coerced, false).unwrap();

    let wb = t.workbook();
    assert_eq!(sheet_value(wb, "Sheet1", 1, 1), "3");
    // A non-numeric source cell writes the empty string.
    assert_eq!(sheet_value(wb, "Sheet1", 2, 1), "");
}

#[test]
fn copy_between_workbooks() {
    let mut src = umya_spreadsheet::new_file();
    set(&mut src, "Sheet1", 1, 1, "v");
    let mut dst = umya_spreadsheet::new_file();
    copy_range_from_to(&src, "Sheet1", ((1, 1), (1, 1)), &mut dst, "Sheet1", (2, 3), false)
        .unwrap();
    assert_eq!(sheet_value(&dst, "Sheet1", 3, 2), "v");
    let r = copy_range_from_to(&src, "Missing", ((1, 1), (1, 1)), &mut dst, "Sheet1", (1, 1), false);
    assert_eq!(r.err(), Some(ExcelError::SheetNotFound));
}

fn numeric_square() -> Workbook {
    // [[1, 2], [3, 4]] in A1:B2.
    let mut wb = umya_spreadsheet::new_file();
    set(&mut wb, "Sheet1", 1, 1, "1");
    set(&mut wb, "Sheet1", 2, 1, "2");
    set(&mut wb, "Sheet1", 1, 2, "3");
    set(&mut wb, "Sheet1", 2, 2, "4");
    wb
}

#[test]
fn aggregate_sum_by_row_and_column() {
    let wb = numeric_square();
    match aggregate_range(&wb, "Sheet1", 1, 1, 2, 2, Action::Sum, Mode::Row, false).unwrap() {
        AggregatePlan::Sums(lines) => assert_eq!(sum_lines(&lines), vec![3.0, 7.0]),
        _ => panic!("expected sums"),
    }
    match aggregate_range(&wb, "Sheet1", 1, 1, 2, 2, Action::Sum, Mode::Column, false).unwrap() {
        AggregatePlan::Sums(lines) => assert_eq!(sum_lines(&lines), vec![4.0, 6.0]),
        _ => panic!("expected sums"),
    }
}

#[test]
fn aggregate_count_and_average() {
    let wb = numeric_square();
    match aggregate_range(&wb, "Sheet1", 1, 1, 2, 2, Action::Count, Mode::Row, false).unwrap() {
        AggregatePlan::Counts(counts) => assert_eq!(counts, vec!["2", "2"]),
        _ => panic!("expected counts"),
    }
    match aggregate_range(&wb, "Sheet1", 1, 1, 2, 2, Action::Average, Mode::Row, false).unwrap() {
        AggregatePlan::Averages(lines, divs) => {
            let sums = sum_lines(&lines);
            let avgs: Vec<f64> =
                sums.iter().zip(divs.iter()).map(|(s, d)| s / *d as f64).collect();
            assert_eq!(avgs, vec![1.5, 3.5]);
        },
        _ => panic!("expected averages"),
    }
}

#[test]
fn aggregate_skips_non_numeric_when_lenient() {
    let mut wb = numeric_square();
    set(&mut wb, "Sheet1", 2, 1, "words");
    match aggregate_range(&wb, "Sheet1", 1, 1, 2, 2, Action::Count, Mode::Row, false).unwrap() {
        AggregatePlan::Counts(counts) => assert_eq!(counts, vec!["1", "2"]),
        _ => panic!("expected counts"),
    }
}

#[test]
fn aggregate_strict_rejects_non_numeric() {
    let mut wb = numeric_square();
    set(&mut wb, "Sheet1", 2, 1, "words");
    let r = aggregate_range(&wb, "Sheet1", 1, 1, 2, 2, Action::Sum, Mode::Row, true);
    assert_eq!(r.err(), Some(ExcelError::NonNumericCell));
}

#[test]
fn average_over_non_numeric_range_divides_by_zero() {
    let mut wb = umya_spreadsheet::new_file();
    set(&mut wb, "Sheet1", 1, 1, "x");
    set(&mut wb, "Sheet1", 2, 1, "y");
    let r = aggregate_range(&wb, "Sheet1", 1, 1, 2, 1, Action::Average, Mode::Row, false);
    assert_eq!(r.err(), Some(ExcelError::DivisionByZero));
    // The same cells summed leniently still yield a (zero) sum plan.
    assert!(aggregate_range(&wb, "Sheet1", 1, 1, 2, 1, Action::Sum, Mode::Row, false).is_ok());
}

#[test]
fn aggregate_then_paste_at_cursor() {
    let wb = numeric_square();
    let results = match aggregate_range(&wb, "Sheet1", 1, 1, 2, 2, Action::Sum, Mode::Row, false)
        .unwrap()
    {
        AggregatePlan::Sums(lines) => sum_lines(&lines)
            .into_iter()
            .map(|v| v.to_string())
            .collect::<Vec<String>>(),
        _ => panic!("expected sums"),
    };
    let mut t = ExcelTemplate::new(umya_spreadsheet::new_file());
    t.goto_sheet("Sheet1", Some(ExcelCell::Tuple((1, 4)))).unwrap();
    t.paste_at_cursor(results, Mode::Row).unwrap();
    let out = t.workbook();
    assert_eq!(sheet_value(out, "Sheet1", 4, 1), "3");
    assert_eq!(sheet_value(out, "Sheet1", 4, 2), "7");
}

#[test]
fn aggregate_reversed_range_is_refused() {
    let wb = numeric_square();
    let r = aggregate_range(&wb, "Sheet1", 2, 1, 1, 2, Action::Sum, Mode::Row, false);
    assert_eq!(r.err(), Some(ExcelError::InvalidReference));
}

#[test]
fn fill_in_column_mode_runs_records_across_columns() {
    // Headers run down column A; records land on the columns after it,
    // and stale trailing columns from an earlier, wider fill go away.
    let mut book = umya_spreadsheet::new_file();
    set(&mut book, "Sheet1", 1, 1, "Name");
    set(&mut book, "Sheet1", 1, 2, "Age");
    for col in 2..=5 {
        set(&mut book, "Sheet1", col, 1, "old");
    }

    let mut t = ExcelTemplate::new(book);
    t.goto_sheet("Sheet1", None).unwrap();
    t.set_header_location(ExcelHeader::First, Mode::Column).unwrap();
    let data = table(vec![
        ("Name", vec![Value::String("Ann".to_string()), Value::String("Bo".to_string())]),
        ("Age", vec![Value::Int(30), Value::Int(40)]),
    ]);
    t.fill_with(&data, Some(Mode::Column), None, None, Some(true)).unwrap();

    let wb = t.workbook();
    assert_eq!(sheet_value(wb, "Sheet1", 2, 1), "Ann");
    assert_eq!(sheet_value(wb, "Sheet1", 2, 2), "30");
    assert_eq!(sheet_value(wb, "Sheet1", 3, 1), "Bo");
    assert_eq!(sheet_value(wb, "Sheet1", 3, 2), "40");
    assert_eq!(wb.sheet_by_name("Sheet1").unwrap().highest_column(), 3);
}
