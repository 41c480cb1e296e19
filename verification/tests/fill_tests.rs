use ez_excel_mgt::fill::{
    add_table_to_sheet, delete_rows_as_of, fill_sheet_with, get_header_row, RowChoice,
};
use ez_excel_mgt::{Column, ExcelError, Table, Value};
use umya_spreadsheet::Workbook;

fn sheet_value(wb: &Workbook, name: &str, col: u32, row: u32) -> String {
    wb.sheet_by_name(name).unwrap().value((col, row))
}

fn set(wb: &mut Workbook, name: &str, col: u32, row: u32, text: &str) {
    wb.sheet_by_name_mut(name)
        .unwrap()
        .cell_mut((col, row))
        .set_value(text);
}

fn table(cols: Vec<(&str, Vec<Value>)>) -> Table {
    Table::from_columns(
        cols.into_iter()
            .map(|(n, cells)| Column { name: n.to_string(), cells })
            .collect(),
    )
    .unwrap()
}

#[test]
fn header_row_choice_resolution() {
    assert_eq!(get_header_row(None, (1, 4, 9)), Ok(4));
    assert_eq!(get_header_row(Some(RowChoice::First), (1, 4, 9)), Ok(1));
    assert_eq!(get_header_row(Some(RowChoice::Last), (1, 4, 9)), Ok(9));
    assert_eq!(get_header_row(Some(RowChoice::Index(7)), (1, 4, 9)), Ok(7));
    assert_eq!(
        get_header_row(Some(RowChoice::Index(0)), (1, 4, 9)),
        Err(ExcelError::InvalidReference)
    );
}

#[test]
fn fill_sheet_with_headers_on_first_row() {
    let mut wb = umya_spreadsheet::new_file();
    set(&mut wb, "Sheet1", 1, 1, "Name");
    set(&mut wb, "Sheet1", 2, 1, "Age");

    let data = table(vec![
        ("Name", vec![Value::String("Ann".to_string())]),
        ("Age", vec![Value::Int(30)]),
    ]);
    fill_sheet_with(&mut wb, "Sheet1", &data, Some(RowChoice::First), false, false, true).unwrap();
    assert_eq!(sheet_value(&wb, "Sheet1", 1, 2), "Ann");
    assert_eq!(sheet_value(&wb, "Sheet1", 2, 2), "30");

    let r = fill_sheet_with(&mut wb, "Missing", &data, None, false, false, false);
    assert_eq!(r.err(), Some(ExcelError::SheetNotFound));
}

#[test]
fn by_position_placement_with_headers() {
    let mut wb = umya_spreadsheet::new_file();
    // The sheet must already be as wide as the table: two columns.
    set(&mut wb, "Sheet1", 1, 1, "x");
    set(&mut wb, "Sheet1", 2, 1, "x");

    let data = table(vec![
        ("L", vec![Value::Int(1), Value::Int(2)]),
        ("R", vec![Value::Int(3), Value::Int(4)]),
    ]);
    add_table_to_sheet(&mut wb, "Sheet1", &data, 1, true, true).unwrap();
    assert_eq!(sheet_value(&wb, "Sheet1", 1, 1), "L");
    assert_eq!(sheet_value(&wb, "Sheet1", 2, 1), "R");
    assert_eq!(sheet_value(&wb, "Sheet1", 1, 2), "1");
    assert_eq!(sheet_value(&wb, "Sheet1", 2, 2), "3");
    assert_eq!(sheet_value(&wb, "Sheet1", 1, 3), "2");
    assert_eq!(sheet_value(&wb, "Sheet1", 2, 3), "4");
}

#[test]
fn by_position_width_checks() {
    let mut wb = umya_spreadsheet::new_file();
    set(&mut wb, "Sheet1", 1, 1, "only");

    let two = table(vec![
        ("L", vec![Value::Int(1)]),
        ("R", vec![Value::Int(2)]),
    ]);
    // Strict: the widths must match exactly.
    let r = add_table_to_sheet(&mut wb, "Sheet1", &two, 1, false, true);
    assert_eq!(r.err(), Some(ExcelError::ColumnMismatch));
    // Lenient: a wider table is still refused.
    let r = add_table_to_sheet(&mut wb, "Sheet1", &two, 1, false, false);
    assert_eq!(r.err(), Some(ExcelError::ColumnMismatch));
    // Lenient: a narrower table lands.
    let one = table(vec![("L", vec![Value::Int(5)])]);
    set(&mut wb, "Sheet1", 2, 1, "second");
    add_table_to_sheet(&mut wb, "Sheet1", &one, 2, false, false).unwrap();
    assert_eq!(sheet_value(&wb, "Sheet1", 1, 2), "5");
}

#[test]
fn delete_rows_from_index_downward() {
    let mut wb = umya_spreadsheet::new_file();
    for row in 1..=5 {
        set(&mut wb, "Sheet1", 1, row, &format!("r{}", row));
    }
    delete_rows_as_of(&mut wb, "Sheet1", 3);
    assert_eq!(sheet_value(&wb, "Sheet1", 1, 1), "r1");
    assert_eq!(sheet_value(&wb, "Sheet1", 1, 2), "r2");
    assert_eq!(sheet_value(&wb, "Sheet1", 1, 3), "");
    assert_eq!(wb.sheet_by_name("Sheet1").unwrap().highest_row(), 2);
}
