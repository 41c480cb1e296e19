use ez_excel_mgt::aggregate::is_numeric_text;
use ez_excel_mgt::codec::{
    excel_col_to_index, excel_to_index, excel_to_tuple, index_to_excel, index_to_excel_col,
    parse_cell_text, parse_range_text, parse_u32, range_to_text, to_excel_coords, tuple_to_excel,
    u32_to_dec_string,
};
use ez_excel_mgt::options::{action_from_str, coerce_from_str, mode_from_str};
use ez_excel_mgt::{
    Action, Coerce, Column, ExcelCell, ExcelError, ExcelHeader, ExcelRange, Mode, Table, Value,
};

#[test]
fn col_letters_to_index_values() {
    assert_eq!(excel_col_to_index("A"), 1);
    assert_eq!(excel_col_to_index("Z"), 26);
    assert_eq!(excel_col_to_index("AA"), 27);
    assert_eq!(excel_col_to_index("AZ"), 52);
    assert_eq!(excel_col_to_index("ZZ"), 702);
    assert_eq!(excel_col_to_index("AAA"), 703);
}

#[test]
fn index_to_col_letters_values() {
    assert_eq!(index_to_excel_col(1), "A");
    assert_eq!(index_to_excel_col(26), "Z");
    assert_eq!(index_to_excel_col(27), "AA");
    assert_eq!(index_to_excel_col(52), "AZ");
    assert_eq!(index_to_excel_col(702), "ZZ");
    assert_eq!(index_to_excel_col(703), "AAA");
}

#[test]
fn col_round_trip_both_ways() {
    for s in ["A", "B", "Z", "AA", "AB", "ZZ", "ABC", "XFD"] {
        assert_eq!(index_to_excel_col(excel_col_to_index(s)), s);
    }
    for n in [1u32, 2, 25, 26, 27, 51, 52, 701, 702, 703, 16384, 1000000] {
        assert_eq!(excel_col_to_index(&index_to_excel_col(n)), n);
    }
}

#[test]
fn cell_text_round_trip() {
    assert_eq!(index_to_excel(2, 5), "B5");
    assert_eq!(excel_to_index("B5"), (2, 5));
    for (col, row) in [(1u32, 1u32), (2, 5), (26, 99), (27, 1), (703, 123456)] {
        let text = index_to_excel(col, row);
        assert_eq!(excel_to_index(&text), (col, row));
    }
}

#[test]
fn tuple_forms_swap_axes() {
    assert_eq!(tuple_to_excel(5, 2), "B5");
    assert_eq!(excel_to_tuple("B5"), (5, 2));
}

#[test]
fn single_letter_coords() {
    assert_eq!(to_excel_coords(1, 1), "A1");
    assert_eq!(to_excel_coords(2, 7), "B7");
    assert_eq!(to_excel_coords(26, 3), "Z3");
}

#[test]
fn cell_parsing_rejects_malformed_text() {
    assert_eq!(parse_cell_text("B5"), Some((2, 5)));
    assert_eq!(parse_cell_text(""), None);
    assert_eq!(parse_cell_text("B"), None);
    assert_eq!(parse_cell_text("5"), None);
    assert_eq!(parse_cell_text("5B"), None);
    assert_eq!(parse_cell_text("B5C"), None);
    assert_eq!(parse_cell_text("b5"), None);
    assert_eq!(parse_cell_text("B99999999999"), None);
}

#[test]
fn range_parsing() {
    assert_eq!(parse_range_text("A1:C3"), Some(((1, 1), (3, 3))));
    assert_eq!(parse_range_text("B2:B2"), Some(((2, 2), (2, 2))));
    assert_eq!(parse_range_text("A1C3"), None);
    assert_eq!(parse_range_text("A1:"), None);
    assert_eq!(parse_range_text(":C3"), None);
    assert_eq!(range_to_text(1, 1, 3, 3), "A1:C3");
}

#[test]
fn decimal_rendering_and_parsing() {
    assert_eq!(u32_to_dec_string(0), "0");
    assert_eq!(u32_to_dec_string(7), "7");
    assert_eq!(u32_to_dec_string(4294967295), "4294967295");
    assert_eq!(parse_u32("0"), Some(0));
    assert_eq!(parse_u32("123"), Some(123));
    assert_eq!(parse_u32("4294967295"), Some(4294967295));
    assert_eq!(parse_u32("4294967296"), None);
    assert_eq!(parse_u32(""), None);
    assert_eq!(parse_u32("12a"), None);
}

#[test]
fn value_rendering() {
    assert_eq!(Value::Null.value(), "");
    assert_eq!(Value::Int(30).value(), "30");
    assert_eq!(Value::Int(-42).value(), "-42");
    assert_eq!(Value::Int(i32::MIN).value(), "-2147483648");
    assert_eq!(Value::Boolean(true).value(), "TRUE");
    assert_eq!(Value::Boolean(false).value(), "FALSE");
    assert_eq!(Value::Float("3.5".to_string()).value(), "3.5");
    assert_eq!(Value::String("hi".to_string()).value(), "hi");
}

#[test]
fn option_parsers() {
    assert_eq!(mode_from_str("row"), Some(Mode::Row));
    assert_eq!(mode_from_str("col"), Some(Mode::Column));
    assert_eq!(mode_from_str("column"), None);
    assert_eq!(action_from_str("sum"), Some(Action::Sum));
    assert_eq!(action_from_str("count"), Some(Action::Count));
    assert_eq!(action_from_str("avg"), Some(Action::Average));
    assert_eq!(action_from_str("average"), None);
    assert_eq!(coerce_from_str("int"), Some(Coerce::Integer));
    assert_eq!(coerce_from_str("integer"), Some(Coerce::Integer));
    assert_eq!(coerce_from_str("float"), Some(Coerce::Float));
    assert_eq!(coerce_from_str("double"), Some(Coerce::Float));
    assert_eq!(coerce_from_str("str"), Some(Coerce::String));
    assert_eq!(coerce_from_str("string"), Some(Coerce::String));
    assert_eq!(coerce_from_str("none"), Some(Coerce::Unchanged));
    assert_eq!(coerce_from_str("raw"), None);
}

#[test]
fn numeric_text_recognizer_matches_float_parsing() {
    let cases = [
        "1", "12", "3.7", "-3.7", "+42", ".5", "5.", "1e3", "1E3", "2e-4", "2e+4", "1.5e2", "inf",
        "INF", "-inf", "infinity", "nan", "NaN", "", "abc", "1.2.3", "e3", ".", "-", "1e", "1e+",
        "0.0", "-0", "12abc", " 1", "1 ",
    ];
    for c in cases {
        assert_eq!(
            is_numeric_text(c),
            c.parse::<f64>().is_ok(),
            "recognizer disagrees with float parsing on {:?}",
            c
        );
    }
}

#[test]
fn table_builder_rules() {
    // Equal lengths build.
    let t = Table::from_columns(vec![
        Column { name: "a".to_string(), cells: vec![Value::Int(1), Value::Int(2)] },
        Column { name: "b".to_string(), cells: vec![Value::Int(3), Value::Int(4)] },
    ])
    .unwrap();
    assert_eq!(t.width(), 2);
    assert_eq!(t.height(), 2);

    // A non-empty column of another length is refused.
    let r = Table::from_columns(vec![
        Column { name: "a".to_string(), cells: vec![Value::Int(1), Value::Int(2)] },
        Column { name: "b".to_string(), cells: vec![Value::Int(3)] },
    ]);
    assert_eq!(r.err(), Some(ExcelError::LengthMismatch));

    // An empty column beside non-empty ones becomes all-null.
    let t = Table::from_columns(vec![
        Column { name: "a".to_string(), cells: vec![Value::Int(1), Value::Int(2)] },
        Column { name: "b".to_string(), cells: vec![] },
    ])
    .unwrap();
    assert_eq!(t.height(), 2);
    assert!(matches!(t.columns[1].cells[0], Value::Null));
    assert!(matches!(t.columns[1].cells[1], Value::Null));

    // Two columns under one name are refused.
    let r = Table::from_columns(vec![
        Column { name: "a".to_string(), cells: vec![Value::Int(1)] },
        Column { name: "a".to_string(), cells: vec![Value::Int(2)] },
    ]);
    assert_eq!(r.err(), Some(ExcelError::ColumnMismatch));

    // Separate name and value lists must be equally many.
    let r = Table::from_lists(vec!["a".to_string()], vec![vec![Value::Int(1)], vec![]]);
    assert_eq!(r.err(), Some(ExcelError::LengthMismatch));

    // Equally many names and lists with distinct names build the table.
    let t = Table::from_lists(
        vec!["a".to_string(), "b".to_string()],
        vec![vec![Value::Int(1)], vec![Value::Int(2)]],
    )
    .unwrap();
    assert_eq!(t.width(), 2);
    assert_eq!(t.height(), 1);
    assert!(matches!(t.columns[1].cells[0], Value::Int(2)));

    // A repeated name among the lists is refused.
    let r = Table::from_lists(
        vec!["a".to_string(), "a".to_string()],
        vec![vec![Value::Int(1)], vec![Value::Int(2)]],
    );
    assert_eq!(r.err(), Some(ExcelError::ColumnMismatch));
}

#[test]
fn error_messages() {
    assert_eq!(ExcelError::SheetNotFound.message(), "sheet not found");
    assert_eq!(ExcelError::DivisionByZero.message(), "division by zero");
}

#[test]
fn reference_types_round_between_forms() {
    let c = ExcelCell::Tuple((5, 2));
    assert_eq!(c.idx(), (2, 5));
    assert_eq!(c.range(), "B5");
    let c = ExcelCell::String("B5".to_string());
    assert_eq!(c.idx(), (2, 5));
    assert_eq!(c.range(), "B5");
    assert_eq!(ExcelCell::default().idx(), (1, 1));

    let r = ExcelRange::Range(((1, 1), (3, 3)));
    assert_eq!(r.idx(), ((1, 1), (3, 3)));
    assert_eq!(r.range(), "A1:C3");
    let r = ExcelRange::String("A1:C3".to_string());
    assert_eq!(r.idx(), ((1, 1), (3, 3)));

    // A header range must span a single row or column.
    let line = ExcelHeader::ExcelRange(ExcelRange::String("A1:C1".to_string()));
    assert!(line.check());
    assert_eq!(line.idx((9, 9), Mode::Row), (1, 1));
    let block = ExcelHeader::ExcelRange(ExcelRange::String("A1:C3".to_string()));
    assert!(!block.check());
    assert_eq!(ExcelHeader::Last.idx((4, 7), Mode::Row), (1, 7));
    assert_eq!(ExcelHeader::Last.idx((4, 7), Mode::Column), (4, 1));
    assert_eq!(ExcelHeader::Last.range((4, 7), Mode::Row), "A7");
}
