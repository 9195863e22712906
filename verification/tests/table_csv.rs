use biodivine_boolean_functions::table::display::TableBooleanFormatting;
use biodivine_boolean_functions::table::from_csv::TruthTableFromCsvError;
use biodivine_boolean_functions::table::TruthTable;

/// The table of a CSV text read as a file is: the empty table for no lines, otherwise the
/// table of its records and its number of lines.
fn from_csv_lines(contents: &str) -> Result<TruthTable, TruthTableFromCsvError> {
    let file_row_count = contents.lines().count();
    if file_row_count == 0 {
        return Ok(TruthTable::new(vec![], vec![]));
    }
    TruthTable::from_csv_common(file_row_count, contents)
}

#[test]
fn test_to_csv_empty_ok() {
    let input = TruthTable {
        inputs: vec![],
        outputs: vec![],
    };

    let actual = input.to_csv();
    let expected = "".to_string();

    assert_eq!(actual, expected)
}

#[test]
fn test_to_csv_formatted_ok() {
    let input = TruthTable {
        inputs: vec!["vara".to_string(), "varb".to_string()],
        outputs: vec![true, true, true, true],
    };

    let actual = input.to_csv_formatted(
        ';',
        TableBooleanFormatting::Character,
        TableBooleanFormatting::Word,
    );
    let expected = "vara;varb;result\nF;F;true\nF;T;true\nT;F;true\nT;T;true";

    assert_eq!(actual, expected);
}

#[test]
fn test_to_csv_from_csv_equals_ok() -> Result<(), TruthTableFromCsvError> {
    let input = TruthTable {
        inputs: vec!["x0".to_string(), "x1".to_string()],
        outputs: vec![false, false, true, true],
    };

    let intermediate_csv = input.to_csv();
    let actual = TruthTable::from_csv_string(&intermediate_csv)?;

    assert_eq!(actual, input);

    Ok(())
}

#[test]
fn test_empty_table_ok() -> Result<(), TruthTableFromCsvError> {
    let table = from_csv_lines("")?;

    assert_eq!(table.inputs, Vec::<String>::new());
    assert_eq!(table.outputs, vec![]);

    Ok(())
}

#[test]
fn test_empty_string_ok() -> Result<(), TruthTableFromCsvError> {
    let contents = "";

    let table = TruthTable::from_csv_string(contents)?;

    assert_eq!(table.inputs, Vec::<String>::new());
    assert_eq!(table.outputs, vec![]);

    Ok(())
}

#[test]
fn test_onlyheaders_string_ok() -> Result<(), TruthTableFromCsvError> {
    let contents = "a,b,result";

    let actual = TruthTable::from_csv_string(contents);

    assert!(actual.is_err());
    assert!(matches!(
        actual.unwrap_err(),
        TruthTableFromCsvError::MismatchedRecordCountAndVariableCount {
            variable_count: 2,
            actual_row_count: 0,
        }
    ));

    Ok(())
}

#[test]
fn test_number_bools_unordered_inputs_ordered_rows_ok() -> Result<(), TruthTableFromCsvError> {
    let csv_contents = "b,a,whatever\n0,0,0\n1,0,0\n0,1,1\n1,1,1\n";

    let table = from_csv_lines(csv_contents)?;
    assert_eq!(table.inputs, vec!["a".to_string(), "b".to_string()]);
    assert_eq!(table.outputs, vec![false, false, true, true]);

    Ok(())
}

#[test]
fn test_headerless_number_bools_unordered_inputs_ordered_rows_ok() -> Result<(), TruthTableFromCsvError> {
    let csv_contents = "0,0,0\n1,0,0\n0,1,1\n1,1,1\n";

    let table = from_csv_lines(csv_contents)?;
    assert_eq!(table.inputs, vec!["x_0".to_string(), "x_1".to_string()]);
    assert_eq!(table.outputs, vec![false, true, false, true]);

    Ok(())
}

#[test]
fn test_number_bools_unordered_inputs_unordered_rows_ok() -> Result<(), TruthTableFromCsvError> {
    let csv_contents = "b,a,whatever\n0,0,0\n1,1,1\n0,1,1\n1,0,0\n";

    let table = from_csv_lines(csv_contents)?;
    assert_eq!(table.inputs, vec!["a".to_string(), "b".to_string()]);
    assert_eq!(table.outputs, vec![false, false, true, true]);

    Ok(())
}

#[test]
fn test_headerless_number_bools_unordered_inputs_unordered_rows_ok() -> Result<(), TruthTableFromCsvError> {
    let csv_contents = "0,0,0\n1,1,1\n0,1,1\n1,0,0\n";

    let table = from_csv_lines(csv_contents)?;
    assert_eq!(table.inputs, vec!["x_0".to_string(), "x_1".to_string()]);
    assert_eq!(table.outputs, vec![false, true, false, true]);

    Ok(())
}

#[test]
fn test_same_variable_name_nok() -> Result<(), TruthTableFromCsvError> {
    let csv_contents = "b,b,whatever\n0,0,0\n0,1,1\n0,1,1\n0,1,1\n";

    let actual = from_csv_lines(csv_contents);

    assert!(actual.is_err());
    match actual.unwrap_err() {
        TruthTableFromCsvError::DuplicateVariableName { name } => assert_eq!(name, "b".to_string()),
        other => panic!("unexpected error {:?}", other),
    }

    Ok(())
}

fn remove_first_line(s: &str) -> &str {
    match s.find('\n') {
        Some(index) => &s[index + 1..],
        None => s,
    }
}

fn with_and_without_header(contents: &str) -> [&str; 2] {
    [contents, remove_first_line(contents)]
}

#[test]
fn test_number_one_variable_both_header_modes_ok() -> Result<(), TruthTableFromCsvError> {
    for contents in with_and_without_header("x_0,whatever\n0,0\n1,1\n") {
        let table = from_csv_lines(contents)?;
        assert_eq!(table.inputs, vec!["x_0".to_string()]);
        assert_eq!(table.outputs, vec![false, true]);
    }
    Ok(())
}

#[test]
fn test_number_bools_ordered_inputs_both_header_modes_ok() -> Result<(), TruthTableFromCsvError> {
    let ordered = "x_0,x_1,whatever\n0,0,0\n0,1,0\n1,0,1\n1,1,1\n";
    let unordered = "x_0,x_1,whatever\n0,0,0\n1,1,1\n1,0,1\n0,1,0\n";
    for csv_contents in [ordered, unordered] {
        for contents in with_and_without_header(csv_contents) {
            let table = from_csv_lines(contents)?;
            assert_eq!(table.inputs, vec!["x_0".to_string(), "x_1".to_string()]);
            assert_eq!(table.outputs, vec![false, false, true, true]);
        }
    }
    Ok(())
}

#[test]
fn test_invalid_bool_both_header_modes_nok() {
    let csv_contents = "b,a,whatever\n0,0,0\n1,1,1\n0,1,1\n1,falsificate,0\n";
    for contents in with_and_without_header(csv_contents) {
        match from_csv_lines(contents) {
            Err(TruthTableFromCsvError::NonBooleanCellValue { actual }) => {
                assert_eq!(actual, "falsificate".to_string())
            }
            other => panic!("unexpected result {:?}", other),
        }
    }
}

#[test]
fn test_invalid_output_cell_nok() {
    match from_csv_lines("a,result\n0,1\n1,maybe\n") {
        Err(TruthTableFromCsvError::NonBooleanCellValue { actual }) => {
            assert_eq!(actual, "maybe".to_string())
        }
        other => panic!("unexpected result {:?}", other),
    }
}

#[test]
fn test_flexible_row_len_shorter_both_header_modes_nok() {
    let csv_contents = "b,a,whatever\n0,0,0\n1,1\n0,1,1\n1,1,0\n";
    for contents in with_and_without_header(csv_contents) {
        match from_csv_lines(contents) {
            Err(TruthTableFromCsvError::ParsingError(error)) => assert!(error
                .to_string()
                .contains("found record with 2 fields, but the previous record has 3 fields")),
            other => panic!("unexpected result {:?}", other),
        }
    }
}

#[test]
fn test_flexible_row_len_longer_both_header_modes_nok() {
    let csv_contents = "b,a,whatever\n0,0,0\n1,1,1,1\n0,1,1\n1,1,0\n";
    for contents in with_and_without_header(csv_contents) {
        match from_csv_lines(contents) {
            Err(TruthTableFromCsvError::ParsingError(error)) => assert!(error
                .to_string()
                .contains("found record with 4 fields, but the previous record has 3 fields")),
            other => panic!("unexpected result {:?}", other),
        }
    }
}

#[test]
fn test_not_enough_rows_both_header_modes_nok() {
    let csv_contents = "b,a,whatever\n0,0,0\n0,1,1\n1,1,0\n";
    for contents in with_and_without_header(csv_contents) {
        match from_csv_lines(contents) {
            Err(TruthTableFromCsvError::MismatchedRecordCountAndVariableCount {
                variable_count,
                actual_row_count,
            }) => {
                assert_eq!(variable_count, 2);
                assert_eq!(actual_row_count, 3);
            }
            other => panic!("unexpected result {:?}", other),
        }
    }
}

#[test]
fn test_too_many_rows_both_header_modes_nok() {
    let csv_contents = "b,a,whatever\n0,0,0\n0,1,1\n0,1,1\n0,1,1\n1,1,0\n";
    for contents in with_and_without_header(csv_contents) {
        match from_csv_lines(contents) {
            Err(TruthTableFromCsvError::MismatchedRecordCountAndVariableCount {
                variable_count,
                actual_row_count,
            }) => {
                assert_eq!(variable_count, 2);
                assert_eq!(actual_row_count, 5);
            }
            other => panic!("unexpected result {:?}", other),
        }
    }
}

#[test]
fn test_unexpected_eof_when_no_record_nok() {
    match TruthTable::from_csv_common(1, "") {
        Err(TruthTableFromCsvError::UnexpectedEof) => {}
        other => panic!("unexpected result {:?}", other),
    }
}

#[test]
fn test_from_csv_string_counts_trailing_newline() {
    // The text is split at each newline, so a trailing newline adds a row to the count.
    match TruthTable::from_csv_string("a,result\n0,1\n1,0\n") {
        Err(TruthTableFromCsvError::MismatchedRecordCountAndVariableCount {
            variable_count,
            actual_row_count,
        }) => {
            assert_eq!(variable_count, 1);
            assert_eq!(actual_row_count, 3);
        }
        other => panic!("unexpected result {:?}", other),
    }
    let table = TruthTable::from_csv_string("a,result\n0,1\n1,0").unwrap();
    assert_eq!(table.outputs, vec![true, false]);
}

#[test]
fn test_eof_error_nok() -> Result<(), TruthTableFromCsvError> {
    let table = TruthTable::from_csv_common(0, "");

    assert!(table.is_err());
    assert!(matches!(table.unwrap_err(), TruthTableFromCsvError::UnexpectedEof));

    Ok(())
}
