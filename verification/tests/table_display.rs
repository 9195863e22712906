use biodivine_boolean_functions::table::display::{string_to_bool, TableBooleanFormatting, TableStyle};
use biodivine_boolean_functions::table::TruthTable;

const ALL_FORMATTINGS: [TableBooleanFormatting; 4] = [
    TableBooleanFormatting::Number,
    TableBooleanFormatting::Character,
    TableBooleanFormatting::Word,
    TableBooleanFormatting::CapitalizedWord,
];

fn sample_table() -> TruthTable {
    TruthTable::new(
        vec!["ěýáíé".to_string(), "ščřžň".to_string()],
        vec![true, false, true, false],
    )
}

fn replace_placeholders(
    template: &str,
    inputs_formatting: &TableBooleanFormatting,
    output_formatting: &TableBooleanFormatting,
) -> String {
    template
        .replace('o', &format!("{: <5}", inputs_formatting.format_bool(&false)))
        .replace('i', &format!("{: <5}", inputs_formatting.format_bool(&true)))
        .replace('O', &format!("{: <6}", output_formatting.format_bool(&false)))
        .replace('I', &format!("{: <6}", output_formatting.format_bool(&true)))
}

fn check_style(style: TableStyle, template: &str) {
    for inputs_formatting in ALL_FORMATTINGS {
        for output_formatting in ALL_FORMATTINGS {
            let expected = replace_placeholders(template, &inputs_formatting, &output_formatting);
            let actual = sample_table().to_string_formatted(style, inputs_formatting, output_formatting);
            assert_eq!(expected, actual);
        }
    }
}

#[test]
fn test_modern_all_formattings() {
    check_style(
        TableStyle::Modern,
        "┌───────┬───────┬────────┐\n│ ěýáíé │ ščřžň │ result │\n├───────┼───────┼────────┤\n│ o │ o │ I │\n├───────┼───────┼────────┤\n│ o │ i │ O │\n├───────┼───────┼────────┤\n│ i │ o │ I │\n├───────┼───────┼────────┤\n│ i │ i │ O │\n└───────┴───────┴────────┘",
    );
}

#[test]
fn test_markdown_all_formattings() {
    check_style(
        TableStyle::Markdown,
        "| ěýáíé | ščřžň | result |\n|-------|-------|--------|\n| o | o | I |\n| o | i | O |\n| i | o | I |\n| i | i | O |",
    );
}

#[test]
fn test_ascii_all_formattings() {
    check_style(
        TableStyle::Ascii,
        "+-------+-------+--------+\n| ěýáíé | ščřžň | result |\n+-------+-------+--------+\n| o | o | I |\n+-------+-------+--------+\n| o | i | O |\n+-------+-------+--------+\n| i | o | I |\n+-------+-------+--------+\n| i | i | O |\n+-------+-------+--------+",
    );
}

#[test]
fn test_to_string_is_empty_style_with_words() {
    let table = sample_table();
    let expected = table.to_string_formatted(
        TableStyle::Empty,
        TableBooleanFormatting::Word,
        TableBooleanFormatting::Word,
    );
    assert_eq!(table.to_string(), expected);
}

#[test]
fn test_format_bool_each_formatting() {
    let expected = [("0", "1"), ("F", "T"), ("false", "true"), ("False", "True")];
    for (formatting, (no, yes)) in ALL_FORMATTINGS.iter().zip(expected.iter()) {
        assert_eq!(formatting.format_bool(&false), no.to_string());
        assert_eq!(formatting.format_bool(&true), yes.to_string());
    }
}

#[test]
fn test_string_to_bool_accepts_every_formatting() {
    for text in ["1", "T", "true", "True"] {
        assert_eq!(string_to_bool(text), Some(true));
    }
    for text in ["0", "F", "false", "False"] {
        assert_eq!(string_to_bool(text), Some(false));
    }
    for text in ["", "yes", "TRUE", "2", "falsificate"] {
        assert_eq!(string_to_bool(text), None);
    }
}
