use biodivine_boolean_functions::parser::utils::char_is_whitespace;
use biodivine_boolean_functions::parser::error::TokenizeError;
use biodivine_boolean_functions::parser::error::TokenizeError::{
    EmptyLiteralName, MissingClosingCurlyBrace, MissingClosingParenthesis, UnexpectedClosingCurlyBrace,
    UnexpectedClosingParenthesis,
};
use biodivine_boolean_functions::parser::structs::FinalToken::{
    And, ConstantFalse, ConstantTrue, Literal, Not, Or, Parentheses,
};
use biodivine_boolean_functions::parser::structs::IntermediateToken;
use biodivine_boolean_functions::parser::tokenize::tokenize;
#[test]
fn test_charvar_ok() -> Result<(), TokenizeError> {
    let actual = tokenize("a")?;
    let expected = vec![Literal("a".to_string())];

    assert_eq!(actual, expected);

    Ok(())
}

#[test]
fn test_stringvar_short_ok() -> Result<(), TokenizeError> {
    let actual = tokenize("abcd")?;
    let expected = vec![Literal("abcd".to_string())];

    assert_eq!(actual, expected);

    Ok(())
}

#[test]
fn test_stringvar_long_ok() -> Result<(), TokenizeError> {
    let actual = tokenize("abcdefgh")?;
    let expected = vec![Literal("abcdefgh".to_string())];

    assert_eq!(actual, expected);

    Ok(())
}

#[test]
fn test_charvar_and_singlespace_ok() -> Result<(), TokenizeError> {
    let actual = tokenize("a & b")?;
    let expected = vec![Literal("a".to_string()), And, Literal("b".to_string())];

    assert_eq!(actual, expected);

    Ok(())
}

#[test]
fn test_charvar_and_nospace_ok() -> Result<(), TokenizeError> {
    let actual = tokenize("a&b")?;
    let expected = vec![Literal("a".to_string()), And, Literal("b".to_string())];

    assert_eq!(actual, expected);

    Ok(())
}

#[test]
fn test_charvar_and_crazyspace_ok() -> Result<(), TokenizeError> {
    let actual = tokenize("a       &\t\nb")?;
    let expected = vec![Literal("a".to_string()), And, Literal("b".to_string())];

    assert_eq!(actual, expected);

    Ok(())
}

#[test]
fn test_stringvar_and_singlespace_ok() -> Result<(), TokenizeError> {
    let actual = tokenize("{a} & {b}")?;
    let expected = vec![Literal("a".to_string()), And, Literal("b".to_string())];

    assert_eq!(actual, expected);

    Ok(())
}

#[test]
fn test_stringvar_and_nospace_ok() -> Result<(), TokenizeError> {
    let actual = tokenize("{a}&{b}")?;
    let expected = vec![Literal("a".to_string()), And, Literal("b".to_string())];

    assert_eq!(actual, expected);

    Ok(())
}

#[test]
fn test_stringvar_and_crazyspace_ok() -> Result<(), TokenizeError> {
    let actual = tokenize("{a}       &\n\t{b}")?;
    let expected = vec![Literal("a".to_string()), And, Literal("b".to_string())];

    assert_eq!(actual, expected);

    Ok(())
}

fn all_tokens() -> String {
    IntermediateToken::all_token_patterns().join("")
}

fn all_tokens_without_literal_delimiters() -> String {
    all_tokens()
        .replace("{", "")
        .replace("}", "")
}

#[test]
fn test_nonalphastringvar_and_singlespace_ok() -> Result<(), TokenizeError> {
    // do not contain curly braces in check
    let name = format!("{{{0}}} & {{{0}}}", all_tokens_without_literal_delimiters());
    let actual = tokenize(name.as_str())?;
    let expected = vec![
        Literal(all_tokens_without_literal_delimiters()),
        And,
        Literal(all_tokens_without_literal_delimiters()),
    ];

    assert_eq!(actual, expected);

    Ok(())
}

#[test]
fn test_nonalphastringvar_and_nospace_ok() -> Result<(), TokenizeError> {
    let name = format!("{{{0}}}&{{{0}}}", all_tokens_without_literal_delimiters());
    let actual = tokenize(name.as_str())?;
    let expected = vec![
        Literal(all_tokens_without_literal_delimiters()),
        And,
        Literal(all_tokens_without_literal_delimiters()),
    ];

    assert_eq!(actual, expected);

    Ok(())
}

#[test]
fn test_nonalphastringvar_and_crazyspace_ok() -> Result<(), TokenizeError> {
    let name = format!(
        "{{{0}}}       &\n\t{{{0}}}",
        all_tokens_without_literal_delimiters()
    );
    let actual = tokenize(name.as_str())?;
    let expected = vec![
        Literal(all_tokens_without_literal_delimiters()),
        And,
        Literal(all_tokens_without_literal_delimiters()),
    ];

    assert_eq!(actual, expected);

    Ok(())
}

#[test]
fn test_charvar_andor_simplespace_singleparentheses_ok() -> Result<(), TokenizeError> {
    let actual = tokenize("(a & b)")?;
    let expected = vec![Parentheses(vec![
        Literal("a".to_string()),
        And,
        Literal("b".to_string()),
    ])];

    assert_eq!(actual, expected);

    Ok(())
}

#[test]
fn test_charvar_andor_simplespace_mediumparentheses_ok() -> Result<(), TokenizeError> {
    let actual = tokenize("(a & b) | (c & d)")?;
    let expected = vec![
        Parentheses(vec![
            Literal("a".to_string()),
            And,
            Literal("b".to_string()),
        ]),
        Or,
        Parentheses(vec![
            Literal("c".to_string()),
            And,
            Literal("d".to_string()),
        ]),
    ];

    assert_eq!(actual, expected);

    Ok(())
}

#[test]
fn test_charvar_and_simplespace_varparentheses_ok() -> Result<(), TokenizeError> {
    let actual = tokenize("( a ) & b")?;
    let expected = vec![
        Parentheses(vec![Literal("a".to_string())]),
        And,
        Literal("b".to_string()),
    ];

    assert_eq!(actual, expected);

    Ok(())
}

#[test]
fn test_charvar_and_nospace_varparentheses_ok() -> Result<(), TokenizeError> {
    let actual = tokenize("(a)&b")?;
    let expected = vec![
        Parentheses(vec![Literal("a".to_string())]),
        And,
        Literal("b".to_string()),
    ];

    assert_eq!(actual, expected);

    Ok(())
}

#[test]
fn test_charvar_and_nospace_simplearentheses_ok() -> Result<(), TokenizeError> {
    let actual = tokenize("(a&b)")?;
    let expected = vec![Parentheses(vec![
        Literal("a".to_string()),
        And,
        Literal("b".to_string()),
    ])];

    assert_eq!(actual, expected);

    Ok(())
}

#[test]
fn test_charvar_andor_nospace_mediumparentheses_ok() -> Result<(), TokenizeError> {
    let actual = tokenize("(a&b)|(c&d)")?;
    let expected = vec![
        Parentheses(vec![
            Literal("a".to_string()),
            And,
            Literal("b".to_string()),
        ]),
        Or,
        Parentheses(vec![
            Literal("c".to_string()),
            And,
            Literal("d".to_string()),
        ]),
    ];

    assert_eq!(actual, expected);

    Ok(())
}

#[test]
fn test_charvar_alloperators_simplespace_crazyparenthesesright_ok() -> Result<(), TokenizeError>
{
    let actual = tokenize("( ! a & ( b | ( c | ( 0 & 1 ) ) ) )")?;
    let expected = vec![Parentheses(vec![
        Not,
        Literal("a".to_string()),
        And,
        Parentheses(vec![
            Literal("b".to_string()),
            Or,
            Parentheses(vec![
                Literal("c".to_string()),
                Or,
                Parentheses(vec![ConstantFalse, And, ConstantTrue]),
            ]),
        ]),
    ])];

    assert_eq!(actual, expected);

    Ok(())
}

#[test]
fn test_charvar_alloperators_nospace_crazyparenthesesright_ok() -> Result<(), TokenizeError> {
    let actual = tokenize("(!a&(b|(c|(0&1))))")?;
    let expected = vec![Parentheses(vec![
        Not,
        Literal("a".to_string()),
        And,
        Parentheses(vec![
            Literal("b".to_string()),
            Or,
            Parentheses(vec![
                Literal("c".to_string()),
                Or,
                Parentheses(vec![ConstantFalse, And, ConstantTrue]),
            ]),
        ]),
    ])];

    assert_eq!(actual, expected);

    Ok(())
}

#[test]
fn test_charvar_alloperators_simplespace_crazyparenthesesleft_ok() -> Result<(), TokenizeError>
{
    let actual = tokenize("( ( ( ( ( 0 & 1 ) | c ) | b ) & ! a ) )")?;
    let expected = vec![Parentheses(vec![Parentheses(vec![
        Parentheses(vec![
            Parentheses(vec![
                Parentheses(vec![ConstantFalse, And, ConstantTrue]),
                Or,
                Literal("c".to_string()),
            ]),
            Or,
            Literal("b".to_string()),
        ]),
        And,
        Not,
        Literal("a".to_string()),
    ])])];

    assert_eq!(actual, expected);

    Ok(())
}

#[test]
fn test_charvar_alloperators_nospace_crazyparenthesesleft_ok() -> Result<(), TokenizeError> {
    let actual = tokenize("(((((0&1)|c)|b)&!a))")?;
    let expected = vec![Parentheses(vec![Parentheses(vec![
        Parentheses(vec![
            Parentheses(vec![
                Parentheses(vec![ConstantFalse, And, ConstantTrue]),
                Or,
                Literal("c".to_string()),
            ]),
            Or,
            Literal("b".to_string()),
        ]),
        And,
        Not,
        Literal("a".to_string()),
    ])])];

    assert_eq!(actual, expected);

    Ok(())
}

#[test]
fn test_nospace_parenthesesnotclosed_minimal_nok() -> Result<(), TokenizeError> {
    let actual = tokenize("(");

    assert!(actual.is_err());
    assert_eq!(actual.unwrap_err(), MissingClosingParenthesis);

    Ok(())
}

#[test]
fn test_nospace_parenthesesnotclosed_nested_nok() -> Result<(), TokenizeError> {
    let actual = tokenize("(((()()))");

    assert!(actual.is_err());
    assert_eq!(actual.unwrap_err(), MissingClosingParenthesis);

    Ok(())
}

#[test]
fn test_singlespace_parenthesesnotclosed_minimal_nok() -> Result<(), TokenizeError> {
    let actual = tokenize(" ( ");

    assert!(actual.is_err());
    assert_eq!(actual.unwrap_err(), MissingClosingParenthesis);

    Ok(())
}

#[test]
fn test_singlespace_parenthesesnotclosed_nested_nok() -> Result<(), TokenizeError> {
    let actual = tokenize(" ( ( ( ( ) ( ) ) )");

    assert!(actual.is_err());
    assert_eq!(actual.unwrap_err(), MissingClosingParenthesis);

    Ok(())
}

#[test]
fn test_nospace_parenthesesnotopened_minimal_nok() -> Result<(), TokenizeError> {
    let actual = tokenize(")");

    assert!(actual.is_err());
    assert_eq!(actual.unwrap_err(), UnexpectedClosingParenthesis);

    Ok(())
}

#[test]
fn test_nospace_parenthesesnotopened_nested_nok() -> Result<(), TokenizeError> {
    let actual = tokenize("(((()))))");

    assert!(actual.is_err());
    assert_eq!(actual.unwrap_err(), UnexpectedClosingParenthesis);

    Ok(())
}

#[test]
fn test_singlespace_parenthesesnotopened_minimal_nok() -> Result<(), TokenizeError> {
    let actual = tokenize(" ) ");

    assert!(actual.is_err());
    assert_eq!(actual.unwrap_err(), UnexpectedClosingParenthesis);

    Ok(())
}

#[test]
fn test_singlespace_parenthesesnotopened_nested_nok() -> Result<(), TokenizeError> {
    let actual = tokenize(" ( ( ( ( ) ) ) ) )");

    assert!(actual.is_err());
    assert_eq!(actual.unwrap_err(), UnexpectedClosingParenthesis);

    Ok(())
}

#[test]
fn test_bracenotopened_nok() -> Result<(), TokenizeError> {
    let actual = tokenize("}");

    assert!(actual.is_err());
    assert_eq!(actual.unwrap_err(), UnexpectedClosingCurlyBrace);

    Ok(())
}

#[test]
fn test_bracenotclosed_empty_nok() -> Result<(), TokenizeError> {
    let actual = tokenize("{");

    assert!(actual.is_err());
    assert_eq!(actual.unwrap_err(), MissingClosingCurlyBrace);

    Ok(())
}

#[test]
fn test_bracenotclosed_nonempty_nok() -> Result<(), TokenizeError> {
    let actual = tokenize("{abc&&");

    assert!(actual.is_err());
    assert_eq!(actual.unwrap_err(), MissingClosingCurlyBrace);

    Ok(())
}

#[test]
fn test_brace_ok() -> Result<(), TokenizeError> {
    let actual = tokenize("{abc&&}")?;
    let expected = vec![Literal("abc&&".to_string())];

    assert_eq!(actual, expected);

    Ok(())
}

#[test]
fn test_brace_spaces_ok() -> Result<(), TokenizeError> {
    let actual = tokenize("{ abc && }")?;
    let expected = vec![Literal(" abc && ".to_string())];

    assert_eq!(actual, expected);

    Ok(())
}

#[test]
fn test_brace_empty_nok() -> Result<(), TokenizeError> {
    let actual = tokenize("{}");

    assert!(actual.is_err());
    assert_eq!(actual.unwrap_err(), EmptyLiteralName);

    Ok(())
}

#[test]
fn test_operator_boundary_andword_space_charvar_ok() -> Result<(), TokenizeError> {
    let actual = tokenize("a and b")?;
    let expected = vec![Literal("a".to_string()), And, Literal("b".to_string())];

    assert_eq!(actual, expected);

    Ok(())
}

#[test]
fn test_operator_boundary_andword_nospace_charvar_ok() -> Result<(), TokenizeError> {
    let actual = tokenize("a andB")?;
    let expected = vec![Literal("a".to_string()), Literal("andB".to_string())];

    assert_eq!(actual, expected);

    Ok(())
}

#[test]
fn test_operator_boundary_andword_nospace_operatorvar_ok() -> Result<(), TokenizeError> {
    let actual = tokenize("a andBand b")?;
    let expected = vec![
        Literal("a".to_string()),
        Literal("andBand".to_string()),
        Literal("b".to_string()),
    ];

    assert_eq!(actual, expected);

    Ok(())
}

#[test]
fn test_operator_boundary_andlogic_space_charvar_ok() -> Result<(), TokenizeError> {
    let actual = tokenize("a && b")?;
    let expected = vec![Literal("a".to_string()), And, Literal("b".to_string())];

    assert_eq!(actual, expected);

    Ok(())
}

#[test]
fn test_operator_boundary_andlogic_nospace_charvar_ok() -> Result<(), TokenizeError> {
    let actual = tokenize("a &&b")?;
    let expected = vec![Literal("a".to_string()), And, Literal("b".to_string())];

    assert_eq!(actual, expected);

    Ok(())
}

#[test]
fn test_operator_boundary_andlogic_nospace_operatorvar_ok() -> Result<(), TokenizeError> {
    let actual = tokenize("a &&B&& b")?;
    let expected = vec![
        Literal("a".to_string()),
        And,
        Literal("B".to_string()),
        And,
        Literal("b".to_string()),
    ];

    assert_eq!(actual, expected);

    Ok(())
}

#[test]
fn test_operator_boundary_andword_space_underscorevar_ok() -> Result<(), TokenizeError> {
    let actual = tokenize("a and _B")?;
    let expected = vec![Literal("a".to_string()), And, Literal("_B".to_string())];

    assert_eq!(actual, expected);

    Ok(())
}

#[test]
fn test_operator_boundary_andword_nospace_underscorevar_ok() -> Result<(), TokenizeError> {
    let actual = tokenize("a and_B")?;
    let expected = vec![Literal("a".to_string()), Literal("and_B".to_string())];

    assert_eq!(actual, expected);

    Ok(())
}

#[test]
fn test_operator_boundary_andlogic_space_underscorevar_ok() -> Result<(), TokenizeError> {
    let actual = tokenize("a && _B")?;
    let expected = vec![Literal("a".to_string()), And, Literal("_B".to_string())];

    assert_eq!(actual, expected);

    Ok(())
}

#[test]
fn test_operator_boundary_andlogic_nospace_underscorevar_ok() -> Result<(), TokenizeError> {
    let actual = tokenize("a &&_B")?;
    let expected = vec![Literal("a".to_string()), And, Literal("_B".to_string())];

    assert_eq!(actual, expected);

    Ok(())
}

#[test]
fn test_operator_boundary_andword_space_dashvar_ok() -> Result<(), TokenizeError> {
    let actual = tokenize("a and -B")?;
    let expected = vec![Literal("a".to_string()), And, Literal("-B".to_string())];

    assert_eq!(actual, expected);

    Ok(())
}

#[test]
fn test_operator_boundary_andword_nospace_dashvar_ok() -> Result<(), TokenizeError> {
    let actual = tokenize("a and-B")?;
    let expected = vec![Literal("a".to_string()), Literal("and-B".to_string())];

    assert_eq!(actual, expected);

    Ok(())
}

#[test]
fn test_operator_boundary_andlogic_space_dashvar_ok() -> Result<(), TokenizeError> {
    let actual = tokenize("a && -B")?;
    let expected = vec![Literal("a".to_string()), And, Literal("-B".to_string())];

    assert_eq!(actual, expected);

    Ok(())
}

#[test]
fn test_operator_boundary_andlogic_nospace_dashvar_ok() -> Result<(), TokenizeError> {
    let actual = tokenize("a &&-B")?;
    let expected = vec![Literal("a".to_string()), And, Literal("-B".to_string())];

    assert_eq!(actual, expected);

    Ok(())
}

#[test]
fn test_operator_boundary_false() -> Result<(), TokenizeError> {
    let actual = tokenize("F and andF && False && andFALSE &&FALSE and FALSEand")?;
    let expected = vec![
        ConstantFalse,
        And,
        Literal("andF".to_string()),
        And,
        ConstantFalse,
        And,
        Literal("andFALSE".to_string()),
        And,
        ConstantFalse,
        And,
        Literal("FALSEand".to_string()),
    ];

    assert_eq!(actual, expected);

    Ok(())
}

#[test]
fn test_unknown_symbol_nok() {
    let actual = tokenize("a & $b");
    assert_eq!(actual, Err(TokenizeError::UnknownSymbolError { position: 4, symbol: '$' }));
}

#[test]
fn test_unknown_symbol_first_nok() {
    let actual = tokenize("#");
    assert_eq!(actual, Err(TokenizeError::UnknownSymbolError { position: 0, symbol: '#' }));
}

#[test]
fn test_whitespace_agrees_with_char_is_whitespace() {
    for code in 0u32..=0x10FFFF {
        if let Some(c) = char::from_u32(code) {
            assert_eq!(char_is_whitespace(c), c.is_whitespace(), "{:?}", c);
        }
    }
}

#[test]
fn test_unicode_whitespace_separates_tokens() {
    let actual = tokenize("a\u{3000}&\u{2003}b").unwrap();
    assert_eq!(actual, vec![Literal("a".to_string()), And, Literal("b".to_string())]);
}
