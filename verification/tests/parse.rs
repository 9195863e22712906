use biodivine_boolean_functions::expressions::{bool, var, Expression};
use biodivine_boolean_functions::parser::error::{ParseError, ParseTokensError};
use biodivine_boolean_functions::parser::parse::{parse, parse_tokens};
use biodivine_boolean_functions::parser::tokenize::tokenize;
use biodivine_boolean_functions::traits::SemanticEq;

#[test]
fn test_empty_nok() -> Result<(), ParseError> {
    let input = tokenize("")?;
    let actual = parse_tokens(&input);

    assert!(actual.is_err());
    assert_eq!(actual.unwrap_err(), ParseTokensError::EmptySideOfOperator);

    Ok(())
}

#[test]
fn test_binaryand_ok() -> Result<(), ParseError> {
    let input = tokenize("a & b")?;
    let actual = parse_tokens(&input)?;
    let expected = Expression::binary_and(var("a"), var("b"));

    assert!(actual.semantic_eq(&expected));
    assert_eq!(actual, expected);

    Ok(())
}

#[test]
fn test_naryand_ok() -> Result<(), ParseError> {
    let input = tokenize("a & b & c")?;
    let actual = parse_tokens(&input)?;
    let expected = Expression::n_ary_and(vec![var("a"), var("b"), var("c")]);

    assert!(actual.semantic_eq(&expected));
    assert_eq!(actual, expected);

    Ok(())
}

#[test]
fn test_binaryor_ok() -> Result<(), ParseError> {
    let input = tokenize("a | b")?;
    let actual = parse_tokens(&input)?;
    let expected = Expression::binary_or(var("a"), var("b"));

    assert!(actual.semantic_eq(&expected));
    assert_eq!(actual, expected);

    Ok(())
}

#[test]
fn test_naryor_ok() -> Result<(), ParseError> {
    let input = tokenize("a | b | c")?;
    let actual = parse_tokens(&input)?;
    let expected = Expression::n_ary_or(vec![var("a"), var("b"), var("c")]);

    assert!(actual.semantic_eq(&expected));
    assert_eq!(actual, expected);

    Ok(())
}

#[test]
fn test_parentheses_toplevel_ok() -> Result<(), ParseError> {
    let input = tokenize("(a)")?;
    let actual = parse_tokens(&input)?;
    let expected = var("a");

    assert!(actual.semantic_eq(&expected));
    assert_eq!(actual, expected);

    Ok(())
}

#[test]
fn test_parentheses_naryor_naryand_ok() -> Result<(), ParseError> {
    let input = tokenize("a | b | (a & b & !c)")?;
    let actual = parse_tokens(&input)?;
    let expected = Expression::n_ary_or(vec![
        var("a"),
        var("b"),
        Expression::n_ary_and(vec![var("a"), var("b"), Expression::negate(var("c"))]),
    ]);

    assert!(actual.semantic_eq(&expected));
    assert_eq!(actual, expected);

    Ok(())
}

#[test]
fn test_parentheses_naryor_naryand_constants_ok() -> Result<(), ParseError> {
    let input = tokenize("F | 0 | False | (T & 1 & True)")?;
    let actual = parse_tokens(&input)?;
    let expected = Expression::n_ary_or(vec![
        bool(false),
        bool(false),
        bool(false),
        Expression::n_ary_and(vec![bool(true), bool(true), bool(true)]),
    ]);

    assert!(actual.semantic_eq(&expected));
    assert_eq!(actual, expected);

    Ok(())
}

#[test]
fn test_priorities_naryor_naryand_ok() -> Result<(), ParseError> {
    let input = tokenize("a | b | a & b & !c")?;
    let actual = parse_tokens(&input)?;
    let expected = Expression::n_ary_or(vec![
        var("a"),
        var("b"),
        Expression::n_ary_and(vec![var("a"), var("b"), Expression::negate(var("c"))]),
    ]);

    assert!(actual.semantic_eq(&expected));
    assert_eq!(actual, expected);

    Ok(())
}

#[test]
fn test_terminal_and_emptyside_nok() -> Result<(), ParseError> {
    let input = tokenize("a & ")?;
    let actual = parse_tokens(&input);

    assert!(actual.is_err());
    assert_eq!(actual.unwrap_err(), ParseTokensError::EmptySideOfOperator);

    Ok(())
}

#[test]
fn test_terminal_and_nok() -> Result<(), ParseError> {
    let input = tokenize("a & b c")?;
    let actual = parse_tokens(&input);

    assert!(actual.is_err());
    assert_eq!(actual.unwrap_err(), ParseTokensError::UnexpectedLiteralsGroup);

    Ok(())
}

#[test]
fn test_parse_text_ok() {
    let actual = parse("a & (b | !c)").unwrap();
    let expected = Expression::binary_and(
        var("a"),
        Expression::binary_or(var("b"), Expression::negate(var("c"))),
    );
    assert_eq!(actual, expected);
}

#[test]
fn test_parse_text_tokenizing_error_nok() {
    match parse("a & (b") {
        Err(ParseError::TokenizingError(_)) => {}
        other => panic!("unexpected result {:?}", other),
    }
}

#[test]
fn test_parse_text_parsing_error_nok() {
    match parse("a & ") {
        Err(ParseError::ParsingError(_)) => {}
        other => panic!("unexpected result {:?}", other),
    }
}
