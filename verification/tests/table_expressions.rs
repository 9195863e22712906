use biodivine_boolean_functions::expressions::{bool, var, vars, Expression};
use biodivine_boolean_functions::table::TruthTable;
use biodivine_boolean_functions::traits::SemanticEq;

#[test]
fn test_to_expression_and_ok() {
    let input_expression = Expression::binary_and(Expression::Literal("x0".to_string()), Expression::Literal("x1".to_string()));
    let input_table = TruthTable::from_expression(&input_expression.clone());

    let actual = input_table.to_expression_trivial();
    assert!(actual.semantic_eq(&input_expression));

    // this inner is equal to input
    assert_eq!(actual, Expression::n_ary_or(vec![input_expression]));
}

#[test]
fn test_to_expression_or_ok() {
    let input_expression = Expression::binary_or(Expression::Literal("x0".to_string()), Expression::Literal("x1".to_string()));
    let input_table = TruthTable::from_expression(&input_expression.clone());

    let actual = input_table.to_expression_trivial();
    assert!(actual.semantic_eq(&input_expression));

    assert_eq!(
        actual,
        Expression::n_ary_or(vec![
            Expression::binary_and(
                Expression::negate(Expression::Literal("x0".to_string())),
                Expression::Literal("x1".to_string())
            ),
            Expression::binary_and(
                Expression::Literal("x0".to_string()),
                Expression::negate(Expression::Literal("x1".to_string()))
            ),
            Expression::binary_and(Expression::Literal("x0".to_string()), Expression::Literal("x1".to_string())),
        ])
    );
}

#[test]
fn test_from_expression_literals_sorted_ok() {
    let input = Expression::n_ary_and(vars(&["x3", "x2", "x1", "x3", "x0"]));

    let expected = vec!["x0", "x1", "x2", "x3"];
    let actual = TruthTable::from_expression(&input).inputs;

    assert_eq!(actual, expected)
}

#[test]
fn test_from_expression_basic_case_x0_one_variable_ok() {
    let input = var("x0");

    let actual = TruthTable::from_expression(&input);
    let expected = TruthTable {
        inputs: vec!["x0".to_string()],
        outputs: vec![false, true],
    };

    assert_eq!(actual, expected);
}

#[test]
fn test_from_expression_basic_case_not_x0_one_variable_ok() {
    let input = Expression::negate(var("x0"));

    let actual = TruthTable::from_expression(&input);
    let expected = TruthTable {
        inputs: vec!["x0".to_string()],
        outputs: vec![true, false],
    };

    assert_eq!(actual, expected);
}

#[test]
fn test_from_expression_basic_case_x0_two_variables_ok() {
    let input = Expression::binary_and(var("x0"), Expression::binary_or(var("x1"), Expression::negate(var("x1")))); // tautology

    let actual = TruthTable::from_expression(&input);
    let expected = TruthTable {
        inputs: vec!["x0".to_string(), "x1".to_string()],
        outputs: vec![false, false, true, true],
    };

    assert_eq!(actual, expected);
}

#[test]
fn test_from_expression_basic_case_not_x0_two_variables_ok() {
    let input = Expression::binary_and(
        Expression::negate(var("x0")),
        Expression::binary_or(var("x1"), Expression::negate(var("x1"))),
    ); // tautology

    let actual = TruthTable::from_expression(&input);
    let expected = TruthTable {
        inputs: vec!["x0".to_string(), "x1".to_string()],
        outputs: vec![true, true, false, false],
    };

    assert_eq!(actual, expected);
}

#[test]
fn test_from_expression_basic_case_and_ok() {
    let input = Expression::binary_and(var("x0"), var("x1"));

    let actual = TruthTable::from_expression(&input);
    let expected = TruthTable {
        inputs: vec!["x0".to_string(), "x1".to_string()],
        outputs: vec![false, false, false, true],
    };

    assert_eq!(actual, expected);
}

#[test]
fn test_from_expression_basic_case_or_ok() {
    let input = Expression::binary_or(var("x0"), var("x1"));

    let actual = TruthTable::from_expression(&input);
    let expected = TruthTable {
        inputs: vec!["x0".to_string(), "x1".to_string()],
        outputs: vec![false, true, true, true],
    };

    assert_eq!(actual, expected);
}

#[test]
fn test_from_expression_variableless_tautology_ok() {
    let input = Expression::binary_or(bool(true), bool(false));

    let actual = TruthTable::from_expression(&input);

    println!("{}", actual.to_string());
    let expected = TruthTable {
        inputs: vec![],
        outputs: vec![true],
    };

    assert_eq!(actual, expected);
}

#[test]
fn test_from_expression_variableless_contradiction_ok() {
    let input = Expression::binary_and(bool(true), bool(false));

    let actual = TruthTable::from_expression(&input);

    println!("{}", actual.to_string());
    let expected = TruthTable {
        inputs: vec![],
        outputs: vec![false],
    };

    assert_eq!(actual, expected);
}

#[test]
fn test_output_short_variables_and_ok() {
    let input_expression = Expression::binary_and(var("x0"), var("x1"));
    let input_table = TruthTable::from_expression(&input_expression.clone());

    let expected = "x0    x1    result \nfalse false false  \nfalse true  false  \ntrue  false false  \ntrue  true  true   ";
    let actual = input_table.to_string();

    assert_eq!(expected, actual);
}

#[test]
fn test_output_long_variables_and_ok() {
    let input_expression = Expression::binary_and(var("longvariablename1"), var("longvariablename2"));
    let input_table = TruthTable::from_expression(&input_expression.clone());

    let expected = "longvariablename1 longvariablename2 result \nfalse             false             false  \nfalse             true              false  \ntrue              false             false  \ntrue              true              true   ";
    let actual = input_table.to_string();

    assert_eq!(expected, actual);
}

#[test]
fn trivial_expression_of_a_table_has_its_outputs() {
    let table = TruthTable::new(
        vec!["x".to_string(), "y".to_string(), "z".to_string()],
        vec![false, false, true, true, true, true, true, true],
    );

    let expression = table.to_expression_trivial();
    let back = TruthTable::from_expression(&expression);

    assert_eq!(back, table);
}
