use biodivine_boolean_functions::expressions::{bool, var, Expression};
use biodivine_boolean_functions::table::TruthTable;
use biodivine_boolean_functions::valuation::{btreeset_to_valuation, Valuation};
use biodivine_boolean_functions::traits::{BooleanFunction, Evaluate, Implication, SemanticEq};

fn names(list: &[&str]) -> Vec<String> {
    list.iter().map(|name| name.to_string()).collect()
}

fn xor(left: Expression, right: Expression) -> Expression {
    Expression::binary_or(
        Expression::binary_and(left.clone(), Expression::negate(right.clone())),
        Expression::binary_and(Expression::negate(left), right),
    )
}

#[test]
fn test_not_owned() {
    let input = TruthTable::new(names(&["a", "b"]), vec![true, false, true, false]);

    let actual = input.not();
    let expected = vec![false, true, false, true];

    assert_eq!(actual.outputs, expected);
}

#[test]
fn test_not_ref() {
    let input = TruthTable::new(names(&["a", "b"]), vec![true, false, true, false]);
    let input_ref = &input;

    let actual = input_ref.not();
    let expected = vec![false, true, false, true];

    assert_eq!(actual.outputs, expected);
}

#[test]
fn test_and_same_variables() {
    let and = Expression::binary_and(var("a"), var("b"));
    let imply = var("a").imply(var("b"));

    let and_table = TruthTable::from_expression(&and);
    let imply_table = TruthTable::from_expression(&imply);

    let actual = and_table.bitor(&imply_table);
    let expected = TruthTable::from_expression(&Expression::binary_or(and, imply));

    assert!(actual.semantic_eq(&expected));
    assert_eq!(actual, expected);
}

#[test]
fn test_and_different_variables_1() {
    let and = Expression::binary_and(var("a"), var("b"));
    let imply = var("b").imply(var("c"));

    let and_table = TruthTable::from_expression(&and);
    let imply_table = TruthTable::from_expression(&imply);

    let actual = and_table.bitor(&imply_table);
    let expected = TruthTable::from_expression(&Expression::binary_or(and, imply));

    assert!(actual.semantic_eq(&expected));
    assert_eq!(actual, expected);
}

#[test]
fn test_and_different_variables_2() {
    let and = Expression::binary_and(var("c"), var("b"));
    let imply = var("a").imply(var("d"));

    let and_table = TruthTable::from_expression(&and);
    let imply_table = TruthTable::from_expression(&imply);

    let actual = and_table.bitor(&imply_table);
    let expected = TruthTable::from_expression(&Expression::binary_or(and, imply));

    assert!(actual.semantic_eq(&expected));
    assert_eq!(actual, expected);
}

#[test]
fn test_and_different_variables_3() {
    let lhs = TruthTable::new(names(&["a", "b"]), vec![true, true, false, true]);
    let rhs = TruthTable::new(names(&["a", "c"]), vec![false, true, false, true]);

    let actual = lhs.bitor(&rhs);
    let expected = TruthTable::new(
        names(&["a", "b", "c"]),
        vec![true, true, true, true, false, true, true, true],
    );

    assert!(actual.semantic_eq(&expected));
    assert_eq!(actual, expected);
}

#[test]
fn test_essential_inputs_all_inputs_ok() {
    let input_expression = Expression::binary_and(var("a"), var("b"));
    let input = TruthTable::from_expression(&input_expression);

    let actual = input.essential_inputs();
    let expected = names(&["a", "b"]);

    assert_eq!(actual, expected);
}

#[test]
fn test_essential_inputs_no_inputs_ok() {
    let input_expression = Expression::binary_and(var("a"), var("b"))
        .imply(Expression::binary_or(var("c"), Expression::negate(var("c"))));
    let input = TruthTable::from_expression(&input_expression);

    let actual = input.essential_inputs();
    let expected: Vec<String> = Vec::new();

    assert_eq!(actual, expected);
}

#[test]
fn test_essential_inputs_some_inputs_ok() {
    let input = TruthTable::new(
        names(&["x", "y", "z"]),
        vec![false, false, true, true, true, true, true, true],
    );

    let actual = input.essential_inputs();
    let expected = names(&["x", "y"]);

    assert_eq!(actual, expected);
}

#[test]
fn test_restrict_1st() {
    let input = TruthTable::new(
        names(&["x", "y", "z"]),
        vec![false, true, false, false, true, false, false, false],
    );

    let actual = input.restrict(&Valuation::from_pairs(vec![("x".to_string(), true)]));
    let expected = TruthTable::new(names(&["y", "z"]), vec![true, false, false, false]);

    assert_eq!(actual, expected);

    let actual = input.restrict(&Valuation::from_pairs(vec![("x".to_string(), false)]));
    let expected = TruthTable::new(names(&["y", "z"]), vec![false, true, false, false]);

    assert_eq!(actual, expected);
}

#[test]
fn test_restrict_2nd() {
    let input = TruthTable::new(
        names(&["x", "y", "z"]),
        vec![false, true, false, false, true, false, false, false],
    );

    let actual = input.restrict(&Valuation::from_pairs(vec![("y".to_string(), true)]));
    let expected = TruthTable::new(names(&["x", "z"]), vec![false, false, false, false]);

    assert_eq!(actual, expected);

    let actual = input.restrict(&Valuation::from_pairs(vec![("y".to_string(), false)]));
    let expected = TruthTable::new(names(&["x", "z"]), vec![false, true, true, false]);

    assert_eq!(actual, expected);
}

#[test]
fn test_restrict_3rd() {
    let input = TruthTable::new(
        names(&["x", "y", "z"]),
        vec![false, true, false, false, true, false, false, false],
    );

    let actual = input.restrict(&Valuation::from_pairs(vec![("z".to_string(), true)]));
    let expected = TruthTable::new(names(&["x", "y"]), vec![true, false, false, false]);

    assert_eq!(actual, expected);

    let actual = input.restrict(&Valuation::from_pairs(vec![("z".to_string(), false)]));
    let expected = TruthTable::new(names(&["x", "y"]), vec![false, false, true, false]);

    assert_eq!(actual, expected);
}

#[test]
fn test_existential_and_ok() {
    let target = "a".to_string();
    let target_set = vec![target.clone()];
    let input = TruthTable::from_expression(&Expression::binary_and(var(&target), var("b")));

    let actual = input.existential_quantification(target_set.clone());
    assert!(!actual.inputs().contains(&target.clone()));

    let evaluated_with_true = actual.evaluate(&btreeset_to_valuation(target_set.clone(), true));
    let evaluated_with_false = actual.evaluate(&btreeset_to_valuation(target_set, false));

    assert_eq!(evaluated_with_true, evaluated_with_false);
    assert!(!evaluated_with_true)
}

#[test]
fn test_existential_or_ok() {
    let target = "a".to_string();
    let target_set = vec![target.clone()];
    let input = TruthTable::from_expression(&Expression::binary_or(var(&target), var("b")));

    let actual = input.existential_quantification(target_set.clone());
    assert!(!actual.inputs().contains(&target.clone()));

    let evaluated_with_true = actual.evaluate(&btreeset_to_valuation(target_set.clone(), true));
    let evaluated_with_false = actual.evaluate(&btreeset_to_valuation(target_set, false));

    assert_eq!(evaluated_with_true, evaluated_with_false);
    assert!(evaluated_with_true)
}

#[test]
fn test_universal_and_ok() {
    let target = "a".to_string();
    let target_set = vec![target.clone()];
    let input = TruthTable::from_expression(&Expression::binary_and(var(&target), var("b")));

    let actual = input.universal_quantification(target_set.clone());
    assert!(!actual.inputs().contains(&target.clone()));

    let evaluated_with_true = actual.evaluate(&btreeset_to_valuation(target_set.clone(), true));
    let evaluated_with_false = actual.evaluate(&btreeset_to_valuation(target_set, false));

    assert_eq!(evaluated_with_true, evaluated_with_false);
    assert!(!evaluated_with_true)
}

#[test]
fn test_universal_or_ok() {
    let target = "a".to_string();
    let target_set = vec![target.clone()];
    let input = TruthTable::from_expression(&Expression::binary_or(var(&target), var("b")));

    let actual = input.universal_quantification(target_set.clone());
    assert!(!actual.inputs().contains(&target.clone()));

    let evaluated_with_true = actual.evaluate(&btreeset_to_valuation(target_set.clone(), true));
    let evaluated_with_false = actual.evaluate(&btreeset_to_valuation(target_set, false));

    assert_eq!(evaluated_with_true, evaluated_with_false);
    assert!(!evaluated_with_true)
}

#[test]
fn test_derivative_and_ok() {
    let target = "a".to_string();
    let target_set = vec![target.clone()];
    let input = TruthTable::from_expression(&Expression::binary_and(var(&target), var("b")));

    let actual = input.derivative(target_set.clone());
    assert!(!actual.inputs().contains(&target.clone()));

    let evaluated_with_true = actual.evaluate(&btreeset_to_valuation(target_set.clone(), true));
    let evaluated_with_false = actual.evaluate(&btreeset_to_valuation(target_set, false));

    assert_eq!(evaluated_with_true, evaluated_with_false);
    assert!(!evaluated_with_true)
}

#[test]
fn test_derivative_or_ok() {
    let target = "a".to_string();
    let target_set = vec![target.clone()];
    let input = TruthTable::from_expression(&Expression::binary_or(var(&target), var("b")));

    let actual = input.derivative(target_set.clone());
    assert!(!actual.inputs().contains(&target.clone()));

    let evaluated_with_true = actual.evaluate(&btreeset_to_valuation(target_set.clone(), true));
    let evaluated_with_false = actual.evaluate(&btreeset_to_valuation(target_set, false));

    assert_eq!(evaluated_with_true, evaluated_with_false);
    assert!(evaluated_with_true)
}

#[test]
fn test_derivative_xor_ok() {
    let target = "a".to_string();
    let target_set = vec![target.clone()];
    let input = TruthTable::from_expression(&xor(var(&target), var("b")));

    let actual = input.derivative(target_set.clone());
    assert!(!actual.inputs().contains(&target.clone()));

    let evaluated_with_true = actual.evaluate(&btreeset_to_valuation(target_set.clone(), true));
    let evaluated_with_false = actual.evaluate(&btreeset_to_valuation(target_set, false));

    assert_eq!(evaluated_with_true, evaluated_with_false);
    assert!(evaluated_with_true)
}

#[test]
fn test_evaluate_variables_match_ok() {
    let input_table = TruthTable::new(names(&["a", "b"]), vec![true, true, true, false]);

    let mapping = Valuation::from_pairs(vec![("a".to_string(), true), ("b".to_string(), true)]);

    assert!(!input_table.evaluate(&mapping));
    assert!(!input_table.evaluate_with_default(&mapping, true));
    assert_eq!(input_table.evaluate_checked(&mapping), Ok(false));
}

#[test]
fn test_evaluate_too_many_variables_ok() {
    let input_table = TruthTable::new(names(&["a", "b"]), vec![true, true, true, false]);

    let mapping = Valuation::from_pairs(vec![
        ("a".to_string(), true),
        ("b".to_string(), true),
        ("c".to_string(), false),
    ]);

    assert!(!input_table.evaluate(&mapping));
    assert!(!input_table.evaluate_with_default(&mapping, true));
    assert_eq!(input_table.evaluate_checked(&mapping), Ok(false));
}

#[test]
fn test_evaluate_too_few_variables_ok() {
    let input_table = TruthTable::new(names(&["a", "b"]), vec![true, true, true, false]);

    let mapping = Valuation::from_pairs(vec![("a".to_string(), true)]);

    assert!(input_table.evaluate(&mapping));
    assert!(!input_table.evaluate_with_default(&mapping, true));
    assert_eq!(input_table.evaluate_checked(&mapping), Err(vec!["b".to_string()]));
}

#[test]
fn test_semantic_eq_same_variables_ok_equal() {
    let input_1 = TruthTable::new(names(&["a", "b"]), vec![true, false, true, false]);
    let input_2 = TruthTable::new(names(&["a", "b"]), vec![true, false, true, false]);

    assert!(input_1.semantic_eq(&input_2));
}

#[test]
fn test_semantic_eq_same_variables_ok_not_equal() {
    let input_1 = TruthTable::new(names(&["a", "b"]), vec![true, false, true, false]);
    let input_2 = TruthTable::new(names(&["a", "b"]), vec![true, true, true, false]);

    assert!(!input_1.semantic_eq(&input_2));
}

#[test]
fn test_semantic_eq_additional_variable_useless_ok_equal() {
    let input_1 = TruthTable::new(names(&["a", "b"]), vec![true, false, true, false]);
    // c being 0 or 1 doesn't change output for given a and b
    let input_2 = TruthTable::new(
        names(&["a", "b", "c"]),
        vec![true, true, false, false, true, true, false, false],
    );

    assert!(input_1.semantic_eq(&input_2));
}

#[test]
fn test_semantic_eq_different_variables_ok_not_equal() {
    let input_1 = TruthTable::new(names(&["a", "b"]), vec![true, false, true, false]);
    let input_2 = TruthTable::new(names(&["a", "c"]), vec![true, false, true, false]);

    assert!(!input_1.semantic_eq(&input_2));
}

#[test]
fn constants_make_constant_tables() {
    let tautology = TruthTable::from_expression(&bool(true));
    assert_eq!(tautology.outputs, vec![true]);
    assert!(tautology.inputs.is_empty());
}

#[test]
fn existential_over_two_variables_eliminates_each_in_turn() {
    // a & !b is satisfied by a = 1, b = 0, which is neither all false nor all true
    let input = TruthTable::from_expression(&Expression::binary_and(var("a"), Expression::negate(var("b"))));

    let actual = input.existential_quantification(names(&["a", "b"]));
    assert!(actual.inputs.is_empty());
    assert_eq!(actual.outputs, vec![true]);

    let universal = input.universal_quantification(names(&["a", "b"]));
    assert_eq!(universal.outputs, vec![false]);

    // the derivative over both variables is the parity of the four outputs
    let derivative = input.derivative(names(&["a", "b"]));
    assert_eq!(derivative.outputs, vec![true]);
}

fn sample_input() -> TruthTable {
    // (a | b) & c & !a & true
    TruthTable::from_expression(&Expression::n_ary_and(vec![
        Expression::binary_or(var("a"), var("b")),
        var("c"),
        Expression::negate(var("a")),
        bool(true),
    ]))
}

#[test]
fn test_substitute_no_variables() {
    let input = TruthTable::from_expression(&Expression::binary_and(
        Expression::binary_or(var("a"), var("b")),
        var("c"),
    ));
    let valuation: Vec<(String, TruthTable)> = Vec::new();

    let expected = input.clone();
    let actual = input.substitute(&valuation);

    assert_eq!(expected, actual);
    assert!(expected.semantic_eq(&actual));
    assert_eq!(actual.degree(), expected.degree());
}

#[test]
fn test_substitute_variables_same_ok() {
    let input = sample_input();
    let mapping = vec![(
        "a".to_string(),
        TruthTable::from_expression(&Expression::binary_or(var("a"), Expression::negate(var("b")))),
    )];

    let substituted = Expression::binary_or(var("a"), Expression::negate(var("b")));
    let expected = TruthTable::from_expression(&Expression::n_ary_and(vec![
        Expression::n_ary_or(vec![substituted.clone(), var("b")]),
        var("c"),
        Expression::negate(substituted),
        bool(true),
    ]));
    let actual = input.substitute(&mapping);

    assert!(expected.semantic_eq(&actual));
    assert_eq!(expected, actual);
    assert_eq!(actual.degree(), expected.degree());
}

#[test]
fn test_substitute_variables_added_ok() {
    let input = sample_input();

    let new_expression = Expression::binary_and(var("ddd"), Expression::binary_or(bool(false), var("a")));
    let new_value = TruthTable::from_expression(&new_expression);
    let mapping = vec![("a".to_string(), new_value.clone())];

    let expected = TruthTable::from_expression(&Expression::n_ary_and(vec![
        Expression::n_ary_or(vec![new_expression.clone(), var("b")]),
        var("c"),
        Expression::negate(new_expression),
        bool(true),
    ]));
    let actual = input.substitute(&mapping);

    assert!(expected.semantic_eq(&actual));
    assert_eq!(expected, actual);

    assert_eq!(input.degree(), 3);
    assert_eq!(actual.degree(), 4);
    assert_eq!(actual.degree(), expected.degree());
}

#[test]
fn test_substitute_variables_removed_ok() {
    let input = sample_input();

    let new_value = bool(false);
    let mapping = vec![("a".to_string(), TruthTable::from_expression(&new_value))];

    let expected = TruthTable::from_expression(&Expression::n_ary_and(vec![
        Expression::n_ary_or(vec![bool(false), var("b")]),
        var("c"),
        Expression::negate(bool(false)),
        bool(true),
    ]));
    let actual = input.substitute(&mapping);

    assert!(expected.semantic_eq(&actual));

    assert_eq!(input.degree(), 3);
    assert_eq!(actual.degree(), 2);
    assert_eq!(actual.degree(), expected.degree());
}

#[test]
fn test_substitute_variable_by_other_input() {
    // Substituting the table of `b` for `a` in `a & b` gives `b`.
    let input = TruthTable::from_expression(&Expression::binary_and(var("a"), var("b")));
    let mapping = vec![("a".to_string(), TruthTable::from_expression(&var("b")))];

    let actual = input.substitute(&mapping);
    let expected = TruthTable::from_expression(&var("b"));

    assert_eq!(actual, expected);
}

#[test]
fn test_substitute_swaps_variables() {
    // In `a & !b`, putting `b` for `a` and `a` for `b` gives `b & !a`.
    let input = TruthTable::from_expression(&Expression::binary_and(var("a"), Expression::negate(var("b"))));
    let mapping = vec![
        ("a".to_string(), TruthTable::from_expression(&var("b"))),
        ("b".to_string(), TruthTable::from_expression(&var("a"))),
    ];

    let actual = input.substitute(&mapping);
    let expected = TruthTable::from_expression(&Expression::binary_and(var("b"), Expression::negate(var("a"))));

    assert_eq!(actual, expected);
}
