use biodivine_boolean_functions::expressions::{bool, var, Expression};
use biodivine_boolean_functions::table::TruthTable;
use biodivine_boolean_functions::traits::{
    Equality, Evaluate, GatherLiterals, Implication, PowerSet, SemanticEq,
};
use biodivine_boolean_functions::valuation::Valuation;

fn names(list: &[&str]) -> Vec<String> {
    list.iter().map(|name| name.to_string()).collect()
}

fn valuation(pairs: &[(&str, bool)]) -> Valuation {
    Valuation::from_pairs(pairs.iter().map(|(n, v)| (n.to_string(), *v)).collect())
}

#[test]
fn test_expression_evaluate_checked_all_assigned() {
    let expression = Expression::binary_and(var("a"), Expression::negate(var("b")));
    let actual = expression.evaluate_checked(&valuation(&[("a", true), ("b", false), ("c", true)]));
    assert_eq!(actual, Ok(true));
}

#[test]
fn test_expression_evaluate_checked_missing_sorted() {
    let expression = Expression::n_ary_or(vec![var("d"), var("a"), var("c"), var("a")]);
    let actual = expression.evaluate_checked(&valuation(&[("c", false)]));
    assert_eq!(actual, Err(names(&["a", "d"])));
}

#[test]
fn test_expression_evaluate_with_default() {
    let expression = Expression::binary_or(var("x"), var("y"));
    let empty = Valuation::new();
    assert!(!expression.evaluate(&empty));
    assert!(expression.evaluate_with_default(&empty, true));
}

#[test]
fn test_iff_truth_table() {
    let a = var("a");
    let b = var("b");
    let equivalence = a.iff(b);
    for (x, y) in [(false, false), (false, true), (true, false), (true, true)] {
        let v = valuation(&[("a", x), ("b", y)]);
        assert_eq!(equivalence.evaluate(&v), x == y);
    }
}

#[test]
fn test_imply_truth_table() {
    let implication = var("a").imply(var("b"));
    for (x, y) in [(false, false), (false, true), (true, false), (true, true)] {
        let v = valuation(&[("a", x), ("b", y)]);
        assert_eq!(implication.evaluate(&v), !x || y);
    }
}

#[test]
fn test_gather_literals_of_table_is_sorted() {
    let table = TruthTable::new(names(&["c", "a", "b"]), vec![false; 8]);
    assert_eq!(table.gather_literals(), names(&["a", "b", "c"]));
}

#[test]
fn test_gather_literals_rec_extends() {
    let table = TruthTable::new(names(&["c", "a"]), vec![false; 4]);
    let mut current = names(&["b", "d"]);
    table.gather_literals_rec(&mut current);
    assert_eq!(current, names(&["a", "b", "c", "d"]));

    let expression = Expression::binary_and(var("e"), bool(true));
    expression.gather_literals_rec(&mut current);
    assert_eq!(current, names(&["a", "b", "c", "d", "e"]));
}

#[test]
fn test_semantic_ne() {
    let first = TruthTable::new(names(&["a"]), vec![false, true]);
    let second = TruthTable::new(names(&["a"]), vec![true, false]);
    assert!(first.semantic_ne(&second));
    assert!(!first.semantic_ne(&first.clone()));

    let tautology = var("a").imply(var("a"));
    assert!(!tautology.semantic_ne(&bool(true)));
    assert!(tautology.semantic_ne(&bool(false)));
}

#[test]
fn test_power_set_through_trait_on_constant() {
    let constant = bool(false);
    let valuations = constant.generate_power_set();
    assert_eq!(valuations.len(), 1);
}
