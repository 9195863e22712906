use biodivine_boolean_functions::expressions::{var, Expression};
use biodivine_boolean_functions::power_set::generate_arbitrary_power_set;
use biodivine_boolean_functions::table::TruthTable;
use biodivine_boolean_functions::valuation::Valuation;
use biodivine_boolean_functions::traits::PowerSet;

fn names(list: &[&str]) -> Vec<String> {
    list.iter().map(|name| name.to_string()).collect()
}

fn value(valuation: &Valuation, name: &str) -> Option<bool> {
    valuation.get(&name.to_string())
}

#[test]
fn test_power_set_of_nothing() {
    let actual = generate_arbitrary_power_set(Vec::new());
    assert_eq!(actual.len(), 1);
    assert_eq!(value(&actual[0], "a"), None);
}

#[test]
fn test_power_set_of_two_variables() {
    let actual = generate_arbitrary_power_set(names(&["a", "b"]));
    let expected = [(true, true), (false, true), (true, false), (false, false)];

    assert_eq!(actual.len(), expected.len());
    for (valuation, (a, b)) in actual.iter().zip(expected.iter()) {
        assert_eq!(value(valuation, "a"), Some(*a));
        assert_eq!(value(valuation, "b"), Some(*b));
        assert_eq!(value(valuation, "c"), None);
    }
}

#[test]
fn test_power_set_of_three_variables_is_complete() {
    let actual = generate_arbitrary_power_set(names(&["x", "y", "z"]));
    assert_eq!(actual.len(), 8);
    let mut seen = Vec::new();
    for valuation in actual.iter() {
        let point = (
            value(valuation, "x").unwrap(),
            value(valuation, "y").unwrap(),
            value(valuation, "z").unwrap(),
        );
        assert!(!seen.contains(&point));
        seen.push(point);
    }
    // The last variable is `true` in the first half.
    assert!(actual[..4].iter().all(|v| value(v, "z") == Some(true)));
    assert!(actual[4..].iter().all(|v| value(v, "z") == Some(false)));
}

#[test]
fn test_power_set_of_table_uses_sorted_inputs() {
    let table = TruthTable::new(names(&["b", "a"]), vec![false, false, false, true]);
    let actual = table.generate_power_set();
    assert_eq!(actual.len(), 4);
    // Sorted inputs are `a`, `b`: `b` is `true` in the first half.
    assert_eq!(value(&actual[0], "a"), Some(true));
    assert_eq!(value(&actual[0], "b"), Some(true));
    assert_eq!(value(&actual[1], "a"), Some(false));
    assert_eq!(value(&actual[1], "b"), Some(true));
    assert_eq!(value(&actual[2], "b"), Some(false));
}

#[test]
fn test_power_set_of_expression() {
    let expression = Expression::binary_and(var("q"), var("p"));
    let actual = expression.generate_power_set();
    assert_eq!(actual.len(), 4);
    assert_eq!(value(&actual[1], "p"), Some(false));
    assert_eq!(value(&actual[1], "q"), Some(true));
    assert_eq!(value(&actual[3], "p"), Some(false));
    assert_eq!(value(&actual[3], "q"), Some(false));
}
