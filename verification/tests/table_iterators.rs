use biodivine_boolean_functions::table::TruthTable;
use biodivine_boolean_functions::valuation::Valuation;
use biodivine_boolean_functions::traits::{BooleanFunction, Evaluate};

fn names(list: &[&str]) -> Vec<String> {
    list.iter().map(|name| name.to_string()).collect()
}

#[test]
fn test_image() {
    let input = TruthTable::new(
        names(&["x", "y", "z"]),
        vec![false, true, false, false, true, false, false, false],
    );

    let mut iterator = input.image();
    let mut actual = Vec::new();
    while let Some(output) = iterator.next() {
        actual.push(output);
    }
    let expected = input.outputs;

    assert_eq!(actual, expected)
}

#[test]
fn test_relation_ok() {
    let input = TruthTable::new(
        names(&["x", "y", "z"]),
        vec![false, true, false, false, true, false, false, false],
    );

    let mut actual = input.relation();
    let expected = vec![
        vec![false, false, false],
        vec![false, false, true],
        vec![false, true, false],
        vec![false, true, true],
        vec![true, false, false],
        vec![true, false, true],
        vec![true, true, false],
        vec![true, true, true],
    ]
    .into_iter()
    .map(|point| {
        Some((
            point.clone(),
            input.evaluate(&Valuation::from_pairs(vec![
                ("x".to_string(), point[0]),
                ("y".to_string(), point[1]),
                ("z".to_string(), point[2]),
            ])),
        ))
    })
    .collect::<Vec<_>>();

    assert_eq!(actual.next(), expected[0]);
    assert_eq!(actual.next(), expected[1]);
    assert_eq!(actual.next(), expected[2]);
    assert_eq!(actual.next(), expected[3]);
    assert_eq!(actual.next(), expected[4]);
    assert_eq!(actual.next(), expected[5]);
    assert_eq!(actual.next(), expected[6]);
    assert_eq!(actual.next(), expected[7]);

    assert_eq!(actual.next(), None);
    assert_eq!(actual.next(), None);
}

#[test]
fn test_support_ok() {
    let input = TruthTable::new(
        names(&["x", "y", "z"]),
        vec![false, true, false, false, true, false, false, false],
    );

    let mut actual = input.support();
    let expected = [
        Some(vec![false, false, true]),
        Some(vec![true, false, false]),
    ];

    assert_eq!(actual.next(), expected[0]);
    assert_eq!(actual.next(), expected[1]);

    assert_eq!(actual.next(), None);
    assert_eq!(actual.next(), None);
}

#[test]
fn test_no_support_2_ok() {
    let input = TruthTable::new(
        names(&["x", "y", "z"]),
        vec![false, false, false, false, false, false, false, false],
    );

    let mut actual = input.support();

    assert_eq!(actual.next(), None);
    assert_eq!(actual.next(), None);
}

#[test]
fn domain_lists_every_point_in_row_order() {
    let input = TruthTable::new(names(&["x", "y"]), vec![false, true, true, false]);

    let mut domain = input.domain();
    assert_eq!(domain.next(), Some(vec![false, false]));
    assert_eq!(domain.next(), Some(vec![false, true]));
    assert_eq!(domain.next(), Some(vec![true, false]));
    assert_eq!(domain.next(), Some(vec![true, true]));
    assert_eq!(domain.next(), None);
}

#[test]
fn sat_point_and_weight_follow_the_support() {
    let input = TruthTable::new(
        names(&["x", "y", "z"]),
        vec![false, true, false, false, true, false, false, true],
    );

    assert_eq!(input.sat_point(), Some(vec![false, false, true]));
    assert_eq!(input.weight_count(), 3);
    assert_eq!(input.weight(), num_bigint::BigUint::from(3u8));

    let contradiction = TruthTable::new(names(&["x"]), vec![false, false]);
    assert_eq!(contradiction.sat_point(), None);
    assert_eq!(contradiction.weight(), num_bigint::BigUint::from(0u8));
}
