use biodivine_boolean_functions::parser::structs::{MultiPeekChars, PositionTracker};
use biodivine_boolean_functions::parser::utils::{peek_until_n, pop_n_left, TokenizerInput};
use biodivine_boolean_functions::utils::{boolean_point_to_row_index, row_index_to_bool_point};

#[test]
fn test() {
    let inputs = [
        vec![false, false, false, false, false],
        vec![false, false, false, false, true],
        vec![false, false, false, true, false],
        vec![false, false, false, true, true],
        vec![false, false, true, false, false],
        vec![false, false, true, false, true],
        vec![false, false, true, true, false],
        vec![false, false, true, true, true],
        vec![false, true, false, false, false],
        vec![false, true, false, false, true],
        vec![false, true, false, true, false],
        vec![false, true, false, true, true],
        vec![false, true, true, false, false],
        vec![false, true, true, false, true],
        vec![false, true, true, true, false],
        vec![false, true, true, true, true],
        vec![true, false, false, false, false],
        vec![true, false, false, false, true],
        vec![true, false, false, true, false],
        vec![true, false, false, true, true],
        vec![true, false, true, false, false],
        vec![true, false, true, false, true],
        vec![true, false, true, true, false],
        vec![true, false, true, true, true],
        vec![true, true, false, false, false],
        vec![true, true, false, false, true],
        vec![true, true, false, true, false],
        vec![true, true, false, true, true],
        vec![true, true, true, false, false],
        vec![true, true, true, false, true],
        vec![true, true, true, true, false],
        vec![true, true, true, true, true],
    ];

    for (expected, input) in inputs.iter().enumerate() {
        let actual = boolean_point_to_row_index(input);

        assert_eq!(actual, expected);
    }
}

#[test]
fn test_row_index_to_bool_point() {
    let expected_results = [
        vec![false, false, false, false, false],
        vec![false, false, false, false, true],
        vec![false, false, false, true, false],
        vec![false, false, false, true, true],
        vec![false, false, true, false, false],
        vec![false, false, true, false, true],
        vec![false, false, true, true, false],
        vec![false, false, true, true, true],
        vec![false, true, false, false, false],
        vec![false, true, false, false, true],
        vec![false, true, false, true, false],
        vec![false, true, false, true, true],
        vec![false, true, true, false, false],
        vec![false, true, true, false, true],
        vec![false, true, true, true, false],
        vec![false, true, true, true, true],
        vec![true, false, false, false, false],
        vec![true, false, false, false, true],
        vec![true, false, false, true, false],
        vec![true, false, false, true, true],
        vec![true, false, true, false, false],
        vec![true, false, true, false, true],
        vec![true, false, true, true, false],
        vec![true, false, true, true, true],
        vec![true, true, false, false, false],
        vec![true, true, false, false, true],
        vec![true, true, false, true, false],
        vec![true, true, false, true, true],
        vec![true, true, true, false, false],
        vec![true, true, true, false, true],
        vec![true, true, true, true, false],
        vec![true, true, true, true, true],
    ];
    let size = expected_results[0].len();

    for (i, expected) in expected_results.iter().enumerate() {
        let actual = &row_index_to_bool_point(i, size);

        assert_eq!(actual, expected);
    }
}

#[test]
fn test_row_index_roundtrip_beyond_min_len() {
    for index in 0usize..200 {
        for min_len in 0usize..6 {
            let point = row_index_to_bool_point(index, min_len);
            let mut digits = 0usize;
            let mut rest = index;
            while rest > 0 {
                digits += 1;
                rest /= 2;
            }
            let expected_len = if digits > min_len { digits } else { min_len };
            assert_eq!(point.len(), expected_len);
            assert_eq!(boolean_point_to_row_index(&point), index);
        }
    }
    assert_eq!(row_index_to_bool_point(11, 2), vec![true, false, true, true]);
}

fn rest_of(input: &mut TokenizerInput) -> String {
    let mut rest = String::new();
    while let Some(c) = input.next() {
        rest.push(c);
    }
    rest
}

#[test]
fn test_peek_until_n() {
    for input_size in 0..=10 {
        let input = "a".repeat(input_size);
        let mut buffer = String::new();

        let mut input = PositionTracker::new(MultiPeekChars::new(&input));

        let target_peak = 6;
        let did_read_anything = peek_until_n(target_peak, &mut input, &mut buffer);

        assert_eq!(did_read_anything, input_size >= 1, "i: {input_size}");
        assert_eq!(
            buffer.chars().count(),
            usize::min(input_size, target_peak),
            "i: {input_size}"
        );
    }
}

#[test]
fn test_pop_n_left() {
    for (text, left) in [("", ""), ("a", ""), ("ab", ""), ("abc", ""), ("abcd", "d")] {
        let mut buffer = String::from(text);
        let mut input = PositionTracker::new(MultiPeekChars::new(text));
        pop_n_left(&mut buffer, &mut input, 3);
        assert_eq!(&buffer, left);
        assert_eq!(&rest_of(&mut input), left);
    }
}
