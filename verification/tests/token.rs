use biodivine_boolean_functions::parser::token::IntermediateToken;

#[test]
fn token_test_longest() {
    let actual = IntermediateToken::longest_token_len();
    let expected = 1;

    assert_eq!(actual, expected);
}
