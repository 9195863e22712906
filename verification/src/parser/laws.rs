//! What the tokens and the parsed expressions mean.
use crate::expressions::{all_true, any_true, expr_value, value_of, ExprView};
use crate::parser::error::ParseTokensError;
use crate::parser::parse::{
    last_separator, lemma_last_separator, parse_and_view, parse_groups_view, parse_or_view,
    parse_terminal_view, separator, spec_parse,
};
use crate::parser::patterns::token_patterns;
use crate::parser::spec::operator_token;
use crate::parser::structs::{class_of_pattern, PatternClass, TokenView};
use vstd::prelude::*;

verus! {

/// The spellings of conjunction: `&`, `&&`, `and`, `∧`, `^` and `*`.
pub open spec fn is_and_spelling(p: Seq<char>) -> bool {
    p == seq!['&'] || p == seq!['&', '&'] || p == seq!['a', 'n', 'd'] || p == seq!['\u{2227}'] || p == seq!['^'] || p == seq!['*']
}

/// The spellings of disjunction: `|`, `||`, `or`, `∨`, `v` and `+`.
pub open spec fn is_or_spelling(p: Seq<char>) -> bool {
    p == seq!['|'] || p == seq!['|', '|'] || p == seq!['o', 'r'] || p == seq!['\u{2228}'] || p == seq!['v'] || p == seq!['+']
}

/// The spellings of negation: `~`, `!`, `not` and `¬`.
pub open spec fn is_not_spelling(p: Seq<char>) -> bool {
    p == seq!['~'] || p == seq!['!'] || p == seq!['n', 'o', 't'] || p == seq!['\u{ac}']
}

/// The spellings of the constant `true`: `t`, `true` and `1`.
pub open spec fn is_true_spelling(p: Seq<char>) -> bool {
    p == seq!['t'] || p == seq!['t', 'r', 'u', 'e'] || p == seq!['1']
}

/// The spellings of the constant `false`: `f`, `false` and `0`.
pub open spec fn is_false_spelling(p: Seq<char>) -> bool {
    p == seq!['f'] || p == seq!['f', 'a', 'l', 's', 'e'] || p == seq!['0']
}

/// Law: each token pattern stands for what it spells. The spellings of conjunction give the
/// `&` token, those of disjunction the `|` token, those of negation the `!` token, those of
/// the constants the constant tokens, and the brackets `(`, `)`, `{`, `}` their own roles.
pub proof fn law_pattern_meaning(i: nat)
    requires
        i < token_patterns().len(),
    ensures
        is_and_spelling(token_patterns()[i as int]) <==> class_of_pattern(i) == PatternClass::And,
        is_or_spelling(token_patterns()[i as int]) <==> class_of_pattern(i) == PatternClass::Or,
        is_not_spelling(token_patterns()[i as int]) <==> class_of_pattern(i) == PatternClass::Not,
        is_true_spelling(token_patterns()[i as int]) <==> class_of_pattern(i) == PatternClass::ConstantTrue,
        is_false_spelling(token_patterns()[i as int]) <==> class_of_pattern(i) == PatternClass::ConstantFalse,
        token_patterns()[i as int] == seq!['('] <==> class_of_pattern(i) == PatternClass::ParenthesesStart,
        token_patterns()[i as int] == seq![')'] <==> class_of_pattern(i) == PatternClass::ParenthesesEnd,
        token_patterns()[i as int] == seq!['{'] <==> class_of_pattern(i) == PatternClass::LiteralLongNameStart,
        token_patterns()[i as int] == seq!['}'] <==> class_of_pattern(i) == PatternClass::LiteralLongNameEnd,
        is_and_spelling(token_patterns()[i as int]) ==> operator_token(class_of_pattern(i)) == TokenView::And,
        is_or_spelling(token_patterns()[i as int]) ==> operator_token(class_of_pattern(i)) == TokenView::Or,
        is_not_spelling(token_patterns()[i as int]) ==> operator_token(class_of_pattern(i)) == TokenView::Not,
        is_true_spelling(token_patterns()[i as int]) ==> operator_token(class_of_pattern(i)) == TokenView::ConstantTrue,
        is_false_spelling(token_patterns()[i as int]) ==> operator_token(class_of_pattern(i)) == TokenView::ConstantFalse,
{
    let p = token_patterns()[i as int];
    if i == 0 {
        assert(p =~= seq!['f', 'a', 'l', 's', 'e']);
        assert(!is_and_spelling(p));
        assert(!is_or_spelling(p));
        assert(!is_not_spelling(p));
        assert(!is_true_spelling(p));
        assert(is_false_spelling(p));
    } else if i == 1 {
        assert(p =~= seq!['t', 'r', 'u', 'e']);
        assert(!is_and_spelling(p));
        assert(!is_or_spelling(p));
        assert(!is_not_spelling(p));
        assert(is_true_spelling(p));
        assert(!is_false_spelling(p));
    } else if i == 2 {
        assert(p =~= seq!['a', 'n', 'd']);
        assert(p != seq!['n', 'o', 't']) by { assert(p[0] != seq!['n', 'o', 't'][0]); }
        assert(is_and_spelling(p));
        assert(!is_or_spelling(p));
        assert(!is_not_spelling(p));
        assert(!is_true_spelling(p));
        assert(!is_false_spelling(p));
    } else if i == 3 {
        assert(p =~= seq!['n', 'o', 't']);
        assert(p != seq!['a', 'n', 'd']) by { assert(p[0] != seq!['a', 'n', 'd'][0]); }
        assert(!is_and_spelling(p));
        assert(!is_or_spelling(p));
        assert(is_not_spelling(p));
        assert(!is_true_spelling(p));
        assert(!is_false_spelling(p));
    } else if i == 4 {
        assert(p =~= seq!['&', '&']);
        assert(p != seq!['|', '|']) by { assert(p[0] != seq!['|', '|'][0]); }
        assert(p != seq!['o', 'r']) by { assert(p[0] != seq!['o', 'r'][0]); }
        assert(is_and_spelling(p));
        assert(!is_or_spelling(p));
        assert(!is_not_spelling(p));
        assert(!is_true_spelling(p));
        assert(!is_false_spelling(p));
    } else if i == 5 {
        assert(p =~= seq!['|', '|']);
        assert(p != seq!['&', '&']) by { assert(p[0] != seq!['&', '&'][0]); }
        assert(p != seq!['o', 'r']) by { assert(p[0] != seq!['o', 'r'][0]); }
        assert(!is_and_spelling(p));
        assert(is_or_spelling(p));
        assert(!is_not_spelling(p));
        assert(!is_true_spelling(p));
        assert(!is_false_spelling(p));
    } else if i == 6 {
        assert(p =~= seq!['o', 'r']);
        assert(p != seq!['&', '&']) by { assert(p[0] != seq!['&', '&'][0]); }
        assert(p != seq!['|', '|']) by { assert(p[0] != seq!['|', '|'][0]); }
        assert(!is_and_spelling(p));
        assert(is_or_spelling(p));
        assert(!is_not_spelling(p));
        assert(!is_true_spelling(p));
        assert(!is_false_spelling(p));
    } else if i == 7 {
        assert(p =~= seq!['&']);
        assert(p != seq!['{']) by { assert(p[0] != seq!['{'][0]); }
        assert(p != seq!['}']) by { assert(p[0] != seq!['}'][0]); }
        assert(p != seq!['(']) by { assert(p[0] != seq!['('][0]); }
        assert(p != seq![')']) by { assert(p[0] != seq![')'][0]); }
        assert(p != seq!['\u{2227}']) by { assert(p[0] != seq!['\u{2227}'][0]); }
        assert(p != seq!['^']) by { assert(p[0] != seq!['^'][0]); }
        assert(p != seq!['*']) by { assert(p[0] != seq!['*'][0]); }
        assert(p != seq!['|']) by { assert(p[0] != seq!['|'][0]); }
        assert(p != seq!['\u{2228}']) by { assert(p[0] != seq!['\u{2228}'][0]); }
        assert(p != seq!['v']) by { assert(p[0] != seq!['v'][0]); }
        assert(p != seq!['+']) by { assert(p[0] != seq!['+'][0]); }
        assert(p != seq!['~']) by { assert(p[0] != seq!['~'][0]); }
        assert(p != seq!['!']) by { assert(p[0] != seq!['!'][0]); }
        assert(p != seq!['\u{ac}']) by { assert(p[0] != seq!['\u{ac}'][0]); }
        assert(p != seq!['t']) by { assert(p[0] != seq!['t'][0]); }
        assert(p != seq!['1']) by { assert(p[0] != seq!['1'][0]); }
        assert(p != seq!['f']) by { assert(p[0] != seq!['f'][0]); }
        assert(p != seq!['0']) by { assert(p[0] != seq!['0'][0]); }
        assert(is_and_spelling(p));
        assert(!is_or_spelling(p));
        assert(!is_not_spelling(p));
        assert(!is_true_spelling(p));
        assert(!is_false_spelling(p));
    } else if i == 8 {
        assert(p =~= seq!['\u{2227}']);
        assert(p != seq!['{']) by { assert(p[0] != seq!['{'][0]); }
        assert(p != seq!['}']) by { assert(p[0] != seq!['}'][0]); }
        assert(p != seq!['(']) by { assert(p[0] != seq!['('][0]); }
        assert(p != seq![')']) by { assert(p[0] != seq![')'][0]); }
        assert(p != seq!['&']) by { assert(p[0] != seq!['&'][0]); }
        assert(p != seq!['^']) by { assert(p[0] != seq!['^'][0]); }
        assert(p != seq!['*']) by { assert(p[0] != seq!['*'][0]); }
        assert(p != seq!['|']) by { assert(p[0] != seq!['|'][0]); }
        assert(p != seq!['\u{2228}']) by { assert(p[0] != seq!['\u{2228}'][0]); }
        assert(p != seq!['v']) by { assert(p[0] != seq!['v'][0]); }
        assert(p != seq!['+']) by { assert(p[0] != seq!['+'][0]); }
        assert(p != seq!['~']) by { assert(p[0] != seq!['~'][0]); }
        assert(p != seq!['!']) by { assert(p[0] != seq!['!'][0]); }
        assert(p != seq!['\u{ac}']) by { assert(p[0] != seq!['\u{ac}'][0]); }
        assert(p != seq!['t']) by { assert(p[0] != seq!['t'][0]); }
        assert(p != seq!['1']) by { assert(p[0] != seq!['1'][0]); }
        assert(p != seq!['f']) by { assert(p[0] != seq!['f'][0]); }
        assert(p != seq!['0']) by { assert(p[0] != seq!['0'][0]); }
        assert(is_and_spelling(p));
        assert(!is_or_spelling(p));
        assert(!is_not_spelling(p));
        assert(!is_true_spelling(p));
        assert(!is_false_spelling(p));
    } else if i == 9 {
        assert(p =~= seq!['^']);
        assert(p != seq!['{']) by { assert(p[0] != seq!['{'][0]); }
        assert(p != seq!['}']) by { assert(p[0] != seq!['}'][0]); }
        assert(p != seq!['(']) by { assert(p[0] != seq!['('][0]); }
        assert(p != seq![')']) by { assert(p[0] != seq![')'][0]); }
        assert(p != seq!['&']) by { assert(p[0] != seq!['&'][0]); }
        assert(p != seq!['\u{2227}']) by { assert(p[0] != seq!['\u{2227}'][0]); }
        assert(p != seq!['*']) by { assert(p[0] != seq!['*'][0]); }
        assert(p != seq!['|']) by { assert(p[0] != seq!['|'][0]); }
        assert(p != seq!['\u{2228}']) by { assert(p[0] != seq!['\u{2228}'][0]); }
        assert(p != seq!['v']) by { assert(p[0] != seq!['v'][0]); }
        assert(p != seq!['+']) by { assert(p[0] != seq!['+'][0]); }
        assert(p != seq!['~']) by { assert(p[0] != seq!['~'][0]); }
        assert(p != seq!['!']) by { assert(p[0] != seq!['!'][0]); }
        assert(p != seq!['\u{ac}']) by { assert(p[0] != seq!['\u{ac}'][0]); }
        assert(p != seq!['t']) by { assert(p[0] != seq!['t'][0]); }
        assert(p != seq!['1']) by { assert(p[0] != seq!['1'][0]); }
        assert(p != seq!['f']) by { assert(p[0] != seq!['f'][0]); }
        assert(p != seq!['0']) by { assert(p[0] != seq!['0'][0]); }
        assert(is_and_spelling(p));
        assert(!is_or_spelling(p));
        assert(!is_not_spelling(p));
        assert(!is_true_spelling(p));
        assert(!is_false_spelling(p));
    } else if i == 10 {
        assert(p =~= seq!['*']);
        assert(p != seq!['{']) by { assert(p[0] != seq!['{'][0]); }
        assert(p != seq!['}']) by { assert(p[0] != seq!['}'][0]); }
        assert(p != seq!['(']) by { assert(p[0] != seq!['('][0]); }
        assert(p != seq![')']) by { assert(p[0] != seq![')'][0]); }
        assert(p != seq!['&']) by { assert(p[0] != seq!['&'][0]); }
        assert(p != seq!['\u{2227}']) by { assert(p[0] != seq!['\u{2227}'][0]); }
        assert(p != seq!['^']) by { assert(p[0] != seq!['^'][0]); }
        assert(p != seq!['|']) by { assert(p[0] != seq!['|'][0]); }
        assert(p != seq!['\u{2228}']) by { assert(p[0] != seq!['\u{2228}'][0]); }
        assert(p != seq!['v']) by { assert(p[0] != seq!['v'][0]); }
        assert(p != seq!['+']) by { assert(p[0] != seq!['+'][0]); }
        assert(p != seq!['~']) by { assert(p[0] != seq!['~'][0]); }
        assert(p != seq!['!']) by { assert(p[0] != seq!['!'][0]); }
        assert(p != seq!['\u{ac}']) by { assert(p[0] != seq!['\u{ac}'][0]); }
        assert(p != seq!['t']) by { assert(p[0] != seq!['t'][0]); }
        assert(p != seq!['1']) by { assert(p[0] != seq!['1'][0]); }
        assert(p != seq!['f']) by { assert(p[0] != seq!['f'][0]); }
        assert(p != seq!['0']) by { assert(p[0] != seq!['0'][0]); }
        assert(is_and_spelling(p));
        assert(!is_or_spelling(p));
        assert(!is_not_spelling(p));
        assert(!is_true_spelling(p));
        assert(!is_false_spelling(p));
    } else if i == 11 {
        assert(p =~= seq!['|']);
        assert(p != seq!['{']) by { assert(p[0] != seq!['{'][0]); }
        assert(p != seq!['}']) by { assert(p[0] != seq!['}'][0]); }
        assert(p != seq!['(']) by { assert(p[0] != seq!['('][0]); }
        assert(p != seq![')']) by { assert(p[0] != seq![')'][0]); }
        assert(p != seq!['&']) by { assert(p[0] != seq!['&'][0]); }
        assert(p != seq!['\u{2227}']) by { assert(p[0] != seq!['\u{2227}'][0]); }
        assert(p != seq!['^']) by { assert(p[0] != seq!['^'][0]); }
        assert(p != seq!['*']) by { assert(p[0] != seq!['*'][0]); }
        assert(p != seq!['\u{2228}']) by { assert(p[0] != seq!['\u{2228}'][0]); }
        assert(p != seq!['v']) by { assert(p[0] != seq!['v'][0]); }
        assert(p != seq!['+']) by { assert(p[0] != seq!['+'][0]); }
        assert(p != seq!['~']) by { assert(p[0] != seq!['~'][0]); }
        assert(p != seq!['!']) by { assert(p[0] != seq!['!'][0]); }
        assert(p != seq!['\u{ac}']) by { assert(p[0] != seq!['\u{ac}'][0]); }
        assert(p != seq!['t']) by { assert(p[0] != seq!['t'][0]); }
        assert(p != seq!['1']) by { assert(p[0] != seq!['1'][0]); }
        assert(p != seq!['f']) by { assert(p[0] != seq!['f'][0]); }
        assert(p != seq!['0']) by { assert(p[0] != seq!['0'][0]); }
        assert(!is_and_spelling(p));
        assert(is_or_spelling(p));
        assert(!is_not_spelling(p));
        assert(!is_true_spelling(p));
        assert(!is_false_spelling(p));
    } else if i == 12 {
        assert(p =~= seq!['\u{2228}']);
        assert(p != seq!['{']) by { assert(p[0] != seq!['{'][0]); }
        assert(p != seq!['}']) by { assert(p[0] != seq!['}'][0]); }
        assert(p != seq!['(']) by { assert(p[0] != seq!['('][0]); }
        assert(p != seq![')']) by { assert(p[0] != seq![')'][0]); }
        assert(p != seq!['&']) by { assert(p[0] != seq!['&'][0]); }
        assert(p != seq!['\u{2227}']) by { assert(p[0] != seq!['\u{2227}'][0]); }
        assert(p != seq!['^']) by { assert(p[0] != seq!['^'][0]); }
        assert(p != seq!['*']) by { assert(p[0] != seq!['*'][0]); }
        assert(p != seq!['|']) by { assert(p[0] != seq!['|'][0]); }
        assert(p != seq!['v']) by { assert(p[0] != seq!['v'][0]); }
        assert(p != seq!['+']) by { assert(p[0] != seq!['+'][0]); }
        assert(p != seq!['~']) by { assert(p[0] != seq!['~'][0]); }
        assert(p != seq!['!']) by { assert(p[0] != seq!['!'][0]); }
        assert(p != seq!['\u{ac}']) by { assert(p[0] != seq!['\u{ac}'][0]); }
        assert(p != seq!['t']) by { assert(p[0] != seq!['t'][0]); }
        assert(p != seq!['1']) by { assert(p[0] != seq!['1'][0]); }
        assert(p != seq!['f']) by { assert(p[0] != seq!['f'][0]); }
        assert(p != seq!['0']) by { assert(p[0] != seq!['0'][0]); }
        assert(!is_and_spelling(p));
        assert(is_or_spelling(p));
        assert(!is_not_spelling(p));
        assert(!is_true_spelling(p));
        assert(!is_false_spelling(p));
    } else if i == 13 {
        assert(p =~= seq!['v']);
        assert(p != seq!['{']) by { assert(p[0] != seq!['{'][0]); }
        assert(p != seq!['}']) by { assert(p[0] != seq!['}'][0]); }
        assert(p != seq!['(']) by { assert(p[0] != seq!['('][0]); }
        assert(p != seq![')']) by { assert(p[0] != seq![')'][0]); }
        assert(p != seq!['&']) by { assert(p[0] != seq!['&'][0]); }
        assert(p != seq!['\u{2227}']) by { assert(p[0] != seq!['\u{2227}'][0]); }
        assert(p != seq!['^']) by { assert(p[0] != seq!['^'][0]); }
        assert(p != seq!['*']) by { assert(p[0] != seq!['*'][0]); }
        assert(p != seq!['|']) by { assert(p[0] != seq!['|'][0]); }
        assert(p != seq!['\u{2228}']) by { assert(p[0] != seq!['\u{2228}'][0]); }
        assert(p != seq!['+']) by { assert(p[0] != seq!['+'][0]); }
        assert(p != seq!['~']) by { assert(p[0] != seq!['~'][0]); }
        assert(p != seq!['!']) by { assert(p[0] != seq!['!'][0]); }
        assert(p != seq!['\u{ac}']) by { assert(p[0] != seq!['\u{ac}'][0]); }
        assert(p != seq!['t']) by { assert(p[0] != seq!['t'][0]); }
        assert(p != seq!['1']) by { assert(p[0] != seq!['1'][0]); }
        assert(p != seq!['f']) by { assert(p[0] != seq!['f'][0]); }
        assert(p != seq!['0']) by { assert(p[0] != seq!['0'][0]); }
        assert(!is_and_spelling(p));
        assert(is_or_spelling(p));
        assert(!is_not_spelling(p));
        assert(!is_true_spelling(p));
        assert(!is_false_spelling(p));
    } else if i == 14 {
        assert(p =~= seq!['+']);
        assert(p != seq!['{']) by { assert(p[0] != seq!['{'][0]); }
        assert(p != seq!['}']) by { assert(p[0] != seq!['}'][0]); }
        assert(p != seq!['(']) by { assert(p[0] != seq!['('][0]); }
        assert(p != seq![')']) by { assert(p[0] != seq![')'][0]); }
        assert(p != seq!['&']) by { assert(p[0] != seq!['&'][0]); }
        assert(p != seq!['\u{2227}']) by { assert(p[0] != seq!['\u{2227}'][0]); }
        assert(p != seq!['^']) by { assert(p[0] != seq!['^'][0]); }
        assert(p != seq!['*']) by { assert(p[0] != seq!['*'][0]); }
        assert(p != seq!['|']) by { assert(p[0] != seq!['|'][0]); }
        assert(p != seq!['\u{2228}']) by { assert(p[0] != seq!['\u{2228}'][0]); }
        assert(p != seq!['v']) by { assert(p[0] != seq!['v'][0]); }
        assert(p != seq!['~']) by { assert(p[0] != seq!['~'][0]); }
        assert(p != seq!['!']) by { assert(p[0] != seq!['!'][0]); }
        assert(p != seq!['\u{ac}']) by { assert(p[0] != seq!['\u{ac}'][0]); }
        assert(p != seq!['t']) by { assert(p[0] != seq!['t'][0]); }
        assert(p != seq!['1']) by { assert(p[0] != seq!['1'][0]); }
        assert(p != seq!['f']) by { assert(p[0] != seq!['f'][0]); }
        assert(p != seq!['0']) by { assert(p[0] != seq!['0'][0]); }
        assert(!is_and_spelling(p));
        assert(is_or_spelling(p));
        assert(!is_not_spelling(p));
        assert(!is_true_spelling(p));
        assert(!is_false_spelling(p));
    } else if i == 15 {
        assert(p =~= seq!['~']);
        assert(p != seq!['{']) by { assert(p[0] != seq!['{'][0]); }
        assert(p != seq!['}']) by { assert(p[0] != seq!['}'][0]); }
        assert(p != seq!['(']) by { assert(p[0] != seq!['('][0]); }
        assert(p != seq![')']) by { assert(p[0] != seq![')'][0]); }
        assert(p != seq!['&']) by { assert(p[0] != seq!['&'][0]); }
        assert(p != seq!['\u{2227}']) by { assert(p[0] != seq!['\u{2227}'][0]); }
        assert(p != seq!['^']) by { assert(p[0] != seq!['^'][0]); }
        assert(p != seq!['*']) by { assert(p[0] != seq!['*'][0]); }
        assert(p != seq!['|']) by { assert(p[0] != seq!['|'][0]); }
        assert(p != seq!['\u{2228}']) by { assert(p[0] != seq!['\u{2228}'][0]); }
        assert(p != seq!['v']) by { assert(p[0] != seq!['v'][0]); }
        assert(p != seq!['+']) by { assert(p[0] != seq!['+'][0]); }
        assert(p != seq!['!']) by { assert(p[0] != seq!['!'][0]); }
        assert(p != seq!['\u{ac}']) by { assert(p[0] != seq!['\u{ac}'][0]); }
        assert(p != seq!['t']) by { assert(p[0] != seq!['t'][0]); }
        assert(p != seq!['1']) by { assert(p[0] != seq!['1'][0]); }
        assert(p != seq!['f']) by { assert(p[0] != seq!['f'][0]); }
        assert(p != seq!['0']) by { assert(p[0] != seq!['0'][0]); }
        assert(!is_and_spelling(p));
        assert(!is_or_spelling(p));
        assert(is_not_spelling(p));
        assert(!is_true_spelling(p));
        assert(!is_false_spelling(p));
    } else if i == 16 {
        assert(p =~= seq!['!']);
        assert(p != seq!['{']) by { assert(p[0] != seq!['{'][0]); }
        assert(p != seq!['}']) by { assert(p[0] != seq!['}'][0]); }
        assert(p != seq!['(']) by { assert(p[0] != seq!['('][0]); }
        assert(p != seq![')']) by { assert(p[0] != seq![')'][0]); }
        assert(p != seq!['&']) by { assert(p[0] != seq!['&'][0]); }
        assert(p != seq!['\u{2227}']) by { assert(p[0] != seq!['\u{2227}'][0]); }
        assert(p != seq!['^']) by { assert(p[0] != seq!['^'][0]); }
        assert(p != seq!['*']) by { assert(p[0] != seq!['*'][0]); }
        assert(p != seq!['|']) by { assert(p[0] != seq!['|'][0]); }
        assert(p != seq!['\u{2228}']) by { assert(p[0] != seq!['\u{2228}'][0]); }
        assert(p != seq!['v']) by { assert(p[0] != seq!['v'][0]); }
        assert(p != seq!['+']) by { assert(p[0] != seq!['+'][0]); }
        assert(p != seq!['~']) by { assert(p[0] != seq!['~'][0]); }
        assert(p != seq!['\u{ac}']) by { assert(p[0] != seq!['\u{ac}'][0]); }
        assert(p != seq!['t']) by { assert(p[0] != seq!['t'][0]); }
        assert(p != seq!['1']) by { assert(p[0] != seq!['1'][0]); }
        assert(p != seq!['f']) by { assert(p[0] != seq!['f'][0]); }
        assert(p != seq!['0']) by { assert(p[0] != seq!['0'][0]); }
        assert(!is_and_spelling(p));
        assert(!is_or_spelling(p));
        assert(is_not_spelling(p));
        assert(!is_true_spelling(p));
        assert(!is_false_spelling(p));
    } else if i == 17 {
        assert(p =~= seq!['\u{ac}']);
        assert(p != seq!['{']) by { assert(p[0] != seq!['{'][0]); }
        assert(p != seq!['}']) by { assert(p[0] != seq!['}'][0]); }
        assert(p != seq!['(']) by { assert(p[0] != seq!['('][0]); }
        assert(p != seq![')']) by { assert(p[0] != seq![')'][0]); }
        assert(p != seq!['&']) by { assert(p[0] != seq!['&'][0]); }
        assert(p != seq!['\u{2227}']) by { assert(p[0] != seq!['\u{2227}'][0]); }
        assert(p != seq!['^']) by { assert(p[0] != seq!['^'][0]); }
        assert(p != seq!['*']) by { assert(p[0] != seq!['*'][0]); }
        assert(p != seq!['|']) by { assert(p[0] != seq!['|'][0]); }
        assert(p != seq!['\u{2228}']) by { assert(p[0] != seq!['\u{2228}'][0]); }
        assert(p != seq!['v']) by { assert(p[0] != seq!['v'][0]); }
        assert(p != seq!['+']) by { assert(p[0] != seq!['+'][0]); }
        assert(p != seq!['~']) by { assert(p[0] != seq!['~'][0]); }
        assert(p != seq!['!']) by { assert(p[0] != seq!['!'][0]); }
        assert(p != seq!['t']) by { assert(p[0] != seq!['t'][0]); }
        assert(p != seq!['1']) by { assert(p[0] != seq!['1'][0]); }
        assert(p != seq!['f']) by { assert(p[0] != seq!['f'][0]); }
        assert(p != seq!['0']) by { assert(p[0] != seq!['0'][0]); }
        assert(!is_and_spelling(p));
        assert(!is_or_spelling(p));
        assert(is_not_spelling(p));
        assert(!is_true_spelling(p));
        assert(!is_false_spelling(p));
    } else if i == 18 {
        assert(p =~= seq!['f']);
        assert(p != seq!['{']) by { assert(p[0] != seq!['{'][0]); }
        assert(p != seq!['}']) by { assert(p[0] != seq!['}'][0]); }
        assert(p != seq!['(']) by { assert(p[0] != seq!['('][0]); }
        assert(p != seq![')']) by { assert(p[0] != seq![')'][0]); }
        assert(p != seq!['&']) by { assert(p[0] != seq!['&'][0]); }
        assert(p != seq!['\u{2227}']) by { assert(p[0] != seq!['\u{2227}'][0]); }
        assert(p != seq!['^']) by { assert(p[0] != seq!['^'][0]); }
        assert(p != seq!['*']) by { assert(p[0] != seq!['*'][0]); }
        assert(p != seq!['|']) by { assert(p[0] != seq!['|'][0]); }
        assert(p != seq!['\u{2228}']) by { assert(p[0] != seq!['\u{2228}'][0]); }
        assert(p != seq!['v']) by { assert(p[0] != seq!['v'][0]); }
        assert(p != seq!['+']) by { assert(p[0] != seq!['+'][0]); }
        assert(p != seq!['~']) by { assert(p[0] != seq!['~'][0]); }
        assert(p != seq!['!']) by { assert(p[0] != seq!['!'][0]); }
        assert(p != seq!['\u{ac}']) by { assert(p[0] != seq!['\u{ac}'][0]); }
        assert(p != seq!['t']) by { assert(p[0] != seq!['t'][0]); }
        assert(p != seq!['1']) by { assert(p[0] != seq!['1'][0]); }
        assert(p != seq!['0']) by { assert(p[0] != seq!['0'][0]); }
        assert(!is_and_spelling(p));
        assert(!is_or_spelling(p));
        assert(!is_not_spelling(p));
        assert(!is_true_spelling(p));
        assert(is_false_spelling(p));
    } else if i == 19 {
        assert(p =~= seq!['0']);
        assert(p != seq!['{']) by { assert(p[0] != seq!['{'][0]); }
        assert(p != seq!['}']) by { assert(p[0] != seq!['}'][0]); }
        assert(p != seq!['(']) by { assert(p[0] != seq!['('][0]); }
        assert(p != seq![')']) by { assert(p[0] != seq![')'][0]); }
        assert(p != seq!['&']) by { assert(p[0] != seq!['&'][0]); }
        assert(p != seq!['\u{2227}']) by { assert(p[0] != seq!['\u{2227}'][0]); }
        assert(p != seq!['^']) by { assert(p[0] != seq!['^'][0]); }
        assert(p != seq!['*']) by { assert(p[0] != seq!['*'][0]); }
        assert(p != seq!['|']) by { assert(p[0] != seq!['|'][0]); }
        assert(p != seq!['\u{2228}']) by { assert(p[0] != seq!['\u{2228}'][0]); }
        assert(p != seq!['v']) by { assert(p[0] != seq!['v'][0]); }
        assert(p != seq!['+']) by { assert(p[0] != seq!['+'][0]); }
        assert(p != seq!['~']) by { assert(p[0] != seq!['~'][0]); }
        assert(p != seq!['!']) by { assert(p[0] != seq!['!'][0]); }
        assert(p != seq!['\u{ac}']) by { assert(p[0] != seq!['\u{ac}'][0]); }
        assert(p != seq!['t']) by { assert(p[0] != seq!['t'][0]); }
        assert(p != seq!['1']) by { assert(p[0] != seq!['1'][0]); }
        assert(p != seq!['f']) by { assert(p[0] != seq!['f'][0]); }
        assert(!is_and_spelling(p));
        assert(!is_or_spelling(p));
        assert(!is_not_spelling(p));
        assert(!is_true_spelling(p));
        assert(is_false_spelling(p));
    } else if i == 20 {
        assert(p =~= seq!['t']);
        assert(p != seq!['{']) by { assert(p[0] != seq!['{'][0]); }
        assert(p != seq!['}']) by { assert(p[0] != seq!['}'][0]); }
        assert(p != seq!['(']) by { assert(p[0] != seq!['('][0]); }
        assert(p != seq![')']) by { assert(p[0] != seq![')'][0]); }
        assert(p != seq!['&']) by { assert(p[0] != seq!['&'][0]); }
        assert(p != seq!['\u{2227}']) by { assert(p[0] != seq!['\u{2227}'][0]); }
        assert(p != seq!['^']) by { assert(p[0] != seq!['^'][0]); }
        assert(p != seq!['*']) by { assert(p[0] != seq!['*'][0]); }
        assert(p != seq!['|']) by { assert(p[0] != seq!['|'][0]); }
        assert(p != seq!['\u{2228}']) by { assert(p[0] != seq!['\u{2228}'][0]); }
        assert(p != seq!['v']) by { assert(p[0] != seq!['v'][0]); }
        assert(p != seq!['+']) by { assert(p[0] != seq!['+'][0]); }
        assert(p != seq!['~']) by { assert(p[0] != seq!['~'][0]); }
        assert(p != seq!['!']) by { assert(p[0] != seq!['!'][0]); }
        assert(p != seq!['\u{ac}']) by { assert(p[0] != seq!['\u{ac}'][0]); }
        assert(p != seq!['1']) by { assert(p[0] != seq!['1'][0]); }
        assert(p != seq!['f']) by { assert(p[0] != seq!['f'][0]); }
        assert(p != seq!['0']) by { assert(p[0] != seq!['0'][0]); }
        assert(!is_and_spelling(p));
        assert(!is_or_spelling(p));
        assert(!is_not_spelling(p));
        assert(is_true_spelling(p));
        assert(!is_false_spelling(p));
    } else if i == 21 {
        assert(p =~= seq!['1']);
        assert(p != seq!['{']) by { assert(p[0] != seq!['{'][0]); }
        assert(p != seq!['}']) by { assert(p[0] != seq!['}'][0]); }
        assert(p != seq!['(']) by { assert(p[0] != seq!['('][0]); }
        assert(p != seq![')']) by { assert(p[0] != seq![')'][0]); }
        assert(p != seq!['&']) by { assert(p[0] != seq!['&'][0]); }
        assert(p != seq!['\u{2227}']) by { assert(p[0] != seq!['\u{2227}'][0]); }
        assert(p != seq!['^']) by { assert(p[0] != seq!['^'][0]); }
        assert(p != seq!['*']) by { assert(p[0] != seq!['*'][0]); }
        assert(p != seq!['|']) by { assert(p[0] != seq!['|'][0]); }
        assert(p != seq!['\u{2228}']) by { assert(p[0] != seq!['\u{2228}'][0]); }
        assert(p != seq!['v']) by { assert(p[0] != seq!['v'][0]); }
        assert(p != seq!['+']) by { assert(p[0] != seq!['+'][0]); }
        assert(p != seq!['~']) by { assert(p[0] != seq!['~'][0]); }
        assert(p != seq!['!']) by { assert(p[0] != seq!['!'][0]); }
        assert(p != seq!['\u{ac}']) by { assert(p[0] != seq!['\u{ac}'][0]); }
        assert(p != seq!['t']) by { assert(p[0] != seq!['t'][0]); }
        assert(p != seq!['f']) by { assert(p[0] != seq!['f'][0]); }
        assert(p != seq!['0']) by { assert(p[0] != seq!['0'][0]); }
        assert(!is_and_spelling(p));
        assert(!is_or_spelling(p));
        assert(!is_not_spelling(p));
        assert(is_true_spelling(p));
        assert(!is_false_spelling(p));
    } else if i == 22 {
        assert(p =~= seq!['{']);
        assert(p != seq!['}']) by { assert(p[0] != seq!['}'][0]); }
        assert(p != seq!['(']) by { assert(p[0] != seq!['('][0]); }
        assert(p != seq![')']) by { assert(p[0] != seq![')'][0]); }
        assert(p != seq!['&']) by { assert(p[0] != seq!['&'][0]); }
        assert(p != seq!['\u{2227}']) by { assert(p[0] != seq!['\u{2227}'][0]); }
        assert(p != seq!['^']) by { assert(p[0] != seq!['^'][0]); }
        assert(p != seq!['*']) by { assert(p[0] != seq!['*'][0]); }
        assert(p != seq!['|']) by { assert(p[0] != seq!['|'][0]); }
        assert(p != seq!['\u{2228}']) by { assert(p[0] != seq!['\u{2228}'][0]); }
        assert(p != seq!['v']) by { assert(p[0] != seq!['v'][0]); }
        assert(p != seq!['+']) by { assert(p[0] != seq!['+'][0]); }
        assert(p != seq!['~']) by { assert(p[0] != seq!['~'][0]); }
        assert(p != seq!['!']) by { assert(p[0] != seq!['!'][0]); }
        assert(p != seq!['\u{ac}']) by { assert(p[0] != seq!['\u{ac}'][0]); }
        assert(p != seq!['t']) by { assert(p[0] != seq!['t'][0]); }
        assert(p != seq!['1']) by { assert(p[0] != seq!['1'][0]); }
        assert(p != seq!['f']) by { assert(p[0] != seq!['f'][0]); }
        assert(p != seq!['0']) by { assert(p[0] != seq!['0'][0]); }
        assert(!is_and_spelling(p));
        assert(!is_or_spelling(p));
        assert(!is_not_spelling(p));
        assert(!is_true_spelling(p));
        assert(!is_false_spelling(p));
    } else if i == 23 {
        assert(p =~= seq!['}']);
        assert(p != seq!['{']) by { assert(p[0] != seq!['{'][0]); }
        assert(p != seq!['(']) by { assert(p[0] != seq!['('][0]); }
        assert(p != seq![')']) by { assert(p[0] != seq![')'][0]); }
        assert(p != seq!['&']) by { assert(p[0] != seq!['&'][0]); }
        assert(p != seq!['\u{2227}']) by { assert(p[0] != seq!['\u{2227}'][0]); }
        assert(p != seq!['^']) by { assert(p[0] != seq!['^'][0]); }
        assert(p != seq!['*']) by { assert(p[0] != seq!['*'][0]); }
        assert(p != seq!['|']) by { assert(p[0] != seq!['|'][0]); }
        assert(p != seq!['\u{2228}']) by { assert(p[0] != seq!['\u{2228}'][0]); }
        assert(p != seq!['v']) by { assert(p[0] != seq!['v'][0]); }
        assert(p != seq!['+']) by { assert(p[0] != seq!['+'][0]); }
        assert(p != seq!['~']) by { assert(p[0] != seq!['~'][0]); }
        assert(p != seq!['!']) by { assert(p[0] != seq!['!'][0]); }
        assert(p != seq!['\u{ac}']) by { assert(p[0] != seq!['\u{ac}'][0]); }
        assert(p != seq!['t']) by { assert(p[0] != seq!['t'][0]); }
        assert(p != seq!['1']) by { assert(p[0] != seq!['1'][0]); }
        assert(p != seq!['f']) by { assert(p[0] != seq!['f'][0]); }
        assert(p != seq!['0']) by { assert(p[0] != seq!['0'][0]); }
        assert(!is_and_spelling(p));
        assert(!is_or_spelling(p));
        assert(!is_not_spelling(p));
        assert(!is_true_spelling(p));
        assert(!is_false_spelling(p));
    } else if i == 24 {
        assert(p =~= seq!['(']);
        assert(p != seq!['{']) by { assert(p[0] != seq!['{'][0]); }
        assert(p != seq!['}']) by { assert(p[0] != seq!['}'][0]); }
        assert(p != seq![')']) by { assert(p[0] != seq![')'][0]); }
        assert(p != seq!['&']) by { assert(p[0] != seq!['&'][0]); }
        assert(p != seq!['\u{2227}']) by { assert(p[0] != seq!['\u{2227}'][0]); }
        assert(p != seq!['^']) by { assert(p[0] != seq!['^'][0]); }
        assert(p != seq!['*']) by { assert(p[0] != seq!['*'][0]); }
        assert(p != seq!['|']) by { assert(p[0] != seq!['|'][0]); }
        assert(p != seq!['\u{2228}']) by { assert(p[0] != seq!['\u{2228}'][0]); }
        assert(p != seq!['v']) by { assert(p[0] != seq!['v'][0]); }
        assert(p != seq!['+']) by { assert(p[0] != seq!['+'][0]); }
        assert(p != seq!['~']) by { assert(p[0] != seq!['~'][0]); }
        assert(p != seq!['!']) by { assert(p[0] != seq!['!'][0]); }
        assert(p != seq!['\u{ac}']) by { assert(p[0] != seq!['\u{ac}'][0]); }
        assert(p != seq!['t']) by { assert(p[0] != seq!['t'][0]); }
        assert(p != seq!['1']) by { assert(p[0] != seq!['1'][0]); }
        assert(p != seq!['f']) by { assert(p[0] != seq!['f'][0]); }
        assert(p != seq!['0']) by { assert(p[0] != seq!['0'][0]); }
        assert(!is_and_spelling(p));
        assert(!is_or_spelling(p));
        assert(!is_not_spelling(p));
        assert(!is_true_spelling(p));
        assert(!is_false_spelling(p));
    } else {
        assert(p =~= seq![')']);
        assert(p != seq!['{']) by { assert(p[0] != seq!['{'][0]); }
        assert(p != seq!['}']) by { assert(p[0] != seq!['}'][0]); }
        assert(p != seq!['(']) by { assert(p[0] != seq!['('][0]); }
        assert(p != seq!['&']) by { assert(p[0] != seq!['&'][0]); }
        assert(p != seq!['\u{2227}']) by { assert(p[0] != seq!['\u{2227}'][0]); }
        assert(p != seq!['^']) by { assert(p[0] != seq!['^'][0]); }
        assert(p != seq!['*']) by { assert(p[0] != seq!['*'][0]); }
        assert(p != seq!['|']) by { assert(p[0] != seq!['|'][0]); }
        assert(p != seq!['\u{2228}']) by { assert(p[0] != seq!['\u{2228}'][0]); }
        assert(p != seq!['v']) by { assert(p[0] != seq!['v'][0]); }
        assert(p != seq!['+']) by { assert(p[0] != seq!['+'][0]); }
        assert(p != seq!['~']) by { assert(p[0] != seq!['~'][0]); }
        assert(p != seq!['!']) by { assert(p[0] != seq!['!'][0]); }
        assert(p != seq!['\u{ac}']) by { assert(p[0] != seq!['\u{ac}'][0]); }
        assert(p != seq!['t']) by { assert(p[0] != seq!['t'][0]); }
        assert(p != seq!['1']) by { assert(p[0] != seq!['1'][0]); }
        assert(p != seq!['f']) by { assert(p[0] != seq!['f'][0]); }
        assert(p != seq!['0']) by { assert(p[0] != seq!['0'][0]); }
        assert(!is_and_spelling(p));
        assert(!is_or_spelling(p));
        assert(!is_not_spelling(p));
        assert(!is_true_spelling(p));
        assert(!is_false_spelling(p));
    }
}

/// The value of the tokens `ts[lo..hi]` read as a disjunction: `true` when the part after
/// the last `|` or any part before it is `true`.
pub open spec fn tokens_or_value(ts: Seq<TokenView>, lo: int, hi: int, valuation: Map<Seq<char>, bool>, default: bool) -> bool
    decreases ts, hi - lo, 2nat,
    when 0 <= lo <= hi <= ts.len()
{
    match last_separator(ts, lo, hi, TokenView::Or) {
        Some(k) => if lo <= k < hi {
            tokens_or_value(ts, lo, k, valuation, default) || tokens_and_value(ts, k + 1, hi, valuation, default)
        } else {
            false
        },
        None => tokens_and_value(ts, lo, hi, valuation, default),
    }
}

/// The value of the tokens `ts[lo..hi]` read as a conjunction: `true` when the part after
/// the last `&` and all the parts before it are `true`.
pub open spec fn tokens_and_value(ts: Seq<TokenView>, lo: int, hi: int, valuation: Map<Seq<char>, bool>, default: bool) -> bool
    decreases ts, hi - lo, 1nat,
    when 0 <= lo <= hi <= ts.len()
{
    match last_separator(ts, lo, hi, TokenView::And) {
        Some(k) => if lo <= k < hi {
            tokens_and_value(ts, lo, k, valuation, default) && tokens_term_value(ts, k + 1, hi, valuation, default)
        } else {
            false
        },
        None => tokens_term_value(ts, lo, hi, valuation, default),
    }
}

/// The value of the term `ts[lo..hi]`: each `!` in front flips the value of what follows; a
/// constant is its value, a variable its value in `valuation` (or `default`), and a group in
/// parentheses the value of its tokens.
pub open spec fn tokens_term_value(ts: Seq<TokenView>, lo: int, hi: int, valuation: Map<Seq<char>, bool>, default: bool) -> bool
    decreases ts, hi - lo, 0nat,
    when 0 <= lo <= hi <= ts.len()
{
    if hi <= lo {
        false
    } else if ts[lo] == TokenView::Not {
        !tokens_term_value(ts, lo + 1, hi, valuation, default)
    } else {
        match ts[lo] {
            TokenView::ConstantTrue => true,
            TokenView::ConstantFalse => false,
            TokenView::Literal(name) => value_of(valuation, name, default),
            TokenView::Parentheses(inner) => tokens_or_value(inner, 0, inner.len() as int, valuation, default),
            _ => false,
        }
    }
}

/// Parsed disjunctions, conjunctions and terms have the value of their tokens.
proof fn lemma_parse_value(ts: Seq<TokenView>, lo: int, hi: int, level: nat, valuation: Map<Seq<char>, bool>, default: bool)
    requires
        0 <= lo <= hi <= ts.len(),
        level <= 4,
    ensures
        level == 4 ==> (parse_or_view(ts, lo, hi) matches Ok(e) ==> expr_value(e, valuation, default) == tokens_or_value(ts, lo, hi, valuation, default)),
        level == 3 ==> (parse_groups_view(ts, lo, hi, true) matches Ok(es) ==> es.len() > 0 && any_true(es, valuation, default) == tokens_or_value(ts, lo, hi, valuation, default)),
        level == 2 ==> (parse_and_view(ts, lo, hi) matches Ok(e) ==> expr_value(e, valuation, default) == tokens_and_value(ts, lo, hi, valuation, default)),
        level == 1 ==> (parse_groups_view(ts, lo, hi, false) matches Ok(es) ==> es.len() > 0 && all_true(es, valuation, default) == tokens_and_value(ts, lo, hi, valuation, default)),
        level == 0 ==> (parse_terminal_view(ts, lo, hi) matches Ok(e) ==> expr_value(e, valuation, default) == tokens_term_value(ts, lo, hi, valuation, default)),
    decreases ts, hi - lo, level,
{
    if level == 4 {
        lemma_parse_value(ts, lo, hi, 3, valuation, default);
        if let Ok(es) = parse_groups_view(ts, lo, hi, true) {
            if es.len() == 1 {
                assert(es.drop_last().len() == 0);
                assert(es.last() == es[0]);
                reveal_with_fuel(any_true, 2);
                reveal_with_fuel(all_true, 2);
            }
        }
    } else if level == 2 {
        lemma_parse_value(ts, lo, hi, 1, valuation, default);
        if let Ok(es) = parse_groups_view(ts, lo, hi, false) {
            if es.len() == 1 {
                assert(es.drop_last().len() == 0);
                assert(es.last() == es[0]);
                reveal_with_fuel(any_true, 2);
                reveal_with_fuel(all_true, 2);
            }
        }
    } else if level == 3 || level == 1 {
        let or_level = level == 3;
        let sep = separator(or_level);
        lemma_last_separator(ts, lo, hi, sep);
        match last_separator(ts, lo, hi, sep) {
            None => {
                lemma_parse_value(ts, lo, hi, (level - 1) as nat, valuation, default);
                reveal_with_fuel(any_true, 2);
                reveal_with_fuel(all_true, 2);
                if let Ok(es) = parse_groups_view(ts, lo, hi, or_level) {
                    assert(es.drop_last().len() == 0);
                }
            },
            Some(k) => {
                lemma_parse_value(ts, lo, k, level, valuation, default);
                lemma_parse_value(ts, k + 1, hi, (level - 1) as nat, valuation, default);
                if let Ok(es) = parse_groups_view(ts, lo, hi, or_level) {
                    let left = parse_groups_view(ts, lo, k, or_level)->Ok_0;
                    let right = if or_level { parse_and_view(ts, k + 1, hi) } else { parse_terminal_view(ts, k + 1, hi) };
                    assert(es == left.push(right->Ok_0));
                    assert(es.drop_last() =~= left);
                    assert(es.last() == right->Ok_0);
                }
            },
        }
    } else {
        if lo < hi {
            if ts[lo] == TokenView::Not {
                lemma_parse_value(ts, lo + 1, hi, 0, valuation, default);
            } else if hi - lo == 1 {
                if let TokenView::Parentheses(inner) = ts[lo] {
                    lemma_parse_value(inner, 0, inner.len() as int, 4, valuation, default);
                }
            }
        }
    }
}

/// Law: a parsed expression has, on every valuation, the value of its tokens read with `|`
/// as "any of", `&` as "all of", `!` as "not", and parentheses as grouping.
pub proof fn law_parse_evaluation(ts: Seq<TokenView>, valuation: Map<Seq<char>, bool>, default: bool)
    requires
        spec_parse(ts) is Ok,
    ensures
        expr_value(spec_parse(ts)->Ok_0, valuation, default) == tokens_or_value(ts, 0, ts.len() as int, valuation, default),
{
    lemma_parse_value(ts, 0, ts.len() as int, 4, valuation, default);
}

} // verus!
