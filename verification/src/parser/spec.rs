//! What splitting a text into tokens gives.
use crate::parser::error::TokenizeError;
use crate::parser::patterns::{first_match, first_match_from, is_literal_char, pattern_matches, token_patterns};
use crate::parser::structs::{class_of_pattern, PatternClass, TokenView};
use vstd::prelude::*;

verus! {

/// The characters with the Unicode `White_Space` property: tab, line feed, vertical tab,
/// form feed, carriage return, space, next line, no-break space, ogham space mark, the
/// spaces from en quad to hair space, line and paragraph separators, narrow no-break space,
/// medium mathematical space and ideographic space.
pub open spec fn spec_is_whitespace(c: char) -> bool {
    let v = c as u32;
    ||| 0x9 <= v <= 0xD
    ||| v == 0x20
    ||| v == 0x85
    ||| v == 0xA0
    ||| v == 0x1680
    ||| 0x2000 <= v <= 0x200A
    ||| v == 0x2028
    ||| v == 0x2029
    ||| v == 0x202F
    ||| v == 0x205F
    ||| v == 0x3000
}

/// The first position at or after `p` that does not hold whitespace.
pub open spec fn skip_whitespace(s: Seq<char>, p: nat) -> nat
    decreases s.len() - p,
{
    if p < s.len() && spec_is_whitespace(s[p as int]) {
        skip_whitespace(s, p + 1)
    } else {
        p
    }
}

/// The first position at or after `p` that does not hold a name character.
pub open spec fn literal_end(s: Seq<char>, p: nat) -> nat
    decreases s.len() - p,
{
    if p < s.len() && is_literal_char(s[p as int]) {
        literal_end(s, p + 1)
    } else {
        p
    }
}

/// The first position at or after `p` that holds `}`, if any.
pub open spec fn brace_end(s: Seq<char>, p: nat) -> Option<nat>
    decreases s.len() - p,
{
    if p >= s.len() {
        None
    } else if s[p as int] == '}' {
        Some(p)
    } else {
        brace_end(s, p + 1)
    }
}

/// The (at most) six characters at position `p`: enough to tell the longest pattern from a
/// name.
pub open spec fn window(s: Seq<char>, p: nat) -> Seq<char> {
    let end: int = if p + 6 <= s.len() { (p + 6) as int } else { s.len() as int };
    s.subrange(p as int, end)
}

/// The token of an operator or constant pattern.
pub open spec fn operator_token(class: PatternClass) -> TokenView {
    match class {
        PatternClass::And => TokenView::And,
        PatternClass::Or => TokenView::Or,
        PatternClass::Not => TokenView::Not,
        PatternClass::ConstantTrue => TokenView::ConstantTrue,
        _ => TokenView::ConstantFalse,
    }
}

pub proof fn lemma_skip_whitespace_bounds(s: Seq<char>, p: nat)
    requires
        p <= s.len(),
    ensures
        p <= skip_whitespace(s, p) <= s.len(),
        skip_whitespace(s, p) < s.len() ==> !spec_is_whitespace(s[skip_whitespace(s, p) as int]),
        skip_whitespace(s, skip_whitespace(s, p)) == skip_whitespace(s, p),
    decreases s.len() - p,
{
    if p < s.len() && spec_is_whitespace(s[p as int]) {
        lemma_skip_whitespace_bounds(s, p + 1);
    }
}

pub proof fn lemma_literal_end_bounds(s: Seq<char>, p: nat)
    requires
        p <= s.len(),
    ensures
        p <= literal_end(s, p) <= s.len(),
        literal_end(s, p) < s.len() ==> !is_literal_char(s[literal_end(s, p) as int]),
        forall|j: int| p <= j < literal_end(s, p) ==> is_literal_char(#[trigger] s[j]),
    decreases s.len() - p,
{
    if p < s.len() && is_literal_char(s[p as int]) {
        lemma_literal_end_bounds(s, p + 1);
    }
}

pub proof fn lemma_brace_end_bounds(s: Seq<char>, p: nat)
    ensures
        brace_end(s, p) matches Some(q) ==> p <= q < s.len() && s[q as int] == '}'
            && forall|j: int| p <= j < q ==> #[trigger] s[j] != '}',
        brace_end(s, p) is None ==> forall|j: int| p <= j < s.len() ==> #[trigger] s[j] != '}',
    decreases s.len() - p,
{
    if p < s.len() && s[p as int] != '}' {
        lemma_brace_end_bounds(s, p + 1);
    }
}

/// The pattern found first is one that the text matches.
pub proof fn lemma_first_match(text: Seq<char>, from: nat)
    ensures
        first_match_from(text, from) matches Some(i) ==> i < token_patterns().len() && pattern_matches(text, token_patterns()[i as int])
            && from <= i,
    decreases token_patterns().len() - from,
{
    if from < token_patterns().len() && !pattern_matches(text, token_patterns()[from as int]) {
        lemma_first_match(text, from + 1);
    }
}

/// Every pattern has at least one character.
pub proof fn lemma_patterns_nonempty(i: int)
    requires
        0 <= i < token_patterns().len(),
    ensures
        1 <= token_patterns()[i].len() <= 5,
{
}

/// The tokens of the text `s` from position `p` up to its end (at the top level) or up to
/// the `)` that closes the group (inside parentheses), with the position after them.
pub open spec fn tokenize_from(s: Seq<char>, p: nat, top: bool) -> Result<(Seq<TokenView>, nat), TokenizeError>
    decreases s.len() - p, 1nat,
{
    if p > s.len() {
        Err(TokenizeError::MissingClosingParenthesis)
    } else {
        proof {
            lemma_skip_whitespace_bounds(s, p);
        }
        tokenize_loop(s, skip_whitespace(s, p), top, Seq::empty())
    }
}

/// Within the text, the tokens from a position are those from the first non-whitespace
/// character on.
pub proof fn lemma_tokenize_from_unfold(s: Seq<char>, p: nat, top: bool)
    requires
        p <= s.len(),
    ensures
        tokenize_from(s, p, top) == tokenize_loop(s, skip_whitespace(s, p), top, Seq::empty()),
{
    reveal_with_fuel(tokenize_loop, 1);
}

/// The tokens of the text `s` from position `p`, which holds no whitespace, after the
/// tokens `tokens` already found.
#[verifier::opaque]
pub open spec fn tokenize_loop(s: Seq<char>, p: nat, top: bool, tokens: Seq<TokenView>) -> Result<(Seq<TokenView>, nat), TokenizeError>
    decreases s.len() - p, 0nat,
{
    if p >= s.len() {
        if top {
            Ok((tokens, p))
        } else {
            Err(TokenizeError::MissingClosingParenthesis)
        }
    } else {
        match first_match(window(s, p)) {
            None => {
                let q = literal_end(s, p);
                if q == p {
                    Err(TokenizeError::UnknownSymbolError { position: p as usize, symbol: s[p as int] })
                } else {
                    proof {
                        lemma_literal_end_bounds(s, p);
                        lemma_skip_whitespace_bounds(s, q);
                    }
                    tokenize_loop(s, skip_whitespace(s, q), top, tokens.push(TokenView::Literal(s.subrange(p as int, q as int))))
                }
            },
            Some(i) => {
                match class_of_pattern(i) {
                    PatternClass::ParenthesesStart => {
                        match tokenize_from(s, p + 1, false) {
                            Ok((inner, q)) => {
                                if p < q <= s.len() {
                                    proof {
                                        lemma_skip_whitespace_bounds(s, q);
                                    }
                                    tokenize_loop(s, skip_whitespace(s, q), top, tokens.push(TokenView::Parentheses(inner)))
                                } else {
                                    Err(TokenizeError::MissingClosingParenthesis)
                                }
                            },
                            Err(e) => Err(e),
                        }
                    },
                    PatternClass::ParenthesesEnd => {
                        if top {
                            Err(TokenizeError::UnexpectedClosingParenthesis)
                        } else {
                            Ok((tokens, p + 1))
                        }
                    },
                    PatternClass::LiteralLongNameStart => {
                        match brace_end(s, p + 1) {
                            None => Err(TokenizeError::MissingClosingCurlyBrace),
                            Some(q) => {
                                if q == p + 1 {
                                    Err(TokenizeError::EmptyLiteralName)
                                } else {
                                    proof {
                                        lemma_brace_end_bounds(s, p + 1);
                                        lemma_skip_whitespace_bounds(s, q + 1);
                                    }
                                    tokenize_loop(s, skip_whitespace(s, q + 1), top, tokens.push(TokenView::Literal(s.subrange(p + 1 as int, q as int))))
                                }
                            },
                        }
                    },
                    PatternClass::LiteralLongNameEnd => Err(TokenizeError::UnexpectedClosingCurlyBrace),
                    class => {
                        let len = token_patterns()[i as int].len();
                        proof {
                            lemma_first_match(window(s, p), 0);
                            lemma_patterns_nonempty(i as int);
                            lemma_skip_whitespace_bounds(s, p + len);
                        }
                        tokenize_loop(s, skip_whitespace(s, p + len), top, tokens.push(operator_token(class)))
                    },
                }
            },
        }
    }
}

/// The position after the tokens lies between the start and the end of the text, and after
/// the start inside parentheses.
pub proof fn lemma_tokenize_from_position(s: Seq<char>, p: nat, top: bool)
    requires
        p <= s.len(),
    ensures
        tokenize_from(s, p, top) matches Ok((_, q)) ==> p <= q <= s.len() && (!top ==> p < q),
    decreases s.len() - p, 1nat,
{
    reveal_with_fuel(tokenize_loop, 1);
    lemma_skip_whitespace_bounds(s, p);
    lemma_tokenize_loop_position(s, skip_whitespace(s, p), top, Seq::empty());
}

/// The position after the tokens lies between the start and the end of the text, and after
/// the start inside parentheses.
pub proof fn lemma_tokenize_loop_position(s: Seq<char>, p: nat, top: bool, tokens: Seq<TokenView>)
    requires
        p <= s.len(),
    ensures
        tokenize_loop(s, p, top, tokens) matches Ok((_, q)) ==> p <= q <= s.len() && (!top ==> p < q),
    decreases s.len() - p, 0nat,
{
    reveal_with_fuel(tokenize_loop, 1);
    if p < s.len() {
        match first_match(window(s, p)) {
            None => {
                let q = literal_end(s, p);
                if q != p {
                    lemma_literal_end_bounds(s, p);
                    lemma_skip_whitespace_bounds(s, q);
                    lemma_tokenize_loop_position(s, skip_whitespace(s, q), top, tokens.push(TokenView::Literal(s.subrange(p as int, q as int))));
                }
            },
            Some(i) => {
                match class_of_pattern(i) {
                    PatternClass::ParenthesesStart => {
                        lemma_tokenize_from_position(s, p + 1, false);
                        match tokenize_from(s, p + 1, false) {
                            Ok((inner, q)) => {
                                if p < q <= s.len() {
                                    lemma_skip_whitespace_bounds(s, q);
                                    lemma_tokenize_loop_position(s, skip_whitespace(s, q), top, tokens.push(TokenView::Parentheses(inner)));
                                }
                            },
                            Err(e) => {},
                        }
                    },
                    PatternClass::ParenthesesEnd => {},
                    PatternClass::LiteralLongNameStart => {
                        match brace_end(s, p + 1) {
                            None => {},
                            Some(q) => {
                                if q != p + 1 {
                                    lemma_brace_end_bounds(s, p + 1);
                                    lemma_skip_whitespace_bounds(s, q + 1);
                                    lemma_tokenize_loop_position(s, skip_whitespace(s, q + 1), top, tokens.push(TokenView::Literal(s.subrange(p + 1 as int, q as int))));
                                }
                            },
                        }
                    },
                    PatternClass::LiteralLongNameEnd => {},
                    class => {
                        let len = token_patterns()[i as int].len();
                        lemma_first_match(window(s, p), 0);
                        lemma_patterns_nonempty(i as int);
                        lemma_skip_whitespace_bounds(s, p + len);
                        lemma_tokenize_loop_position(s, skip_whitespace(s, p + len), top, tokens.push(operator_token(class)));
                    },
                }
            },
        }
    }
}

/// The tokens of the text `s`, or why it cannot be split into tokens.
pub open spec fn spec_tokenize(s: Seq<char>) -> Result<Seq<TokenView>, TokenizeError> {
    match tokenize_from(s, 0, true) {
        Ok((tokens, _)) => Ok(tokens),
        Err(e) => Err(e),
    }
}

} // verus!
