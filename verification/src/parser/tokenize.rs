//! Splitting a text into the tokens of a Boolean expression.
use crate::parser::error::TokenizeError;
use crate::parser::patterns::{first_match, is_literal_char, literal_char, token_patterns};
use crate::parser::spec::{
    brace_end, lemma_brace_end_bounds, lemma_first_match, lemma_literal_end_bounds,
    lemma_patterns_nonempty, lemma_skip_whitespace_bounds, lemma_tokenize_from_position, lemma_tokenize_from_unfold, literal_end, operator_token,
    skip_whitespace, spec_tokenize, tokenize_from, tokenize_loop, window,
};
use crate::parser::structs::{
    class_of_pattern, lemma_tokens_view_push, tokens_view, FinalToken, IntermediateToken, MultiPeekChars, PatternClass,
    PositionTracker, TokenView,
};
use crate::parser::utils::{
    peek_until_n, pop_n_left, string_push, trim_whitespace_left, well_tracked, TokenizerInput,
};
use vstd::prelude::*;
use vstd::string::StrSliceExecFns;

verus! {

/// Splits `input` into tokens: operators, constants, names (bare, or in braces) and groups in
/// parentheses.
pub fn tokenize(input: &str) -> (tokens: Result<Vec<FinalToken>, TokenizeError>)
    ensures
        spec_tokenize(input@) matches Ok(expected) ==> (tokens matches Ok(found) && tokens_view(found@) == expected),
        spec_tokenize(input@) matches Err(e) ==> tokens == Err::<Vec<FinalToken>, TokenizeError>(e),
{
    let mut tracker = PositionTracker::new(MultiPeekChars::new(input));
    tokenize_level(&mut tracker, true)
}

/// The tokens from the position of `input` up to the end of the text (at the top level) or
/// up to the `)` that closes the group, which is taken too.
fn tokenize_level(input: &mut TokenizerInput, is_top_level: bool) -> (tokens: Result<Vec<FinalToken>, TokenizeError>)
    requires
        well_tracked(*old(input)),
        old(input).inner().peek_offset() == 0,
    ensures
        well_tracked(*final(input)),
        final(input).inner().text() == old(input).inner().text(),
        tokenize_from(old(input).inner().text(), old(input).inner().index(), is_top_level) matches Ok((expected, q)) ==> (
            tokens matches Ok(found) && tokens_view(found@) == expected && final(input).inner().index() == q
                && final(input).inner().peek_offset() == 0),
        tokenize_from(old(input).inner().text(), old(input).inner().index(), is_top_level) matches Err(e) ==> tokens == Err::<Vec<FinalToken>, TokenizeError>(e),
    decreases old(input).inner().text().len() - old(input).inner().index(), 1nat,
{
    let ghost s = input.inner().text();
    let ghost p0 = input.inner().index();
    let mut result: Vec<FinalToken> = Vec::new();
    let mut buffer = String::new();
    let take_size = IntermediateToken::longest_token_len() + 1;
    trim_whitespace_left(input);
    proof {
        lemma_skip_whitespace_bounds(s, p0);
        assert(tokens_view(result@) =~= Seq::<TokenView>::empty());
        lemma_tokenize_from_unfold(s, p0, is_top_level);
    }
    while peek_until_n(take_size, input, &mut buffer) || buffer.as_str().unicode_len() > 0
        invariant_except_break
            input.inner().peek_offset() == 0,
            buffer@.len() == 0,
        invariant
            well_tracked(*input),
            input.inner().text() == s,
            s == old(input).inner().text(),
            p0 == old(input).inner().index(),
            take_size == 6,
            p0 <= input.inner().index() <= s.len(),
            tokenize_from(s, p0, is_top_level) == tokenize_loop(s, input.inner().index(), is_top_level, tokens_view(result@)),
        ensures
            input.inner().index() == s.len(),
        decreases s.len() - input.inner().index(),
    {
        let ghost p = input.inner().index();
        let ghost tokens = tokens_view(result@);
        let ghost mut q: nat = p;
        let ghost mut view = TokenView::And;
        proof {
            assert(buffer@ =~= window(s, p));
            assert(p < s.len());
        }
        let intermediate_token = IntermediateToken::try_from(buffer.as_str());
        match intermediate_token {
            None => {
                proof {
                    lemma_literal_end_bounds(s, p);
                }
                let outcome = consume_while_literal(input, &mut result);
                proof {
                    reveal_with_fuel(tokenize_loop, 1);
                }
                if let Err(e) = outcome {
                    return Err(e);
                }
                proof {
                    q = literal_end(s, p);
                    lemma_tokens_view_push(result@.drop_last(), result@.last());
                    assert(result@.drop_last().push(result@.last()) =~= result@);
                }
            },
            Some(token) => {
                let ghost i = first_match(window(s, p)).unwrap();
                proof {
                    lemma_first_match(window(s, p), 0);
                    reveal_with_fuel(tokenize_loop, 1);
                }
                let (final_token, pattern_length) = match token {
                    IntermediateToken::And { pattern } => (FinalToken::And, pattern.unicode_len()),
                    IntermediateToken::Or { pattern } => (FinalToken::Or, pattern.unicode_len()),
                    IntermediateToken::Not { pattern } => (FinalToken::Not, pattern.unicode_len()),
                    IntermediateToken::ConstantTrue { pattern } => (FinalToken::ConstantTrue, pattern.unicode_len()),
                    IntermediateToken::ConstantFalse { pattern } => (FinalToken::ConstantFalse, pattern.unicode_len()),
                    IntermediateToken::ParenthesesStart => {
                        proof {
                            lemma_tokenize_from_position(s, p + 1, false);
                        }
                        match handle_parentheses(input, &mut buffer) {
                            Ok(pair) => pair,
                            Err(e) => {
                                return Err(e);
                            },
                        }
                    },
                    IntermediateToken::ParenthesesEnd => {
                        if is_top_level {
                            return Err(TokenizeError::UnexpectedClosingParenthesis);
                        } else {
                            pop_n_left(&mut buffer, input, 1);
                            return Ok(result);
                        }
                    },
                    IntermediateToken::LiteralLongNameStart => {
                        proof {
                            lemma_brace_end_bounds(s, p + 1);
                        }
                        match consume_until_brace(input, &mut buffer) {
                            Ok(pair) => pair,
                            Err(e) => {
                                return Err(e);
                            },
                        }
                    },
                    IntermediateToken::LiteralLongNameEnd => {
                        return Err(TokenizeError::UnexpectedClosingCurlyBrace);
                    },
                };
                proof {
                    q = (input.inner().index() + pattern_length) as nat;
                    view = final_token.token_view();
                    lemma_patterns_nonempty(i as int);
                }
                assert(p < q <= s.len() && tokenize_loop(s, p, is_top_level, tokens) == tokenize_loop(s, skip_whitespace(s, q), is_top_level, tokens.push(view)));
                let ghost before = result@;
                result.push(final_token);
                proof {
                    lemma_tokens_view_push(before, final_token);
                }
                pop_n_left(&mut buffer, input, pattern_length);
            },
        }
        proof {
            lemma_skip_whitespace_bounds(s, q);
        }
        input.reset_peek();
        buffer = String::new();
        trim_whitespace_left(input);
    }
    proof {
        reveal_with_fuel(tokenize_loop, 1);
    }
    if is_top_level {
        Ok(result)
    } else {
        Err(TokenizeError::MissingClosingParenthesis)
    }
}

/// Takes the `(` at the position of `input` and the group that follows it, up to and with the
/// `)` that closes it.
fn handle_parentheses(input: &mut TokenizerInput, buffer: &mut String) -> (token: Result<(FinalToken, usize), TokenizeError>)
    requires
        well_tracked(*old(input)),
        old(input).inner().index() < old(input).inner().text().len(),
    ensures
        well_tracked(*final(input)),
        final(input).inner().text() == old(input).inner().text(),
        tokenize_from(old(input).inner().text(), old(input).inner().index() + 1, false) matches Ok((inner, q)) ==> (
            token matches Ok(pair) && pair.0.token_view() == TokenView::Parentheses(inner) && pair.1 == 0
                && final(input).inner().index() == q && final(input).inner().peek_offset() == 0),
        tokenize_from(old(input).inner().text(), old(input).inner().index() + 1, false) matches Err(e) ==> token == Err::<(FinalToken, usize), TokenizeError>(e),
    decreases old(input).inner().text().len() - old(input).inner().index(), 0nat,
{
    pop_n_left(buffer, input, 1);
    match tokenize_level(input, false) {
        Ok(tokens) => Ok((FinalToken::Parentheses(tokens), 0)),
        Err(e) => Err(e),
    }
}

/// Takes the `{` at the position of `input`, the name that follows it and the `}` that closes
/// it.
fn consume_until_brace(input: &mut TokenizerInput, buffer: &mut String) -> (token: Result<(FinalToken, usize), TokenizeError>)
    requires
        well_tracked(*old(input)),
        old(input).inner().index() < old(input).inner().text().len(),
    ensures
        well_tracked(*final(input)),
        final(input).inner().text() == old(input).inner().text(),
        ({
            let s = old(input).inner().text();
            let p = old(input).inner().index();
            match brace_end(s, p + 1) {
                None => token == Err::<(FinalToken, usize), TokenizeError>(TokenizeError::MissingClosingCurlyBrace),
                Some(q) => if q == p + 1 {
                    token == Err::<(FinalToken, usize), TokenizeError>(TokenizeError::EmptyLiteralName)
                } else {
                    token matches Ok(pair) && pair.0.token_view() == TokenView::Literal(s.subrange(p + 1 as int, q as int)) && pair.1 == 0
                        && final(input).inner().index() == q + 1
                },
            }
        }),
{
    let ghost s = input.inner().text();
    let ghost p = input.inner().index();
    pop_n_left(buffer, input, 1);
    let mut literal_buffer = String::new();
    let mut did_hit_closing_brace = false;
    input.reset_peek();
    proof {
        lemma_brace_end_bounds(s, p + 1);
        assert(literal_buffer@ =~= s.subrange(p + 1 as int, p + 1 as int));
    }
    loop
        invariant_except_break
            well_tracked(*input),
            input.inner().text() == s,
            input.inner().peek_offset() == 0,
            p + 1 <= input.inner().index() <= s.len(),
            literal_buffer@ == s.subrange(p + 1 as int, input.inner().index() as int),
            forall|j: int| p + 1 <= j < input.inner().index() ==> #[trigger] s[j] != '}',
            !did_hit_closing_brace,
        ensures
            well_tracked(*input),
            input.inner().text() == s,
            p + 1 <= input.inner().index() <= s.len(),
            did_hit_closing_brace ==> brace_end(s, p + 1) == Some((input.inner().index() - 1) as nat)
                && literal_buffer@ == s.subrange(p + 1 as int, input.inner().index() - 1),
            !did_hit_closing_brace ==> brace_end(s, p + 1) is None,
        decreases s.len() - input.inner().index(),
    {
        match input.peek() {
            Some(c) => {
                if c == '}' {
                    input.next();
                    did_hit_closing_brace = true;
                    proof {
                        lemma_brace_end_position(s, p + 1, (input.inner().index() - 1) as nat);
                    }
                    break;
                }
                string_push(&mut literal_buffer, c);
                input.next();
                proof {
                    assert(literal_buffer@ =~= s.subrange(p + 1 as int, input.inner().index() as int));
                }
            },
            None => {
                proof {
                    lemma_brace_end_none(s, p + 1);
                }
                break;
            },
        }
    }
    proof {
        lemma_brace_end_bounds(s, p + 1);
    }
    if !did_hit_closing_brace {
        return Err(TokenizeError::MissingClosingCurlyBrace);
    }
    if literal_buffer.as_str().unicode_len() == 0 {
        return Err(TokenizeError::EmptyLiteralName);
    }
    Ok((FinalToken::Literal(literal_buffer), 0))
}

/// When no `}` stands from `p` up to `q`, and `q` holds one, the first `}` is at `q`.
proof fn lemma_brace_end_position(s: Seq<char>, p: nat, q: nat)
    requires
        p <= q < s.len(),
        s[q as int] == '}',
        forall|j: int| p <= j < q ==> #[trigger] s[j] != '}',
    ensures
        brace_end(s, p) == Some(q),
    decreases q - p,
{
    if p < q {
        lemma_brace_end_position(s, p + 1, q);
    }
}

/// When no `}` stands from `p` to the end, there is none.
proof fn lemma_brace_end_none(s: Seq<char>, p: nat)
    requires
        forall|j: int| p <= j < s.len() ==> #[trigger] s[j] != '}',
    ensures
        brace_end(s, p) is None,
    decreases s.len() - p,
{
    if p < s.len() {
        lemma_brace_end_none(s, p + 1);
    }
}

/// When only name characters stand from `p` up to `q`, and `q` is the end or holds another
/// character, the name ends at `q`.
proof fn lemma_literal_end_position(s: Seq<char>, p: nat, q: nat)
    requires
        p <= q <= s.len(),
        q < s.len() ==> !is_literal_char(s[q as int]),
        forall|j: int| p <= j < q ==> is_literal_char(#[trigger] s[j]),
    ensures
        literal_end(s, p) == q,
    decreases q - p,
{
    if p < q {
        lemma_literal_end_position(s, p + 1, q);
    }
}

/// Takes the name at the position of `input` and adds it to `result`; fails when the
/// character there starts no name.
fn consume_while_literal(input: &mut TokenizerInput, result: &mut Vec<FinalToken>) -> (outcome: Result<(), TokenizeError>)
    requires
        well_tracked(*old(input)),
        old(input).inner().index() < old(input).inner().text().len(),
    ensures
        well_tracked(*final(input)),
        final(input).inner().text() == old(input).inner().text(),
        ({
            let s = old(input).inner().text();
            let p = old(input).inner().index();
            let q = literal_end(s, p);
            if q == p {
                &&& outcome == Err::<(), TokenizeError>(TokenizeError::UnknownSymbolError { position: p as usize, symbol: s[p as int] })
                &&& final(result)@ == old(result)@
            } else {
                &&& outcome is Ok
                &&& final(input).inner().index() == q
                &&& final(result)@.len() == old(result)@.len() + 1
                &&& final(result)@.drop_last() == old(result)@
                &&& final(result)@.last().token_view() == TokenView::Literal(s.subrange(p as int, q as int))
            }
        }),
{
    let ghost s = input.inner().text();
    let ghost p = input.inner().index();
    let mut literal_buffer = String::new();
    input.reset_peek();
    proof {
        assert(literal_buffer@ =~= s.subrange(p as int, p as int));
    }
    loop
        invariant_except_break
            well_tracked(*input),
            input.inner().text() == s,
            input.inner().peek_offset() == 0,
            p <= input.inner().index() <= s.len(),
            literal_buffer@ == s.subrange(p as int, input.inner().index() as int),
            forall|j: int| p <= j < input.inner().index() ==> is_literal_char(#[trigger] s[j]),
        ensures
            well_tracked(*input),
            input.inner().text() == s,
            p <= input.inner().index() <= s.len(),
            literal_end(s, p) == input.inner().index(),
            literal_buffer@ == s.subrange(p as int, input.inner().index() as int),
        decreases s.len() - input.inner().index(),
    {
        match input.peek() {
            Some(c) => {
                if !literal_char(c) {
                    proof {
                        lemma_literal_end_position(s, p, input.inner().index());
                    }
                    break;
                }
                string_push(&mut literal_buffer, c);
                input.next();
                proof {
                    assert(literal_buffer@ =~= s.subrange(p as int, input.inner().index() as int));
                }
            },
            None => {
                proof {
                    lemma_literal_end_position(s, p, input.inner().index());
                }
                break;
            },
        }
    }
    if literal_buffer.as_str().unicode_len() == 0 {
        input.reset_peek();
        let position = input.current_position();
        let symbol = match input.peek() {
            Some(c) => c,
            None => {
                proof {
                    assert(false);
                }
                ' '
            },
        };
        return Err(TokenizeError::UnknownSymbolError { position, symbol });
    }
    result.push(FinalToken::Literal(literal_buffer));
    Ok(())
}

} // verus!
