//! Parsing a sequence of tokens into an expression.
use crate::expressions::{exprs_view, lemma_exprs_view, ExprView, Expression};
use crate::parser::error::{ParseError, ParseTokensError};
use crate::parser::spec::spec_tokenize;
use crate::parser::tokenize::tokenize;
use crate::parser::structs::{lemma_tokens_view, tokens_view, FinalToken, TokenView};
use vstd::prelude::*;

verus! {

/// The last position in `lo..hi` that holds `separator`, if any.
pub open spec fn last_separator(ts: Seq<TokenView>, lo: int, hi: int, separator: TokenView) -> Option<int>
    decreases hi - lo,
{
    if hi <= lo {
        None
    } else if ts[hi - 1] == separator {
        Some(hi - 1)
    } else {
        last_separator(ts, lo, hi - 1, separator)
    }
}

/// The separator of the groups of a level: `|` for the level of disjunctions, `&` for that
/// of conjunctions.
pub open spec fn separator(or_level: bool) -> TokenView {
    if or_level {
        TokenView::Or
    } else {
        TokenView::And
    }
}

/// The expression of the tokens `ts[lo..hi]`: a disjunction of conjunctions of terms.
pub open spec fn parse_or_view(ts: Seq<TokenView>, lo: int, hi: int) -> Result<ExprView, ParseTokensError>
    decreases ts, hi - lo, 4nat,
    when 0 <= lo <= hi <= ts.len()
{
    match parse_groups_view(ts, lo, hi, true) {
        Err(e) => Err(e),
        Ok(es) => if es.len() == 1 {
            Ok(es[0])
        } else {
            Ok(ExprView::Or(es))
        },
    }
}

/// The expression of the tokens `ts[lo..hi]`, which hold no `|`: a conjunction of terms.
pub open spec fn parse_and_view(ts: Seq<TokenView>, lo: int, hi: int) -> Result<ExprView, ParseTokensError>
    decreases ts, hi - lo, 2nat,
    when 0 <= lo <= hi <= ts.len()
{
    match parse_groups_view(ts, lo, hi, false) {
        Err(e) => Err(e),
        Ok(es) => if es.len() == 1 {
            Ok(es[0])
        } else {
            Ok(ExprView::And(es))
        },
    }
}

/// The expressions of the groups of `ts[lo..hi]` between the separators of the level, left
/// to right: conjunctions for the level of disjunctions, terms for that of conjunctions; or
/// the error of the leftmost group that has one.
pub open spec fn parse_groups_view(ts: Seq<TokenView>, lo: int, hi: int, or_level: bool) -> Result<Seq<ExprView>, ParseTokensError>
    decreases ts, hi - lo, if or_level { 3nat } else { 1nat },
    when 0 <= lo <= hi <= ts.len()
{
    match last_separator(ts, lo, hi, separator(or_level)) {
        None => match (if or_level { parse_and_view(ts, lo, hi) } else { parse_terminal_view(ts, lo, hi) }) {
            Ok(x) => Ok(seq![x]),
            Err(e) => Err(e),
        },
        Some(k) => if lo <= k < hi {
            match parse_groups_view(ts, lo, k, or_level) {
                Err(e) => Err(e),
                Ok(es) => match (if or_level { parse_and_view(ts, k + 1, hi) } else { parse_terminal_view(ts, k + 1, hi) }) {
                    Err(e) => Err(e),
                    Ok(x) => Ok(es.push(x)),
                },
            }
        } else {
            Err(ParseTokensError::EmptySideOfOperator)
        },
    }
}

/// The expression of a term `ts[lo..hi]`: negations of a constant, a variable or a group in
/// parentheses.
pub open spec fn parse_terminal_view(ts: Seq<TokenView>, lo: int, hi: int) -> Result<ExprView, ParseTokensError>
    decreases ts, hi - lo, 0nat,
    when 0 <= lo <= hi <= ts.len()
{
    if hi <= lo {
        Err(ParseTokensError::EmptySideOfOperator)
    } else if ts[lo] == TokenView::Not {
        match parse_terminal_view(ts, lo + 1, hi) {
            Ok(x) => Ok(ExprView::Not(Box::new(x))),
            Err(e) => Err(e),
        }
    } else if hi - lo > 1 {
        Err(ParseTokensError::UnexpectedLiteralsGroup)
    } else {
        match ts[lo] {
            TokenView::ConstantTrue => Ok(ExprView::Constant(true)),
            TokenView::ConstantFalse => Ok(ExprView::Constant(false)),
            TokenView::Literal(name) => Ok(ExprView::Literal(name)),
            TokenView::Parentheses(inner) => parse_or_view(inner, 0, inner.len() as int),
            _ => Err(ParseTokensError::EmptySideOfOperator),
        }
    }
}

/// The expression of a whole sequence of tokens.
pub open spec fn spec_parse(ts: Seq<TokenView>) -> Result<ExprView, ParseTokensError> {
    parse_or_view(ts, 0, ts.len() as int)
}

/// Where the last separator in `lo..hi` is, and that there is none after it.
pub proof fn lemma_last_separator(ts: Seq<TokenView>, lo: int, hi: int, sep: TokenView)
    requires
        lo <= hi,
    ensures
        last_separator(ts, lo, hi, sep) matches Some(k) ==> lo <= k < hi && ts[k] == sep
            && forall|j: int| k < j < hi ==> #[trigger] ts[j] != sep,
        last_separator(ts, lo, hi, sep) is None ==> forall|j: int| lo <= j < hi ==> #[trigger] ts[j] != sep,
    decreases hi - lo,
{
    if hi > lo && ts[hi - 1] != sep {
        lemma_last_separator(ts, lo, hi - 1, sep);
    }
}

/// When no separator stands in `m..hi` and `m - 1` holds one (or `m` is `lo`), the last
/// separator is at `m - 1` (or there is none).
pub proof fn lemma_last_separator_at(ts: Seq<TokenView>, lo: int, m: int, hi: int, sep: TokenView)
    requires
        lo <= m <= hi,
        forall|j: int| m <= j < hi ==> #[trigger] ts[j] != sep,
        m > lo ==> ts[m - 1] == sep,
    ensures
        last_separator(ts, lo, hi, sep) == (if m > lo { Some(m - 1) } else { None::<int> }),
    decreases hi - lo,
{
    if hi > m {
        lemma_last_separator_at(ts, lo, m, hi - 1, sep);
    } else if m > lo {
    } else {
    }
}

/// The error of a group before a separator at `m` is the error of all the groups up to `hi`.
pub proof fn lemma_groups_error(ts: Seq<TokenView>, lo: int, m: int, hi: int, or_level: bool, e: ParseTokensError)
    requires
        0 <= lo <= m < hi <= ts.len(),
        ts[m] == separator(or_level),
        parse_groups_view(ts, lo, m, or_level) == Err::<Seq<ExprView>, ParseTokensError>(e),
    ensures
        parse_groups_view(ts, lo, hi, or_level) == Err::<Seq<ExprView>, ParseTokensError>(e),
    decreases hi - m,
{
    lemma_last_separator(ts, lo, hi, separator(or_level));
    let k = last_separator(ts, lo, hi, separator(or_level)).unwrap();
    if k > m {
        lemma_groups_error(ts, lo, m, k, or_level, e);
    }
}

/// The value of an expression, or the error.
pub open spec fn expression_result(r: Result<Expression, ParseTokensError>) -> Result<ExprView, ParseTokensError> {
    match r {
        Ok(e) => Ok(e@),
        Err(x) => Err(x),
    }
}

/// The values of expressions, or the error.
pub open spec fn expressions_result(r: Result<Vec<Expression>, ParseTokensError>) -> Result<Seq<ExprView>, ParseTokensError> {
    match r {
        Ok(es) => Ok(exprs_view(es@)),
        Err(x) => Err(x),
    }
}

/// Whether `token` separates the groups of the level.
fn is_separator(token: &FinalToken, or_level: bool) -> (found: bool)
    ensures
        found == (token.token_view() == separator(or_level)),
{
    match token {
        FinalToken::Or => or_level,
        FinalToken::And => !or_level,
        _ => false,
    }
}

/// Parses the tokens of `input` into an expression: `|` binds loosest, then `&`, then `!`.
pub fn parse_tokens(input: &[FinalToken]) -> (result: Result<Expression, ParseTokensError>)
    ensures
        expression_result(result) == spec_parse(tokens_view(input@)),
    decreases input@, input@.len(), 5nat,
{
    proof {
        lemma_tokens_view(input@);
    }
    priority_0_parse_or(input, 0, input.len())
}

/// Parses `data[lo..hi]` as a disjunction.
fn priority_0_parse_or(data: &[FinalToken], lo: usize, hi: usize) -> (result: Result<Expression, ParseTokensError>)
    requires
        lo <= hi <= data@.len(),
    ensures
        expression_result(result) == parse_or_view(tokens_view(data@), lo as int, hi as int),
    decreases data@, hi - lo, 4nat,
{
    proof {
        lemma_tokens_view(data@);
    }
    match parse_groups(data, lo, hi, true) {
        Err(e) => Err(e),
        Ok(es) => {
            proof {
                lemma_exprs_view(es@);
            }
            if es.len() == 1 {
                let mut es = es;
                Ok(es.remove(0))
            } else {
                Ok(Expression::Or(es))
            }
        },
    }
}

/// Parses `data[lo..hi]`, which holds no `|`, as a conjunction.
fn priority_1_parse_and(data: &[FinalToken], lo: usize, hi: usize) -> (result: Result<Expression, ParseTokensError>)
    requires
        lo <= hi <= data@.len(),
    ensures
        expression_result(result) == parse_and_view(tokens_view(data@), lo as int, hi as int),
    decreases data@, hi - lo, 2nat,
{
    proof {
        lemma_tokens_view(data@);
    }
    match parse_groups(data, lo, hi, false) {
        Err(e) => Err(e),
        Ok(es) => {
            proof {
                lemma_exprs_view(es@);
            }
            if es.len() == 1 {
                let mut es = es;
                Ok(es.remove(0))
            } else {
                Ok(Expression::And(es))
            }
        },
    }
}

/// Parses the groups of `data[lo..hi]` between the separators of the level, left to right.
fn parse_groups(data: &[FinalToken], lo: usize, hi: usize, or_level: bool) -> (result: Result<Vec<Expression>, ParseTokensError>)
    requires
        lo <= hi <= data@.len(),
    ensures
        expressions_result(result) == parse_groups_view(tokens_view(data@), lo as int, hi as int, or_level),
    decreases data@, hi - lo, if or_level { 3nat } else { 1nat },
{
    let ghost ts = tokens_view(data@);
    let ghost sep = separator(or_level);
    proof {
        lemma_tokens_view(data@);
    }
    let mut es: Vec<Expression> = Vec::new();
    let mut start = lo;
    let mut i = lo;
    while i < hi
        invariant
            ts == tokens_view(data@),
            sep == separator(or_level),
            ts.len() == data@.len(),
            lo <= start <= i <= hi,
            hi <= data@.len(),
            forall|j: int| start <= j < i ==> #[trigger] ts[j] != sep,
            start > lo ==> ts[start - 1] == sep && parse_groups_view(ts, lo as int, start - 1, or_level) == Ok::<Seq<ExprView>, ParseTokensError>(exprs_view(es@)),
            start == lo ==> es@.len() == 0,
        decreases hi - i,
    {
        proof {
            lemma_tokens_view(data@);
        }
        if is_separator(&data[i], or_level) {
            let part = if or_level {
                priority_1_parse_and(data, start, i)
            } else {
                priority_2_terminal(data, start, i)
            };
            proof {
                lemma_last_separator_at(ts, lo as int, start as int, i as int, sep);
                lemma_exprs_view(es@);
            }
            match part {
                Ok(x) => {
                    let ghost before = es@;
                    es.push(x);
                    proof {
                        lemma_exprs_view(es@);
                        assert(exprs_view(es@) =~= exprs_view(before).push(x@));
                    }
                },
                Err(e) => {
                    proof {
                        lemma_groups_error(ts, lo as int, i as int, hi as int, or_level, e);
                    }
                    return Err(e);
                },
            }
            start = i + 1;
        }
        i = i + 1;
    }
    let part = if or_level {
        priority_1_parse_and(data, start, hi)
    } else {
        priority_2_terminal(data, start, hi)
    };
    proof {
        lemma_last_separator_at(ts, lo as int, start as int, hi as int, sep);
        lemma_exprs_view(es@);
    }
    match part {
        Ok(x) => {
            let ghost before = es@;
            es.push(x);
            proof {
                lemma_exprs_view(es@);
                assert(exprs_view(es@) =~= exprs_view(before).push(x@));
            }
            Ok(es)
        },
        Err(e) => Err(e),
    }
}

/// Parses the term `data[lo..hi]`: negations of a constant, a variable or a group in
/// parentheses.
fn priority_2_terminal(data: &[FinalToken], lo: usize, hi: usize) -> (result: Result<Expression, ParseTokensError>)
    requires
        lo <= hi <= data@.len(),
    ensures
        expression_result(result) == parse_terminal_view(tokens_view(data@), lo as int, hi as int),
    decreases data@, hi - lo, 0nat,
{
    proof {
        lemma_tokens_view(data@);
    }
    if lo >= hi {
        Err(ParseTokensError::EmptySideOfOperator)
    } else if matches!(data[lo], FinalToken::Not) {
        match priority_2_terminal(data, lo + 1, hi) {
            Ok(x) => Ok(Expression::Not(Box::new(x))),
            Err(e) => Err(e),
        }
    } else if hi - lo > 1 {
        Err(ParseTokensError::UnexpectedLiteralsGroup)
    } else {
        match &data[lo] {
            FinalToken::ConstantTrue => Ok(Expression::Constant(true)),
            FinalToken::ConstantFalse => Ok(Expression::Constant(false)),
            FinalToken::Literal(name) => Ok(Expression::Literal(name.clone())),
            FinalToken::Parentheses(inner) => {
                proof {
                    lemma_tokens_view(inner@);
                }
                parse_tokens(inner.as_slice())
            },
            _ => Err(ParseTokensError::EmptySideOfOperator),
        }
    }
}

/// The expression of the text `input`, or why it has none.
pub open spec fn spec_parse_text(input: Seq<char>) -> Result<ExprView, ParseError> {
    match spec_tokenize(input) {
        Err(e) => Err(ParseError::TokenizingError(e)),
        Ok(tokens) => match spec_parse(tokens) {
            Err(e) => Err(ParseError::ParsingError(e)),
            Ok(e) => Ok(e),
        },
    }
}

/// Splits `input` into tokens and parses them into an expression.
pub fn parse(input: &str) -> (result: Result<Expression, ParseError>)
    ensures
        match spec_parse_text(input@) {
            Ok(v) => result matches Ok(e) && e@ == v,
            Err(x) => result matches Err(y) && y == x,
        },
{
    let tokens = match tokenize(input) {
        Ok(tokens) => tokens,
        Err(e) => {
            return Err(ParseError::from(e));
        },
    };
    match parse_tokens(tokens.as_slice()) {
        Ok(e) => Ok(e),
        Err(e) => Err(ParseError::from(e)),
    }
}

} // verus!
