//! Errors of tokenizing and parsing Boolean expressions.
use vstd::prelude::*;

verus! {

/// Why a text could not be split into tokens.
#[derive(Debug, PartialEq, Eq)]
pub enum TokenizeError {
    /// A `)` with no `(` before it.
    UnexpectedClosingParenthesis,
    /// A `(` with no `)` after it.
    MissingClosingParenthesis,
    /// A `}` with no `{` before it.
    UnexpectedClosingCurlyBrace,
    /// A `{` with no `}` after it.
    MissingClosingCurlyBrace,
    /// A `{}` with nothing between the braces.
    EmptyLiteralName,
    /// A character that starts neither a token nor a variable name.
    UnknownSymbolError { position: usize, symbol: char },
    /// Whitespace in the middle of an operator.
    UnexpectedWhitespace,
}

/// Why a sequence of tokens is not a Boolean expression.
#[derive(Debug, PartialEq, Eq)]
pub enum ParseTokensError {
    /// An operator with nothing on one of its sides.
    EmptySideOfOperator,
    /// Several operands in a row with no operator between them.
    UnexpectedLiteralsGroup,
}

/// Why a text is not a Boolean expression.
#[derive(Debug, PartialEq, Eq)]
pub enum ParseError {
    TokenizingError(TokenizeError),
    ParsingError(ParseTokensError),
}

impl From<TokenizeError> for ParseError {
    fn from(err: TokenizeError) -> (result: ParseError)
        ensures
            result == ParseError::TokenizingError(err),
    {
        ParseError::TokenizingError(err)
    }
}

impl vstd::std_specs::convert::FromSpecImpl<TokenizeError> for ParseError {
    open spec fn obeys_from_spec() -> bool {
        true
    }

    open spec fn from_spec(err: TokenizeError) -> ParseError {
        ParseError::TokenizingError(err)
    }
}

impl From<ParseTokensError> for ParseError {
    fn from(err: ParseTokensError) -> (result: ParseError)
        ensures
            result == ParseError::ParsingError(err),
    {
        ParseError::ParsingError(err)
    }
}

impl vstd::std_specs::convert::FromSpecImpl<ParseTokensError> for ParseError {
    open spec fn obeys_from_spec() -> bool {
        true
    }

    open spec fn from_spec(err: ParseTokensError) -> ParseError {
        ParseError::ParsingError(err)
    }
}

} // verus!
