//! The single-character token patterns.
use vstd::prelude::*;

verus! {

/// A token of a Boolean expression, as one of its single-character patterns shows it.
#[derive(PartialEq, Eq, Debug, Clone, Copy)]
pub enum IntermediateToken {
    And,
    Or,
    Not,
    ConstantTrue,
    ConstantFalse,
    ParenthesesStart,
    ParenthesesEnd,
    LiteralLongNameStart,
    LiteralLongNameEnd,
}

/// The operator and constant patterns: those of `and`, `or`, `not`, `false` and `true`, in
/// this order.
pub open spec fn single_patterns() -> Seq<Seq<char>> {
    seq![
        seq!['&'],
        seq!['\u{2227}'],
        seq!['^'],
        seq!['*'],
        seq!['|'],
        seq!['\u{2228}'],
        seq!['+'],
        seq!['~'],
        seq!['!'],
        seq!['\u{ac}'],
        seq!['0'],
        seq!['1'],
    ]
}

/// The token that the text `value` is the pattern of, if any.
pub open spec fn token_of(value: Seq<char>) -> Option<IntermediateToken> {
    if value == seq!['&'] || value == seq!['\u{2227}'] || value == seq!['^'] || value == seq!['*'] {
        Some(IntermediateToken::And)
    } else if value == seq!['|'] || value == seq!['\u{2228}'] || value == seq!['+'] {
        Some(IntermediateToken::Or)
    } else if value == seq!['~'] || value == seq!['!'] || value == seq!['\u{ac}'] {
        Some(IntermediateToken::Not)
    } else if value == seq!['0'] {
        Some(IntermediateToken::ConstantFalse)
    } else if value == seq!['1'] {
        Some(IntermediateToken::ConstantTrue)
    } else if value == seq!['('] {
        Some(IntermediateToken::ParenthesesStart)
    } else if value == seq![')'] {
        Some(IntermediateToken::ParenthesesEnd)
    } else if value == seq!['{'] {
        Some(IntermediateToken::LiteralLongNameStart)
    } else if value == seq!['}'] {
        Some(IntermediateToken::LiteralLongNameEnd)
    } else {
        None
    }
}

impl IntermediateToken {
    /// The operator and constant patterns: those of `and`, `or`, `not`, `false` and `true`.
    pub fn all_token_patterns() -> (patterns: Vec<&'static str>)
        ensures
            patterns@.len() == single_patterns().len(),
            forall|i: int| 0 <= i < patterns@.len() ==> (#[trigger] patterns@[i])@ == single_patterns()[i],
    {
        let patterns = vec!["&", "\u{2227}", "^", "*", "|", "\u{2228}", "+", "~", "!", "\u{ac}", "0", "1"];
        proof {
            reveal_strlit("&");
            reveal_strlit("\u{2227}");
            reveal_strlit("^");
            reveal_strlit("*");
            reveal_strlit("|");
            reveal_strlit("\u{2228}");
            reveal_strlit("+");
            reveal_strlit("~");
            reveal_strlit("!");
            reveal_strlit("\u{ac}");
            reveal_strlit("0");
            reveal_strlit("1");
        }
        patterns
    }

    /// The length, in characters, of the longest pattern.
    pub fn longest_token_len() -> (len: usize)
        ensures
            forall|i: int| 0 <= i < single_patterns().len() ==> #[trigger] single_patterns()[i].len() <= len,
            exists|i: int| 0 <= i < single_patterns().len() && #[trigger] single_patterns()[i].len() == len,
    {
        let patterns = Self::all_token_patterns();
        let mut longest: usize = patterns[0].unicode_len();
        let mut i: usize = 1;
        while i < patterns.len()
            invariant
                patterns@.len() == single_patterns().len(),
                forall|k: int| 0 <= k < patterns@.len() ==> (#[trigger] patterns@[k])@ == single_patterns()[k],
                1 <= i <= patterns@.len(),
                forall|k: int| 0 <= k < i ==> #[trigger] single_patterns()[k].len() <= longest,
                exists|k: int| 0 <= k < i && #[trigger] single_patterns()[k].len() == longest,
            decreases patterns.len() - i,
        {
            let len = patterns[i].unicode_len();
            if len > longest {
                longest = len;
            }
            i = i + 1;
        }
        longest
    }

    /// The token that `value` is the pattern of, if any. The patterns have no upper and lower
    /// case, so the case of `value` makes no difference.
    pub fn try_from(value: &str) -> (token: Option<IntermediateToken>)
        ensures
            token == token_of(value@),
    {
        let chars = crate::literals::str_chars(value);
        if chars.len() != 1 {
            return None;
        }
        let c = chars[0];
        assert(value@ =~= seq![c]);
        if c == '&' || c == '\u{2227}' || c == '^' || c == '*' {
            Some(IntermediateToken::And)
        } else if c == '|' || c == '\u{2228}' || c == '+' {
            Some(IntermediateToken::Or)
        } else if c == '~' || c == '!' || c == '\u{ac}' {
            Some(IntermediateToken::Not)
        } else if c == '0' {
            Some(IntermediateToken::ConstantFalse)
        } else if c == '1' {
            Some(IntermediateToken::ConstantTrue)
        } else if c == '(' {
            Some(IntermediateToken::ParenthesesStart)
        } else if c == ')' {
            Some(IntermediateToken::ParenthesesEnd)
        } else if c == '{' {
            Some(IntermediateToken::LiteralLongNameStart)
        } else if c == '}' {
            Some(IntermediateToken::LiteralLongNameEnd)
        } else {
            None
        }
    }
}

} // verus!
