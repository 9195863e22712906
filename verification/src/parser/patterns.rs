//! The token patterns and how a text matches them.
use vstd::prelude::*;

verus! {

/// A character that may stand in a variable name: `-`, `_`, an ASCII letter or digit.
pub open spec fn is_literal_char(c: char) -> bool {
    let v = c as u32;
    v == 45 || v == 95 || (97 <= v <= 122) || (65 <= v <= 90) || (48 <= v <= 57)
}

/// Whether `c` may stand in a variable name.
pub fn literal_char(c: char) -> (result: bool)
    ensures
        result == is_literal_char(c),
{
    let v = c as u32;
    v == 45 || v == 95 || (97 <= v && v <= 122) || (65 <= v && v <= 90) || (48 <= v && v <= 57)
}

/// A character that the name characters accept when case is ignored: a name character, the
/// long s (`U+017F`, a form of `s`) or the Kelvin sign (`U+212A`, a form of `k`).
pub open spec fn is_name_char_any_case(c: char) -> bool {
    is_literal_char(c) || c == '\u{17f}' || c == '\u{212a}'
}

/// Whether the name characters accept `c` when case is ignored.
pub fn name_char_any_case(c: char) -> (result: bool)
    ensures
        result == is_name_char_any_case(c),
{
    literal_char(c) || c == '\u{17f}' || c == '\u{212a}'
}

/// The token patterns, from the longest to the shortest, in the order in which they are tried.
pub open spec fn token_patterns() -> Seq<Seq<char>> {
    seq![
        seq!['f', 'a', 'l', 's', 'e'],
        seq!['t', 'r', 'u', 'e'],
        seq!['a', 'n', 'd'],
        seq!['n', 'o', 't'],
        seq!['&', '&'],
        seq!['|', '|'],
        seq!['o', 'r'],
        seq!['&'],
        seq!['\u{2227}'],
        seq!['^'],
        seq!['*'],
        seq!['|'],
        seq!['\u{2228}'],
        seq!['v'],
        seq!['+'],
        seq!['~'],
        seq!['!'],
        seq!['\u{ac}'],
        seq!['f'],
        seq!['0'],
        seq!['t'],
        seq!['1'],
        seq!['{'],
        seq!['}'],
        seq!['('],
        seq![')'],
    ]
}

/// The character `c` of a text matches the pattern character `p`, ignoring case.
pub open spec fn char_matches(c: char, p: char) -> bool {
    ||| c == p
    ||| (97 <= (p as u32) <= 122 && (c as u32) == (p as u32) - 32)
    ||| (p == 's' && c == '\u{17f}')
}

/// A pattern that holds a name character must not be followed by another one.
pub open spec fn needs_boundary(pattern: Seq<char>) -> bool {
    exists|j: int| 0 <= j < pattern.len() && is_literal_char(#[trigger] pattern[j])
}

/// The text `text` starts with `pattern` (ignoring case), and, when the pattern holds a name
/// character, the pattern is not followed by a character that the name characters accept
/// when case is ignored.
pub open spec fn pattern_matches(text: Seq<char>, pattern: Seq<char>) -> bool {
    &&& pattern.len() <= text.len()
    &&& forall|j: int| 0 <= j < pattern.len() ==> #[trigger] char_matches(text[j], pattern[j])
    &&& needs_boundary(pattern) ==> (text.len() == pattern.len() || !is_name_char_any_case(text[pattern.len() as int]))
}

/// The first pattern, at position `from` or later, that `text` matches.
pub open spec fn first_match_from(text: Seq<char>, from: nat) -> Option<nat>
    decreases token_patterns().len() - from,
{
    if from >= token_patterns().len() {
        None
    } else if pattern_matches(text, token_patterns()[from as int]) {
        Some(from)
    } else {
        first_match_from(text, from + 1)
    }
}

/// The first pattern that `text` matches.
pub open spec fn first_match(text: Seq<char>) -> Option<nat> {
    first_match_from(text, 0)
}

/// The pattern at position `index`.
pub fn pattern_str(index: usize) -> (pattern: &'static str)
    requires
        index < token_patterns().len(),
    ensures
        pattern@ == token_patterns()[index as int],
{
    let pattern = match index {
        0 => "false",
        1 => "true",
        2 => "and",
        3 => "not",
        4 => "&&",
        5 => "||",
        6 => "or",
        7 => "&",
        8 => "\u{2227}",
        9 => "^",
        10 => "*",
        11 => "|",
        12 => "\u{2228}",
        13 => "v",
        14 => "+",
        15 => "~",
        16 => "!",
        17 => "\u{ac}",
        18 => "f",
        19 => "0",
        20 => "t",
        21 => "1",
        22 => "{",
        23 => "}",
        24 => "(",
        _ => ")",
    };
    proof {
        reveal_strlit("false");
        reveal_strlit("true");
        reveal_strlit("and");
        reveal_strlit("not");
        reveal_strlit("&&");
        reveal_strlit("||");
        reveal_strlit("or");
        reveal_strlit("&");
        reveal_strlit("\u{2227}");
        reveal_strlit("^");
        reveal_strlit("*");
        reveal_strlit("|");
        reveal_strlit("\u{2228}");
        reveal_strlit("v");
        reveal_strlit("+");
        reveal_strlit("~");
        reveal_strlit("!");
        reveal_strlit("\u{ac}");
        reveal_strlit("f");
        reveal_strlit("0");
        reveal_strlit("t");
        reveal_strlit("1");
        reveal_strlit("{");
        reveal_strlit("}");
        reveal_strlit("(");
        reveal_strlit(")");
    }
    assert(pattern@ =~= token_patterns()[index as int]);
    pattern
}

/// Whether `c` matches the pattern character `p`, ignoring case.
fn char_matches_exec(c: char, p: char) -> (result: bool)
    ensures
        result == char_matches(c, p),
{
    let cv = c as u32;
    let pv = p as u32;
    c == p || (97 <= pv && pv <= 122 && cv == pv - 32) || (p == 's' && c == '\u{17f}')
}

/// Whether the text `text` matches the pattern `pattern`.
pub fn matches_pattern(text: &str, pattern: &str) -> (result: bool)
    ensures
        result == pattern_matches(text@, pattern@),
{
    let text_len = text.unicode_len();
    let pattern_len = pattern.unicode_len();
    if pattern_len > text_len {
        return false;
    }
    let mut j: usize = 0;
    let mut boundary = false;
    while j < pattern_len
        invariant
            pattern_len == pattern@.len(),
            text_len == text@.len(),
            pattern_len <= text_len,
            j <= pattern_len,
            forall|k: int| 0 <= k < j ==> #[trigger] char_matches(text@[k], pattern@[k]),
            boundary == exists|k: int| 0 <= k < j && is_literal_char(#[trigger] pattern@[k]),
        decreases pattern_len - j,
    {
        let p = pattern.get_char(j);
        let c = text.get_char(j);
        if !char_matches_exec(c, p) {
            return false;
        }
        let ghost before = boundary;
        if literal_char(p) {
            boundary = true;
        }
        proof {
            if boundary && !before {
                assert(is_literal_char(pattern@[j as int]));
            }
            if before {
                let k = choose|k: int| 0 <= k < j && is_literal_char(#[trigger] pattern@[k]);
                assert(0 <= k < j + 1 && is_literal_char(pattern@[k]));
            }
        }
        j = j + 1;
    }
    if boundary && pattern_len < text_len {
        !name_char_any_case(text.get_char(pattern_len))
    } else {
        true
    }
}

/// The position of the first pattern that `text` matches, if any.
pub fn first_matching_pattern(text: &str) -> (index: Option<usize>)
    ensures
        index matches Some(i) ==> first_match(text@) == Some(i as nat) && i < token_patterns().len(),
        index is None ==> first_match(text@) is None,
{
    let mut i: usize = 0;
    while i < 26
        invariant
            token_patterns().len() == 26,
            i <= 26,
            first_match(text@) == first_match_from(text@, i as nat),
        decreases 26 - i,
    {
        if matches_pattern(text, pattern_str(i)) {
            return Some(i);
        }
        i = i + 1;
    }
    None
}

} // verus!
