//! Tokens and the cursor over the characters of a text.
use crate::parser::patterns::{first_matching_pattern, pattern_str, token_patterns};
use vstd::prelude::*;

verus! {

/// A token of a Boolean expression.
#[derive(PartialEq, Debug)]
pub enum FinalToken {
    And,
    Or,
    Not,
    ConstantTrue,
    ConstantFalse,
    Literal(String),
    Parentheses(Vec<FinalToken>),
}

/// The mathematical value of a token.
pub enum TokenView {
    And,
    Or,
    Not,
    ConstantTrue,
    ConstantFalse,
    Literal(Seq<char>),
    Parentheses(Seq<TokenView>),
}

impl FinalToken {
    /// The value of this token.
    pub open spec fn token_view(&self) -> TokenView
        decreases self,
    {
        match self {
            FinalToken::And => TokenView::And,
            FinalToken::Or => TokenView::Or,
            FinalToken::Not => TokenView::Not,
            FinalToken::ConstantTrue => TokenView::ConstantTrue,
            FinalToken::ConstantFalse => TokenView::ConstantFalse,
            FinalToken::Literal(name) => TokenView::Literal(name@),
            FinalToken::Parentheses(inner) => TokenView::Parentheses(tokens_view(inner@)),
        }
    }
}

/// The values of a sequence of tokens.
pub open spec fn tokens_view(tokens: Seq<FinalToken>) -> Seq<TokenView>
    decreases tokens,
{
    if tokens.len() == 0 {
        Seq::empty()
    } else {
        tokens_view(tokens.drop_last()).push(tokens.last().token_view())
    }
}

/// The values of a sequence of tokens, one for each of them, in order.
pub proof fn lemma_tokens_view(tokens: Seq<FinalToken>)
    ensures
        tokens_view(tokens).len() == tokens.len(),
        forall|i: int| 0 <= i < tokens.len() ==> #[trigger] tokens_view(tokens)[i] == tokens[i].token_view(),
    decreases tokens.len(),
{
    if tokens.len() > 0 {
        lemma_tokens_view(tokens.drop_last());
    }
}

/// The length of each pattern: five, four, three, three, two, two, two, then one.
proof fn lemma_patterns_lengths(i: int)
    requires
        0 <= i < token_patterns().len(),
    ensures
        token_patterns()[i].len() == (if i == 0 { 5int } else if i == 1 { 4int } else if i <= 3 { 3int } else if i <= 6 { 2int } else { 1int }),
{
}

/// Appending a token appends its value.
pub proof fn lemma_tokens_view_push(tokens: Seq<FinalToken>, token: FinalToken)
    ensures
        tokens_view(tokens.push(token)) == tokens_view(tokens).push(token.token_view()),
{
    assert(tokens.push(token).drop_last() =~= tokens);
}

/// What a pattern stands for.
#[derive(Clone, Copy, PartialEq, Eq, Debug)]
pub enum PatternClass {
    And,
    Or,
    Not,
    ConstantTrue,
    ConstantFalse,
    ParenthesesStart,
    ParenthesesEnd,
    LiteralLongNameStart,
    LiteralLongNameEnd,
}

/// What the pattern at position `index` stands for.
pub open spec fn class_of_pattern(index: nat) -> PatternClass {
    if index == 0 || index == 18 || index == 19 {
        PatternClass::ConstantFalse
    } else if index == 1 || index == 20 || index == 21 {
        PatternClass::ConstantTrue
    } else if index == 2 || index == 4 || (7 <= index <= 10) {
        PatternClass::And
    } else if index == 5 || index == 6 || (11 <= index <= 14) {
        PatternClass::Or
    } else if index == 3 || (15 <= index <= 17) {
        PatternClass::Not
    } else if index == 22 {
        PatternClass::LiteralLongNameStart
    } else if index == 23 {
        PatternClass::LiteralLongNameEnd
    } else if index == 24 {
        PatternClass::ParenthesesStart
    } else {
        PatternClass::ParenthesesEnd
    }
}

/// A token as first recognized, with the pattern that an operator or constant was matched by.
#[derive(PartialEq, Debug)]
pub enum IntermediateToken<'a> {
    And { pattern: &'a str },
    Or { pattern: &'a str },
    Not { pattern: &'a str },
    ConstantTrue { pattern: &'a str },
    ConstantFalse { pattern: &'a str },
    ParenthesesStart,
    ParenthesesEnd,
    LiteralLongNameStart,
    LiteralLongNameEnd,
}

impl<'a> IntermediateToken<'a> {
    /// What this token stands for.
    pub open spec fn class(&self) -> PatternClass {
        match self {
            IntermediateToken::And { .. } => PatternClass::And,
            IntermediateToken::Or { .. } => PatternClass::Or,
            IntermediateToken::Not { .. } => PatternClass::Not,
            IntermediateToken::ConstantTrue { .. } => PatternClass::ConstantTrue,
            IntermediateToken::ConstantFalse { .. } => PatternClass::ConstantFalse,
            IntermediateToken::ParenthesesStart => PatternClass::ParenthesesStart,
            IntermediateToken::ParenthesesEnd => PatternClass::ParenthesesEnd,
            IntermediateToken::LiteralLongNameStart => PatternClass::LiteralLongNameStart,
            IntermediateToken::LiteralLongNameEnd => PatternClass::LiteralLongNameEnd,
        }
    }

    /// The pattern of an operator or constant; empty for the other tokens.
    pub open spec fn pattern(&self) -> Seq<char> {
        match self {
            IntermediateToken::And { pattern } => pattern@,
            IntermediateToken::Or { pattern } => pattern@,
            IntermediateToken::Not { pattern } => pattern@,
            IntermediateToken::ConstantTrue { pattern } => pattern@,
            IntermediateToken::ConstantFalse { pattern } => pattern@,
            _ => Seq::empty(),
        }
    }

    /// The length, in characters, of the longest pattern.
    pub fn longest_token_len() -> (len: usize)
        ensures
            len == 5,
            forall|i: int| 0 <= i < token_patterns().len() ==> #[trigger] token_patterns()[i].len() <= len,
    {
        5
    }

    /// All the patterns, operators and constants first, then the braces and parentheses.
    pub fn all_token_patterns() -> (patterns: Vec<&'static str>)
        ensures
            patterns@.len() == 26,
            forall|i: int| 0 <= i < 26 ==> (#[trigger] patterns@[i])@ == all_patterns_grouped()[i],
    {
        let mut patterns: Vec<&'static str> = Vec::new();
        let order: [usize; 26] = [7, 4, 2, 8, 9, 10, 11, 5, 6, 12, 13, 14, 15, 16, 3, 17, 18, 0, 19, 20, 1, 21, 22, 23, 24, 25];
        let mut k: usize = 0;
        while k < 26
            invariant
                k <= 26,
                order@ == all_patterns_order(),
                patterns@.len() == k,
                forall|i: int| 0 <= i < k ==> (#[trigger] patterns@[i])@ == token_patterns()[all_patterns_order()[i] as int],
            decreases 26 - k,
        {
            patterns.push(pattern_str(order[k]));
            k = k + 1;
        }
        patterns
    }

    /// All the patterns, longest first.
    pub fn all_token_patterns_from_longest() -> (patterns: Vec<&'static str>)
        ensures
            patterns@.len() == token_patterns().len(),
            forall|i: int| 0 <= i < patterns@.len() ==> (#[trigger] patterns@[i])@ == token_patterns()[i],
            forall|i: int, j: int| 0 <= i < j < patterns@.len() ==> (#[trigger] patterns@[i])@.len() >= (#[trigger] patterns@[j])@.len(),
    {
        proof {
            assert forall|i: int, j: int| 0 <= i < j < token_patterns().len() implies #[trigger] token_patterns()[i].len() >= #[trigger] token_patterns()[j].len() by {
                lemma_patterns_lengths(i);
                lemma_patterns_lengths(j);
            }
        }
        let mut patterns: Vec<&'static str> = Vec::new();
        let mut k: usize = 0;
        while k < 26
            invariant
                k <= 26,
                token_patterns().len() == 26,
                patterns@.len() == k,
                forall|i: int| 0 <= i < k ==> (#[trigger] patterns@[i])@ == token_patterns()[i],
            decreases 26 - k,
        {
            patterns.push(pattern_str(k));
            k = k + 1;
        }
        patterns
    }

    /// The token that the pattern at position `index` stands for.
    fn from_pattern_index(index: usize) -> (token: IntermediateToken<'static>)
        requires
            index < token_patterns().len(),
        ensures
            token.class() == class_of_pattern(index as nat),
            token.class() != PatternClass::ParenthesesStart && token.class() != PatternClass::ParenthesesEnd
                && token.class() != PatternClass::LiteralLongNameStart && token.class() != PatternClass::LiteralLongNameEnd
                ==> token.pattern() == token_patterns()[index as int],
    {
        let pattern = pattern_str(index);
        if index == 0 || index == 18 || index == 19 {
            IntermediateToken::ConstantFalse { pattern }
        } else if index == 1 || index == 20 || index == 21 {
            IntermediateToken::ConstantTrue { pattern }
        } else if index == 2 || index == 4 || (7 <= index && index <= 10) {
            IntermediateToken::And { pattern }
        } else if index == 5 || index == 6 || (11 <= index && index <= 14) {
            IntermediateToken::Or { pattern }
        } else if index == 3 || (15 <= index && index <= 17) {
            IntermediateToken::Not { pattern }
        } else if index == 22 {
            IntermediateToken::LiteralLongNameStart
        } else if index == 23 {
            IntermediateToken::LiteralLongNameEnd
        } else if index == 24 {
            IntermediateToken::ParenthesesStart
        } else {
            IntermediateToken::ParenthesesEnd
        }
    }

    /// The token of the first pattern that `value` matches, if any.
    pub fn try_from(value: &str) -> (token: Option<IntermediateToken<'static>>)
        ensures
            token is None <==> crate::parser::patterns::first_match(value@) is None,
            token matches Some(t) ==> {
                let i = crate::parser::patterns::first_match(value@).unwrap();
                &&& t.class() == class_of_pattern(i)
                &&& t.class() != PatternClass::ParenthesesStart && t.class() != PatternClass::ParenthesesEnd
                    && t.class() != PatternClass::LiteralLongNameStart && t.class() != PatternClass::LiteralLongNameEnd
                    ==> t.pattern() == token_patterns()[i as int]
            },
    {
        match first_matching_pattern(value) {
            Some(index) => Some(Self::from_pattern_index(index)),
            None => None,
        }
    }
}

/// The positions, in the list of patterns, of the patterns in the grouped order: the `and`,
/// `or`, `not`, `false` and `true` patterns, then `{`, `}`, `(` and `)`.
pub open spec fn all_patterns_order() -> Seq<usize> {
    seq![7, 4, 2, 8, 9, 10, 11, 5, 6, 12, 13, 14, 15, 16, 3, 17, 18, 0, 19, 20, 1, 21, 22, 23, 24, 25]
}

/// The patterns in the grouped order.
pub open spec fn all_patterns_grouped() -> Seq<Seq<char>> {
    Seq::new(26, |i: int| token_patterns()[all_patterns_order()[i] as int])
}

/// The adaptor of `itertools` that looks ahead of an iterator.
#[verifier::external_type_specification]
#[verifier::external_body]
#[verifier::reject_recursive_types(I)]
pub struct ExMultiPeek<I: Iterator>(itertools::MultiPeek<I>);

/// The characters that a `MultiPeek` over characters has yet to give out through `next`:
/// those it holds back after looking ahead, then those of the iterator under it.
pub uninterp spec fn multipeek_items(peek: itertools::MultiPeek<std::vec::IntoIter<char>>) -> Seq<char>;

/// How many characters a `MultiPeek` over characters has looked at ahead of `next`.
pub uninterp spec fn multipeek_offset(peek: itertools::MultiPeek<std::vec::IntoIter<char>>) -> nat;

/// Calls `itertools::multipeek` on the characters `chars`: the adaptor gives them out in
/// order and has looked at none ahead.
#[verifier::external_body]
fn multipeek_of(chars: Vec<char>) -> (peek: itertools::MultiPeek<std::vec::IntoIter<char>>)
    ensures
        multipeek_items(peek) == chars@,
        multipeek_offset(peek) == 0,
{
    itertools::multipeek(chars)
}

/// Calls `MultiPeek::peek`: the character after those already looked at, if there is one,
/// and then one more looked at; the characters to give out stay the same.
#[verifier::external_body]
fn multipeek_peek(peek: &mut itertools::MultiPeek<std::vec::IntoIter<char>>) -> (c: Option<char>)
    ensures
        multipeek_items(*final(peek)) == multipeek_items(*old(peek)),
        multipeek_offset(*old(peek)) < multipeek_items(*old(peek)).len() ==> c == Some(multipeek_items(*old(peek))[multipeek_offset(*old(peek)) as int])
            && multipeek_offset(*final(peek)) == multipeek_offset(*old(peek)) + 1,
        multipeek_offset(*old(peek)) >= multipeek_items(*old(peek)).len() ==> c is None
            && multipeek_offset(*final(peek)) == multipeek_offset(*old(peek)),
{
    peek.peek().copied()
}

/// Calls `MultiPeek::reset_peek`: none looked at ahead any more.
#[verifier::external_body]
fn multipeek_reset(peek: &mut itertools::MultiPeek<std::vec::IntoIter<char>>)
    ensures
        multipeek_items(*final(peek)) == multipeek_items(*old(peek)),
        multipeek_offset(*final(peek)) == 0,
{
    peek.reset_peek()
}

/// Calls `Iterator::next` of `MultiPeek`: the first character to give out, if any, which is
/// then given out; none looked at ahead any more.
#[verifier::external_body]
fn multipeek_next(peek: &mut itertools::MultiPeek<std::vec::IntoIter<char>>) -> (c: Option<char>)
    ensures
        multipeek_offset(*final(peek)) == 0,
        multipeek_items(*old(peek)).len() > 0 ==> c == Some(multipeek_items(*old(peek))[0])
            && multipeek_items(*final(peek)) == multipeek_items(*old(peek)).drop_first(),
        multipeek_items(*old(peek)).len() == 0 ==> c is None && multipeek_items(*final(peek)) == multipeek_items(*old(peek)),
{
    peek.next()
}

/// A cursor over the characters of a text that can look ahead of its position.
pub struct MultiPeekChars {
    peek: itertools::MultiPeek<std::vec::IntoIter<char>>,
    chars: Ghost<Seq<char>>,
    index: Ghost<nat>,
}

impl MultiPeekChars {
    /// The characters of the text.
    pub closed spec fn text(&self) -> Seq<char> {
        self.chars@
    }

    /// The number of characters taken so far.
    pub closed spec fn index(&self) -> nat {
        self.index@
    }

    /// The number of characters looked at ahead of the position.
    pub closed spec fn peek_offset(&self) -> nat {
        multipeek_offset(self.peek)
    }

    /// The adaptor has yet to give out the characters of the text after the position.
    pub closed spec fn follows_text(&self) -> bool {
        &&& self.text().len() <= usize::MAX
        &&& self.index() <= self.text().len()
        &&& multipeek_items(self.peek) == self.text().subrange(self.index() as int, self.text().len() as int)
    }

    /// The position and the look-ahead stay within the text.
    pub open spec fn wf(&self) -> bool {
        &&& self.follows_text()
        &&& self.index() + self.peek_offset() <= self.text().len()
    }

    /// A cursor at the start of `text`.
    pub fn new(text: &str) -> (cursor: MultiPeekChars)
        ensures
            cursor.wf(),
            cursor.text() == text@,
            cursor.index() == 0,
            cursor.peek_offset() == 0,
    {
        let chars = crate::literals::str_chars(text);
        let ghost all = chars@;
        let _len = chars.len();
        let peek = multipeek_of(chars);
        let cursor = MultiPeekChars { peek, chars: Ghost(all), index: Ghost(0) };
        proof {
            assert(all.subrange(0, all.len() as int) =~= all);
        }
        cursor
    }

    /// The next character not yet looked at, if any; looks one character further ahead.
    pub fn peek(&mut self) -> (c: Option<char>)
        requires
            old(self).wf(),
        ensures
            final(self).wf(),
            final(self).text() == old(self).text(),
            final(self).index() == old(self).index(),
            old(self).index() + old(self).peek_offset() < old(self).text().len() ==> c == Some(old(self).text()[(old(self).index() + old(self).peek_offset()) as int])
                && final(self).peek_offset() == old(self).peek_offset() + 1,
            old(self).index() + old(self).peek_offset() >= old(self).text().len() ==> c is None
                && final(self).peek_offset() == old(self).peek_offset(),
    {
        multipeek_peek(&mut self.peek)
    }

    /// Goes back to looking at the character at the position.
    pub fn reset_peek(&mut self)
        requires
            old(self).wf(),
        ensures
            final(self).wf(),
            final(self).text() == old(self).text(),
            final(self).index() == old(self).index(),
            final(self).peek_offset() == 0,
    {
        multipeek_reset(&mut self.peek);
    }

    /// Takes the character at the position, if any, and stops looking ahead.
    pub fn next(&mut self) -> (c: Option<char>)
        requires
            old(self).wf(),
        ensures
            final(self).wf(),
            final(self).text() == old(self).text(),
            final(self).peek_offset() == 0,
            old(self).index() < old(self).text().len() ==> c == Some(old(self).text()[old(self).index() as int])
                && final(self).index() == old(self).index() + 1,
            old(self).index() >= old(self).text().len() ==> c is None && final(self).index() == old(self).index(),
    {
        let ghost text = self.chars@;
        let ghost at = self.index@;
        let c = multipeek_next(&mut self.peek);
        if c.is_some() {
            proof {
                self.index = Ghost((at + 1) as nat);
                assert(text.subrange(at as int, text.len() as int).drop_first() =~= text.subrange(at + 1 as int, text.len() as int));
            }
        }
        c
    }
}

/// An iterator that counts the items taken from it.
pub struct PositionTracker<I> {
    pub iterator: I,
    position: usize,
}

impl<I> PositionTracker<I> {
    /// The counted iterator.
    pub closed spec fn inner(&self) -> I {
        self.iterator
    }

    /// The number of items taken so far.
    pub closed spec fn position(&self) -> nat {
        self.position as nat
    }

    /// A tracker at position `0` over `iterator`.
    pub fn new(iterator: I) -> (tracker: Self)
        ensures
            tracker.inner() == iterator,
            tracker.position() == 0,
    {
        PositionTracker { iterator, position: 0 }
    }

    /// The number of items taken so far.
    pub fn current_position(&self) -> (position: usize)
        ensures
            position == self.position(),
    {
        self.position
    }
}

impl PositionTracker<MultiPeekChars> {
    /// Looks at the next character not yet looked at, without taking it.
    pub fn peek(&mut self) -> (c: Option<char>)
        requires
            old(self).inner().wf(),
        ensures
            final(self).inner().wf(),
            final(self).position() == old(self).position(),
            final(self).inner().text() == old(self).inner().text(),
            final(self).inner().index() == old(self).inner().index(),
            old(self).inner().index() + old(self).inner().peek_offset() < old(self).inner().text().len() ==> c == Some(old(self).inner().text()[(old(self).inner().index() + old(self).inner().peek_offset()) as int])
                && final(self).inner().peek_offset() == old(self).inner().peek_offset() + 1,
            old(self).inner().index() + old(self).inner().peek_offset() >= old(self).inner().text().len() ==> c is None
                && final(self).inner().peek_offset() == old(self).inner().peek_offset(),
    {
        self.iterator.peek()
    }

    /// Goes back to looking at the character at the position.
    pub fn reset_peek(&mut self)
        requires
            old(self).inner().wf(),
        ensures
            final(self).inner().wf(),
            final(self).position() == old(self).position(),
            final(self).inner().text() == old(self).inner().text(),
            final(self).inner().index() == old(self).inner().index(),
            final(self).inner().peek_offset() == 0,
    {
        self.iterator.reset_peek();
    }

    /// Takes the next character and counts it.
    pub fn next(&mut self) -> (c: Option<char>)
        requires
            old(self).inner().wf(),
            old(self).position() == old(self).inner().index(),
        ensures
            final(self).inner().wf(),
            final(self).position() == final(self).inner().index(),
            final(self).inner().text() == old(self).inner().text(),
            final(self).inner().peek_offset() == 0,
            old(self).inner().index() < old(self).inner().text().len() ==> c == Some(old(self).inner().text()[old(self).inner().index() as int])
                && final(self).inner().index() == old(self).inner().index() + 1,
            old(self).inner().index() >= old(self).inner().text().len() ==> c is None && final(self).inner().index() == old(self).inner().index(),
            final(self).position() == old(self).position() + if c is Some { 1nat } else { 0nat },
            c matches Some(x) ==> x == old(self).inner().text()[old(self).position() as int],
            tracker_step(*old(self), *final(self), c),
    {
        let c = self.iterator.next();
        if c.is_some() {
            self.position = self.position + 1;
        }
        c
    }
}

/// One call of `next` on a tracker over a character cursor: from `before` to `after`,
/// giving out `c`.
pub open spec fn tracker_step(before: PositionTracker<MultiPeekChars>, after: PositionTracker<MultiPeekChars>, c: Option<char>) -> bool {
    &&& after.inner().wf()
    &&& after.position() == after.inner().index()
    &&& after.inner().text() == before.inner().text()
    &&& after.position() == before.position() + if c is Some { 1nat } else { 0nat }
    &&& c matches Some(x) ==> x == before.inner().text()[before.position() as int]
    &&& before.inner().index() < before.inner().text().len() ==> c is Some
}

/// The number of items among `taken`.
pub open spec fn count_taken(taken: Seq<Option<char>>) -> nat
    decreases taken.len(),
{
    if taken.len() == 0 {
        0
    } else {
        count_taken(taken.drop_last()) + if taken.last() is Some { 1nat } else { 0nat }
    }
}

/// The items among `taken`, in order.
pub open spec fn items_taken(taken: Seq<Option<char>>) -> Seq<char>
    decreases taken.len(),
{
    if taken.len() == 0 {
        Seq::empty()
    } else {
        match taken.last() {
            Some(x) => items_taken(taken.drop_last()).push(x),
            None => items_taken(taken.drop_last()),
        }
    }
}

/// Law: over a run of calls of `next` that starts at position `0`, the position is the number
/// of items given out, and those items are the first characters of the text, in order.
pub proof fn law_position_run(states: Seq<PositionTracker<MultiPeekChars>>, taken: Seq<Option<char>>)
    requires
        states.len() == taken.len() + 1,
        states[0].inner().wf(),
        states[0].position() == 0,
        states[0].inner().index() == 0,
        forall|i: int| 0 <= i < taken.len() ==> #[trigger] tracker_step(states[i], states[i + 1], taken[i]),
    ensures
        states.last().position() == count_taken(taken),
        items_taken(taken) == states[0].inner().text().subrange(0, count_taken(taken) as int),
    decreases taken.len(),
{
    let text = states[0].inner().text();
    if taken.len() > 0 {
        let m = taken.len() - 1;
        let shorter = states.drop_last();
        assert forall|i: int| 0 <= i < taken.drop_last().len() implies #[trigger] tracker_step(shorter[i], shorter[i + 1], taken.drop_last()[i]) by {
            assert(tracker_step(states[i], states[i + 1], taken[i]));
        }
        law_position_run(shorter, taken.drop_last());
        lemma_run_keeps_text(states, taken, m);
        assert(tracker_step(states[m], states[m + 1], taken[m]));
        assert(shorter.last() == states[m]);
        assert(taken.last() == taken[m]);
        let count = count_taken(taken.drop_last());
        if let Some(x) = taken[m] {
            assert(x == text[count as int]);
            assert(text.subrange(0, count + 1 as int) =~= text.subrange(0, count as int).push(x));
        }
    }
}

/// Along a run of calls of `next`, the text stays the same, the position stays the cursor's
/// index, and the cursor stays well formed.
proof fn lemma_run_keeps_text(states: Seq<PositionTracker<MultiPeekChars>>, taken: Seq<Option<char>>, k: int)
    requires
        states.len() == taken.len() + 1,
        states[0].inner().wf(),
        states[0].position() == states[0].inner().index(),
        forall|i: int| 0 <= i < taken.len() ==> #[trigger] tracker_step(states[i], states[i + 1], taken[i]),
        0 <= k <= taken.len(),
    ensures
        states[k].inner().text() == states[0].inner().text(),
        states[k].position() == states[k].inner().index(),
        states[k].inner().wf(),
    decreases k,
{
    if k > 0 {
        lemma_run_keeps_text(states, taken, k - 1);
        assert(tracker_step(states[k - 1], states[(k - 1) + 1], taken[k - 1]));
    }
}

} // verus!
