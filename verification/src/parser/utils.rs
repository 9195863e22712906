//! Moving over the characters of a text while tokenizing it.
use crate::parser::spec::{lemma_skip_whitespace_bounds, skip_whitespace, spec_is_whitespace};
use crate::parser::structs::{MultiPeekChars, PositionTracker};
use vstd::string::StrSliceExecFns;
use vstd::prelude::*;

verus! {

/// Whether `c` has the Unicode `White_Space` property, as `char::is_whitespace` reports it.
pub fn char_is_whitespace(c: char) -> (result: bool)
    ensures
        result == spec_is_whitespace(c),
{
    let v = c as u32;
    (0x9 <= v && v <= 0xD) || v == 0x20 || v == 0x85 || v == 0xA0 || v == 0x1680
        || (0x2000 <= v && v <= 0x200A) || v == 0x2028 || v == 0x2029 || v == 0x202F
        || v == 0x205F || v == 0x3000
}

} // verus!

verus! {

/// Calls `String::push`, which appends `c` to the end of `s`.
#[verifier::external_body]
pub(crate) fn string_push(s: &mut String, c: char)
    ensures
        final(s)@ == old(s)@.push(c),
{
    s.push(c);
}

/// Appends the characters of `t` to the end of `s`.
pub fn append_str(s: &mut String, t: &str)
    ensures
        final(s)@ == old(s)@ + t@,
{
    let chars = crate::literals::str_chars(t);
    let mut i: usize = 0;
    while i < chars.len()
        invariant
            chars@ == t@,
            i <= chars@.len(),
            s@ == old(s)@ + t@.subrange(0, i as int),
        decreases chars.len() - i,
    {
        string_push(s, chars[i]);
        proof {
            assert(old(s)@ + t@.subrange(0, i + 1) =~= old(s)@ + t@.subrange(0, i as int) + seq![chars@[i as int]]);
        }
        i = i + 1;
    }
    proof {
        assert(t@.subrange(0, i as int) =~= t@);
    }
}

/// The input of the tokenizer: a cursor over the characters that counts those taken.
pub type TokenizerInput = PositionTracker<MultiPeekChars>;

/// The count of taken characters is the position of the cursor.
pub open spec fn well_tracked(input: TokenizerInput) -> bool {
    &&& input.inner().wf()
    &&& input.position() == input.inner().index()
}

/// Looks ahead in `input` until `buffer` holds `n` characters or the text ends, appending
/// what it sees to `buffer`; tells whether it saw anything.
pub fn peek_until_n(n: usize, input: &mut TokenizerInput, buffer: &mut String) -> (did_read_anything: bool)
    requires
        well_tracked(*old(input)),
    ensures
        well_tracked(*final(input)),
        final(input).inner().text() == old(input).inner().text(),
        final(input).inner().index() == old(input).inner().index(),
        ({
            let start = old(input).inner().index() + old(input).inner().peek_offset();
            let available = old(input).inner().text().len() - start;
            let wanted = if old(buffer)@.len() < n { n - old(buffer)@.len() } else { 0 };
            let k = if wanted <= available { wanted } else { available };
            &&& final(buffer)@ == old(buffer)@ + old(input).inner().text().subrange(start as int, start + k)
            &&& final(input).inner().peek_offset() == old(input).inner().peek_offset() + k
            &&& did_read_anything == (k > 0)
        }),
{
    let ghost start = input.inner().index() + input.inner().peek_offset();
    let ghost text = input.inner().text();
    let ghost old_buffer = buffer@;
    let ghost old_peek = input.inner().peek_offset();
    let mut did_read_anything = false;
    proof {
        assert(buffer@ =~= old_buffer + text.subrange(start as int, start as int));
    }
    loop
        invariant_except_break
            well_tracked(*input),
            input.inner().text() == text,
            input.inner().index() + old_peek == start,
            input.inner().peek_offset() >= old_peek,
            buffer@ == old_buffer + text.subrange(start as int, (input.inner().index() + input.inner().peek_offset()) as int),
            did_read_anything == (input.inner().peek_offset() > old_peek),
            buffer@.len() <= n || input.inner().peek_offset() == old_peek,
        ensures
            well_tracked(*input),
            input.inner().text() == text,
            input.inner().index() + old_peek == start,
            input.inner().peek_offset() >= old_peek,
            buffer@ == old_buffer + text.subrange(start as int, (input.inner().index() + input.inner().peek_offset()) as int),
            did_read_anything == (input.inner().peek_offset() > old_peek),
            buffer@.len() >= n || input.inner().index() + input.inner().peek_offset() == text.len(),
            buffer@.len() <= n || input.inner().peek_offset() == old_peek,
        decreases text.len() - input.inner().index() - input.inner().peek_offset(),
    {
        if buffer.as_str().unicode_len() >= n {
            break;
        }
        let ghost before = buffer@;
        match input.peek() {
            Some(c) => {
                did_read_anything = true;
                string_push(buffer, c);
                proof {
                    assert(buffer@ =~= old_buffer + text.subrange(start as int, (input.inner().index() + input.inner().peek_offset()) as int));
                }
            },
            None => {
                break;
            },
        }
    }
    proof {
        let j = input.inner().peek_offset() - old_peek;
        let available = text.len() - start;
        let wanted: int = if old_buffer.len() < n { n - old_buffer.len() } else { 0 };
        assert(j <= available);
        assert(buffer@.len() == old_buffer.len() + j);
        assert(j <= wanted || j == 0);
        assert(j == (if wanted <= available { wanted } else { available }));
    }
    did_read_anything
}

/// Takes `pop_count` characters from `input` and drops the first `pop_count` characters of
/// `buffer` (all of them when it holds fewer).
pub fn pop_n_left(buffer: &mut String, input: &mut TokenizerInput, pop_count: usize)
    requires
        well_tracked(*old(input)),
    ensures
        well_tracked(*final(input)),
        final(input).inner().text() == old(input).inner().text(),
        final(input).inner().index() == (if old(input).inner().index() + pop_count <= old(input).inner().text().len() {
            old(input).inner().index() + pop_count
        } else {
            old(input).inner().text().len() as int
        }),
        final(input).inner().peek_offset() == (if pop_count == 0 { old(input).inner().peek_offset() } else { 0 }),
        final(buffer)@ == old(buffer)@.subrange(
            if pop_count <= old(buffer)@.len() { pop_count as int } else { old(buffer)@.len() as int },
            old(buffer)@.len() as int,
        ),
{
    let ghost text = input.inner().text();
    let ghost start = input.inner().index();
    let ghost start_peek = input.inner().peek_offset();
    let mut i: usize = 0;
    while i < pop_count
        invariant
            well_tracked(*input),
            input.inner().text() == text,
            start <= text.len(),
            i <= pop_count,
            input.inner().index() == (if start + i <= text.len() { start + i } else { text.len() as int }),
            input.inner().peek_offset() == (if i == 0 { start_peek } else { 0 }),
        decreases pop_count - i,
    {
        input.next();
        i = i + 1;
    }
    let len = buffer.as_str().unicode_len();
    if pop_count < len {
        let rest = buffer.as_str().substring_char(pop_count, len).to_owned();
        *buffer = rest;
    } else {
        *buffer = String::new();
        proof {
            assert(buffer@ =~= old(buffer)@.subrange(len as int, len as int));
        }
    }
}

/// Takes the whitespace at the position of `input`.
pub fn trim_whitespace_left(input: &mut TokenizerInput)
    requires
        well_tracked(*old(input)),
        old(input).inner().peek_offset() == 0,
    ensures
        well_tracked(*final(input)),
        final(input).inner().text() == old(input).inner().text(),
        final(input).inner().peek_offset() == 0,
        final(input).inner().index() == skip_whitespace(old(input).inner().text(), old(input).inner().index()),
{
    let ghost text = input.inner().text();
    let ghost start = input.inner().index();
    proof {
        lemma_skip_whitespace_bounds(text, start);
    }
    loop
        invariant_except_break
            well_tracked(*input),
            input.inner().text() == text,
            input.inner().peek_offset() == 0,
            input.inner().index() <= text.len(),
            skip_whitespace(text, input.inner().index()) == skip_whitespace(text, start),
        ensures
            well_tracked(*input),
            input.inner().text() == text,
            input.inner().index() == skip_whitespace(text, start),
        decreases text.len() - input.inner().index(),
    {
        match input.peek() {
            Some(c) => {
                if !char_is_whitespace(c) {
                    break;
                }
                input.next();
            },
            None => {
                break;
            },
        }
    }
    input.reset_peek();
}

} // verus!
