//! Truth tables as comma-separated values.
use crate::table::display::{bool_text, header_view, record_view, TableBooleanFormatting};
use crate::parser::utils::append_str;
use crate::table::TruthTable;
use crate::utils::{lemma_row_index_point_roundtrip, spec_row_index_to_bool_point};
use vstd::arithmetic::power2::lemma_pow2_pos;
use vstd::prelude::*;

verus! {

/// The texts `items` joined, with `separator` between each two of them.
pub open spec fn join(items: Seq<Seq<char>>, separator: Seq<char>) -> Seq<char>
    decreases items.len(),
{
    if items.len() == 0 {
        Seq::empty()
    } else if items.len() == 1 {
        items[0]
    } else {
        join(items.drop_last(), separator) + separator + items.last()
    }
}

/// Joins the texts `items`, with `separator` between each two of them.
pub fn join_with(items: &Vec<String>, separator: &str) -> (joined: String)
    ensures
        joined@ == join(items.deep_view(), separator@),
{
    let ghost texts = items.deep_view();
    let mut joined = String::new();
    let mut i: usize = 0;
    proof {
        assert(texts.subrange(0, 0) =~= Seq::<Seq<char>>::empty());
    }
    while i < items.len()
        invariant
            texts == items.deep_view(),
            i <= texts.len(),
            joined@ == join(texts.subrange(0, i as int), separator@),
        decreases items.len() - i,
    {
        if i > 0 {
            append_str(&mut joined, separator);
        }
        append_str(&mut joined, items[i].as_str());
        proof {
            let prefix = texts.subrange(0, i + 1);
            assert(prefix.drop_last() =~= texts.subrange(0, i as int));
            assert(prefix.last() == texts[i as int]);
        }
        i = i + 1;
    }
    proof {
        assert(texts.subrange(0, i as int) =~= texts);
    }
    joined
}

/// The CSV text of a table: nothing for a table with no inputs and no outputs; otherwise
/// the header line, then one line for each row, the cells separated by `delimiter`.
pub open spec fn csv_text(
    table: TruthTable,
    delimiter: char,
    inputs_formatting: TableBooleanFormatting,
    output_formatting: TableBooleanFormatting,
) -> Seq<char> {
    if table.inputs@.len() == 0 && table.outputs@.len() == 0 {
        Seq::empty()
    } else {
        let separator = seq![delimiter];
        let lines = Seq::new(
            table.outputs@.len(),
            |r: int| join(record_view(table.inputs@.len() as nat, r as nat, table.outputs@[r], inputs_formatting, output_formatting), separator),
        );
        join(header_view(table.names()), separator) + seq!['\n'] + join(lines, seq!['\n'])
    }
}

impl TruthTable {
    /// The CSV text of the table, with `,` between the cells and values written as `0` and
    /// `1`.
    pub fn to_csv(&self) -> (text: String)
        ensures
            text@ == csv_text(*self, ',', TableBooleanFormatting::Number, TableBooleanFormatting::Number),
    {
        self.to_csv_formatted(',', TableBooleanFormatting::Number, TableBooleanFormatting::Number)
    }

    /// The CSV text of the table, with `delimiter` between the cells and values written in the
    /// given formattings.
    pub fn to_csv_formatted(
        &self,
        delimiter: char,
        inputs_formatting: TableBooleanFormatting,
        output_formatting: TableBooleanFormatting,
    ) -> (text: String)
        ensures
            text@ == csv_text(*self, delimiter, inputs_formatting, output_formatting),
    {
        if self.is_empty() {
            return String::new();
        }
        let separator = char_to_string(delimiter);
        let records = self.table_records(inputs_formatting, output_formatting);
        let ghost views = records.deep_view();
        assert(records@.len() == views.len());
        assert(views[0] == header_view(self.names()));
        let header = join_with(&records[0], separator.as_str());
        let mut lines: Vec<String> = Vec::new();
        let mut r: usize = 1;
        while r < records.len()
            invariant
                views == records.deep_view(),
                views.len() == self.outputs@.len() + 1,
                separator@ == seq![delimiter],
                1 <= r <= views.len(),
                lines.deep_view() == Seq::new((r - 1) as nat, |k: int| join(views[k + 1], seq![delimiter])),
            decreases records.len() - r,
        {
            let ghost before = lines.deep_view();
            let line = join_with(&records[r], separator.as_str());
            lines.push(line);
            proof {
                assert(lines.deep_view() =~= before.push(line@));
                assert(lines.deep_view() =~= Seq::new(r as nat, |k: int| join(views[k + 1], seq![delimiter])));
            }
            r = r + 1;
        }
        let newline = char_to_string('\n');
        let body = join_with(&lines, newline.as_str());
        let mut text = header;
        append_str(&mut text, newline.as_str());
        append_str(&mut text, body.as_str());
        proof {
            let expected_lines = Seq::new(
                self.outputs@.len(),
                |k: int| join(record_view(self.inputs@.len() as nat, k as nat, self.outputs@[k], inputs_formatting, output_formatting), seq![delimiter]),
            );
            assert forall|k: int| 0 <= k < self.outputs@.len() implies views[k + 1] == record_view(self.inputs@.len() as nat, k as nat, self.outputs@[k], inputs_formatting, output_formatting) by {}
            assert(lines.deep_view() =~= expected_lines);
            assert(text@ == join(header_view(self.names()), seq![delimiter]) + seq!['\n'] + join(expected_lines, seq!['\n']));
        }
        text
    }
}

/// The text of the single character `c`.
fn char_to_string(c: char) -> (text: String)
    ensures
        text@ == seq![c],
{
    let mut text = String::new();
    crate::parser::utils::string_push(&mut text, c);
    proof {
        assert(text@ =~= seq![c]);
    }
    text
}

/// The pieces of `text` between the occurrences of `c`, left to right: one more piece than
/// there are occurrences.
pub open spec fn split_on(text: Seq<char>, c: char) -> Seq<Seq<char>>
    decreases text.len(),
{
    if text.len() == 0 {
        seq![Seq::empty()]
    } else if text.last() == c {
        split_on(text.drop_last(), c).push(Seq::empty())
    } else {
        let pieces = split_on(text.drop_last(), c);
        pieces.update(pieces.len() - 1, pieces.last().push(text.last()))
    }
}

/// `text` holds no `c`.
pub open spec fn free_of(text: Seq<char>, c: char) -> bool {
    forall|i: int| 0 <= i < text.len() ==> #[trigger] text[i] != c
}

/// There is at least one piece.
proof fn lemma_split_on_len(text: Seq<char>, c: char)
    ensures
        split_on(text, c).len() >= 1,
    decreases text.len(),
{
    if text.len() > 0 {
        lemma_split_on_len(text.drop_last(), c);
    }
}

/// Splitting `s + [c] + t` gives the pieces of `s`, then those of `t`.
proof fn lemma_split_on_concat(s: Seq<char>, t: Seq<char>, c: char)
    ensures
        split_on(s + seq![c] + t, c) == split_on(s, c) + split_on(t, c),
    decreases t.len(),
{
    let whole = s + seq![c] + t;
    lemma_split_on_len(s, c);
    if t.len() == 0 {
        assert(whole =~= s.push(c));
        assert(whole.drop_last() =~= s);
        assert(split_on(s, c).push(Seq::empty()) =~= split_on(s, c) + seq![Seq::<char>::empty()]);
    } else {
        let shorter = t.drop_last();
        lemma_split_on_concat(s, shorter, c);
        lemma_split_on_len(shorter, c);
        assert(whole.drop_last() =~= s + seq![c] + shorter);
        assert(whole.last() == t.last());
        let left = split_on(s, c);
        let right = split_on(shorter, c);
        if t.last() == c {
            assert((left + right).push(Seq::empty()) =~= left + right.push(Seq::empty()));
        } else {
            let both = left + right;
            assert(both.update(both.len() - 1, both.last().push(t.last()))
                =~= left + right.update(right.len() - 1, right.last().push(t.last())));
        }
    }
}

/// A text with no `c` is a single piece.
proof fn lemma_split_on_free(t: Seq<char>, c: char)
    requires
        free_of(t, c),
    ensures
        split_on(t, c) == seq![t],
    decreases t.len(),
{
    if t.len() == 0 {
        assert(t =~= Seq::<char>::empty());
    } else {
        let shorter = t.drop_last();
        assert(free_of(shorter, c)) by {
            assert forall|i: int| 0 <= i < shorter.len() implies #[trigger] shorter[i] != c by {
                assert(shorter[i] == t[i]);
            }
        }
        lemma_split_on_free(shorter, c);
        assert(t.last() == t[t.len() - 1]);
        assert(shorter.push(t.last()) =~= t);
        assert(seq![shorter].update(0, shorter.push(t.last())) =~= seq![t]);
    }
}

/// Joined texts hold the separator only where it was put.
proof fn lemma_join_free(items: Seq<Seq<char>>, separator: Seq<char>, c: char)
    requires
        free_of(separator, c),
        forall|k: int| 0 <= k < items.len() ==> free_of(#[trigger] items[k], c),
    ensures
        free_of(join(items, separator), c),
    decreases items.len(),
{
    if items.len() > 1 {
        lemma_join_free(items.drop_last(), separator, c);
        assert(free_of(items.last(), c)) by {
            assert(items.last() == items[items.len() - 1]);
        }
        let a = join(items.drop_last(), separator);
        let joined = a + separator + items.last();
        assert forall|i: int| 0 <= i < joined.len() implies #[trigger] joined[i] != c by {
            if i < a.len() {
                assert(joined[i] == a[i]);
            } else if i < a.len() + separator.len() {
                assert(joined[i] == separator[i - a.len()]);
            } else {
                assert(joined[i] == items.last()[i - a.len() - separator.len()]);
            }
        }
    } else if items.len() == 1 {
        assert(free_of(items[0], c));
    }
}

/// Law: splitting texts joined with the character `c` at `c` gives the texts back, when none
/// of them holds `c`.
pub proof fn law_join_split(items: Seq<Seq<char>>, c: char)
    requires
        items.len() >= 1,
        forall|k: int| 0 <= k < items.len() ==> free_of(#[trigger] items[k], c),
    ensures
        split_on(join(items, seq![c]), c) == items,
    decreases items.len(),
{
    if items.len() == 1 {
        lemma_split_on_free(items[0], c);
        assert(seq![items[0]] =~= items);
    } else {
        let rest = items.drop_last();
        assert forall|k: int| 0 <= k < rest.len() implies free_of(#[trigger] rest[k], c) by {
            assert(rest[k] == items[k]);
        }
        law_join_split(rest, c);
        assert(free_of(items.last(), c)) by {
            assert(items.last() == items[items.len() - 1]);
        }
        lemma_split_on_concat(join(rest, seq![c]), items.last(), c);
        lemma_split_on_free(items.last(), c);
        assert(rest + seq![items.last()] =~= items);
    }
}

/// The written Boolean values hold no line break.
proof fn lemma_bool_text_one_line(formatting: TableBooleanFormatting, value: bool)
    ensures
        free_of(bool_text(formatting, value), '\n'),
{
    let t = bool_text(formatting, value);
    assert forall|i: int| 0 <= i < t.len() implies #[trigger] t[i] != '\n' by {
        match formatting {
            TableBooleanFormatting::Number => {},
            TableBooleanFormatting::Character => {},
            TableBooleanFormatting::Word => {
                if value {
                    assert(t[i] == seq!['t', 'r', 'u', 'e'][i]);
                } else {
                    assert(t[i] == seq!['f', 'a', 'l', 's', 'e'][i]);
                }
            },
            TableBooleanFormatting::CapitalizedWord => {
                if value {
                    assert(t[i] == seq!['T', 'r', 'u', 'e'][i]);
                } else {
                    assert(t[i] == seq!['F', 'a', 'l', 's', 'e'][i]);
                }
            },
        }
    }
}

/// Law: the CSV text of a table has one line for the header and one for each row. The
/// header line splits at the delimiter into the names of the inputs and `result`; the line
/// of row `r` splits into the written values of the inputs on that row, then its written
/// output. This holds when the names, `result` and the written values hold neither the
/// delimiter nor a line break, and the delimiter is no line break.
pub proof fn law_csv_lines(
    table: TruthTable,
    delimiter: char,
    inputs_formatting: TableBooleanFormatting,
    output_formatting: TableBooleanFormatting,
)
    requires
        table.wf(),
        delimiter != '\n',
        free_of(seq!['r', 'e', 's', 'u', 'l', 't'], delimiter),
        forall|k: int| 0 <= k < table.names().len() ==> free_of(#[trigger] table.names()[k], delimiter) && free_of(table.names()[k], '\n'),
        forall|b: bool| free_of(#[trigger] bool_text(inputs_formatting, b), delimiter),
        forall|b: bool| free_of(#[trigger] bool_text(output_formatting, b), delimiter),
    ensures
        split_on(csv_text(table, delimiter, inputs_formatting, output_formatting), '\n').len() == table.outputs@.len() + 1,
        split_on(split_on(csv_text(table, delimiter, inputs_formatting, output_formatting), '\n')[0], delimiter)
            == table.names().push(seq!['r', 'e', 's', 'u', 'l', 't']),
        forall|r: int| 0 <= r < table.outputs@.len() ==> #[trigger] split_on(split_on(csv_text(table, delimiter, inputs_formatting, output_formatting), '\n')[r + 1], delimiter)
            == Seq::new(table.inputs@.len(), |j: int| bool_text(inputs_formatting, spec_row_index_to_bool_point(r as nat, table.inputs@.len() as nat)[j]))
                .push(bool_text(output_formatting, table.outputs@[r])),
{
    let n = table.inputs@.len();
    let names = table.names();
    let sep = seq![delimiter];
    let newline = seq!['\n'];
    let result = seq!['r', 'e', 's', 'u', 'l', 't'];
    lemma_pow2_pos(n as nat);
    let header = header_view(names);
    let rows = Seq::new(
        table.outputs@.len(),
        |r: int| join(record_view(n as nat, r as nat, table.outputs@[r], inputs_formatting, output_formatting), sep),
    );
    assert(free_of(sep, '\n'));
    assert(free_of(result, '\n')) by {
        assert forall|i: int| 0 <= i < result.len() implies #[trigger] result[i] != '\n' by {
            assert(result[i] == seq!['r', 'e', 's', 'u', 'l', 't'][i]);
        }
    }
    assert forall|k: int| 0 <= k < header.len() implies free_of(#[trigger] header[k], delimiter) && free_of(header[k], '\n') by {
        if k < names.len() {
            assert(header[k] == names[k]);
        } else {
            assert(header[k] == result);
        }
    }
    lemma_join_free(header, sep, '\n');
    law_join_split(header, delimiter);
    assert forall|r: int| 0 <= r < rows.len() implies free_of(#[trigger] rows[r], '\n') && split_on(rows[r], delimiter)
        == Seq::new(n, |j: int| bool_text(inputs_formatting, spec_row_index_to_bool_point(r as nat, n as nat)[j])).push(bool_text(output_formatting, table.outputs@[r])) by {
        let cells = record_view(n as nat, r as nat, table.outputs@[r], inputs_formatting, output_formatting);
        let point = spec_row_index_to_bool_point(r as nat, n as nat);
        lemma_row_index_point_roundtrip(r as nat, n as nat);
        assert forall|k: int| 0 <= k < cells.len() implies free_of(#[trigger] cells[k], delimiter) && free_of(cells[k], '\n') by {
            if k < n {
                assert(cells[k] == bool_text(inputs_formatting, point[k]));
                lemma_bool_text_one_line(inputs_formatting, point[k]);
            } else {
                assert(cells[k] == bool_text(output_formatting, table.outputs@[r]));
                lemma_bool_text_one_line(output_formatting, table.outputs@[r]);
            }
        }
        lemma_join_free(cells, sep, '\n');
        law_join_split(cells, delimiter);
        assert(cells =~= Seq::new(n, |j: int| bool_text(inputs_formatting, spec_row_index_to_bool_point(r as nat, n as nat)[j])).push(bool_text(output_formatting, table.outputs@[r])));
    }
    let header_line = join(header, sep);
    lemma_split_on_free(header_line, '\n');
    law_join_split(rows, '\n');
    lemma_split_on_concat(header_line, join(rows, newline), '\n');
    let text = csv_text(table, delimiter, inputs_formatting, output_formatting);
    assert(text == header_line + newline + join(rows, newline));
    let lines = split_on(text, '\n');
    assert(lines == seq![header_line] + rows);
    assert(lines[0] == header_line);
    assert forall|r: int| 0 <= r < table.outputs@.len() implies #[trigger] split_on(lines[r + 1], delimiter)
        == Seq::new(n, |j: int| bool_text(inputs_formatting, spec_row_index_to_bool_point(r as nat, n as nat)[j])).push(bool_text(output_formatting, table.outputs@[r])) by {
        assert(lines[r + 1] == rows[r]);
    }
}

} // verus!
