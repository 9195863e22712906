//! Drawing truth tables as text.
use crate::table::TruthTable;
use crate::utils::{lemma_row_index_point_roundtrip, spec_row_index_to_bool_point};
use vstd::prelude::*;

verus! {

/// How the frame of a drawn table looks.
#[derive(Clone, Copy, PartialEq, Eq, Debug)]
pub enum TableStyle {
    Ascii,
    Modern,
    Markdown,
    Empty,
}

impl Default for TableStyle {
    fn default() -> (style: TableStyle)
        ensures
            style == TableStyle::Empty,
    {
        TableStyle::Empty
    }
}

/// How the Boolean values of a table are written.
#[derive(Clone, Copy, PartialEq, Eq, Debug)]
pub enum TableBooleanFormatting {
    Number,
    Character,
    Word,
    CapitalizedWord,
}

impl Default for TableBooleanFormatting {
    fn default() -> (formatting: TableBooleanFormatting)
        ensures
            formatting == TableBooleanFormatting::Number,
    {
        TableBooleanFormatting::Number
    }
}

/// The text of `value` in the formatting `formatting`: `0`/`1`, `F`/`T`, `false`/`true` or
/// `False`/`True`.
pub open spec fn bool_text(formatting: TableBooleanFormatting, value: bool) -> Seq<char> {
    match formatting {
        TableBooleanFormatting::Number => if value { seq!['1'] } else { seq!['0'] },
        TableBooleanFormatting::Character => if value { seq!['T'] } else { seq!['F'] },
        TableBooleanFormatting::Word => if value { seq!['t', 'r', 'u', 'e'] } else { seq!['f', 'a', 'l', 's', 'e'] },
        TableBooleanFormatting::CapitalizedWord => if value {
            seq!['T', 'r', 'u', 'e']
        } else {
            seq!['F', 'a', 'l', 's', 'e']
        },
    }
}

/// The Boolean value that `text` writes in one of the formattings, if any.
pub open spec fn spec_string_to_bool(text: Seq<char>) -> Option<bool> {
    if text == bool_text(TableBooleanFormatting::Number, false) || text == bool_text(TableBooleanFormatting::Character, false)
        || text == bool_text(TableBooleanFormatting::Word, false) || text == bool_text(TableBooleanFormatting::CapitalizedWord, false) {
        Some(false)
    } else if text == bool_text(TableBooleanFormatting::Number, true) || text == bool_text(TableBooleanFormatting::Character, true)
        || text == bool_text(TableBooleanFormatting::Word, true) || text == bool_text(TableBooleanFormatting::CapitalizedWord, true) {
        Some(true)
    } else {
        None
    }
}

impl TableBooleanFormatting {
    /// The text of `value` in this formatting.
    pub fn format_bool(&self, value: &bool) -> (text: String)
        ensures
            text@ == bool_text(*self, *value),
    {
        let text = match self {
            TableBooleanFormatting::Number => if *value { "1" } else { "0" },
            TableBooleanFormatting::Character => if *value { "T" } else { "F" },
            TableBooleanFormatting::Word => if *value { "true" } else { "false" },
            TableBooleanFormatting::CapitalizedWord => if *value { "True" } else { "False" },
        };
        proof {
            reveal_strlit("1");
            reveal_strlit("0");
            reveal_strlit("T");
            reveal_strlit("F");
            reveal_strlit("true");
            reveal_strlit("false");
            reveal_strlit("True");
            reveal_strlit("False");
        }
        let owned = text.to_owned();
        assert(owned@ =~= bool_text(*self, *value));
        owned
    }
}

/// Whether the two texts are equal.
fn str_equal(a: &str, b: &str) -> (equal: bool)
    ensures
        equal == (a@ == b@),
{
    let x: String = a.to_owned();
    let y: String = b.to_owned();
    x == y
}

/// The Boolean value that `input` writes in one of the formattings (`0`, `F`, `false`,
/// `False`, `1`, `T`, `true` or `True`), if any.
pub fn string_to_bool(input: &str) -> (value: Option<bool>)
    ensures
        value == spec_string_to_bool(input@),
{
    let falses = [
        TableBooleanFormatting::Number,
        TableBooleanFormatting::Character,
        TableBooleanFormatting::Word,
        TableBooleanFormatting::CapitalizedWord,
    ];
    let mut i: usize = 0;
    while i < 4
        invariant
            i <= 4,
            falses@ == seq![
                TableBooleanFormatting::Number,
                TableBooleanFormatting::Character,
                TableBooleanFormatting::Word,
                TableBooleanFormatting::CapitalizedWord,
            ],
            forall|j: int| 0 <= j < i ==> input@ != bool_text(#[trigger] falses@[j], false),
        decreases 4 - i,
    {
        let text = falses[i].format_bool(&false);
        if str_equal(input, text.as_str()) {
            return Some(false);
        }
        i = i + 1;
    }
    assert(input@ != bool_text(falses@[0], false));
    assert(input@ != bool_text(falses@[1], false));
    assert(input@ != bool_text(falses@[2], false));
    assert(input@ != bool_text(falses@[3], false));
    let mut k: usize = 0;
    while k < 4
        invariant
            k <= 4,
            falses@ == seq![
                TableBooleanFormatting::Number,
                TableBooleanFormatting::Character,
                TableBooleanFormatting::Word,
                TableBooleanFormatting::CapitalizedWord,
            ],
            spec_string_to_bool(input@) != Some(false),
            forall|j: int| 0 <= j < k ==> input@ != bool_text(#[trigger] falses@[j], true),
        decreases 4 - k,
    {
        let text = falses[k].format_bool(&true);
        if str_equal(input, text.as_str()) {
            return Some(true);
        }
        k = k + 1;
    }
    assert(input@ != bool_text(falses@[0], true));
    assert(input@ != bool_text(falses@[1], true));
    assert(input@ != bool_text(falses@[2], true));
    assert(input@ != bool_text(falses@[3], true));
    None
}

/// The header of a drawn table: the names of the inputs, then `result`.
pub open spec fn header_view(names: Seq<Seq<char>>) -> Seq<Seq<char>> {
    names.push(seq!['r', 'e', 's', 'u', 'l', 't'])
}

/// The cells of row `row`: its input values, then `output`.
pub open spec fn record_view(
    variable_count: nat,
    row: nat,
    output: bool,
    inputs_formatting: TableBooleanFormatting,
    output_formatting: TableBooleanFormatting,
) -> Seq<Seq<char>> {
    let point = spec_row_index_to_bool_point(row, variable_count);
    Seq::new(point.len(), |i: int| bool_text(inputs_formatting, point[i])).push(bool_text(output_formatting, output))
}

/// The rows of cells of a drawn table: the header, then one row for each output.
pub open spec fn records_view(
    table: TruthTable,
    inputs_formatting: TableBooleanFormatting,
    output_formatting: TableBooleanFormatting,
) -> Seq<Seq<Seq<char>>> {
    seq![header_view(table.names())] + Seq::new(
        table.outputs@.len(),
        |r: int| record_view(table.inputs@.len() as nat, r as nat, table.outputs@[r], inputs_formatting, output_formatting),
    )
}

/// The text that `tabled` draws for the rows `records` in its ASCII style.
pub uninterp spec fn ascii_table_text(records: Seq<Seq<Seq<char>>>) -> Seq<char>;

/// The text that `tabled` draws for the rows `records` in its modern style.
pub uninterp spec fn modern_table_text(records: Seq<Seq<Seq<char>>>) -> Seq<char>;

/// The text that `tabled` draws for the rows `records` in its Markdown style.
pub uninterp spec fn markdown_table_text(records: Seq<Seq<Seq<char>>>) -> Seq<char>;

/// The text that `tabled` draws for the rows `records` with no frame and one space of
/// padding on the right of each cell.
pub uninterp spec fn empty_table_text(records: Seq<Seq<Seq<char>>>) -> Seq<char>;

/// Builds a `tabled` table of `records` (`Builder::from`, `Builder::build`) and draws it with
/// `Style::ascii()` (`Table::with`, `to_string`); the contract names the text that comes out.
#[verifier::external_body]
fn draw_ascii(records: Vec<Vec<String>>) -> (text: String)
    ensures
        text@ == ascii_table_text(records.deep_view()),
{
    let mut table = tabled::builder::Builder::from(records).build();
    table.with(tabled::settings::Style::ascii()).to_string()
}

/// Builds a `tabled` table of `records` and draws it with `Style::modern()`; the contract
/// names the text that comes out.
#[verifier::external_body]
fn draw_modern(records: Vec<Vec<String>>) -> (text: String)
    ensures
        text@ == modern_table_text(records.deep_view()),
{
    let mut table = tabled::builder::Builder::from(records).build();
    table.with(tabled::settings::Style::modern()).to_string()
}

/// Builds a `tabled` table of `records` and draws it with `Style::markdown()`; the contract
/// names the text that comes out.
#[verifier::external_body]
fn draw_markdown(records: Vec<Vec<String>>) -> (text: String)
    ensures
        text@ == markdown_table_text(records.deep_view()),
{
    let mut table = tabled::builder::Builder::from(records).build();
    table.with(tabled::settings::Style::markdown()).to_string()
}

/// Builds a `tabled` table of `records` and draws it with `Style::empty()` and
/// `Padding::new(0, 1, 0, 0)`; the contract names the text that comes out.
#[verifier::external_body]
fn draw_empty(records: Vec<Vec<String>>) -> (text: String)
    ensures
        text@ == empty_table_text(records.deep_view()),
{
    let mut table = tabled::builder::Builder::from(records).build();
    table.with(tabled::settings::Style::empty()).with(tabled::settings::Padding::new(0, 1, 0, 0)).to_string()
}

/// The text of the rows `records` drawn in the style `style`.
pub open spec fn styled_text(style: TableStyle, records: Seq<Seq<Seq<char>>>) -> Seq<char> {
    match style {
        TableStyle::Ascii => ascii_table_text(records),
        TableStyle::Modern => modern_table_text(records),
        TableStyle::Markdown => markdown_table_text(records),
        TableStyle::Empty => empty_table_text(records),
    }
}

impl TableStyle {
    /// Draws the rows `records` in this style.
    pub fn build_table_with(&self, records: Vec<Vec<String>>) -> (text: String)
        ensures
            text@ == styled_text(*self, records.deep_view()),
    {
        match self {
            TableStyle::Empty => draw_empty(records),
            TableStyle::Ascii => draw_ascii(records),
            TableStyle::Modern => draw_modern(records),
            TableStyle::Markdown => draw_markdown(records),
        }
    }
}

impl TruthTable {
    /// The header row: the names of the inputs, then `result`.
    fn header_row(&self) -> (header: Vec<String>)
        ensures
            header.deep_view() == header_view(self.names()),
    {
        let mut header: Vec<String> = Vec::new();
        let mut i: usize = 0;
        while i < self.inputs.len()
            invariant
                i <= self.inputs@.len(),
                header.deep_view() == self.names().subrange(0, i as int),
            decreases self.inputs.len() - i,
        {
            let ghost before = header.deep_view();
            header.push(self.inputs[i].clone());
            proof {
                assert(header.deep_view() =~= before.push(self.names()[i as int]));
                assert(self.names().subrange(0, i + 1) =~= self.names().subrange(0, i as int).push(self.names()[i as int]));
            }
            i = i + 1;
        }
        let ghost before = header.deep_view();
        let result_name = "result";
        proof {
            reveal_strlit("result");
            assert(self.names().subrange(0, i as int) =~= self.names());
        }
        let result_owned = result_name.to_owned();
        assert(result_owned@ =~= seq!['r', 'e', 's', 'u', 'l', 't']);
        header.push(result_owned);
        proof {
            assert(header.deep_view() =~= before.push(seq!['r', 'e', 's', 'u', 'l', 't']));
        }
        header
    }

    /// The cells of row `row_index`: its formatted input values, then its formatted output.
    fn record_row(
        &self,
        row_index: usize,
        output_value: bool,
        inputs_formatting: &TableBooleanFormatting,
        output_formatting: &TableBooleanFormatting,
    ) -> (record: Vec<String>)
        ensures
            record.deep_view() == record_view(self.inputs@.len() as nat, row_index as nat, output_value, *inputs_formatting, *output_formatting),
    {
        let point = self.row(row_index);
        let mut record: Vec<String> = Vec::new();
        let mut i: usize = 0;
        while i < point.len()
            invariant
                i <= point@.len(),
                record.deep_view() == Seq::new(i as nat, |j: int| bool_text(*inputs_formatting, point@[j])),
            decreases point.len() - i,
        {
            let ghost before = record.deep_view();
            let cell = inputs_formatting.format_bool(&point[i]);
            record.push(cell);
            proof {
                assert(record.deep_view() =~= before.push(cell@));
                assert(record.deep_view() =~= Seq::new((i + 1) as nat, |j: int| bool_text(*inputs_formatting, point@[j])));
            }
            i = i + 1;
        }
        let ghost before = record.deep_view();
        record.push(output_formatting.format_bool(&output_value));
        proof {
            assert(record.deep_view() =~= before.push(bool_text(*output_formatting, output_value)));
        }
        record
    }

    /// The rows of cells of the drawn table: the header, then one row for each output.
    pub fn table_records(
        &self,
        inputs_formatting: TableBooleanFormatting,
        output_formatting: TableBooleanFormatting,
    ) -> (records: Vec<Vec<String>>)
        ensures
            records.deep_view() == records_view(*self, inputs_formatting, output_formatting),
    {
        let mut records: Vec<Vec<String>> = Vec::new();
        records.push(self.header_row());
        let mut r: usize = 0;
        while r < self.outputs.len()
            invariant
                r <= self.outputs@.len(),
                records.deep_view() == seq![header_view(self.names())] + Seq::new(
                    r as nat,
                    |k: int| record_view(self.inputs@.len() as nat, k as nat, self.outputs@[k], inputs_formatting, output_formatting),
                ),
            decreases self.outputs.len() - r,
        {
            let ghost before = records.deep_view();
            let record = self.record_row(r, self.outputs[r], &inputs_formatting, &output_formatting);
            records.push(record);
            proof {
                assert(records.deep_view() =~= before.push(record.deep_view()));
                assert(records.deep_view() =~= seq![header_view(self.names())] + Seq::new(
                    (r + 1) as nat,
                    |k: int| record_view(self.inputs@.len() as nat, k as nat, self.outputs@[k], inputs_formatting, output_formatting),
                ));
            }
            r = r + 1;
        }
        records
    }

    /// The table drawn as text, in the style `table_style`, with its input and output values
    /// written in the given formattings.
    pub fn to_string_formatted(
        &self,
        table_style: TableStyle,
        inputs_formatting: TableBooleanFormatting,
        output_formatting: TableBooleanFormatting,
    ) -> (text: String)
        ensures
            text@ == styled_text(table_style, records_view(*self, inputs_formatting, output_formatting)),
    {
        let records = self.table_records(inputs_formatting, output_formatting);
        table_style.build_table_with(records)
    }

    /// The table drawn with no frame, its values written as `false` and `true`.
    pub fn to_string(&self) -> (text: String)
        ensures
            text@ == empty_table_text(records_view(*self, TableBooleanFormatting::Word, TableBooleanFormatting::Word)),
    {
        self.to_string_formatted(TableStyle::Empty, TableBooleanFormatting::Word, TableBooleanFormatting::Word)
    }
}

/// Law: a drawn table (of a well-formed table) has a header row and one row for each
/// output. The header holds the names of the inputs, then `result`; the row of output `r`
/// holds the written values of the inputs on that row, then the written output; so each row
/// has as many cells as the header.
pub proof fn law_drawn_records(
    table: TruthTable,
    inputs_formatting: TableBooleanFormatting,
    output_formatting: TableBooleanFormatting,
)
    requires
        table.wf(),
    ensures
        records_view(table, inputs_formatting, output_formatting).len() == table.outputs@.len() + 1,
        records_view(table, inputs_formatting, output_formatting)[0] == table.names().push(seq!['r', 'e', 's', 'u', 'l', 't']),
        forall|r: int| 0 <= r < table.outputs@.len() ==> #[trigger] records_view(table, inputs_formatting, output_formatting)[r + 1]
            == Seq::new(table.inputs@.len(), |j: int| bool_text(inputs_formatting, spec_row_index_to_bool_point(r as nat, table.inputs@.len() as nat)[j]))
                .push(bool_text(output_formatting, table.outputs@[r])),
        forall|r: int| 0 <= r <= table.outputs@.len() ==> #[trigger] records_view(table, inputs_formatting, output_formatting)[r].len() == table.inputs@.len() + 1,
{
    let n = table.inputs@.len();
    let records = records_view(table, inputs_formatting, output_formatting);
    assert(records[0] == header_view(table.names()));
    assert forall|r: int| 0 <= r < table.outputs@.len() implies #[trigger] records[r + 1]
        == Seq::new(n, |j: int| bool_text(inputs_formatting, spec_row_index_to_bool_point(r as nat, n as nat)[j])).push(bool_text(output_formatting, table.outputs@[r])) by {
        lemma_row_index_point_roundtrip(r as nat, n as nat);
        assert(records[r + 1] == record_view(n as nat, r as nat, table.outputs@[r], inputs_formatting, output_formatting));
        assert(records[r + 1] =~= Seq::new(n, |j: int| bool_text(inputs_formatting, spec_row_index_to_bool_point(r as nat, n as nat)[j])).push(bool_text(output_formatting, table.outputs@[r])));
    }
    assert forall|r: int| 0 <= r <= table.outputs@.len() implies #[trigger] records[r].len() == n + 1 by {
        if r > 0 {
            let q = r - 1;
            assert(records[q + 1].len() == n + 1);
        }
    }
}

} // verus!
