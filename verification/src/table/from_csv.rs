//! Reading truth tables from comma-separated values.
use crate::literals::{is_sorted_set, lemma_sorted_set_distinct, lemma_sorted_sets_equal, sorted_set_from, string_eq};
use crate::parser::utils::string_push;
use crate::table::display::{spec_string_to_bool, string_to_bool};
use crate::table::TruthTable;
use crate::utils::{boolean_point_to_row_index, lemma_point_index_bound, point_index};
use vstd::arithmetic::power2::{lemma2_to64, lemma_pow2_unfold, pow2};
use vstd::prelude::*;
use vstd::string::StrSliceExecFns;

verus! {

/// The error of the `csv` crate.
#[verifier::external_type_specification]
#[verifier::external_body]
pub struct ExCsvError(csv::Error);

/// An input or output error of the standard library.
#[verifier::external_type_specification]
#[verifier::external_body]
pub struct ExIoError(std::io::Error);

/// Why a truth table could not be read from CSV.
#[derive(Debug)]
pub enum TruthTableFromCsvError {
    /// The header names a variable twice.
    DuplicateVariableName { name: String },
    /// There is no record at all.
    UnexpectedEof,
    /// A record ends before a column of the variables.
    RecordDifferentSizeThanHeader { row_index: usize, expected_row_len: usize, actual_row_len: usize },
    /// A cell holds no Boolean value.
    NonBooleanCellValue { actual: String },
    /// A record has no cells.
    NoOutputColumn,
    /// The number of rows is not `2^n` for the `n` variables.
    MismatchedRecordCountAndVariableCount { variable_count: usize, actual_row_count: usize },
    /// No delimiter was found.
    NoDelimiterFound,
    /// The CSV reader failed.
    ParsingError(csv::Error),
    /// Reading the input failed.
    IOError(std::io::Error),
}

/// The value of an error of reading a table from CSV.
pub enum CsvErrorView {
    DuplicateVariableName { name: Seq<char> },
    UnexpectedEof,
    RecordDifferentSizeThanHeader { row_index: nat, expected_row_len: nat, actual_row_len: nat },
    NonBooleanCellValue { actual: Seq<char> },
    NoOutputColumn,
    MismatchedRecordCountAndVariableCount { variable_count: nat, actual_row_count: nat },
    NoDelimiterFound,
    ParsingError(csv::Error),
    IOError(std::io::Error),
}

impl TruthTableFromCsvError {
    /// The value of this error.
    pub open spec fn view(&self) -> CsvErrorView {
        match self {
            TruthTableFromCsvError::DuplicateVariableName { name } => CsvErrorView::DuplicateVariableName { name: name@ },
            TruthTableFromCsvError::UnexpectedEof => CsvErrorView::UnexpectedEof,
            TruthTableFromCsvError::RecordDifferentSizeThanHeader { row_index, expected_row_len, actual_row_len } =>
                CsvErrorView::RecordDifferentSizeThanHeader {
                    row_index: *row_index as nat,
                    expected_row_len: *expected_row_len as nat,
                    actual_row_len: *actual_row_len as nat,
                },
            TruthTableFromCsvError::NonBooleanCellValue { actual } => CsvErrorView::NonBooleanCellValue { actual: actual@ },
            TruthTableFromCsvError::NoOutputColumn => CsvErrorView::NoOutputColumn,
            TruthTableFromCsvError::MismatchedRecordCountAndVariableCount { variable_count, actual_row_count } =>
                CsvErrorView::MismatchedRecordCountAndVariableCount {
                    variable_count: *variable_count as nat,
                    actual_row_count: *actual_row_count as nat,
                },
            TruthTableFromCsvError::NoDelimiterFound => CsvErrorView::NoDelimiterFound,
            TruthTableFromCsvError::ParsingError(e) => CsvErrorView::ParsingError(*e),
            TruthTableFromCsvError::IOError(e) => CsvErrorView::IOError(*e),
        }
    }
}

/// The decimal digit `d`.
pub open spec fn digit_char(d: nat) -> char {
    seq!['0', '1', '2', '3', '4', '5', '6', '7', '8', '9'][d as int]
}

/// The decimal numeral of `n`.
pub open spec fn decimal(n: nat) -> Seq<char>
    decreases n,
{
    if n < 10 {
        seq![digit_char(n)]
    } else {
        decimal(n / 10).push(digit_char(n % 10))
    }
}

/// The name given to the variable of column `i` of a table without header: `x_` and the
/// decimal numeral of `i`.
pub open spec fn generated_name(i: nat) -> Seq<char> {
    seq!['x', '_'] + decimal(i)
}

/// The first position that holds a name that also stands before it, if any.
pub open spec fn first_duplicate(cells: Seq<Seq<char>>) -> Option<int>
    decreases cells.len(),
{
    if cells.len() == 0 {
        None
    } else {
        match first_duplicate(cells.drop_last()) {
            Some(j) => Some(j),
            None => if cells.drop_last().contains(cells.last()) {
                Some(cells.len() - 1)
            } else {
                None
            },
        }
    }
}

/// The names of the variables, in the order of their columns, and whether the first record
/// is a header (its last cell holds no Boolean value); or why they cannot be told.
pub open spec fn header_choice(first: Seq<Seq<char>>) -> Result<(Seq<Seq<char>>, bool), CsvErrorView> {
    if first.len() == 0 {
        Err(CsvErrorView::NoOutputColumn)
    } else if spec_string_to_bool(first.last()) is None {
        let cells = first.drop_last();
        match first_duplicate(cells) {
            Some(j) => Err(CsvErrorView::DuplicateVariableName { name: cells[j] }),
            None => Ok((cells, true)),
        }
    } else {
        Ok((Seq::new((first.len() - 1) as nat, |i: int| generated_name(i as nat)), false))
    }
}

/// When the first record `first` is a header, the text has a line for it: a text of
/// `file_row_count` lines.
pub open spec fn header_has_line(file_row_count: nat, first: Seq<Seq<char>>) -> bool {
    match header_choice(first) {
        Ok((_, is_header)) => is_header ==> file_row_count >= 1,
        Err(_) => true,
    }
}

/// When the first of `records` is a header, the text of `file_row_count` lines has a line for
/// it.
pub open spec fn records_header_has_line(file_row_count: nat, records: Seq<Result<Vec<String>, csv::Error>>) -> bool {
    records.len() > 0 ==> match records[0] {
        Ok(first) => header_has_line(file_row_count, first.deep_view()),
        Err(_) => true,
    }
}

/// The names of `set` in increasing order.
pub open spec fn sorted_names(set: Set<Seq<char>>) -> Seq<Seq<char>> {
    choose|s: Seq<Seq<char>>| is_sorted_set(s) && s.to_set() == set
}

/// The first column that holds `name`.
pub open spec fn column_of(candidates: Seq<Seq<char>>, name: Seq<char>) -> int {
    choose|c: int| 0 <= c < candidates.len() && candidates[c] == name && forall|j: int| 0 <= j < c ==> candidates[j] != name
}

/// The names of the variables, in the order of their columns, and the length that a record
/// is expected to have; or why they are not right for a text of `file_row_count` lines
/// whose first record is `first`.
pub open spec fn variables_view(file_row_count: nat, first: Seq<Seq<char>>) -> Result<(Seq<Seq<char>>, nat), CsvErrorView> {
    match header_choice(first) {
        Err(e) => Err(e),
        Ok((candidates, is_header)) => {
            let m = sorted_names(candidates.to_set()).len();
            let actual: int = if is_header { file_row_count - 1 } else { file_row_count as int };
            if actual != pow2(m) {
                Err(CsvErrorView::MismatchedRecordCountAndVariableCount { variable_count: m, actual_row_count: actual as nat })
            } else {
                Ok((candidates, if is_header { first.len() } else { m }))
            }
        },
    }
}

/// The values of the variables `names` in the cells of a record, read at their columns in
/// `candidates`; or the first error.
pub open spec fn record_inputs(
    cells: Seq<Seq<char>>,
    candidates: Seq<Seq<char>>,
    names: Seq<Seq<char>>,
    row_index: nat,
    expected_row_len: nat,
) -> Result<Seq<bool>, CsvErrorView>
    decreases names.len(),
{
    if names.len() == 0 {
        Ok(Seq::empty())
    } else {
        match record_inputs(cells, candidates, names.drop_last(), row_index, expected_row_len) {
            Err(e) => Err(e),
            Ok(values) => {
                let c = column_of(candidates, names.last());
                if c >= cells.len() {
                    Err(CsvErrorView::RecordDifferentSizeThanHeader { row_index, expected_row_len, actual_row_len: cells.len() })
                } else {
                    match spec_string_to_bool(cells[c]) {
                        None => Err(CsvErrorView::NonBooleanCellValue { actual: cells[c] }),
                        Some(b) => Ok(values.push(b)),
                    }
                }
            },
        }
    }
}

/// The output value in the last cell of a record, or why there is none.
pub open spec fn record_output(cells: Seq<Seq<char>>) -> Result<bool, CsvErrorView> {
    if cells.len() == 0 {
        Err(CsvErrorView::NoOutputColumn)
    } else {
        match spec_string_to_bool(cells.last()) {
            None => Err(CsvErrorView::NonBooleanCellValue { actual: cells.last() }),
            Some(b) => Ok(b),
        }
    }
}

/// The outputs after each record of `rest`, in order, sets the output of its row; or the
/// first error.
pub open spec fn fill_outputs(
    rest: Seq<Result<Vec<String>, csv::Error>>,
    candidates: Seq<Seq<char>>,
    names: Seq<Seq<char>>,
    expected_row_len: nat,
    initial: Seq<bool>,
) -> Result<Seq<bool>, CsvErrorView>
    decreases rest.len(),
{
    if rest.len() == 0 {
        Ok(initial)
    } else {
        match fill_outputs(rest.drop_last(), candidates, names, expected_row_len, initial) {
            Err(e) => Err(e),
            Ok(outputs) => match rest.last() {
                Err(e) => Err(CsvErrorView::ParsingError(e)),
                Ok(record) => match record_inputs(record.deep_view(), candidates, names, (rest.len() - 1) as nat, expected_row_len) {
                    Err(e) => Err(e),
                    Ok(point) => match record_output(record.deep_view()) {
                        Err(e) => Err(e),
                        Ok(b) => Ok(outputs.update(point_index(point) as int, b)),
                    },
                },
            },
        }
    }
}

/// The inputs and outputs of the table that the CSV records `records` of a text of
/// `file_row_count` lines describe, or why they describe none. The first record is a header
/// unless its last cell holds a Boolean value; either way it sets no output.
pub open spec fn csv_table_view(file_row_count: nat, records: Seq<Result<Vec<String>, csv::Error>>) -> Result<(Seq<Seq<char>>, Seq<bool>), CsvErrorView> {
    if records.len() == 0 {
        Err(CsvErrorView::UnexpectedEof)
    } else {
        match records[0] {
            Err(e) => Err(CsvErrorView::ParsingError(e)),
            Ok(first) => match variables_view(file_row_count, first.deep_view()) {
                Err(e) => Err(e),
                Ok((candidates, expected_row_len)) => {
                    let names = sorted_names(candidates.to_set());
                    match fill_outputs(records.drop_first(), candidates, names, expected_row_len, Seq::new(pow2(names.len()), |i: int| false)) {
                        Err(e) => Err(e),
                        Ok(outputs) => Ok((names, outputs)),
                    }
                },
            },
        }
    }
}

/// The inputs and outputs of a table, or the value of the error.
pub open spec fn table_result_view(result: Result<TruthTable, TruthTableFromCsvError>) -> Result<(Seq<Seq<char>>, Seq<bool>), CsvErrorView> {
    match result {
        Ok(table) => Ok((table.names(), table.outputs@)),
        Err(e) => Err(e.view()),
    }
}

/// A sorted set is the sorted sequence of its names.
pub proof fn lemma_sorted_names(s: Seq<Seq<char>>)
    requires
        is_sorted_set(s),
    ensures
        sorted_names(s.to_set()) == s,
{
    let c = sorted_names(s.to_set());
    assert(is_sorted_set(c) && c.to_set() == s.to_set());
    lemma_sorted_sets_equal(c, s);
}

/// The first column that holds a name.
pub proof fn lemma_column_of(candidates: Seq<Seq<char>>, name: Seq<char>, j: int)
    requires
        0 <= j < candidates.len(),
        candidates[j] == name,
        forall|i: int| 0 <= i < j ==> candidates[i] != name,
    ensures
        column_of(candidates, name) == j,
{
    let c = column_of(candidates, name);
    assert(0 <= c < candidates.len() && candidates[c] == name && forall|i: int| 0 <= i < c ==> candidates[i] != name);
}

/// An error in the records up to `k` is the error of all the records.
pub proof fn lemma_fill_error(
    rest: Seq<Result<Vec<String>, csv::Error>>,
    k: int,
    candidates: Seq<Seq<char>>,
    names: Seq<Seq<char>>,
    expected_row_len: nat,
    initial: Seq<bool>,
)
    requires
        0 <= k <= rest.len(),
        fill_outputs(rest.subrange(0, k), candidates, names, expected_row_len, initial) is Err,
    ensures
        fill_outputs(rest, candidates, names, expected_row_len, initial) == fill_outputs(rest.subrange(0, k), candidates, names, expected_row_len, initial),
    decreases rest.len() - k,
{
    if k < rest.len() {
        assert(rest.subrange(0, k + 1).drop_last() =~= rest.subrange(0, k));
        lemma_fill_error(rest, k + 1, candidates, names, expected_row_len, initial);
    } else {
        assert(rest.subrange(0, k) =~= rest);
    }
}

/// The decimal digit `d`.
fn digit_to_char(d: usize) -> (c: char)
    requires
        d < 10,
    ensures
        c == digit_char(d as nat),
{
    let digits = ['0', '1', '2', '3', '4', '5', '6', '7', '8', '9'];
    assert(digits@ == seq!['0', '1', '2', '3', '4', '5', '6', '7', '8', '9']);
    digits[d]
}

/// The decimal numeral of `n`.
fn decimal_string(n: usize) -> (text: String)
    ensures
        text@ == decimal(n as nat),
    decreases n,
{
    if n < 10 {
        let mut text = String::new();
        string_push(&mut text, digit_to_char(n));
        assert(text@ =~= seq![digit_char(n as nat)]);
        text
    } else {
        let mut text = decimal_string(n / 10);
        string_push(&mut text, digit_to_char(n % 10));
        text
    }
}

/// The name of the variable of column `i` of a table without header.
fn generated_variable_name(i: usize) -> (name: String)
    ensures
        name@ == generated_name(i as nat),
{
    let mut name = String::new();
    string_push(&mut name, 'x');
    string_push(&mut name, '_');
    let digits = decimal_string(i);
    crate::parser::utils::append_str(&mut name, digits.as_str());
    assert(name@ =~= seq!['x', '_'] + decimal(i as nat));
    name
}

/// Whether the record is a header: its last cell holds no Boolean value.
fn is_header(record: &Vec<String>) -> (header: Result<bool, TruthTableFromCsvError>)
    ensures
        record@.len() == 0 ==> (header matches Err(e) && e.view() == CsvErrorView::NoOutputColumn),
        record@.len() > 0 ==> header == Ok::<bool, TruthTableFromCsvError>(spec_string_to_bool(record.deep_view().last()) is None),
{
    if record.len() == 0 {
        return Err(TruthTableFromCsvError::NoOutputColumn);
    }
    let last = record.len() - 1;
    assert(record.deep_view().last() == record@[last as int]@);
    Ok(string_to_bool(record[last].as_str()).is_none())
}

/// The names in the cells of the header but its last one, which titles the outputs; or the
/// first name that stands twice.
fn inputs_from_header(header: &Vec<String>) -> (inputs: Result<Vec<String>, TruthTableFromCsvError>)
    requires
        header@.len() > 0,
    ensures
        ({
            let cells = header.deep_view().drop_last();
            match first_duplicate(cells) {
                Some(j) => inputs matches Err(e) && e.view() == (CsvErrorView::DuplicateVariableName { name: cells[j] }),
                None => inputs matches Ok(names) && names.deep_view() == cells,
            }
        }),
{
    let ghost cells = header.deep_view().drop_last();
    let count = header.len() - 1;
    let mut names: Vec<String> = Vec::new();
    let mut i: usize = 0;
    assert forall|k: int| 0 <= k < count implies cells[k] == header@[k]@ by {}
    while i < count
        invariant
            cells == header.deep_view().drop_last(),
            count == cells.len(),
            header@.len() == count + 1,
            forall|k: int| 0 <= k < count ==> cells[k] == header@[k]@,
            names@.len() == i,
            i <= count,
            names.deep_view() == cells.subrange(0, i as int),
            first_duplicate(cells.subrange(0, i as int)) is None,
        decreases count - i,
    {
        let ghost prefix = cells.subrange(0, i as int);
        let mut j: usize = 0;
        while j < i
            invariant
                i < count,
                cells == header.deep_view().drop_last(),
                count == cells.len(),
                header@.len() == count + 1,
                forall|k: int| 0 <= k < count ==> cells[k] == header@[k]@,
                names@.len() == i,
                names.deep_view() == cells.subrange(0, i as int),
                first_duplicate(cells.subrange(0, i as int)) is None,
                j <= i,
                forall|k: int| 0 <= k < j ==> cells[k] != cells[i as int],
            decreases i - j,
        {
            assert(names.deep_view()[j as int] == names@[j as int]@);
            if string_eq(&names[j], &header[i]) {
                proof {
                    assert(cells.subrange(0, i + 1).drop_last() =~= cells.subrange(0, i as int));
                    assert(cells.subrange(0, i as int)[j as int] == cells[i as int]);
                    assert(cells.subrange(0, i as int).contains(cells[i as int]));
                    assert(cells.subrange(0, i + 1).last() == cells[i as int]);
                    assert(first_duplicate(cells.subrange(0, i + 1)) == Some(i as int));
                    lemma_first_duplicate_prefix(cells, i as int + 1);
                }
                return Err(TruthTableFromCsvError::DuplicateVariableName { name: header[i].clone() });
            }
            j = j + 1;
        }
        let ghost before = names.deep_view();
        names.push(header[i].clone());
        proof {
            assert(names.deep_view() =~= before.push(cells[i as int]));
            assert(cells.subrange(0, i + 1) =~= cells.subrange(0, i as int).push(cells[i as int]));
            assert(cells.subrange(0, i + 1).drop_last() =~= cells.subrange(0, i as int));
            assert(!cells.subrange(0, i as int).contains(cells[i as int]));
        }
        i = i + 1;
    }
    proof {
        assert(cells.subrange(0, i as int) =~= cells);
    }
    Ok(names)
}

/// A duplicate in a prefix is the first duplicate of the whole sequence.
proof fn lemma_first_duplicate_prefix(cells: Seq<Seq<char>>, k: int)
    requires
        0 <= k <= cells.len(),
        first_duplicate(cells.subrange(0, k)) is Some,
    ensures
        first_duplicate(cells) == first_duplicate(cells.subrange(0, k)),
    decreases cells.len() - k,
{
    if k < cells.len() {
        assert(cells.subrange(0, k + 1).drop_last() =~= cells.subrange(0, k));
        lemma_first_duplicate_prefix(cells, k + 1);
    } else {
        assert(cells.subrange(0, k) =~= cells);
    }
}

/// The names `x_0`, `x_1`, ... of the variables of a table without header, one for each
/// cell of its first record but the last.
fn inputs_from_first_record(first_record: &Vec<String>) -> (names: Vec<String>)
    requires
        first_record@.len() > 0,
    ensures
        names.deep_view() == Seq::new((first_record@.len() - 1) as nat, |i: int| generated_name(i as nat)),
{
    let count = first_record.len() - 1;
    let mut names: Vec<String> = Vec::new();
    let mut i: usize = 0;
    while i < count
        invariant
            i <= count,
            names.deep_view() == Seq::new(i as nat, |k: int| generated_name(k as nat)),
        decreases count - i,
    {
        let ghost before = names.deep_view();
        let name = generated_variable_name(i);
        names.push(name);
        proof {
            assert(names.deep_view() =~= before.push(name@));
            assert(names.deep_view() =~= Seq::new((i + 1) as nat, |k: int| generated_name(k as nat)));
        }
        i = i + 1;
    }
    names
}

/// `2^n`, or `None` when it does not fit in a machine integer.
fn pow2_checked(n: usize) -> (result: Option<usize>)
    ensures
        result matches Some(v) ==> v == pow2(n as nat),
        result is None ==> pow2(n as nat) > usize::MAX,
{
    let mut value: usize = 1;
    let mut i: usize = 0;
    proof {
        lemma2_to64();
    }
    while i < n
        invariant
            i <= n,
            value == pow2(i as nat),
        decreases n - i,
    {
        proof {
            lemma_pow2_unfold((i + 1) as nat);
        }
        if value > usize::MAX / 2 {
            proof {
                lemma_pow2_grows((i + 1) as nat, n as nat);
            }
            return None;
        }
        value = value * 2;
        i = i + 1;
    }
    Some(value)
}

/// `2^n` does not decrease as `n` grows.
proof fn lemma_pow2_grows(a: nat, b: nat)
    requires
        a <= b,
    ensures
        pow2(a) <= pow2(b),
    decreases b - a,
{
    if a < b {
        lemma_pow2_grows(a, (b - 1) as nat);
        lemma_pow2_unfold(b);
    }
}

/// Checks that there is one record for each of the `2^n` rows of `variable_count` variables.
fn ensure_record_count(actual_record_count: usize, variable_count: usize) -> (checked: Result<(), TruthTableFromCsvError>)
    ensures
        actual_record_count == pow2(variable_count as nat) ==> checked is Ok,
        actual_record_count != pow2(variable_count as nat) ==> (checked matches Err(e) && e.view()
            == (CsvErrorView::MismatchedRecordCountAndVariableCount {
            variable_count: variable_count as nat,
            actual_row_count: actual_record_count as nat,
        })),
{
    let fits = match pow2_checked(variable_count) {
        Some(expected) => expected == actual_record_count,
        None => false,
    };
    if !fits {
        return Err(TruthTableFromCsvError::MismatchedRecordCountAndVariableCount {
            variable_count,
            actual_row_count: actual_record_count,
        });
    }
    Ok(())
}

/// The sorted names of `candidates` and, for each, the first column that holds it.
fn columns_of(candidates: &Vec<String>) -> (mapping: (Vec<String>, Vec<usize>))
    ensures
        mapping.0.deep_view() == sorted_names(candidates.deep_view().to_set()),
        is_sorted_set(mapping.0.deep_view()),
        mapping.1@.len() == mapping.0@.len(),
        forall|k: int| 0 <= k < mapping.1@.len() ==> #[trigger] mapping.1@[k] == column_of(candidates.deep_view(), mapping.0.deep_view()[k]),
        forall|k: int| 0 <= k < mapping.1@.len() ==> #[trigger] mapping.1@[k] < candidates@.len(),
{
    let names = sorted_set_from(candidates);
    let ghost cands = candidates.deep_view();
    proof {
        lemma_sorted_names(names.deep_view());
    }
    let mut columns: Vec<usize> = Vec::new();
    let mut k: usize = 0;
    while k < names.len()
        invariant
            cands == candidates.deep_view(),
            names.deep_view().to_set() == cands.to_set(),
            k <= names@.len(),
            columns@.len() == k,
            forall|i: int| 0 <= i < k ==> #[trigger] columns@[i] == column_of(cands, names.deep_view()[i]),
            forall|i: int| 0 <= i < k ==> #[trigger] columns@[i] < candidates@.len(),
        decreases names.len() - k,
    {
        proof {
            assert(names.deep_view().to_set().contains(names.deep_view()[k as int]));
            assert(cands.to_set().contains(names.deep_view()[k as int]));
        }
        let mut j: usize = 0;
        while j < candidates.len()
            invariant
                cands == candidates.deep_view(),
                cands.contains(names.deep_view()[k as int]),
                k < names@.len(),
                j <= candidates@.len(),
                forall|i: int| 0 <= i < j ==> cands[i] != names.deep_view()[k as int],
            ensures
                j <= candidates@.len(),
                forall|i: int| 0 <= i < j ==> cands[i] != names.deep_view()[k as int],
                j < candidates@.len() ==> cands[j as int] == names.deep_view()[k as int],
            decreases candidates.len() - j,
        {
            assert(cands[j as int] == candidates@[j as int]@);
            assert(names.deep_view()[k as int] == names@[k as int]@);
            if string_eq(&candidates[j], &names[k]) {
                break;
            }
            j = j + 1;
        }
        proof {
            if j == candidates.len() {
                let i = choose|i: int| 0 <= i < cands.len() && cands[i] == names.deep_view()[k as int];
                assert(false);
            }
            lemma_column_of(cands, names.deep_view()[k as int], j as int);
        }
        columns.push(j);
        k = k + 1;
    }
    (names, columns)
}

/// The names of the variables, sorted, with the first column of each, and the length that a
/// record is expected to have; or why the first record does not fit a text of
/// `file_row_count` lines.
fn determine_variables(file_row_count: usize, first: &Vec<String>) -> (variables: Result<(Vec<String>, Vec<usize>, usize), TruthTableFromCsvError>)
    requires
        header_has_line(file_row_count as nat, first.deep_view()),
    ensures
        match variables_view(file_row_count as nat, first.deep_view()) {
            Err(e) => variables matches Err(x) && x.view() == e,
            Ok((candidates, expected_row_len)) => variables matches Ok((names, columns, expected)) && {
                &&& names.deep_view() == sorted_names(candidates.to_set())
                &&& is_sorted_set(names.deep_view())
                &&& columns@.len() == names@.len()
                &&& forall|k: int| 0 <= k < columns@.len() ==> #[trigger] columns@[k] == column_of(candidates, names.deep_view()[k])
                &&& forall|k: int| 0 <= k < columns@.len() ==> #[trigger] columns@[k] < candidates.len()
                &&& expected == expected_row_len
            },
        },
{
    let header = match is_header(first) {
        Ok(h) => h,
        Err(e) => {
            return Err(e);
        },
    };
    if header {
        let candidates = match inputs_from_header(first) {
            Ok(c) => c,
            Err(e) => {
                return Err(e);
            },
        };
        let (names, columns) = columns_of(&candidates);
        match ensure_record_count(file_row_count - 1, names.len()) {
            Ok(()) => {},
            Err(e) => {
                return Err(e);
            },
        }
        Ok((names, columns, first.len()))
    } else {
        let candidates = inputs_from_first_record(first);
        let (names, columns) = columns_of(&candidates);
        match ensure_record_count(file_row_count, names.len()) {
            Ok(()) => {},
            Err(e) => {
                return Err(e);
            },
        }
        let count = names.len();
        Ok((names, columns, count))
    }
}

/// The values read by `record_inputs` are one for each variable.
proof fn lemma_record_inputs_len(
    cells: Seq<Seq<char>>,
    candidates: Seq<Seq<char>>,
    names: Seq<Seq<char>>,
    row_index: nat,
    expected_row_len: nat,
)
    ensures
        record_inputs(cells, candidates, names, row_index, expected_row_len) matches Ok(values) ==> values.len() == names.len(),
    decreases names.len(),
{
    if names.len() > 0 {
        lemma_record_inputs_len(cells, candidates, names.drop_last(), row_index, expected_row_len);
    }
}

/// An error on the first `k` variables is the error on all of them.
proof fn lemma_record_inputs_error(
    cells: Seq<Seq<char>>,
    candidates: Seq<Seq<char>>,
    names: Seq<Seq<char>>,
    k: int,
    row_index: nat,
    expected_row_len: nat,
)
    requires
        0 <= k <= names.len(),
        record_inputs(cells, candidates, names.subrange(0, k), row_index, expected_row_len) is Err,
    ensures
        record_inputs(cells, candidates, names, row_index, expected_row_len) == record_inputs(cells, candidates, names.subrange(0, k), row_index, expected_row_len),
    decreases names.len() - k,
{
    if k < names.len() {
        assert(names.subrange(0, k + 1).drop_last() =~= names.subrange(0, k));
        lemma_record_inputs_error(cells, candidates, names, k + 1, row_index, expected_row_len);
    } else {
        assert(names.subrange(0, k) =~= names);
    }
}

/// The values of the variables `names` in the cells of `record`, read at `columns`.
fn parse_input_columns(
    expected_variable_count: usize,
    record: &Vec<String>,
    names: &Vec<String>,
    columns: &Vec<usize>,
    csv_row_index: usize,
    Ghost(candidates): Ghost<Seq<Seq<char>>>,
) -> (values: Result<Vec<bool>, TruthTableFromCsvError>)
    requires
        columns@.len() == names@.len(),
        forall|k: int| 0 <= k < columns@.len() ==> #[trigger] columns@[k] == column_of(candidates, names.deep_view()[k]),
    ensures
        match record_inputs(record.deep_view(), candidates, names.deep_view(), csv_row_index as nat, expected_variable_count as nat) {
            Ok(point) => values matches Ok(v) && v@ == point,
            Err(e) => values matches Err(x) && x.view() == e,
        },
{
    let ghost cells = record.deep_view();
    let ghost all = names.deep_view();
    let mut values: Vec<bool> = Vec::new();
    let mut k: usize = 0;
    proof {
        assert(all.subrange(0, 0) =~= Seq::<Seq<char>>::empty());
    }
    while k < names.len()
        invariant
            cells == record.deep_view(),
            all == names.deep_view(),
            columns@.len() == names@.len(),
            forall|i: int| 0 <= i < columns@.len() ==> #[trigger] columns@[i] == column_of(candidates, all[i]),
            k <= names@.len(),
            record_inputs(cells, candidates, all.subrange(0, k as int), csv_row_index as nat, expected_variable_count as nat) == Ok::<Seq<bool>, CsvErrorView>(values@),
        decreases names.len() - k,
    {
        let column = columns[k];
        proof {
            assert(all.subrange(0, k + 1).drop_last() =~= all.subrange(0, k as int));
            assert(all.subrange(0, k + 1).last() == all[k as int]);
        }
        if column >= record.len() {
            proof {
                lemma_record_inputs_error(cells, candidates, all, k + 1, csv_row_index as nat, expected_variable_count as nat);
            }
            return Err(TruthTableFromCsvError::RecordDifferentSizeThanHeader {
                row_index: csv_row_index,
                expected_row_len: expected_variable_count,
                actual_row_len: record.len(),
            });
        }
        assert(cells[column as int] == record@[column as int]@);
        match string_to_bool(record[column].as_str()) {
            Some(value) => {
                values.push(value);
            },
            None => {
                proof {
                    lemma_record_inputs_error(cells, candidates, all, k + 1, csv_row_index as nat, expected_variable_count as nat);
                }
                return Err(TruthTableFromCsvError::NonBooleanCellValue { actual: record[column].clone() });
            },
        }
        k = k + 1;
    }
    proof {
        assert(all.subrange(0, k as int) =~= all);
    }
    Ok(values)
}

/// The output value in the last cell of `record`.
fn parse_output_column(record: &Vec<String>) -> (output: Result<bool, TruthTableFromCsvError>)
    ensures
        match record_output(record.deep_view()) {
            Ok(b) => output == Ok::<bool, TruthTableFromCsvError>(b),
            Err(e) => output matches Err(x) && x.view() == e,
        },
{
    if record.len() == 0 {
        return Err(TruthTableFromCsvError::NoOutputColumn);
    }
    let last = record.len() - 1;
    assert(record.deep_view().last() == record@[last as int]@);
    match string_to_bool(record[last].as_str()) {
        Some(value) => Ok(value),
        None => Err(TruthTableFromCsvError::NonBooleanCellValue { actual: record[last].clone() }),
    }
}

impl TruthTable {
    /// The table that the CSV records `records` of a text of `file_row_count` lines describe.
    /// The first record is a header unless its last cell holds a Boolean value; the number of
    /// lines must be one for each row (and one for the header); each later record sets the
    /// output of the row that its input cells give.
    pub fn from_csv_records(file_row_count: usize, records: Vec<Result<Vec<String>, csv::Error>>) -> (table: Result<TruthTable, TruthTableFromCsvError>)
        requires
            records_header_has_line(file_row_count as nat, records@),
        ensures
            table_result_view(table) == csv_table_view(file_row_count as nat, records@),
            table matches Ok(t) ==> t.wf(),
    {
        let ghost rs = records@;
        let mut owned = records;
        if owned.len() == 0 {
            return Err(TruthTableFromCsvError::UnexpectedEof);
        }
        let first_failed = match &owned[0] {
            Ok(_) => false,
            Err(_) => true,
        };
        if first_failed {
            let failed = owned.remove(0);
            return match failed {
                Err(e) => Err(TruthTableFromCsvError::ParsingError(e)),
                Ok(_) => Err(TruthTableFromCsvError::UnexpectedEof),
            };
        }
        let ghost first_cells = match rs[0] {
            Ok(first) => first.deep_view(),
            Err(_) => Seq::empty(),
        };
        let ghost candidates = match variables_view(file_row_count as nat, first_cells) {
            Ok((c, _)) => c,
            Err(_) => Seq::empty(),
        };
        let (names, columns, expected) = match &owned[0] {
            Ok(first) => match determine_variables(file_row_count, first) {
                Ok(found) => found,
                Err(e) => {
                    return Err(e);
                },
            },
            Err(_) => {
                return Err(TruthTableFromCsvError::UnexpectedEof);
            },
        };
        let ghost m = names@.len();
        proof {
            assert(names.deep_view().len() == m);
            lemma2_to64();
        }
        let size = crate::table::pow2_usize(names.len());
        let mut outputs: Vec<bool> = Vec::new();
        let mut j: usize = 0;
        while j < size
            invariant
                j <= size,
                outputs@ == Seq::new(j as nat, |i: int| false),
            decreases size - j,
        {
            outputs.push(false);
            proof {
                assert(outputs@ =~= Seq::new((j + 1) as nat, |i: int| false));
            }
            j = j + 1;
        }
        let ghost initial = outputs@;
        let ghost rest = rs.drop_first();
        proof {
            assert(rest.subrange(0, 0) =~= Seq::<Result<Vec<String>, csv::Error>>::empty());
            assert(initial =~= Seq::new(pow2(m), |i: int| false));
        }
        let mut i: usize = 1;
        while i < owned.len()
            invariant
                rs == owned@,
                rs == records@,
                rest == rs.drop_first(),
                1 <= i <= rs.len(),
                columns@.len() == names@.len(),
                names@.len() == m,
                names.deep_view().len() == m,
                forall|k: int| 0 <= k < columns@.len() ==> #[trigger] columns@[k] == column_of(candidates, names.deep_view()[k]),
                outputs@.len() == pow2(m),
                size == pow2(m),
                size <= usize::MAX,
                fill_outputs(rest.subrange(0, i - 1), candidates, names.deep_view(), expected as nat, initial) == Ok::<Seq<bool>, CsvErrorView>(outputs@),
                is_sorted_set(names.deep_view()),
                csv_table_view(file_row_count as nat, rs) == match fill_outputs(rest, candidates, names.deep_view(), expected as nat, initial) {
                    Err(e) => Err(e),
                    Ok(o) => Ok((names.deep_view(), o)),
                },
            decreases owned.len() - i,
        {
            proof {
                assert(rest.subrange(0, i as int).drop_last() =~= rest.subrange(0, i - 1));
                assert(rest.subrange(0, i as int).last() == rs[i as int]);
                assert(rest.subrange(0, i as int).len() - 1 == i - 1);
            }
            let failed = match &owned[i] {
                Ok(_) => false,
                Err(_) => true,
            };
            if failed {
                let bad = owned.remove(i);
                proof {
                    assert(rs[i as int] is Err);
                    assert(bad == rs[i as int]);
                    assert(fill_outputs(rest.subrange(0, i as int), candidates, names.deep_view(), expected as nat, initial) == Err::<Seq<bool>, CsvErrorView>(CsvErrorView::ParsingError(rs[i as int]->Err_0)));
                    lemma_fill_error(rest, i as int, candidates, names.deep_view(), expected as nat, initial);
                }
                return match bad {
                    Err(e) => Err(TruthTableFromCsvError::ParsingError(e)),
                    Ok(_) => Err(TruthTableFromCsvError::UnexpectedEof),
                };
            }
            let (index, output) = match &owned[i] {
                Ok(record) => {
                    let point = match parse_input_columns(expected, record, &names, &columns, i - 1, Ghost(candidates)) {
                        Ok(p) => p,
                        Err(e) => {
                            proof {
                                lemma_fill_error(rest, i as int, candidates, names.deep_view(), expected as nat, initial);
                            }
                            return Err(e);
                        },
                    };
                    let output = match parse_output_column(record) {
                        Ok(b) => b,
                        Err(e) => {
                            proof {
                                lemma_fill_error(rest, i as int, candidates, names.deep_view(), expected as nat, initial);
                            }
                            return Err(e);
                        },
                    };
                    proof {
                        lemma_record_inputs_len(record.deep_view(), candidates, names.deep_view(), (i - 1) as nat, expected as nat);
                        lemma_point_index_bound(point@);
                    }
                    let index = boolean_point_to_row_index(point.as_slice());
                    (index, output)
                },
                Err(_) => {
                    return Err(TruthTableFromCsvError::UnexpectedEof);
                },
            };
            outputs.set(index, output);
            i = i + 1;
        }
        proof {
            assert(rest.subrange(0, i - 1) =~= rest);
            lemma_sorted_set_distinct(names.deep_view());
        }
        Ok(TruthTable::new(names, outputs))
    }
}

/// The cells of each record of the CSV text `text` (read without headers, with `,` between
/// the cells, every record as long as the first); `None` for a record that the reader
/// rejects.
pub uninterp spec fn csv_records(text: Seq<char>) -> Seq<Option<Seq<Seq<char>>>>;

/// The cells of each record read, or `None` for a record that failed.
pub open spec fn record_results_view(records: Seq<Result<Vec<String>, csv::Error>>) -> Seq<Option<Seq<Seq<char>>>> {
    Seq::new(records.len(), |i: int| match records[i] {
        Ok(cells) => Some(cells.deep_view()),
        Err(_) => None,
    })
}

/// Reads the records of `text` with a `csv::Reader` built by `csv::ReaderBuilder` (no
/// headers, delimiter `,`, not flexible) and its `records` iterator, each record as its
/// cells. The contract names what comes out; the errors are passed on as they are.
#[verifier::external_body]
fn read_csv_records(text: &str) -> (records: Vec<Result<Vec<String>, csv::Error>>)
    ensures
        record_results_view(records@) == csv_records(text@),
{
    let mut reader = csv::ReaderBuilder::new().has_headers(false).delimiter(b',').flexible(false).from_reader(text.as_bytes());
    reader.records().map(|record| record.map(|cells| cells.iter().map(|cell| cell.to_string()).collect())).collect()
}

/// The number of line breaks in `text`.
pub open spec fn newline_count(text: Seq<char>) -> nat
    decreases text.len(),
{
    if text.len() == 0 {
        0
    } else {
        newline_count(text.drop_last()) + if text.last() == '\n' { 1nat } else { 0nat }
    }
}

/// The number of lines of `text`: one more than the number of line breaks.
pub open spec fn line_count(text: Seq<char>) -> nat {
    newline_count(text) + 1
}

/// Counts the lines of `text`.
fn count_lines(text: &str) -> (count: usize)
    requires
        text@.len() < usize::MAX,
    ensures
        count == line_count(text@),
{
    let chars = crate::literals::str_chars(text);
    let mut count: usize = 1;
    let mut i: usize = 0;
    while i < chars.len()
        invariant
            chars@ == text@,
            i <= chars@.len(),
            count == newline_count(chars@.subrange(0, i as int)) + 1,
            count <= i + 1,
            text@.len() < usize::MAX,
        decreases chars.len() - i,
    {
        proof {
            let prefix = chars@.subrange(0, i + 1);
            assert(prefix.drop_last() =~= chars@.subrange(0, i as int));
            assert(prefix.last() == chars@[i as int]);
        }
        if chars[i] == '\n' {
            count = count + 1;
        }
        i = i + 1;
    }
    proof {
        assert(chars@.subrange(0, i as int) =~= chars@);
    }
    count
}

/// When the first record that the `csv` crate reads from `text` is a header, the text of
/// `file_row_count` lines has a line for it.
pub open spec fn text_header_has_line(file_row_count: nat, text: Seq<char>) -> bool {
    csv_records(text).len() > 0 ==> match csv_records(text)[0] {
        Some(first) => header_has_line(file_row_count, first),
        None => true,
    }
}

impl TruthTable {
    /// The table that the CSV text `text` of `file_row_count` lines describes, its records
    /// read by the `csv` crate.
    pub fn from_csv_common(file_row_count: usize, text: &str) -> (table: Result<TruthTable, TruthTableFromCsvError>)
        requires
            text_header_has_line(file_row_count as nat, text@),
        ensures
            csv_records(text@).len() == 0 ==> table matches Err(TruthTableFromCsvError::UnexpectedEof),
            exists|records: Seq<Result<Vec<String>, csv::Error>>| #[trigger] record_results_view(records) == csv_records(text@)
                && table_result_view(table) == csv_table_view(file_row_count as nat, records),
            table matches Ok(t) ==> t.wf(),
    {
        let records = read_csv_records(text);
        let ghost rs = records@;
        proof {
            if rs.len() > 0 {
                assert(record_results_view(rs)[0] == csv_records(text@)[0]);
            }
        }
        let table = TruthTable::from_csv_records(file_row_count, records);
        proof {
            assert(record_results_view(rs) == csv_records(text@));
        }
        table
    }

    /// The table that the CSV text `input` describes: the empty table for an empty text.
    pub fn from_csv_string(input: &str) -> (table: Result<TruthTable, TruthTableFromCsvError>)
        requires
            input@.len() < usize::MAX,
        ensures
            input@.len() == 0 ==> (table matches Ok(t) && t.inputs@.len() == 0 && t.outputs@.len() == 0),
            input@.len() > 0 ==> exists|records: Seq<Result<Vec<String>, csv::Error>>| #[trigger] record_results_view(records) == csv_records(input@)
                && table_result_view(table) == csv_table_view(line_count(input@), records),
            input@.len() > 0 ==> (table matches Ok(t) ==> t.wf()),
    {
        if input.unicode_len() == 0 {
            return Ok(TruthTable::new(Vec::new(), Vec::new()));
        }
        let file_row_count = count_lines(input);
        TruthTable::from_csv_common(file_row_count, input)
    }
}

} // verus!
