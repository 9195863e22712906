//! Boolean functions represented as truth tables.
use crate::literals::distinct_names;
use crate::utils::{point_index, row_index_to_bool_point, spec_row_index_to_bool_point};
use vstd::arithmetic::power2::*;
use vstd::prelude::*;

pub mod index;
pub mod ops;
pub mod restrict;
pub mod quantify;
pub mod inputs;
pub mod iterators;
pub mod compare;
pub mod laws;
pub mod from_expression;
pub mod display;
pub mod csv;
pub mod from_csv;
pub mod substitute;
pub mod boolean_function;

use index::valuation_point;

verus! {

/// A Boolean function given by its inputs and the output of each of its rows.
///
/// Row `k` assigns to the input at position `i` the `i`-th binary digit (most significant
/// first) of `k`.
#[derive(Clone, Debug, PartialEq, Eq)]
pub struct TruthTable {
    pub inputs: Vec<String>,
    pub outputs: Vec<bool>,
}

/// `2^n` computed in a machine integer.
pub fn pow2_usize(n: usize) -> (result: usize)
    requires
        pow2(n as nat) <= usize::MAX,
    ensures
        result == pow2(n as nat),
{
    let mut result: usize = 1;
    let mut i: usize = 0;
    proof {
        lemma2_to64();
    }
    while i < n
        invariant
            i <= n,
            result == pow2(i as nat),
            pow2(n as nat) <= usize::MAX,
        decreases n - i,
    {
        proof {
            lemma_pow2_unfold((i + 1) as nat);
            if i + 1 < n {
                lemma_pow2_strictly_increases((i + 1) as nat, n as nat);
            }
        }
        result = result * 2;
        i = i + 1;
    }
    result
}

impl TruthTable {
    /// The names of the inputs, in order.
    pub open spec fn names(&self) -> Seq<Seq<char>> {
        self.inputs.deep_view()
    }

    /// A table with one output for each of the `2^n` rows of its `n` distinct inputs.
    pub open spec fn wf(&self) -> bool {
        &&& self.outputs@.len() == pow2(self.inputs@.len() as nat)
        &&& distinct_names(self.names())
    }

    /// The output of the table on `valuation`, where `default` stands for each input
    /// that `valuation` does not assign.
    pub open spec fn spec_evaluate(&self, valuation: Map<Seq<char>, bool>, default: bool) -> bool {
        self.outputs@[point_index(valuation_point(self.names(), valuation, default)) as int]
    }

    /// A table with the given inputs and outputs.
    pub fn new(inputs: Vec<String>, outputs: Vec<bool>) -> (table: TruthTable)
        ensures
            table.inputs == inputs,
            table.outputs == outputs,
    {
        TruthTable { inputs, outputs }
    }

    /// The number of rows, `2^n` for `n` inputs.
    pub fn row_count(&self) -> (count: usize)
        requires
            pow2(self.inputs@.len() as nat) <= usize::MAX,
        ensures
            count == pow2(self.inputs@.len() as nat),
    {
        pow2_usize(self.variable_count())
    }

    /// The number of inputs.
    pub fn variable_count(&self) -> (count: usize)
        ensures
            count == self.inputs@.len(),
    {
        self.inputs.len()
    }

    /// Whether the table has neither inputs nor outputs.
    pub fn is_empty(&self) -> (empty: bool)
        ensures
            empty == (self.inputs@.len() == 0 && self.outputs@.len() == 0),
    {
        self.inputs.len() == 0 && self.outputs.len() == 0
    }

    /// The input values of row `row_index`.
    pub fn row(&self, row_index: usize) -> (values: Vec<bool>)
        ensures
            values@ == spec_row_index_to_bool_point(row_index as nat, self.inputs@.len() as nat),
    {
        row_index_to_bool_point(row_index, self.variable_count())
    }

    /// The input values and the output of row `row_index`.
    pub fn row_with_output(&self, row_index: usize) -> (row: (Vec<bool>, bool))
        requires
            row_index < self.outputs@.len(),
        ensures
            row.0@ == spec_row_index_to_bool_point(row_index as nat, self.inputs@.len() as nat),
            row.1 == self.outputs@[row_index as int],
    {
        (self.row(row_index), self.outputs[row_index])
    }
}

} // verus!
