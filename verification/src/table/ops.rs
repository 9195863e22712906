//! Evaluation of truth tables and the Boolean operations on them.
use crate::literals::{
    is_sorted_set, lemma_sorted_set_distinct, lemma_sorted_sets_equal, names_equal,
    sorted_set_from, sorted_set_union,
};
use crate::table::index::{
    lemma_unassigned_empty, optional_point, unassigned_reversed, valuation_point,
    values_to_row_index_checked, values_to_row_index_with_default,
};
use crate::table::{pow2_usize, TruthTable};
use crate::utils::{
    lemma_point_index_bound, lemma_row_index_point_roundtrip, point_index,
    row_index_to_bool_point, spec_row_index_to_bool_point,
};
use crate::traits::{Evaluate, GatherLiterals, PowerSet};
use crate::valuation::{boolean_point_to_valuation, zip_map, Valuation};
use vstd::arithmetic::power2::pow2;
use vstd::prelude::*;

verus! {

/// A binary Boolean operation applied row by row.
#[derive(Clone, Copy, PartialEq, Eq, Debug)]
pub enum BitOperation {
    And,
    Or,
    Xor,
}

/// The value of `op` on `a` and `b`.
pub open spec fn spec_apply(op: BitOperation, a: bool, b: bool) -> bool {
    match op {
        BitOperation::And => a && b,
        BitOperation::Or => a || b,
        BitOperation::Xor => a != b,
    }
}

/// Applies `op` to `a` and `b`.
pub fn apply(op: BitOperation, a: bool, b: bool) -> (value: bool)
    ensures
        value == spec_apply(op, a, b),
{
    match op {
        BitOperation::And => a && b,
        BitOperation::Or => a || b,
        BitOperation::Xor => a != b,
    }
}

/// The output of `table` at the `k`-th point of the `names` domain.
pub open spec fn output_at_point(table: TruthTable, names: Seq<Seq<char>>, k: nat) -> bool {
    table.spec_evaluate(zip_map(names, spec_row_index_to_bool_point(k, names.len())), false)
}

/// The point a valuation gives to the table's inputs indexes a row of a well-formed table.
pub proof fn lemma_evaluation_in_bounds(table: TruthTable, valuation: Map<Seq<char>, bool>, default: bool)
    requires
        table.wf(),
    ensures
        point_index(valuation_point(table.names(), valuation, default)) < table.outputs@.len(),
{
    lemma_point_index_bound(valuation_point(table.names(), valuation, default));
}

impl Evaluate for TruthTable {
    open spec fn evaluable(&self) -> bool {
        self.wf()
    }

    open spec fn value_on(&self, valuation: Map<Seq<char>, bool>, default_value: bool) -> bool {
        self.spec_evaluate(valuation, default_value)
    }

    /// The output on `literal_values`, where `default_value` stands for each input
    /// that `literal_values` does not assign.
    fn evaluate_with_default(&self, literal_values: &Valuation, default_value: bool) -> (output: bool) {
        let _rows = self.outputs.len();
        proof {
            lemma_evaluation_in_bounds(*self, literal_values@, default_value);
        }
        let index = values_to_row_index_with_default(&self.inputs, literal_values, default_value);
        self.outputs[index]
    }

    /// The output on `literal_values`, or the inputs (last first) that it does not assign.
    fn evaluate_checked(&self, literal_values: &Valuation) -> (output: Result<bool, Vec<String>>)
        ensures
            output is Ok <==> (forall|i: int| 0 <= i < self.names().len() ==> literal_values@.dom().contains(#[trigger] self.names()[i])),
            output matches Err(missing) ==> missing.deep_view() == unassigned_reversed(self.names(), literal_values@),
    {
        let _rows = self.outputs.len();
        proof {
            lemma_evaluation_in_bounds(*self, literal_values@, false);
            assert(optional_point(self.names(), literal_values@, None) =~= valuation_point(self.names(), literal_values@, false));
        }
        match values_to_row_index_checked(&self.inputs, literal_values) {
            Ok(index) => Ok(self.outputs[index]),
            Err(missing) => Err(missing),
        }
    }
}

impl GatherLiterals for TruthTable {
    open spec fn literal_set(&self) -> Set<Seq<char>> {
        self.names().to_set()
    }

    /// Adds the inputs to the sorted set `current`.
    fn gather_literals_rec(&self, current: &mut Vec<String>) {
        let merged = sorted_set_union(current, &self.inputs);
        *current = merged;
    }
}

impl PowerSet for TruthTable {}

impl TruthTable {
    /// The negation: the same inputs, every output flipped.
    pub fn not(&self) -> (negated: TruthTable)
        ensures
            negated.inputs@ == self.inputs@,
            negated.outputs@ == self.outputs@.map_values(|b: bool| !b),
    {
        let mut outputs: Vec<bool> = Vec::new();
        let mut i: usize = 0;
        while i < self.outputs.len()
            invariant
                i <= self.outputs@.len(),
                outputs@ == self.outputs@.subrange(0, i as int).map_values(|b: bool| !b),
            decreases self.outputs.len() - i,
        {
            outputs.push(!self.outputs[i]);
            i = i + 1;
            proof {
                assert(outputs@ =~= self.outputs@.subrange(0, i as int).map_values(|b: bool| !b));
            }
        }
        proof {
            assert(self.outputs@.subrange(0, i as int) =~= self.outputs@);
        }
        let inputs = self.inputs.clone();
        proof {
            assert(inputs@ =~= self.inputs@);
        }
        TruthTable::new(inputs, outputs)
    }
}

/// The sorted set of the inputs of either table.
pub open spec fn union_names(me: TruthTable, other: TruthTable, names: Seq<Seq<char>>) -> bool {
    &&& is_sorted_set(names)
    &&& names.to_set() == me.names().to_set().union(other.names().to_set())
}

/// `result` is what combining `me` and `other` row by row with `op` gives: when both have
/// the same set of inputs, the outputs are combined in place; otherwise the result ranges
/// over the sorted union of the inputs.
pub open spec fn combined(me: TruthTable, other: TruthTable, op: BitOperation, result: TruthTable) -> bool {
    &&& me.names().to_set() == other.names().to_set() ==> {
        &&& result.inputs@ == me.inputs@
        &&& result.outputs@.len() == (if me.outputs@.len() <= other.outputs@.len() { me.outputs@.len() } else { other.outputs@.len() })
        &&& forall|i: int| 0 <= i < result.outputs@.len() ==> #[trigger] result.outputs@[i] == spec_apply(op, me.outputs@[i], other.outputs@[i])
    }
    &&& me.names().to_set() != other.names().to_set() ==> {
        &&& union_names(me, other, result.names())
        &&& result.outputs@.len() == pow2(result.names().len())
        &&& forall|k: int| 0 <= k < result.outputs@.len() ==> #[trigger] result.outputs@[k] == spec_apply(
            op,
            output_at_point(me, result.names(), k as nat),
            output_at_point(other, result.names(), k as nat),
        )
    }
}

/// Combines two tables row by row with `op`.
pub fn bit_common(me: &TruthTable, other: &TruthTable, op: BitOperation) -> (result: TruthTable)
    requires
        me.wf(),
        other.wf(),
        forall|names: Seq<Seq<char>>| #[trigger] union_names(*me, *other, names) ==> pow2(names.len()) <= usize::MAX,
    ensures
        combined(*me, *other, op, result),
{
    let self_variables = me.gather_literals();
    let other_variables = other.gather_literals();
    proof {
        if me.names().to_set() == other.names().to_set() {
            lemma_sorted_sets_equal(self_variables.deep_view(), other_variables.deep_view());
        }
    }
    if names_equal(&self_variables, &other_variables) {
        let mut outputs: Vec<bool> = Vec::new();
        let len = if me.outputs.len() <= other.outputs.len() { me.outputs.len() } else { other.outputs.len() };
        let mut i: usize = 0;
        while i < len
            invariant
                len <= me.outputs@.len(),
                len <= other.outputs@.len(),
                i <= len,
                outputs@.len() == i,
                forall|j: int| 0 <= j < i ==> #[trigger] outputs@[j] == spec_apply(op, me.outputs@[j], other.outputs@[j]),
            decreases len - i,
        {
            outputs.push(apply(op, me.outputs[i], other.outputs[i]));
            i = i + 1;
        }
        let inputs = me.inputs.clone();
        proof {
            assert(inputs@ =~= me.inputs@);
        }
        TruthTable::new(inputs, outputs)
    } else {
        let inputs = sorted_set_union(&self_variables, &other_variables);
        let ghost names = inputs.deep_view();
        proof {
            assert(union_names(*me, *other, names));
        }
        let m = inputs.len();
        let count = pow2_usize(m);
        let mut outputs: Vec<bool> = Vec::new();
        let mut k: usize = 0;
        while k < count
            invariant
                names == inputs.deep_view(),
                m == names.len(),
                count == pow2(m as nat),
                me.wf(),
                other.wf(),
                k <= count,
                outputs@.len() == k,
                forall|j: int| 0 <= j < k ==> #[trigger] outputs@[j] == spec_apply(
                    op,
                    output_at_point(*me, names, j as nat),
                    output_at_point(*other, names, j as nat),
                ),
            decreases count - k,
        {
            let point = row_index_to_bool_point(k, m);
            proof {
                lemma_row_index_point_roundtrip(k as nat, m as nat);
            }
            let valuation = boolean_point_to_valuation(inputs.clone(), point);
            let valuation = match valuation {
                Some(v) => v,
                None => {
                    proof {
                        assert(false);
                    }
                    Valuation::new()
                },
            };
            let value = apply(op, me.evaluate(&valuation), other.evaluate(&valuation));
            outputs.push(value);
            k = k + 1;
        }
        TruthTable::new(inputs, outputs)
    }
}

impl TruthTable {
    /// The disjunction of two tables.
    pub fn bitor(&self, other: &TruthTable) -> (result: TruthTable)
        requires
            self.wf(),
            other.wf(),
            forall|names: Seq<Seq<char>>| #[trigger] union_names(*self, *other, names) ==> pow2(names.len()) <= usize::MAX,
        ensures
            combined(*self, *other, BitOperation::Or, result),
    {
        bit_common(self, other, BitOperation::Or)
    }

    /// The conjunction of two tables.
    pub fn bitand(&self, other: &TruthTable) -> (result: TruthTable)
        requires
            self.wf(),
            other.wf(),
            forall|names: Seq<Seq<char>>| #[trigger] union_names(*self, *other, names) ==> pow2(names.len()) <= usize::MAX,
        ensures
            combined(*self, *other, BitOperation::And, result),
    {
        bit_common(self, other, BitOperation::And)
    }

    /// The exclusive disjunction of two tables.
    pub fn bitxor(&self, other: &TruthTable) -> (result: TruthTable)
        requires
            self.wf(),
            other.wf(),
            forall|names: Seq<Seq<char>>| #[trigger] union_names(*self, *other, names) ==> pow2(names.len()) <= usize::MAX,
        ensures
            combined(*self, *other, BitOperation::Xor, result),
    {
        bit_common(self, other, BitOperation::Xor)
    }
}

} // verus!
