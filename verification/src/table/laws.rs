//! Laws that relate the operations on truth tables to evaluation.
use crate::literals::lemma_sorted_set_distinct;
use crate::table::compare::lemma_zip_of_point_agrees;
use crate::table::index::valuation_point;
use crate::table::ops::{combined, spec_apply, BitOperation};
use crate::table::TruthTable;
use crate::utils::{lemma_point_index_bound, lemma_point_row_index_roundtrip, point_index};
use vstd::prelude::*;

verus! {

/// Law: the negation of a table outputs the opposite of the table on every valuation.
pub proof fn law_not_evaluation(table: TruthTable, negated: TruthTable, valuation: Map<Seq<char>, bool>, default: bool)
    requires
        table.wf(),
        negated.inputs@ == table.inputs@,
        negated.outputs@ == table.outputs@.map_values(|b: bool| !b),
    ensures
        negated.wf(),
        negated.spec_evaluate(valuation, default) == !table.spec_evaluate(valuation, default),
{
    assert(negated.names() =~= table.names());
    lemma_point_index_bound(valuation_point(table.names(), valuation, default));
}

/// Law: combining two tables with a Boolean operation gives, on every valuation, the
/// operation applied to their outputs. It holds when the two tables have the same inputs in
/// the same order, or different sets of inputs; tables with the same inputs in different
/// orders are combined row by row, which does not match their variables.
pub proof fn law_combined_evaluation(
    me: TruthTable,
    other: TruthTable,
    op: BitOperation,
    result: TruthTable,
    valuation: Map<Seq<char>, bool>,
    default: bool,
)
    requires
        me.wf(),
        other.wf(),
        combined(me, other, op, result),
        me.names() == other.names() || me.names().to_set() != other.names().to_set(),
    ensures
        result.wf(),
        result.spec_evaluate(valuation, default) == spec_apply(op, me.spec_evaluate(valuation, default), other.spec_evaluate(valuation, default)),
{
    if me.names().to_set() == other.names().to_set() {
        assert(result.names() =~= me.names());
        lemma_point_index_bound(valuation_point(me.names(), valuation, default));
    } else {
        let names = result.names();
        lemma_sorted_set_distinct(names);
        let p = valuation_point(names, valuation, default);
        lemma_point_index_bound(p);
        lemma_point_row_index_roundtrip(p);
        assert forall|x: Seq<char>| #[trigger] me.names().contains(x) implies names.contains(x) by {
            assert(me.names().to_set().contains(x));
            assert(names.to_set().contains(x));
        }
        assert forall|x: Seq<char>| #[trigger] other.names().contains(x) implies names.contains(x) by {
            assert(other.names().to_set().contains(x));
            assert(names.to_set().contains(x));
        }
        lemma_zip_of_point_agrees(me, names, valuation, default);
        lemma_zip_of_point_agrees(other, names, valuation, default);
    }
}

} // verus!
