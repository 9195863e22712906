//! Semantic comparison of truth tables.
use crate::literals::{distinct_names, lemma_sorted_set_distinct, sorted_set_union};
use crate::table::index::{lookup, valuation_point};
use crate::table::ops::union_names;
use crate::table::{pow2_usize, TruthTable};
use crate::traits::{Evaluate, GatherLiterals, SemanticEq};
use crate::utils::{
    lemma_point_index_bound, lemma_point_row_index_roundtrip, lemma_row_index_point_roundtrip,
    point_index, row_index_to_bool_point, spec_row_index_to_bool_point,
};
use crate::valuation::{boolean_point_to_valuation, lemma_zip_map, zip_map, Valuation};
use vstd::arithmetic::power2::pow2;
use vstd::prelude::*;

verus! {

/// How the outputs of two tables are compared on each valuation.
#[derive(Clone, Copy, PartialEq, Eq, Debug)]
pub enum Comparison {
    /// The outputs are equal.
    Equal,
    /// The output of the first table is `true` where the output of the second one is.
    ImpliedBy,
}

/// The comparison of `a` (the first table's output) with `b` (the second table's output).
pub open spec fn spec_compare(comparison: Comparison, a: bool, b: bool) -> bool {
    match comparison {
        Comparison::Equal => a == b,
        Comparison::ImpliedBy => b ==> a,
    }
}

/// The comparison holds between the outputs of `me` and `other` on every valuation.
pub open spec fn holds_everywhere(me: TruthTable, other: TruthTable, comparison: Comparison) -> bool {
    forall|valuation: Map<Seq<char>, bool>| #[trigger] spec_compare(comparison, me.spec_evaluate(valuation, false), other.spec_evaluate(valuation, false))
}

/// The output of a table depends only on the values of its own inputs.
pub proof fn lemma_evaluation_depends_on_inputs(table: TruthTable, a: Map<Seq<char>, bool>, b: Map<Seq<char>, bool>, default: bool)
    requires
        forall|i: int| 0 <= i < table.names().len() ==> lookup(a, #[trigger] table.names()[i], Some(default)) == lookup(b, table.names()[i], Some(default)),
    ensures
        table.spec_evaluate(a, default) == table.spec_evaluate(b, default),
{
    assert(valuation_point(table.names(), a, default) =~= valuation_point(table.names(), b, default));
}

/// On the inputs of a table, a valuation agrees with the valuation of its point over a set of
/// names that holds the inputs.
pub proof fn lemma_zip_of_point_agrees(table: TruthTable, names: Seq<Seq<char>>, valuation: Map<Seq<char>, bool>, default: bool)
    requires
        distinct_names(names),
        forall|x: Seq<char>| #[trigger] table.names().contains(x) ==> names.contains(x),
    ensures
        table.spec_evaluate(valuation, default) == table.spec_evaluate(zip_map(names, valuation_point(names, valuation, default)), false),
{
    let p = valuation_point(names, valuation, default);
    let z = zip_map(names, p);
    assert(valuation_point(table.names(), z, false) =~= valuation_point(table.names(), z, default)) by {
        assert forall|i: int| 0 <= i < table.names().len() implies z.dom().contains(#[trigger] table.names()[i]) by {
            let x = table.names()[i];
            assert(table.names().contains(x));
            let j = choose|j: int| 0 <= j < names.len() && names[j] == x;
            lemma_zip_map(names, p, j);
        }
    }
    assert forall|i: int| 0 <= i < table.names().len() implies lookup(valuation, #[trigger] table.names()[i], Some(default)) == lookup(z, table.names()[i], Some(default)) by {
        let x = table.names()[i];
        assert(table.names().contains(x));
        assert(names.contains(x));
        let j = choose|j: int| 0 <= j < names.len() && names[j] == x;
        lemma_zip_map(names, p, j);
        if valuation.dom().contains(x) {
            if valuation[x] {
            } else {
            }
        }
    }
    lemma_evaluation_depends_on_inputs(table, valuation, z, default);
}

/// Compares two tables on every valuation of the union of their inputs.
pub(crate) fn compare_everywhere(me: &TruthTable, other: &TruthTable, comparison: Comparison) -> (holds: bool)
    requires
        me.wf(),
        other.wf(),
        forall|names: Seq<Seq<char>>| #[trigger] union_names(*me, *other, names) ==> pow2(names.len()) <= usize::MAX,
    ensures
        holds == holds_everywhere(*me, *other, comparison),
{
    let self_variables = me.gather_literals();
    let other_variables = other.gather_literals();
    let inputs = sorted_set_union(&self_variables, &other_variables);
    let ghost names = inputs.deep_view();
    proof {
        assert(union_names(*me, *other, names));
        lemma_sorted_set_distinct(names);
    }
    let m = inputs.len();
    let count = pow2_usize(m);
    let mut k: usize = 0;
    while k < count
        invariant
            names == inputs.deep_view(),
            distinct_names(names),
            m == names.len(),
            count == pow2(m as nat),
            me.wf(),
            other.wf(),
            k <= count,
            forall|j: int| 0 <= j < k ==> #[trigger] spec_compare(
                comparison,
                me.spec_evaluate(zip_map(names, spec_row_index_to_bool_point(j as nat, m as nat)), false),
                other.spec_evaluate(zip_map(names, spec_row_index_to_bool_point(j as nat, m as nat)), false),
            ),
        decreases count - k,
    {
        let point = row_index_to_bool_point(k, m);
        proof {
            lemma_row_index_point_roundtrip(k as nat, m as nat);
        }
        let valuation = match boolean_point_to_valuation(inputs.clone(), point) {
            Some(v) => v,
            None => {
                proof {
                    assert(false);
                }
                Valuation::new()
            },
        };
        let a = me.evaluate(&valuation);
        let b = other.evaluate(&valuation);
        let ok = match comparison {
            Comparison::Equal => a == b,
            Comparison::ImpliedBy => !b || a,
        };
        if !ok {
            proof {
                let v = zip_map(names, spec_row_index_to_bool_point(k as nat, m as nat));
                assert(!spec_compare(comparison, me.spec_evaluate(v, false), other.spec_evaluate(v, false)));
            }
            return false;
        }
        k = k + 1;
    }
    proof {
        assert forall|valuation: Map<Seq<char>, bool>| #[trigger] spec_compare(comparison, me.spec_evaluate(valuation, false), other.spec_evaluate(valuation, false)) by {
            let p = valuation_point(names, valuation, false);
            lemma_point_index_bound(p);
            lemma_point_row_index_roundtrip(p);
            let j = point_index(p);
            assert(spec_row_index_to_bool_point(j, m as nat) == p);
            assert forall|x: Seq<char>| me.names().contains(x) implies names.contains(x) by {
                assert(me.names().to_set().contains(x));
                assert(names.to_set().contains(x));
            }
            assert forall|x: Seq<char>| other.names().contains(x) implies names.contains(x) by {
                assert(other.names().to_set().contains(x));
                assert(names.to_set().contains(x));
            }
            lemma_zip_of_point_agrees(*me, names, valuation, false);
            lemma_zip_of_point_agrees(*other, names, valuation, false);
            assert(spec_compare(
                comparison,
                me.spec_evaluate(zip_map(names, spec_row_index_to_bool_point(j as nat, m as nat)), false),
                other.spec_evaluate(zip_map(names, spec_row_index_to_bool_point(j as nat, m as nat)), false),
            ));
        }
    }
    true
}

impl SemanticEq for TruthTable {
    open spec fn comparable(&self, other: &TruthTable) -> bool {
        &&& self.wf()
        &&& other.wf()
        &&& forall|names: Seq<Seq<char>>| #[trigger] union_names(*self, *other, names) ==> pow2(names.len()) <= usize::MAX
    }

    open spec fn same_function(&self, other: &TruthTable) -> bool {
        holds_everywhere(*self, *other, Comparison::Equal)
    }

    /// Whether the two tables give the same output on every valuation.
    fn semantic_eq(&self, other: &TruthTable) -> (equal: bool) {
        compare_everywhere(self, other, Comparison::Equal)
    }
}

} // verus!
