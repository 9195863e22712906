//! Truth tables as Boolean functions.
use crate::literals::{is_sorted_set, lemma_sorted_set_distinct};
use crate::table::compare::{compare_everywhere, holds_everywhere, Comparison};
use crate::table::inputs::essential_names;
use crate::table::iterators::{
    biguint_from_usize, biguint_of, points_of_rows, true_rows, DomainIterator, ImageIterator,
    RelationIterator, SupportIterator,
};
use crate::table::ops::{union_names, BitOperation};
use crate::table::quantify::{eliminate_each, eliminated_each};
use crate::table::restrict::restricted;
use crate::table::substitute::{substituted, substituted_names};
use crate::table::TruthTable;
use crate::traits::{BooleanFunction, GatherLiterals, SemanticEq};
use crate::utils::spec_row_index_to_bool_point;
use crate::valuation::Valuation;
use vstd::arithmetic::power2::pow2;
use vstd::prelude::*;

verus! {

impl BooleanFunction for TruthTable {
    type DomainIterator = DomainIterator;
    type RangeIterator = ImageIterator;
    type RelationIterator = RelationIterator;
    type SupportIterator = SupportIterator;

    open spec fn well_formed(&self) -> bool {
        self.wf()
    }

    open spec fn domain_fits(&self) -> bool {
        pow2(self.inputs@.len() as nat) <= usize::MAX
    }

    open spec fn substitution_fits(&self, mapping: Seq<(String, TruthTable)>) -> bool {
        &&& forall|i: int| 0 <= i < mapping.len() ==> (#[trigger] mapping[i]).1.wf()
        &&& forall|names: Seq<Seq<char>>| is_sorted_set(names) && #[trigger] names.to_set() == substituted_names(*self, mapping) ==> pow2(names.len()) <= usize::MAX
    }

    open spec fn comparable_with(&self, other: &TruthTable) -> bool {
        &&& self.wf()
        &&& other.wf()
        &&& forall|names: Seq<Seq<char>>| #[trigger] union_names(*self, *other, names) ==> pow2(names.len()) <= usize::MAX
    }

    /// The sorted set of the inputs.
    fn inputs(&self) -> (literals: Vec<String>)
        ensures
            is_sorted_set(literals.deep_view()),
            literals.deep_view().to_set() == self.names().to_set(),
    {
        self.gather_literals()
    }

    /// The sorted set of the inputs that are essential: those whose value changes the
    /// output for some values of the other inputs.
    fn essential_inputs(&self) -> (essentials: Vec<String>)
        ensures
            is_sorted_set(essentials.deep_view()),
            essentials.deep_view().to_set() == essential_names(*self),
    {
        self.essential_input_set()
    }

    /// The number of distinct inputs.
    fn degree(&self) -> (degree: usize)
        ensures
            degree == self.names().to_set().len(),
    {
        let literals = self.inputs();
        proof {
            lemma_sorted_set_distinct(literals.deep_view());
            assert(literals.deep_view().no_duplicates());
            literals.deep_view().unique_seq_to_set();
        }
        literals.len()
    }

    /// The number of essential inputs.
    fn essential_degree(&self) -> (degree: usize)
        ensures
            degree == essential_names(*self).len(),
    {
        let essentials = self.essential_inputs();
        proof {
            lemma_sorted_set_distinct(essentials.deep_view());
            assert(essentials.deep_view().no_duplicates());
            essentials.deep_view().unique_seq_to_set();
        }
        essentials.len()
    }

    /// All the input points, in the order of rows.
    fn domain(&self) -> (iterator: DomainIterator)
        ensures
            iterator.remaining() == Seq::new(pow2(self.inputs@.len() as nat), |j: int| spec_row_index_to_bool_point(j as nat, self.inputs@.len() as nat)),
    {
        DomainIterator::from_count(self.variable_count())
    }

    /// All the outputs, in the order of rows.
    fn image(&self) -> (iterator: ImageIterator)
        ensures
            iterator.remaining() == self.outputs@,
    {
        self.image_iterator()
    }

    /// All the input points with their outputs, in the order of rows.
    fn relation(&self) -> (iterator: RelationIterator)
        ensures
            iterator.remaining() == Seq::new(self.outputs@.len(), |j: int| (
                spec_row_index_to_bool_point(j as nat, self.inputs@.len() as nat),
                self.outputs@[j],
            )),
    {
        self.relation_iterator()
    }

    /// The input points on which the output is `true`, in the order of rows.
    fn support(&self) -> (iterator: SupportIterator)
        ensures
            iterator.remaining() == points_of_rows(true_rows(self.outputs@), self.inputs@.len() as nat),
    {
        self.support_iterator()
    }

    /// The number of input points on which the output is `true`, as a `BigUint`.
    fn weight(&self) -> (weight: num_bigint::BigUint)
        ensures
            weight == biguint_of(true_rows(self.outputs@).len()),
    {
        biguint_from_usize(self.weight_count())
    }

    /// The table with the inputs that `valuation` assigns fixed to their values: their
    /// columns are removed and only the rows that agree with `valuation` are kept. Names of
    /// `valuation` that are not inputs of the table are ignored.
    fn restrict(&self, valuation: &Valuation) -> (result: TruthTable)
        ensures
            restricted(*self, valuation@, result),
    {
        self.restrict_rows(valuation)
    }

    /// The table with the tables of `mapping` substituted for their variables; a later entry
    /// for a variable replaces an earlier one, as in a map.
    fn substitute(&self, mapping: &Vec<(String, TruthTable)>) -> (result: TruthTable)
        ensures
            substituted(*self, mapping@, result),
            result.wf(),
    {
        self.substitute_tables(mapping)
    }

    /// The first input point on which the output is `true`, if there is one.
    fn sat_point(&self) -> (point: Option<Vec<bool>>)
        ensures
            true_rows(self.outputs@).len() == 0 ==> point is None,
            true_rows(self.outputs@).len() > 0 ==> (point matches Some(p)
                && p@ == spec_row_index_to_bool_point(true_rows(self.outputs@)[0], self.inputs@.len() as nat)),
    {
        let mut support = self.support();
        support.next()
    }

    /// Eliminates `variables` by existential quantification, one after another: for each
    /// variable `v`, the table becomes `F[v = 0] | F[v = 1]`.
    fn existential_quantification(&self, variables: Vec<String>) -> (result: TruthTable)
        ensures
            result.wf(),
            exists|steps: Seq<TruthTable>| eliminated_each(*self, variables.deep_view(), BitOperation::Or, steps, result),
            forall|x: Seq<char>| #[trigger] result.names().contains(x) ==> self.names().contains(x) && !variables.deep_view().contains(x),
    {
        eliminate_each(self, variables, BitOperation::Or)
    }

    /// Eliminates `variables` by universal quantification, one after another: for each
    /// variable `v`, the table becomes `F[v = 0] & F[v = 1]`.
    fn universal_quantification(&self, variables: Vec<String>) -> (result: TruthTable)
        ensures
            result.wf(),
            exists|steps: Seq<TruthTable>| eliminated_each(*self, variables.deep_view(), BitOperation::And, steps, result),
            forall|x: Seq<char>| #[trigger] result.names().contains(x) ==> self.names().contains(x) && !variables.deep_view().contains(x),
    {
        eliminate_each(self, variables, BitOperation::And)
    }

    /// The derivative with respect to `variables`, one after another: for each variable `v`,
    /// the table becomes `F[v = 0] ^ F[v = 1]`.
    fn derivative(&self, variables: Vec<String>) -> (result: TruthTable)
        ensures
            result.wf(),
            exists|steps: Seq<TruthTable>| eliminated_each(*self, variables.deep_view(), BitOperation::Xor, steps, result),
            forall|x: Seq<char>| #[trigger] result.names().contains(x) ==> self.names().contains(x) && !variables.deep_view().contains(x),
    {
        eliminate_each(self, variables, BitOperation::Xor)
    }

    /// Whether the two tables are semantically equivalent.
    fn is_equivalent(&self, other: &TruthTable) -> (equivalent: bool)
        ensures
            equivalent == holds_everywhere(*self, *other, Comparison::Equal),
    {
        self.semantic_eq(other)
    }

    /// Whether this table is implied by `other`: its output is `true` on every valuation on
    /// which the output of `other` is.
    fn is_implied_by(&self, other: &TruthTable) -> (implied: bool)
        ensures
            implied == holds_everywhere(*self, *other, Comparison::ImpliedBy),
    {
        compare_everywhere(self, other, Comparison::ImpliedBy)
    }
}

} // verus!
