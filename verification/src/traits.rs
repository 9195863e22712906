//! The operations that Boolean functions share, whatever represents them.
use crate::literals::{is_sorted_set, lemma_sorted_set_distinct};
use crate::power_set::{generate_arbitrary_power_set, power_set_valuation};
use crate::valuation::Valuation;
use vstd::arithmetic::power2::pow2;
use vstd::prelude::*;

verus! {

/// Evaluation of a Boolean function on a valuation of its variables.
pub trait Evaluate {
    /// Whether the function is well formed, so that it can be evaluated.
    spec fn evaluable(&self) -> bool;

    /// The value of the function on `valuation`, where `default_value` stands for each
    /// variable that `valuation` does not assign.
    spec fn value_on(&self, valuation: Map<Seq<char>, bool>, default_value: bool) -> bool;

    /// The value on `literal_values`, where the variables that it does not assign are
    /// `false`.
    fn evaluate(&self, literal_values: &Valuation) -> (value: bool)
        requires
            self.evaluable(),
        ensures
            value == self.value_on(literal_values@, false),
    {
        self.evaluate_with_default(literal_values, false)
    }

    /// The value on `literal_values`, where `default_value` stands for each variable that it
    /// does not assign.
    fn evaluate_with_default(&self, literal_values: &Valuation, default_value: bool) -> (value: bool)
        requires
            self.evaluable(),
        ensures
            value == self.value_on(literal_values@, default_value),
    ;

    /// The value on `literal_values` where it assigns every variable; otherwise the variables
    /// that it does not assign.
    fn evaluate_checked(&self, literal_values: &Valuation) -> (output: Result<bool, Vec<String>>)
        requires
            self.evaluable(),
        ensures
            output matches Ok(value) ==> value == self.value_on(literal_values@, false),
    ;
}

/// The variables that occur in a Boolean function.
pub trait GatherLiterals {
    /// The set of the variables that occur in the function.
    spec fn literal_set(&self) -> Set<Seq<char>>;

    /// The variables of the function, as a sorted set.
    fn gather_literals(&self) -> (literals: Vec<String>)
        ensures
            is_sorted_set(literals.deep_view()),
            literals.deep_view().to_set() == self.literal_set(),
    {
        let mut literals: Vec<String> = Vec::new();
        proof {
            assert(literals.deep_view() =~= Seq::<Seq<char>>::empty());
        }
        self.gather_literals_rec(&mut literals);
        proof {
            assert(Seq::<Seq<char>>::empty().to_set().union(self.literal_set()) =~= self.literal_set());
        }
        literals
    }

    /// Adds the variables of the function to the sorted set `current`.
    fn gather_literals_rec(&self, current: &mut Vec<String>)
        requires
            is_sorted_set(old(current).deep_view()),
        ensures
            is_sorted_set(final(current).deep_view()),
            final(current).deep_view().to_set() == old(current).deep_view().to_set().union(self.literal_set()),
    ;
}

/// All the valuations of the variables of a Boolean function.
pub trait PowerSet: GatherLiterals {
    /// All the valuations of the variables, taken as a sorted set, in the order in which
    /// `generate_arbitrary_power_set` lists them.
    fn generate_power_set(&self) -> (valuations: Vec<Valuation>)
        ensures
            exists|names: Seq<Seq<char>>| #[trigger] is_sorted_set(names) && names.to_set() == self.literal_set()
                && valuations@.len() == pow2(names.len())
                && forall|k: int| 0 <= k < valuations@.len() ==> (#[trigger] valuations@[k])@ == power_set_valuation(names, k as nat),
    {
        let literals = self.gather_literals();
        proof {
            lemma_sorted_set_distinct(literals.deep_view());
        }
        let ghost names = literals.deep_view();
        let valuations = generate_arbitrary_power_set(literals);
        proof {
            assert(is_sorted_set(names));
        }
        valuations
    }
}

/// Semantic comparison of two Boolean functions.
pub trait SemanticEq: PowerSet {
    /// Whether the two functions can be compared: both are well formed, and the valuations
    /// of their variables can be counted in a `usize`.
    spec fn comparable(&self, other: &Self) -> bool;

    /// Whether the two functions have the same value on every valuation.
    spec fn same_function(&self, other: &Self) -> bool;

    /// Whether the two functions have the same value on every valuation.
    fn semantic_eq(&self, other: &Self) -> (equal: bool)
        requires
            self.comparable(other),
        ensures
            equal == self.same_function(other),
    ;

    /// Whether the two functions differ in value on some valuation.
    fn semantic_ne(&self, other: &Self) -> (different: bool)
        requires
            self.comparable(other),
        ensures
            different == !self.same_function(other),
    {
        !self.semantic_eq(other)
    }
}

/// The implication between two Boolean functions.
pub trait Implication {
    /// What the implication is.
    type Output;

    /// The implication from `self` to `rhs`.
    fn imply(self, rhs: Self) -> Self::Output;
}

/// The equivalence of two Boolean functions.
pub trait Equality {
    /// What the equivalence is.
    type Output;

    /// The equivalence of `self` and `rhs`.
    fn iff(self, rhs: Self) -> Self::Output;
}

/// A Boolean function, whatever represents it.
pub trait BooleanFunction: Sized {
    /// The iterator over the input points of the domain.
    type DomainIterator;
    /// The iterator over the output values, in the order of the domain.
    type RangeIterator;
    /// The iterator over the input points with their output values.
    type RelationIterator;
    /// The iterator over the input points on which the function is `true`.
    type SupportIterator;

    /// Whether the representation is well formed.
    spec fn well_formed(&self) -> bool;

    /// Whether the `2^n` input points of the domain can be counted in a `usize`.
    spec fn domain_fits(&self) -> bool;

    /// Whether the functions of `mapping` can be substituted: they are well formed, and the
    /// input points of the result can be counted in a `usize`.
    spec fn substitution_fits(&self, mapping: Seq<(String, Self)>) -> bool;

    /// Whether the two functions can be compared: both are well formed, and the valuations of
    /// their variables can be counted in a `usize`.
    spec fn comparable_with(&self, other: &Self) -> bool;

    /// The variables of the function, as a sorted set.
    fn inputs(&self) -> Vec<String>;

    /// The variables whose value changes the output for some values of the others, as a
    /// sorted set.
    fn essential_inputs(&self) -> Vec<String>
        requires
            self.well_formed(),
    ;

    /// The number of variables.
    fn degree(&self) -> usize;

    /// The number of essential variables.
    fn essential_degree(&self) -> usize
        requires
            self.well_formed(),
    ;

    /// All the input points.
    fn domain(&self) -> Self::DomainIterator
        requires
            self.domain_fits(),
    ;

    /// All the output values, in the order of the domain.
    fn image(&self) -> Self::RangeIterator;

    /// All the input points with their output values.
    fn relation(&self) -> Self::RelationIterator;

    /// The input points on which the function is `true`.
    fn support(&self) -> Self::SupportIterator;

    /// The number of input points on which the function is `true`.
    fn weight(&self) -> num_bigint::BigUint;

    /// The function with the variables that `valuation` assigns fixed to their values.
    fn restrict(&self, valuation: &Valuation) -> Self
        requires
            self.well_formed(),
    ;

    /// The function with the functions of `mapping` substituted for their variables.
    fn substitute(&self, mapping: &Vec<(String, Self)>) -> Self
        requires
            self.well_formed(),
            self.substitution_fits(mapping@),
    ;

    /// The first input point on which the function is `true`, if any.
    fn sat_point(&self) -> Option<Vec<bool>>;

    /// The function with `variables` eliminated by existential quantification.
    fn existential_quantification(&self, variables: Vec<String>) -> Self
        requires
            self.well_formed(),
    ;

    /// The function with `variables` eliminated by universal quantification.
    fn universal_quantification(&self, variables: Vec<String>) -> Self
        requires
            self.well_formed(),
    ;

    /// The derivative of the function with respect to `variables`.
    fn derivative(&self, variables: Vec<String>) -> Self
        requires
            self.well_formed(),
    ;

    /// Whether the two functions have the same value on every valuation.
    fn is_equivalent(&self, other: &Self) -> bool
        requires
            self.comparable_with(other),
    ;

    /// Whether this function is `true` wherever `other` is.
    fn is_implied_by(&self, other: &Self) -> bool
        requires
            self.comparable_with(other),
    ;
}

/// A value that can be read from a text.
pub trait Parse: Sized {
    /// The value that `input` writes.
    fn from_str(input: &str) -> Self;

    /// The value that `input` writes.
    fn from_string(input: String) -> Self {
        Self::from_str(input.as_str())
    }
}

} // verus!
