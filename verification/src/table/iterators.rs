//! Iterators over the domain, the image, the relation and the support of truth tables.
use crate::table::TruthTable;
use crate::utils::{row_index_to_bool_point, spec_row_index_to_bool_point};
use vstd::arithmetic::power2::pow2;
use vstd::prelude::*;

verus! {

/// An unsigned integer of any size, of the `num-bigint` crate.
#[verifier::external_type_specification]
#[verifier::external_body]
pub struct ExBigUint(num_bigint::BigUint);

/// The `BigUint` whose value is `n`.
pub uninterp spec fn biguint_of(n: nat) -> num_bigint::BigUint;

/// Calls `BigUint::from(usize)`, which gives the `BigUint` of value `n`; the contract names
/// that value `biguint_of(n)`.
#[verifier::external_body]
pub(crate) fn biguint_from_usize(n: usize) -> (big: num_bigint::BigUint)
    ensures
        big == biguint_of(n as nat),
{
    num_bigint::BigUint::from(n)
}

/// The rows of `outputs` whose output is `true`, in increasing order.
pub open spec fn true_rows(outputs: Seq<bool>) -> Seq<nat>
    decreases outputs.len(),
{
    if outputs.len() == 0 {
        Seq::empty()
    } else if outputs.last() {
        true_rows(outputs.drop_last()).push((outputs.len() - 1) as nat)
    } else {
        true_rows(outputs.drop_last())
    }
}

/// The points of the rows of `rows`, each with `variable_count` digits or more.
pub open spec fn points_of_rows(rows: Seq<nat>, variable_count: nat) -> Seq<Seq<bool>> {
    Seq::new(rows.len(), |j: int| spec_row_index_to_bool_point(rows[j], variable_count))
}

/// Iterates over all the input points of a table, in the order of rows.
pub struct DomainIterator {
    row_count: usize,
    position: usize,
    variable_count: usize,
}

impl DomainIterator {
    /// The points that are still to come.
    pub closed spec fn remaining(&self) -> Seq<Seq<bool>> {
        let left = if self.position <= self.row_count { self.row_count - self.position } else { 0 };
        Seq::new(left as nat, |j: int| spec_row_index_to_bool_point((self.position + j) as nat, self.variable_count as nat))
    }

    /// The iterator over all `2^variable_count` points of `variable_count` inputs.
    pub fn from_count(variable_count: usize) -> (iterator: DomainIterator)
        requires
            pow2(variable_count as nat) <= usize::MAX,
        ensures
            iterator.remaining() == Seq::new(pow2(variable_count as nat), |j: int| spec_row_index_to_bool_point(j as nat, variable_count as nat)),
    {
        let row_count = crate::table::pow2_usize(variable_count);
        let iterator = DomainIterator { row_count, position: 0, variable_count };
        proof {
            assert(iterator.remaining() =~= Seq::new(pow2(variable_count as nat), |j: int| spec_row_index_to_bool_point(j as nat, variable_count as nat)));
        }
        iterator
    }

    /// The next point, if there is one.
    pub fn next(&mut self) -> (point: Option<Vec<bool>>)
        ensures
            old(self).remaining().len() == 0 ==> point is None && final(self).remaining() == old(self).remaining(),
            old(self).remaining().len() > 0 ==> (point matches Some(p) && p@ == old(self).remaining()[0]
                && final(self).remaining() == old(self).remaining().drop_first()),
    {
        if self.position < self.row_count {
            let point = row_index_to_bool_point(self.position, self.variable_count);
            let ghost before = self.remaining();
            self.position = self.position + 1;
            proof {
                assert(self.remaining() =~= before.drop_first());
            }
            Some(point)
        } else {
            None
        }
    }
}

/// Iterates over the outputs of a table, in the order of rows.
pub struct ImageIterator {
    outputs: Vec<bool>,
    position: usize,
}

impl ImageIterator {
    /// The outputs that are still to come.
    pub closed spec fn remaining(&self) -> Seq<bool> {
        if self.position <= self.outputs@.len() {
            self.outputs@.subrange(self.position as int, self.outputs@.len() as int)
        } else {
            Seq::empty()
        }
    }

    /// The next output, if there is one.
    pub fn next(&mut self) -> (output: Option<bool>)
        ensures
            old(self).remaining().len() == 0 ==> output is None && final(self).remaining() == old(self).remaining(),
            old(self).remaining().len() > 0 ==> output == Some(old(self).remaining()[0])
                && final(self).remaining() == old(self).remaining().drop_first(),
    {
        if self.position < self.outputs.len() {
            let output = self.outputs[self.position];
            let ghost before = self.remaining();
            self.position = self.position + 1;
            proof {
                assert(self.remaining() =~= before.drop_first());
            }
            Some(output)
        } else {
            None
        }
    }
}

/// Iterates over the input points of a table together with their outputs.
pub struct RelationIterator {
    outputs: Vec<bool>,
    position: usize,
    variable_count: usize,
}

impl RelationIterator {
    /// The points and outputs that are still to come.
    pub closed spec fn remaining(&self) -> Seq<(Seq<bool>, bool)> {
        let left = if self.position <= self.outputs@.len() { self.outputs@.len() - self.position } else { 0 };
        Seq::new(left as nat, |j: int| (
            spec_row_index_to_bool_point((self.position + j) as nat, self.variable_count as nat),
            self.outputs@[self.position + j],
        ))
    }

    /// The next point with its output, if there is one.
    pub fn next(&mut self) -> (item: Option<(Vec<bool>, bool)>)
        ensures
            old(self).remaining().len() == 0 ==> item is None && final(self).remaining() == old(self).remaining(),
            old(self).remaining().len() > 0 ==> (item matches Some(pair) && (pair.0@, pair.1) == old(self).remaining()[0]
                && final(self).remaining() == old(self).remaining().drop_first()),
    {
        if self.position < self.outputs.len() {
            let point = row_index_to_bool_point(self.position, self.variable_count);
            let output = self.outputs[self.position];
            let ghost before = self.remaining();
            self.position = self.position + 1;
            proof {
                assert(self.remaining() =~= before.drop_first());
            }
            Some((point, output))
        } else {
            None
        }
    }
}

/// Iterates over the input points on which a table outputs `true`.
pub struct SupportIterator {
    rows: Vec<usize>,
    position: usize,
    variable_count: usize,
}

impl SupportIterator {
    /// The points that are still to come.
    pub closed spec fn remaining(&self) -> Seq<Seq<bool>> {
        let rows = self.rows@.map_values(|r: usize| r as nat);
        if self.position <= rows.len() {
            points_of_rows(rows.subrange(self.position as int, rows.len() as int), self.variable_count as nat)
        } else {
            Seq::empty()
        }
    }

    /// The next point, if there is one.
    pub fn next(&mut self) -> (point: Option<Vec<bool>>)
        ensures
            old(self).remaining().len() == 0 ==> point is None && final(self).remaining() == old(self).remaining(),
            old(self).remaining().len() > 0 ==> (point matches Some(p) && p@ == old(self).remaining()[0]
                && final(self).remaining() == old(self).remaining().drop_first()),
    {
        if self.position < self.rows.len() {
            let point = row_index_to_bool_point(self.rows[self.position], self.variable_count);
            let ghost before = self.remaining();
            self.position = self.position + 1;
            proof {
                assert(self.remaining() =~= before.drop_first());
            }
            Some(point)
        } else {
            None
        }
    }
}

impl TruthTable {
    /// All the outputs, in the order of rows.
    pub(crate) fn image_iterator(&self) -> (iterator: ImageIterator)
        ensures
            iterator.remaining() == self.outputs@,
    {
        let iterator = ImageIterator { outputs: self.outputs.clone(), position: 0 };
        proof {
            assert(iterator.outputs@ =~= self.outputs@);
            assert(iterator.remaining() =~= self.outputs@);
        }
        iterator
    }

    /// All the input points with their outputs, in the order of rows.
    pub(crate) fn relation_iterator(&self) -> (iterator: RelationIterator)
        ensures
            iterator.remaining() == Seq::new(self.outputs@.len(), |j: int| (
                spec_row_index_to_bool_point(j as nat, self.inputs@.len() as nat),
                self.outputs@[j],
            )),
    {
        let iterator = RelationIterator { outputs: self.outputs.clone(), position: 0, variable_count: self.inputs.len() };
        proof {
            assert(iterator.outputs@ =~= self.outputs@);
            assert(iterator.remaining() =~= Seq::new(self.outputs@.len(), |j: int| (
                spec_row_index_to_bool_point(j as nat, self.inputs@.len() as nat),
                self.outputs@[j],
            )));
        }
        iterator
    }

    /// The input points on which the output is `true`, in the order of rows.
    pub(crate) fn support_iterator(&self) -> (iterator: SupportIterator)
        ensures
            iterator.remaining() == points_of_rows(true_rows(self.outputs@), self.inputs@.len() as nat),
    {
        let mut rows: Vec<usize> = Vec::new();
        let mut k: usize = 0;
        while k < self.outputs.len()
            invariant
                k <= self.outputs@.len(),
                rows@.map_values(|r: usize| r as nat) == true_rows(self.outputs@.subrange(0, k as int)),
            decreases self.outputs.len() - k,
        {
            proof {
                assert(self.outputs@.subrange(0, k + 1).drop_last() =~= self.outputs@.subrange(0, k as int));
            }
            if self.outputs[k] {
                rows.push(k);
            }
            k = k + 1;
            proof {
                assert(rows@.map_values(|r: usize| r as nat) =~= true_rows(self.outputs@.subrange(0, k as int)));
            }
        }
        proof {
            assert(self.outputs@.subrange(0, k as int) =~= self.outputs@);
        }
        let iterator = SupportIterator { rows, position: 0, variable_count: self.inputs.len() };
        proof {
            let all = iterator.rows@.map_values(|r: usize| r as nat);
            assert(all.subrange(0, all.len() as int) =~= all);
        }
        iterator
    }

    /// The number of input points on which the output is `true`.
    pub fn weight_count(&self) -> (count: usize)
        ensures
            count == true_rows(self.outputs@).len(),
    {
        let mut count: usize = 0;
        let mut k: usize = 0;
        while k < self.outputs.len()
            invariant
                k <= self.outputs@.len(),
                count == true_rows(self.outputs@.subrange(0, k as int)).len(),
                count <= k,
            decreases self.outputs.len() - k,
        {
            proof {
                assert(self.outputs@.subrange(0, k + 1).drop_last() =~= self.outputs@.subrange(0, k as int));
            }
            if self.outputs[k] {
                count = count + 1;
            }
            k = k + 1;
        }
        proof {
            assert(self.outputs@.subrange(0, k as int) =~= self.outputs@);
        }
        count
    }
}

} // verus!