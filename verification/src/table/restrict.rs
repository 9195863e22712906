//! Restriction of truth tables to fixed values of some inputs, and the operations built on it.
use crate::literals::distinct_names;
use crate::table::index::valuation_point;
use crate::table::{pow2_usize, TruthTable};
use crate::utils::{
    boolean_point_to_row_index, lemma_point_index_bound, lemma_row_index_point_roundtrip,
    point_index, row_index_to_bool_point, spec_row_index_to_bool_point,
};
use crate::valuation::Valuation;
use vstd::arithmetic::power2::{lemma_pow2_strictly_increases, pow2};
use vstd::prelude::*;

verus! {

/// The names of `names` that `valuation` leaves unassigned, in order.
pub open spec fn unassigned_names(names: Seq<Seq<char>>, valuation: Map<Seq<char>, bool>) -> Seq<Seq<char>>
    decreases names.len(),
{
    if names.len() == 0 {
        Seq::empty()
    } else if valuation.dom().contains(names.last()) {
        unassigned_names(names.drop_last(), valuation)
    } else {
        unassigned_names(names.drop_last(), valuation).push(names.last())
    }
}

/// The point for `names` that takes the value of an assigned name from `valuation` and the
/// values of the other names, in order, from `free`.
pub open spec fn merge_point(names: Seq<Seq<char>>, valuation: Map<Seq<char>, bool>, free: Seq<bool>) -> Seq<bool>
    decreases names.len(),
{
    if names.len() == 0 {
        Seq::empty()
    } else if valuation.dom().contains(names.last()) {
        merge_point(names.drop_last(), valuation, free).push(valuation[names.last()])
    } else {
        merge_point(names.drop_last(), valuation, free.drop_last()).push(free.last())
    }
}

/// `valuation` overridden by `fixed` where `fixed` assigns a value.
pub open spec fn override_with(valuation: Map<Seq<char>, bool>, fixed: Map<Seq<char>, bool>) -> Map<Seq<char>, bool> {
    valuation.union_prefer_right(fixed)
}

proof fn lemma_unassigned_names_len(names: Seq<Seq<char>>, valuation: Map<Seq<char>, bool>)
    ensures
        unassigned_names(names, valuation).len() <= names.len(),
        forall|x: Seq<char>| #[trigger] unassigned_names(names, valuation).contains(x) ==> names.contains(x) && !valuation.dom().contains(x),
        forall|x: Seq<char>| names.contains(x) && !valuation.dom().contains(x) ==> #[trigger] unassigned_names(names, valuation).contains(x),
    decreases names.len(),
{
    if names.len() > 0 {
        let rest = names.drop_last();
        lemma_unassigned_names_len(rest, valuation);
        let u = unassigned_names(names, valuation);
        let ur = unassigned_names(rest, valuation);
        assert forall|x: Seq<char>| #[trigger] u.contains(x) implies names.contains(x) && !valuation.dom().contains(x) by {
            if ur.contains(x) {
                let j = choose|j: int| 0 <= j < rest.len() && rest[j] == x;
                assert(names[j] == x);
            } else {
                assert(x == names.last());
            }
        }
        assert forall|x: Seq<char>| names.contains(x) && !valuation.dom().contains(x) implies #[trigger] u.contains(x) by {
            let j = choose|j: int| 0 <= j < names.len() && names[j] == x;
            if j < names.len() - 1 {
                assert(rest[j] == x);
                assert(rest.contains(x));
                assert(ur.contains(x));
                let k = choose|k: int| 0 <= k < ur.len() && ur[k] == x;
                assert(u[k] == x);
            } else {
                assert(u[u.len() - 1] == x);
            }
        }
    }
}

proof fn lemma_unassigned_names_distinct(names: Seq<Seq<char>>, valuation: Map<Seq<char>, bool>)
    requires
        distinct_names(names),
    ensures
        distinct_names(unassigned_names(names, valuation)),
    decreases names.len(),
{
    if names.len() > 0 {
        let rest = names.drop_last();
        assert(distinct_names(rest)) by {
            assert forall|i: int, j: int| 0 <= i < rest.len() && 0 <= j < rest.len() && i != j implies #[trigger] rest[i] != #[trigger] rest[j] by {
                assert(rest[i] == names[i] && rest[j] == names[j]);
            }
        }
        lemma_unassigned_names_distinct(rest, valuation);
        lemma_unassigned_names_len(rest, valuation);
        let ur = unassigned_names(rest, valuation);
        if !valuation.dom().contains(names.last()) {
            let u = ur.push(names.last());
            assert forall|i: int, j: int| 0 <= i < u.len() && 0 <= j < u.len() && i != j implies #[trigger] u[i] != #[trigger] u[j] by {
                if i == u.len() - 1 && j < ur.len() {
                    if u[i] == u[j] {
                        assert(ur.contains(ur[j]));
                        let k = choose|k: int| 0 <= k < rest.len() && rest[k] == ur[j];
                        assert(names[k] == names[names.len() - 1]);
                    }
                } else if j == u.len() - 1 && i < ur.len() {
                    if u[i] == u[j] {
                        assert(ur.contains(ur[i]));
                        let k = choose|k: int| 0 <= k < rest.len() && rest[k] == ur[i];
                        assert(names[k] == names[names.len() - 1]);
                    }
                }
            }
        }
    }
}

/// Merging the free values of the unassigned names with the fixed ones gives the point of
/// the overridden valuation.
pub proof fn lemma_merge_point(names: Seq<Seq<char>>, fixed: Map<Seq<char>, bool>, valuation: Map<Seq<char>, bool>, default: bool)
    ensures
        merge_point(names, fixed, valuation_point(unassigned_names(names, fixed), valuation, default))
            == valuation_point(names, override_with(valuation, fixed), default),
    decreases names.len(),
{
    if names.len() > 0 {
        let rest = names.drop_last();
        lemma_merge_point(rest, fixed, valuation, default);
        let free = valuation_point(unassigned_names(names, fixed), valuation, default);
        let free_rest = valuation_point(unassigned_names(rest, fixed), valuation, default);
        if !fixed.dom().contains(names.last()) {
            assert(free.drop_last() =~= free_rest);
        } else {
            assert(free =~= free_rest);
        }
        assert(valuation_point(names, override_with(valuation, fixed), default) =~= valuation_point(rest, override_with(valuation, fixed), default).push(
            valuation_point(names, override_with(valuation, fixed), default).last()));
        assert(valuation_point(rest, override_with(valuation, fixed), default) =~= valuation_point(names, override_with(valuation, fixed), default).drop_last());
    }
}

/// The unassigned names are the names that the valuation leaves out.
pub proof fn lemma_unassigned_names_contains(names: Seq<Seq<char>>, valuation: Map<Seq<char>, bool>)
    ensures
        forall|x: Seq<char>| #[trigger] unassigned_names(names, valuation).contains(x) <==> (names.contains(x) && !valuation.dom().contains(x)),
{
    lemma_unassigned_names_len(names, valuation);
}

proof fn lemma_merge_point_len(names: Seq<Seq<char>>, fixed: Map<Seq<char>, bool>, free: Seq<bool>)
    ensures
        merge_point(names, fixed, free).len() == names.len(),
    decreases names.len(),
{
    if names.len() > 0 {
        if fixed.dom().contains(names.last()) {
            lemma_merge_point_len(names.drop_last(), fixed, free);
        } else {
            lemma_merge_point_len(names.drop_last(), fixed, free.drop_last());
        }
    }
}

/// `result` is `table` restricted to the values that `fixed` assigns.
pub open spec fn restricted(table: TruthTable, fixed: Map<Seq<char>, bool>, result: TruthTable) -> bool {
    let m = result.names().len();
    &&& result.wf()
    &&& result.names() == unassigned_names(table.names(), fixed)
    &&& forall|k: int| 0 <= k < result.outputs@.len() ==> #[trigger] result.outputs@[k]
        == table.outputs@[point_index(merge_point(table.names(), fixed, spec_row_index_to_bool_point(k as nat, m))) as int]
}

/// The values of the free inputs of a row of the restricted table, merged with the fixed ones.
fn merged_point(inputs: &Vec<String>, valuation: &Valuation, free: &Vec<bool>) -> (point: Vec<bool>)
    requires
        free@.len() == unassigned_names(inputs.deep_view(), valuation@).len(),
    ensures
        point@ == merge_point(inputs.deep_view(), valuation@, free@),
{
    let ghost names = inputs.deep_view();
    let mut point: Vec<bool> = Vec::new();
    let mut i: usize = 0;
    let mut j: usize = 0;
    let _free_len = free.len();
    while i < inputs.len()
        invariant
            names == inputs.deep_view(),
            free@.len() == unassigned_names(names, valuation@).len(),
            i <= names.len(),
            j == unassigned_names(names.subrange(0, i as int), valuation@).len(),
            j <= free@.len(),
            free@.len() <= usize::MAX,
            point@ == merge_point(names.subrange(0, i as int), valuation@, free@.subrange(0, j as int)),
        decreases inputs.len() - i,
    {
        proof {
            assert(names.subrange(0, i + 1).drop_last() =~= names.subrange(0, i as int));
            assert(names.subrange(0, i + 1).last() == names[i as int]);
            lemma_prefix_unassigned_le(names, (i + 1) as nat, valuation@);
        }
        match valuation.get(&inputs[i]) {
            Some(value) => {
                point.push(value);
            },
            None => {
                proof {
                    assert(unassigned_names(names.subrange(0, i + 1), valuation@).len() == j + 1);
                    assert(free@.subrange(0, j + 1).drop_last() =~= free@.subrange(0, j as int));
                }
                point.push(free[j]);
                j = j + 1;
            },
        }
        i = i + 1;
    }
    proof {
        assert(names.subrange(0, i as int) =~= names);
        assert(free@.subrange(0, j as int) =~= free@);
    }
    point
}

proof fn lemma_prefix_unassigned_le(names: Seq<Seq<char>>, k: nat, valuation: Map<Seq<char>, bool>)
    requires
        k <= names.len(),
    ensures
        unassigned_names(names.subrange(0, k as int), valuation).len() <= unassigned_names(names, valuation).len(),
    decreases names.len() - k,
{
    if k < names.len() {
        lemma_prefix_unassigned_le(names, k + 1, valuation);
        assert(names.subrange(0, k + 1 as int).drop_last() =~= names.subrange(0, k as int));
    } else {
        assert(names.subrange(0, k as int) =~= names);
    }
}

/// Law: the restriction of a table to fixed values gives, on every valuation, the output of
/// the table on that valuation with the fixed values put in.
pub proof fn law_restrict_evaluation(
    table: TruthTable,
    fixed: Map<Seq<char>, bool>,
    result: TruthTable,
    valuation: Map<Seq<char>, bool>,
    default: bool,
)
    requires
        table.wf(),
        restricted(table, fixed, result),
    ensures
        result.spec_evaluate(valuation, default) == table.spec_evaluate(override_with(valuation, fixed), default),
{
    let p = valuation_point(result.names(), valuation, default);
    lemma_point_index_bound(p);
    crate::utils::lemma_point_row_index_roundtrip(p);
    lemma_merge_point(table.names(), fixed, valuation, default);
}

impl TruthTable {
    /// The table with the inputs that `valuation` assigns fixed to their values: their
    /// columns are removed and only the rows that agree with `valuation` are kept. Names of
    /// `valuation` that are not inputs of the table are ignored.
    pub(crate) fn restrict_rows(&self, valuation: &Valuation) -> (result: TruthTable)
        requires
            self.wf(),
        ensures
            restricted(*self, valuation@, result),
    {
        let ghost names = self.names();
        let mut inputs_kept: Vec<String> = Vec::new();
        let mut i: usize = 0;
        while i < self.inputs.len()
            invariant
                names == self.names(),
                i <= names.len(),
                inputs_kept.deep_view() == unassigned_names(names.subrange(0, i as int), valuation@),
            decreases self.inputs.len() - i,
        {
            proof {
                assert(names.subrange(0, i + 1).drop_last() =~= names.subrange(0, i as int));
                assert(names.subrange(0, i + 1).last() == names[i as int]);
            }
            if !valuation.contains_key(&self.inputs[i]) {
                let ghost before = inputs_kept.deep_view();
                inputs_kept.push(self.inputs[i].clone());
                proof {
                    assert(inputs_kept.deep_view() =~= before.push(names[i as int]));
                }
            }
            i = i + 1;
        }
        proof {
            assert(names.subrange(0, i as int) =~= names);
            lemma_unassigned_names_len(names, valuation@);
            lemma_unassigned_names_distinct(names, valuation@);
            let m = inputs_kept@.len();
            if m < names.len() {
                lemma_pow2_strictly_increases(m as nat, names.len());
            }
        }
        let m = inputs_kept.len();
        let _rows = self.outputs.len();
        let count = pow2_usize(m);
        let mut outputs: Vec<bool> = Vec::new();
        let mut k: usize = 0;
        while k < count
            invariant
                names == self.names(),
                self.wf(),
                inputs_kept.deep_view() == unassigned_names(names, valuation@),
                m == inputs_kept@.len(),
                count == pow2(m as nat),
                k <= count,
                outputs@.len() == k,
                forall|j: int| 0 <= j < k ==> #[trigger] outputs@[j]
                    == self.outputs@[point_index(merge_point(names, valuation@, spec_row_index_to_bool_point(j as nat, m as nat))) as int],
            decreases count - k,
        {
            let free = row_index_to_bool_point(k, m);
            proof {
                lemma_row_index_point_roundtrip(k as nat, m as nat);
            }
            let point = merged_point(&self.inputs, valuation, &free);
            proof {
                lemma_merge_point_len(names, valuation@, free@);
                lemma_point_index_bound(point@);
            }
            let _rows = self.outputs.len();
            let index = boolean_point_to_row_index(&point);
            outputs.push(self.outputs[index]);
            k = k + 1;
        }
        TruthTable::new(inputs_kept, outputs)
    }
}

} // verus!
