//! Substitution of tables for the variables of a table.
use crate::literals::{distinct_names, is_sorted_set, lemma_sorted_set_distinct, sorted_set_insert, sorted_set_union, string_eq};
use crate::table::index::values_to_row_index;
use crate::table::{pow2_usize, TruthTable};
use crate::utils::{lemma_point_index_bound, lemma_row_index_point_roundtrip, row_index_to_bool_point, spec_row_index_to_bool_point};
use crate::valuation::{boolean_point_to_valuation, lemma_zip_map, zip_map, Valuation};
use crate::table::compare::lemma_evaluation_depends_on_inputs;
use crate::table::index::lookup;
use crate::utils::{lemma_point_row_index_roundtrip, point_index};
use crate::table::index::valuation_point;
use vstd::arithmetic::power2::pow2;
use crate::traits::{Evaluate, GatherLiterals};
use vstd::prelude::*;

verus! {

/// The names of the substituted variables, in order.
pub open spec fn mapping_keys(mapping: Seq<(String, TruthTable)>) -> Seq<Seq<char>> {
    Seq::new(mapping.len(), |i: int| mapping[i].0@)
}

/// The table substituted for the variable `name`, if any: that of the last entry for it.
pub open spec fn substitution_for(mapping: Seq<(String, TruthTable)>, name: Seq<char>) -> Option<TruthTable>
    decreases mapping.len(),
{
    if mapping.len() == 0 {
        None
    } else if mapping.last().0@ == name {
        Some(mapping.last().1)
    } else {
        substitution_for(mapping.drop_last(), name)
    }
}

/// The inputs of the substituted tables.
pub open spec fn values_names(mapping: Seq<(String, TruthTable)>) -> Set<Seq<char>> {
    Set::new(|x: Seq<char>| exists|i: int| 0 <= i < mapping.len() && #[trigger] mapping[i].1.names().contains(x))
}

/// The inputs after the substitution: those of `table` that are not substituted, and those
/// of the substituted tables.
pub open spec fn substituted_names(table: TruthTable, mapping: Seq<(String, TruthTable)>) -> Set<Seq<char>> {
    table.names().to_set().difference(mapping_keys(mapping).to_set()).union(values_names(mapping))
}

/// The valuation `valuation` with each substituted variable given the value of its table on
/// `valuation`.
pub open spec fn substituted_valuation(mapping: Seq<(String, TruthTable)>, valuation: Map<Seq<char>, bool>) -> Map<Seq<char>, bool> {
    Map::new(
        |x: Seq<char>| valuation.dom().contains(x) || substitution_for(mapping, x) is Some,
        |x: Seq<char>| match substitution_for(mapping, x) {
            Some(t) => t.spec_evaluate(valuation, false),
            None => valuation[x],
        },
    )
}

/// `result` is `table` with the tables of `mapping` substituted for their variables: its
/// inputs are the sorted `substituted_names`, and each row holds the output of `table` on the
/// valuation of the row in which each substituted variable takes the value of its table on
/// that row.
pub open spec fn substituted(table: TruthTable, mapping: Seq<(String, TruthTable)>, result: TruthTable) -> bool {
    let names = result.names();
    &&& is_sorted_set(names)
    &&& names.to_set() == substituted_names(table, mapping)
    &&& result.outputs@.len() == pow2(names.len())
    &&& forall|k: int| 0 <= k < result.outputs@.len() ==> #[trigger] result.outputs@[k] == table.spec_evaluate(
        substituted_valuation(mapping, zip_map(names, spec_row_index_to_bool_point(k as nat, names.len()))),
        false,
    )
}

/// The table substituted for `name`, if any.
fn find_substitution(mapping: &Vec<(String, TruthTable)>, name: &String) -> (found: Option<usize>)
    ensures
        found matches Some(i) ==> i < mapping@.len() && substitution_for(mapping@, name@) == Some(mapping@[i as int].1),
        found is None ==> substitution_for(mapping@, name@) is None,
{
    let ghost map = mapping@;
    let mut i: usize = mapping.len();
    assert(map.subrange(0, i as int) =~= map);
    while i > 0
        invariant
            map == mapping@,
            i <= map.len(),
            substitution_for(map, name@) == substitution_for(map.subrange(0, i as int), name@),
        decreases i,
    {
        let ghost prefix = map.subrange(0, i as int);
        proof {
            assert(prefix.drop_last() =~= map.subrange(0, i - 1));
            assert(prefix.last() == map[i - 1]);
        }
        if string_eq(&mapping[i - 1].0, name) {
            return Some(i - 1);
        }
        i = i - 1;
    }
    None
}

impl TruthTable {
    /// The table with the tables of `mapping` substituted for their variables; a later entry
    /// for a variable replaces an earlier one, as in a map.
    pub(crate) fn substitute_tables(&self, mapping: &Vec<(String, TruthTable)>) -> (result: TruthTable)
        requires
            self.wf(),
            forall|i: int| 0 <= i < mapping@.len() ==> (#[trigger] mapping@[i]).1.wf(),
            forall|names: Seq<Seq<char>>| is_sorted_set(names) && #[trigger] names.to_set() == substituted_names(*self, mapping@) ==> pow2(names.len()) <= usize::MAX,
        ensures
            substituted(*self, mapping@, result),
            result.wf(),
    {
        let ghost map = mapping@;
        let ghost keys = mapping_keys(map);
        let mut substituting: Vec<String> = Vec::new();
        let mut i: usize = 0;
        proof {
            assert(substituting.deep_view().to_set() =~= values_names(map.subrange(0, 0)));
        }
        while i < mapping.len()
            invariant
                map == mapping@,
                i <= map.len(),
                forall|j: int| 0 <= j < map.len() ==> (#[trigger] map[j]).1.wf(),
                is_sorted_set(substituting.deep_view()),
                substituting.deep_view().to_set() == values_names(map.subrange(0, i as int)),
            decreases mapping.len() - i,
        {
            let literals = mapping[i].1.gather_literals();
            substituting = sorted_set_union(&substituting, &literals);
            proof {
                let before = map.subrange(0, i as int);
                let after = map.subrange(0, i + 1);
                assert forall|x: Seq<char>| #[trigger] values_names(after).contains(x) <==> values_names(before).contains(x) || map[i as int].1.names().to_set().contains(x) by {
                    if values_names(after).contains(x) {
                        let j = choose|j: int| 0 <= j < after.len() && #[trigger] after[j].1.names().contains(x);
                        if j < i {
                            assert(before[j] == after[j]);
                        } else {
                            assert(map[i as int].1.names().contains(x));
                        }
                    }
                    if values_names(before).contains(x) {
                        let j = choose|j: int| 0 <= j < before.len() && #[trigger] before[j].1.names().contains(x);
                        assert(after[j] == before[j]);
                    }
                    if map[i as int].1.names().to_set().contains(x) {
                        assert(after[i as int] == map[i as int]);
                    }
                }
                assert(substituting.deep_view().to_set() =~= values_names(after));
            }
            i = i + 1;
        }
        proof {
            assert(map.subrange(0, i as int) =~= map);
        }
        let mut keys_vec: Vec<String> = Vec::new();
        let mut j: usize = 0;
        while j < mapping.len()
            invariant
                map == mapping@,
                keys == mapping_keys(map),
                j <= map.len(),
                keys_vec.deep_view() == keys.subrange(0, j as int),
            decreases mapping.len() - j,
        {
            let ghost before = keys_vec.deep_view();
            keys_vec.push(mapping[j].0.clone());
            proof {
                assert(keys_vec.deep_view() =~= before.push(map[j as int].0@));
                assert(keys.subrange(0, j + 1) =~= keys.subrange(0, j as int).push(keys[j as int]));
            }
            j = j + 1;
        }
        proof {
            assert(keys.subrange(0, j as int) =~= keys);
        }
        let own = self.gather_literals();
        let mut kept: Vec<String> = Vec::new();
        let mut p: usize = 0;
        proof {
            assert(kept.deep_view().to_set() =~= own.deep_view().subrange(0, 0).to_set().difference(keys.to_set()));
        }
        while p < own.len()
            invariant
                keys_vec.deep_view() == keys,
                p <= own@.len(),
                is_sorted_set(kept.deep_view()),
                kept.deep_view().to_set() == own.deep_view().subrange(0, p as int).to_set().difference(keys.to_set()),
            decreases own.len() - p,
        {
            let ghost name = own.deep_view()[p as int];
            proof {
                assert(own.deep_view().subrange(0, p + 1) =~= own.deep_view().subrange(0, p as int).push(name));
                own.deep_view().subrange(0, p as int).lemma_push_to_set_commute(name);
                assert(own@[p as int]@ == name);
            }
            if !contains_name(&keys_vec, &own[p]) {
                sorted_set_insert(&mut kept, own[p].clone());
                proof {
                    assert(kept.deep_view().to_set() =~= own.deep_view().subrange(0, p + 1).to_set().difference(keys.to_set()));
                }
            } else {
                proof {
                    assert(kept.deep_view().to_set() =~= own.deep_view().subrange(0, p + 1).to_set().difference(keys.to_set()));
                }
            }
            p = p + 1;
        }
        proof {
            assert(own.deep_view().subrange(0, p as int) =~= own.deep_view());
        }
        let final_inputs = sorted_set_union(&kept, &substituting);
        let ghost names = final_inputs.deep_view();
        proof {
            assert(names.to_set() =~= substituted_names(*self, map));
            lemma_sorted_set_distinct(names);
        }
        let m = final_inputs.len();
        let rows = pow2_usize(m);
        let _own_rows = self.outputs.len();
        let mut outputs: Vec<bool> = Vec::new();
        let mut k: usize = 0;
        while k < rows
            invariant
                map == mapping@,
                forall|j: int| 0 <= j < map.len() ==> (#[trigger] map[j]).1.wf(),
                self.wf(),
                names == final_inputs.deep_view(),
                distinct_names(names),
                m == names.len(),
                rows == pow2(m as nat),
                k <= rows,
                outputs@.len() == k,
                forall|r: int| 0 <= r < k ==> #[trigger] outputs@[r] == self.spec_evaluate(
                    substituted_valuation(map, zip_map(names, spec_row_index_to_bool_point(r as nat, m as nat))),
                    false,
                ),
            decreases rows - k,
        {
            let point = row_index_to_bool_point(k, m);
            proof {
                lemma_row_index_point_roundtrip(k as nat, m as nat);
            }
            let point_valuation = match boolean_point_to_valuation(final_inputs.clone(), point.clone()) {
                Some(v) => v,
                None => {
                    proof {
                        assert(false);
                    }
                    Valuation::new()
                },
            };
            let values = substituted_values(mapping, &self.inputs, &point_valuation);
            let ghost after = substituted_valuation(map, point_valuation@);
            let final_valuation = match boolean_point_to_valuation(self.inputs.clone(), values) {
                Some(v) => v,
                None => {
                    proof {
                        assert(false);
                    }
                    Valuation::new()
                },
            };
            let _own_rows = self.outputs.len();
            proof {
                assert forall|i: int| 0 <= i < self.names().len() implies lookup(final_valuation@, #[trigger] self.names()[i], Some(false))
                    == lookup(after, self.names()[i], Some(false)) by {
                    lemma_zip_map(self.names(), values@, i);
                }
                lemma_evaluation_depends_on_inputs(*self, final_valuation@, after, false);
                lemma_point_index_bound(valuation_point(self.names(), final_valuation@, false));
            }
            let index = values_to_row_index(&self.inputs, &final_valuation);
            outputs.push(self.outputs[index]);
            k = k + 1;
        }
        TruthTable::new(final_inputs, outputs)
    }
}

/// Whether `name` is among `names`.
fn contains_name(names: &Vec<String>, name: &String) -> (found: bool)
    ensures
        found == names.deep_view().contains(name@),
{
    let mut i: usize = 0;
    while i < names.len()
        invariant
            i <= names@.len(),
            forall|j: int| 0 <= j < i ==> names.deep_view()[j] != name@,
        decreases names.len() - i,
    {
        assert(names.deep_view()[i as int] == names@[i as int]@);
        if string_eq(&names[i], name) {
            return true;
        }
        i = i + 1;
    }
    false
}

/// The values of the inputs `own` of a table after the substitution: for a substituted input,
/// the value of its table on `valuation`; for another, its value in `valuation` (`false`
/// where it has none).
fn substituted_values(mapping: &Vec<(String, TruthTable)>, own: &Vec<String>, valuation: &Valuation) -> (values: Vec<bool>)
    requires
        forall|j: int| 0 <= j < mapping@.len() ==> (#[trigger] mapping@[j]).1.wf(),
    ensures
        values@.len() == own@.len(),
        forall|i: int| 0 <= i < own@.len() ==> Some(#[trigger] values@[i]) == lookup(substituted_valuation(mapping@, valuation@), own.deep_view()[i], Some(false)),
{
    let ghost after = substituted_valuation(mapping@, valuation@);
    let mut values: Vec<bool> = Vec::new();
    let mut i: usize = 0;
    while i < own.len()
        invariant
            forall|j: int| 0 <= j < mapping@.len() ==> (#[trigger] mapping@[j]).1.wf(),
            after == substituted_valuation(mapping@, valuation@),
            i <= own@.len(),
            values@.len() == i,
            forall|r: int| 0 <= r < i ==> Some(#[trigger] values@[r]) == lookup(after, own.deep_view()[r], Some(false)),
        decreases own.len() - i,
    {
        assert(own.deep_view()[i as int] == own@[i as int]@);
        let value = match find_substitution(mapping, &own[i]) {
            Some(at) => mapping[at].1.evaluate(valuation),
            None => match valuation.get(&own[i]) {
                Some(b) => b,
                None => false,
            },
        };
        values.push(value);
        i = i + 1;
    }
    values
}

/// The table substituted for a variable is the table of one of the entries.
proof fn lemma_substitution_is_entry(mapping: Seq<(String, TruthTable)>, name: Seq<char>)
    ensures
        substitution_for(mapping, name) matches Some(t) ==> exists|i: int| 0 <= i < mapping.len() && #[trigger] mapping[i].1 == t,
        substitution_for(mapping, name) is None ==> !mapping_keys(mapping).contains(name),
    decreases mapping.len(),
{
    if mapping.len() > 0 {
        lemma_substitution_is_entry(mapping.drop_last(), name);
        if mapping.last().0@ != name {
            if let Some(t) = substitution_for(mapping, name) {
                let i = choose|i: int| 0 <= i < mapping.drop_last().len() && #[trigger] mapping.drop_last()[i].1 == t;
                assert(mapping[i] == mapping.drop_last()[i]);
            } else {
                if mapping_keys(mapping).contains(name) {
                    let j = choose|j: int| 0 <= j < mapping_keys(mapping).len() && mapping_keys(mapping)[j] == name;
                    assert(j < mapping.len() - 1);
                    assert(mapping_keys(mapping.drop_last())[j] == name);
                }
            }
        } else {
            assert(mapping[mapping.len() - 1] == mapping.last());
        }
    }
}

/// The position of a name in a sequence that holds it.
proof fn lemma_position(names: Seq<Seq<char>>, x: Seq<char>) -> (j: int)
    requires
        names.to_set().contains(x),
    ensures
        0 <= j < names.len(),
        names[j] == x,
{
    choose|j: int| 0 <= j < names.len() && names[j] == x
}

/// Law: the substituted table has, on every valuation, the value of `table` on the valuation
/// in which each substituted variable takes the value of its table.
pub proof fn law_substitute_evaluation(
    table: TruthTable,
    mapping: Seq<(String, TruthTable)>,
    result: TruthTable,
    valuation: Map<Seq<char>, bool>,
)
    requires
        table.wf(),
        forall|i: int| 0 <= i < mapping.len() ==> (#[trigger] mapping[i]).1.wf(),
        substituted(table, mapping, result),
    ensures
        result.spec_evaluate(valuation, false) == table.spec_evaluate(substituted_valuation(mapping, valuation), false),
{
    let names = result.names();
    let m = names.len();
    lemma_sorted_set_distinct(names);
    let p = valuation_point(names, valuation, false);
    lemma_point_index_bound(p);
    lemma_point_row_index_roundtrip(p);
    let k = point_index(p);
    assert(spec_row_index_to_bool_point(k, m) == p);
    let row = zip_map(names, p);
    let before = substituted_valuation(mapping, row);
    let after = substituted_valuation(mapping, valuation);
    assert(result.outputs@[k as int] == table.spec_evaluate(before, false));
    assert forall|i: int| 0 <= i < table.names().len() implies lookup(before, #[trigger] table.names()[i], Some(false))
        == lookup(after, table.names()[i], Some(false)) by {
        let y = table.names()[i];
        assert(table.names().contains(y));
        lemma_substitution_is_entry(mapping, y);
        match substitution_for(mapping, y) {
            None => {
                assert(table.names().to_set().contains(y));
                assert(!mapping_keys(mapping).to_set().contains(y));
                assert(names.to_set().contains(y));
                let j = lemma_position(names, y);
                lemma_zip_map(names, p, j);
                assert(p[j] == (lookup(valuation, y, Some(false)) == Some(true)));
            },
            Some(t) => {
                let e = choose|e: int| 0 <= e < mapping.len() && #[trigger] mapping[e].1 == t;
                assert(t.wf());
                assert forall|q: int| 0 <= q < t.names().len() implies lookup(row, #[trigger] t.names()[q], Some(false))
                    == lookup(valuation, t.names()[q], Some(false)) by {
                    let z = t.names()[q];
                    assert(mapping[e].1.names().contains(z));
                    assert(values_names(mapping).contains(z));
                    assert(names.to_set().contains(z));
                    let jz = lemma_position(names, z);
                    lemma_zip_map(names, p, jz);
                }
                lemma_evaluation_depends_on_inputs(t, row, valuation, false);
            },
        }
    }
    lemma_evaluation_depends_on_inputs(table, before, after, false);
}

} // verus!
