//! Elimination of variables by quantification and derivation.
use crate::literals::{lemma_distinct_same_set_len, lemma_sorted_set_distinct};
use crate::table::index::valuation_point;
use crate::table::ops::{spec_apply, union_names, BitOperation};
use crate::table::restrict::{merge_point, override_with, unassigned_names};
use crate::table::TruthTable;
use crate::utils::{point_index, spec_row_index_to_bool_point};
use crate::literals::distinct_names;
use crate::valuation::{btreeset_to_valuation, constant_map, lemma_zip_map_dom, zip_map};
use vstd::arithmetic::power2::pow2;
use vstd::prelude::*;

verus! {

/// `result` is `table` with the `variables` eliminated by `op`: each row combines, with `op`,
/// the output of the table with all the `variables` set to `false` and with all of them set
/// to `true`.
pub open spec fn eliminated(table: TruthTable, variables: Seq<Seq<char>>, op: BitOperation, result: TruthTable) -> bool {
    let low = constant_map(variables, false);
    let high = constant_map(variables, true);
    let m = result.names().len();
    &&& result.names() == unassigned_names(table.names(), low)
    &&& result.outputs@.len() == pow2(m)
    &&& forall|k: int| 0 <= k < result.outputs@.len() ==> #[trigger] result.outputs@[k] == spec_apply(
        op,
        table.outputs@[point_index(merge_point(table.names(), low, spec_row_index_to_bool_point(k as nat, m))) as int],
        table.outputs@[point_index(merge_point(table.names(), high, spec_row_index_to_bool_point(k as nat, m))) as int],
    )
}

proof fn lemma_same_unassigned(names: Seq<Seq<char>>, variables: Seq<Seq<char>>)
    ensures
        unassigned_names(names, constant_map(variables, false)) == unassigned_names(names, constant_map(variables, true)),
{
    assert(constant_map(variables, false).dom() =~= constant_map(variables, true).dom());
    lemma_unassigned_same_dom(names, constant_map(variables, false), constant_map(variables, true));
}

proof fn lemma_unassigned_same_dom(names: Seq<Seq<char>>, a: Map<Seq<char>, bool>, b: Map<Seq<char>, bool>)
    requires
        a.dom() == b.dom(),
    ensures
        unassigned_names(names, a) == unassigned_names(names, b),
    decreases names.len(),
{
    if names.len() > 0 {
        lemma_unassigned_same_dom(names.drop_last(), a, b);
    }
}

/// Eliminates `variables` from `table` by combining its restrictions to all-`false` and
/// all-`true` values with `op`.
fn eliminate(table: &TruthTable, variables: Vec<String>, op: BitOperation) -> (result: TruthTable)
    requires
        table.wf(),
    ensures
        eliminated(*table, variables.deep_view(), op, result),
        result.wf(),
{
    let ghost vars = variables.deep_view();
    let copied = variables.clone();
    proof {
        assert(copied.deep_view() =~= vars);
    }
    let low = table.restrict_rows(&btreeset_to_valuation(copied, false));
    let high = table.restrict_rows(&btreeset_to_valuation(variables, true));
    proof {
        lemma_same_unassigned(table.names(), vars);
        assert(low.names() == high.names());
    }
    let _rows = low.outputs.len();
    proof {
        assert forall|names: Seq<Seq<char>>| #[trigger] union_names(low, high, names) implies pow2(names.len()) <= usize::MAX by {
            lemma_sorted_set_distinct(names);
            assert(names.to_set() =~= low.names().to_set());
            lemma_distinct_same_set_len(names, low.names());
        }
    }
    let result = crate::table::ops::bit_common(&low, &high, op);
    proof {
        assert(result.inputs@ == low.inputs@);
        assert(result.names() =~= low.names());
    }
    result
}

/// `steps` eliminate the `variables` from `table` one after another with `op`: each step
/// combines, with `op`, the previous table with the next variable put to `false` and to
/// `true`; `result` is the last step.
pub open spec fn eliminated_each(
    table: TruthTable,
    variables: Seq<Seq<char>>,
    op: BitOperation,
    steps: Seq<TruthTable>,
    result: TruthTable,
) -> bool {
    &&& steps.len() == variables.len() + 1
    &&& steps[0].names() == table.names()
    &&& steps[0].outputs@ == table.outputs@
    &&& steps.last() == result
    &&& forall|i: int| 0 <= i < variables.len() ==> #[trigger] steps[i].wf() && eliminated(steps[i], seq![variables[i]], op, steps[i + 1])
}

/// Eliminates the `variables` from `table`, one after another, with `op`.
pub(crate) fn eliminate_each(table: &TruthTable, variables: Vec<String>, op: BitOperation) -> (result: TruthTable)
    requires
        table.wf(),
    ensures
        result.wf(),
        exists|steps: Seq<TruthTable>| eliminated_each(*table, variables.deep_view(), op, steps, result),
        forall|x: Seq<char>| #[trigger] result.names().contains(x) ==> table.names().contains(x) && !variables.deep_view().contains(x),
{
    let ghost vars = variables.deep_view();
    let mut current = TruthTable::new(table.inputs.clone(), table.outputs.clone());
    proof {
        assert(current.names() =~= table.names());
    }
    let ghost mut steps: Seq<TruthTable> = seq![current];
    let mut i: usize = 0;
    while i < variables.len()
        invariant
            vars == variables.deep_view(),
            i <= vars.len(),
            current.wf(),
            steps.len() == i + 1,
            steps[0].names() == table.names(),
            steps[0].outputs@ == table.outputs@,
            steps.last() == current,
            forall|j: int| 0 <= j < i ==> #[trigger] steps[j].wf() && eliminated(steps[j], seq![vars[j]], op, steps[j + 1]),
            forall|x: Seq<char>| #[trigger] current.names().contains(x) ==> table.names().contains(x) && !vars.subrange(0, i as int).contains(x),
        decreases variables.len() - i,
    {
        let single = vec![variables[i].clone()];
        proof {
            assert(single.deep_view() =~= seq![vars[i as int]]);
        }
        let next = eliminate(&current, single, op);
        proof {
            crate::table::restrict::lemma_unassigned_names_contains(current.names(), constant_map(seq![vars[i as int]], false));
            assert(vars.subrange(0, i + 1) =~= vars.subrange(0, i as int).push(vars[i as int]));
            assert forall|x: Seq<char>| #[trigger] next.names().contains(x) implies table.names().contains(x) && !vars.subrange(0, i + 1).contains(x) by {
                assert(current.names().contains(x));
                assert(seq![vars[i as int]][0] == vars[i as int]);
                if x == vars[i as int] {
                    assert(seq![vars[i as int]].contains(x));
                    assert(constant_map(seq![vars[i as int]], false).dom().contains(x));
                }
                let longer = vars.subrange(0, i + 1);
                if longer.contains(x) {
                    let j = choose|j: int| 0 <= j < longer.len() && #[trigger] longer[j] == x;
                    if j < i {
                        assert(vars.subrange(0, i as int)[j] == x);
                    }
                }
            }
            let before = steps;
            steps = steps.push(next);
            assert forall|j: int| 0 <= j < i + 1 implies #[trigger] steps[j].wf() && eliminated(steps[j], seq![vars[j]], op, steps[j + 1]) by {
                if j < i {
                    assert(steps[j] == before[j] && steps[j + 1] == before[j + 1]);
                } else {
                    assert(steps[j] == current);
                }
            }
        }
        current = next;
        i = i + 1;
    }
    proof {
        assert(eliminated_each(*table, vars, op, steps, current));
        assert(vars.subrange(0, i as int) =~= vars);
    }
    current
}

/// Law: eliminating variables in one step gives, on every valuation, `op` applied to the outputs of the
/// table with the eliminated variables put to `false` and to `true`; the result does not
/// depend on them.
pub proof fn law_elimination_evaluation(
    table: TruthTable,
    variables: Seq<Seq<char>>,
    op: BitOperation,
    result: TruthTable,
    valuation: Map<Seq<char>, bool>,
    default: bool,
)
    requires
        table.wf(),
        eliminated(table, variables, op, result),
    ensures
        result.spec_evaluate(valuation, default) == spec_apply(
            op,
            table.spec_evaluate(override_with(valuation, constant_map(variables, false)), default),
            table.spec_evaluate(override_with(valuation, constant_map(variables, true)), default),
        ),
        forall|k: Seq<char>| #[trigger] result.names().contains(k) ==> !variables.contains(k),
{
    let low = constant_map(variables, false);
    let high = constant_map(variables, true);
    let p = valuation_point(result.names(), valuation, default);
    crate::utils::lemma_point_index_bound(p);
    crate::utils::lemma_point_row_index_roundtrip(p);
    lemma_same_unassigned(table.names(), variables);
    crate::table::restrict::lemma_merge_point(table.names(), low, valuation, default);
    crate::table::restrict::lemma_merge_point(table.names(), high, valuation, default);
    crate::table::restrict::lemma_unassigned_names_contains(table.names(), low);
    assert forall|k: Seq<char>| #[trigger] result.names().contains(k) implies !variables.contains(k) by {
        assert(!low.dom().contains(k));
        if variables.contains(k) {
            assert(variables.to_set().contains(k));
        }
    }
}

/// Giving a variable a value and then the values of a sequence that does not name it is
/// giving it its value along with those of the sequence.
proof fn lemma_override_then_zip(
    valuation: Map<Seq<char>, bool>,
    names: Seq<Seq<char>>,
    bits: Seq<bool>,
    x: Seq<char>,
    b: bool,
)
    requires
        names.len() == bits.len(),
        !names.contains(x),
    ensures
        override_with(override_with(valuation, constant_map(seq![x], b)), zip_map(names, bits))
            == override_with(valuation, zip_map(names.push(x), bits.push(b))),
{
    let entries = Seq::new(names.len(), |i: int| (names[i], bits[i]));
    let longer = Seq::new(names.len() + 1, |i: int| (names.push(x)[i], bits.push(b)[i]));
    assert(longer.drop_last() =~= entries);
    assert(zip_map(names.push(x), bits.push(b)) == zip_map(names, bits).insert(x, b));
    lemma_zip_map_dom(names, bits);
    assert(!zip_map(names, bits).dom().contains(x));
    assert(seq![x][0] == x);
    assert(seq![x].contains(x));
    assert(seq![x].to_set().contains(x));
    assert(constant_map(seq![x], b).dom() =~= set![x]) by {
        assert forall|k: Seq<char>| seq![x].to_set().contains(k) implies k == x by {
            let i = choose|i: int| 0 <= i < 1 && seq![x][i] == k;
        }
    }
    assert(override_with(override_with(valuation, constant_map(seq![x], b)), zip_map(names, bits))
        =~= override_with(valuation, zip_map(names, bits).insert(x, b)));
}

/// A table whose names and outputs are those of another evaluates as it does.
proof fn lemma_same_table_evaluation(a: TruthTable, b: TruthTable, valuation: Map<Seq<char>, bool>, default: bool)
    requires
        a.names() == b.names(),
        a.outputs@ == b.outputs@,
    ensures
        a.spec_evaluate(valuation, default) == b.spec_evaluate(valuation, default),
{
}

/// After the first `k` steps of an elimination by `|`, a valuation is satisfied exactly when
/// some values of the first `k` variables satisfy the table.
proof fn lemma_chain_exists(
    table: TruthTable,
    variables: Seq<Seq<char>>,
    steps: Seq<TruthTable>,
    result: TruthTable,
    k: int,
    default: bool,
)
    requires
        table.wf(),
        distinct_names(variables),
        eliminated_each(table, variables, BitOperation::Or, steps, result),
        0 <= k <= variables.len(),
    ensures
        forall|valuation: Map<Seq<char>, bool>| #[trigger] steps[k].spec_evaluate(valuation, default) <==> exists|bits: Seq<bool>| bits.len() == k
            && #[trigger] table.spec_evaluate(override_with(valuation, zip_map(variables.subrange(0, k), bits)), default),
    decreases k,
{
    if k == 0 {
        assert forall|valuation: Map<Seq<char>, bool>| #[trigger] steps[k].spec_evaluate(valuation, default) <==> exists|bits: Seq<bool>| bits.len() == k
            && #[trigger] table.spec_evaluate(override_with(valuation, zip_map(variables.subrange(0, k), bits)), default) by {
            let none = Seq::<bool>::empty();
            assert(zip_map(variables.subrange(0, 0), none) =~= Map::<Seq<char>, bool>::empty());
            assert(override_with(valuation, zip_map(variables.subrange(0, 0), none)) =~= valuation);
            lemma_same_table_evaluation(steps[0], table, valuation, default);
            if exists|bits: Seq<bool>| bits.len() == k && #[trigger] table.spec_evaluate(override_with(valuation, zip_map(variables.subrange(0, k), bits)), default) {
                let bits = choose|bits: Seq<bool>| bits.len() == k && #[trigger] table.spec_evaluate(override_with(valuation, zip_map(variables.subrange(0, k), bits)), default);
                assert(bits =~= none);
            }
        }
    } else {
        lemma_chain_exists(table, variables, steps, result, k - 1, default);
        let x = variables[k - 1];
        let prefix = variables.subrange(0, k - 1);
        assert(variables.subrange(0, k) =~= prefix.push(x));
        assert(!prefix.contains(x)) by {
            if prefix.contains(x) {
                let j = choose|j: int| 0 <= j < prefix.len() && prefix[j] == x;
                assert(variables[j] == variables[k - 1]);
            }
        }
        assert(steps[k - 1].wf());
        assert(eliminated(steps[k - 1], seq![x], BitOperation::Or, steps[k]));
        assert forall|valuation: Map<Seq<char>, bool>| #[trigger] steps[k].spec_evaluate(valuation, default) <==> exists|bits: Seq<bool>| bits.len() == k
            && #[trigger] table.spec_evaluate(override_with(valuation, zip_map(variables.subrange(0, k), bits)), default) by {
            law_elimination_evaluation(steps[k - 1], seq![x], BitOperation::Or, steps[k], valuation, default);
            let low = override_with(valuation, constant_map(seq![x], false));
            let high = override_with(valuation, constant_map(seq![x], true));
            assert(steps[k - 1].spec_evaluate(low, default) == steps[k - 1].spec_evaluate(low, default));
            assert(steps[k - 1].spec_evaluate(high, default) == steps[k - 1].spec_evaluate(high, default));
            if steps[k].spec_evaluate(valuation, default) {
                let b = steps[k - 1].spec_evaluate(high, default);
                let chosen = if b { high } else { low };
                assert(steps[k - 1].spec_evaluate(chosen, default));
                let bits0 = choose|bits: Seq<bool>| bits.len() == k - 1
                    && #[trigger] table.spec_evaluate(override_with(chosen, zip_map(prefix, bits)), default);
                lemma_override_then_zip(valuation, prefix, bits0, x, b);
                assert(table.spec_evaluate(override_with(valuation, zip_map(variables.subrange(0, k), bits0.push(b))), default));
            }
            if exists|bits: Seq<bool>| bits.len() == k && #[trigger] table.spec_evaluate(override_with(valuation, zip_map(variables.subrange(0, k), bits)), default) {
                let bits = choose|bits: Seq<bool>| bits.len() == k && #[trigger] table.spec_evaluate(override_with(valuation, zip_map(variables.subrange(0, k), bits)), default);
                let b = bits[k - 1];
                let rest = bits.drop_last();
                assert(rest.push(b) =~= bits);
                lemma_override_then_zip(valuation, prefix, rest, x, b);
                let chosen = if b { high } else { low };
                assert(table.spec_evaluate(override_with(chosen, zip_map(prefix, rest)), default));
                assert(steps[k - 1].spec_evaluate(chosen, default));
            }
        }
    }
}

/// Law: after existential quantification of distinct `variables`, a valuation is satisfied
/// exactly when some values of the `variables` satisfy the table.
pub proof fn law_existential_evaluation(
    table: TruthTable,
    variables: Seq<Seq<char>>,
    steps: Seq<TruthTable>,
    result: TruthTable,
    valuation: Map<Seq<char>, bool>,
    default: bool,
)
    requires
        table.wf(),
        distinct_names(variables),
        eliminated_each(table, variables, BitOperation::Or, steps, result),
    ensures
        result.spec_evaluate(valuation, default) <==> exists|bits: Seq<bool>| bits.len() == variables.len()
            && #[trigger] table.spec_evaluate(override_with(valuation, zip_map(variables, bits)), default),
{
    lemma_chain_exists(table, variables, steps, result, variables.len() as int, default);
    assert(variables.subrange(0, variables.len() as int) =~= variables);
    assert(steps[variables.len() as int] == result);
    assert(result.spec_evaluate(valuation, default) == steps[variables.len() as int].spec_evaluate(valuation, default));
}

/// After the first `k` steps of an elimination by `&`, a valuation is satisfied exactly when
/// all values of the first `k` variables satisfy the table.
proof fn lemma_chain_forall(
    table: TruthTable,
    variables: Seq<Seq<char>>,
    steps: Seq<TruthTable>,
    result: TruthTable,
    k: int,
    default: bool,
)
    requires
        table.wf(),
        distinct_names(variables),
        eliminated_each(table, variables, BitOperation::And, steps, result),
        0 <= k <= variables.len(),
    ensures
        forall|valuation: Map<Seq<char>, bool>| #[trigger] steps[k].spec_evaluate(valuation, default) <==> forall|bits: Seq<bool>| bits.len() == k
            ==> #[trigger] table.spec_evaluate(override_with(valuation, zip_map(variables.subrange(0, k), bits)), default),
    decreases k,
{
    if k == 0 {
        assert forall|valuation: Map<Seq<char>, bool>| #[trigger] steps[k].spec_evaluate(valuation, default) <==> forall|bits: Seq<bool>| bits.len() == k
            ==> #[trigger] table.spec_evaluate(override_with(valuation, zip_map(variables.subrange(0, k), bits)), default) by {
            let none = Seq::<bool>::empty();
            assert(zip_map(variables.subrange(0, 0), none) =~= Map::<Seq<char>, bool>::empty());
            assert(override_with(valuation, zip_map(variables.subrange(0, 0), none)) =~= valuation);
            lemma_same_table_evaluation(steps[0], table, valuation, default);
            assert forall|bits: Seq<bool>| bits.len() == k implies bits == none by {
                assert(bits =~= none);
            }
        }
    } else {
        lemma_chain_forall(table, variables, steps, result, k - 1, default);
        let x = variables[k - 1];
        let prefix = variables.subrange(0, k - 1);
        assert(variables.subrange(0, k) =~= prefix.push(x));
        assert(!prefix.contains(x)) by {
            if prefix.contains(x) {
                let j = choose|j: int| 0 <= j < prefix.len() && prefix[j] == x;
                assert(variables[j] == variables[k - 1]);
            }
        }
        assert(steps[k - 1].wf());
        assert(eliminated(steps[k - 1], seq![x], BitOperation::And, steps[k]));
        assert forall|valuation: Map<Seq<char>, bool>| #[trigger] steps[k].spec_evaluate(valuation, default) <==> forall|bits: Seq<bool>| bits.len() == k
            ==> #[trigger] table.spec_evaluate(override_with(valuation, zip_map(variables.subrange(0, k), bits)), default) by {
            law_elimination_evaluation(steps[k - 1], seq![x], BitOperation::And, steps[k], valuation, default);
            let low = override_with(valuation, constant_map(seq![x], false));
            let high = override_with(valuation, constant_map(seq![x], true));
            assert(steps[k - 1].spec_evaluate(low, default) == steps[k - 1].spec_evaluate(low, default));
            assert(steps[k - 1].spec_evaluate(high, default) == steps[k - 1].spec_evaluate(high, default));
            if steps[k].spec_evaluate(valuation, default) {
                assert forall|bits: Seq<bool>| bits.len() == k implies #[trigger] table.spec_evaluate(override_with(valuation, zip_map(variables.subrange(0, k), bits)), default) by {
                    let b = bits[k - 1];
                    let rest = bits.drop_last();
                    assert(rest.push(b) =~= bits);
                    lemma_override_then_zip(valuation, prefix, rest, x, b);
                    let chosen = if b { high } else { low };
                    assert(steps[k - 1].spec_evaluate(chosen, default));
                    assert(table.spec_evaluate(override_with(chosen, zip_map(prefix, rest)), default));
                }
            }
            if forall|bits: Seq<bool>| bits.len() == k ==> #[trigger] table.spec_evaluate(override_with(valuation, zip_map(variables.subrange(0, k), bits)), default) {
                assert forall|rest: Seq<bool>| rest.len() == k - 1 implies #[trigger] table.spec_evaluate(override_with(low, zip_map(prefix, rest)), default) by {
                    lemma_override_then_zip(valuation, prefix, rest, x, false);
                    assert(table.spec_evaluate(override_with(valuation, zip_map(variables.subrange(0, k), rest.push(false))), default));
                }
                assert forall|rest: Seq<bool>| rest.len() == k - 1 implies #[trigger] table.spec_evaluate(override_with(high, zip_map(prefix, rest)), default) by {
                    lemma_override_then_zip(valuation, prefix, rest, x, true);
                    assert(table.spec_evaluate(override_with(valuation, zip_map(variables.subrange(0, k), rest.push(true))), default));
                }
                assert(steps[k - 1].spec_evaluate(low, default));
                assert(steps[k - 1].spec_evaluate(high, default));
            }
        }
    }
}

/// Law: after universal quantification of distinct `variables`, a valuation is satisfied
/// exactly when all values of the `variables` satisfy the table.
pub proof fn law_universal_evaluation(
    table: TruthTable,
    variables: Seq<Seq<char>>,
    steps: Seq<TruthTable>,
    result: TruthTable,
    valuation: Map<Seq<char>, bool>,
    default: bool,
)
    requires
        table.wf(),
        distinct_names(variables),
        eliminated_each(table, variables, BitOperation::And, steps, result),
    ensures
        result.spec_evaluate(valuation, default) <==> forall|bits: Seq<bool>| bits.len() == variables.len()
            ==> #[trigger] table.spec_evaluate(override_with(valuation, zip_map(variables, bits)), default),
{
    lemma_chain_forall(table, variables, steps, result, variables.len() as int, default);
    assert(variables.subrange(0, variables.len() as int) =~= variables);
    assert(steps[variables.len() as int] == result);
    assert(result.spec_evaluate(valuation, default) == steps[variables.len() as int].spec_evaluate(valuation, default));
}

} // verus!
