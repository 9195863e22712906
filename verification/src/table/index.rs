//! Row indexes of valuations.
use crate::utils::{lemma_point_index_prefix_le, point_index};
use crate::valuation::Valuation;
use vstd::prelude::*;

verus! {

/// The value of `name` under `valuation`, falling back on `default` for an unassigned name.
pub open spec fn lookup(valuation: Map<Seq<char>, bool>, name: Seq<char>, default: Option<bool>) -> Option<bool> {
    if valuation.dom().contains(name) {
        Some(valuation[name])
    } else {
        default
    }
}

/// The Boolean point that `valuation` gives to `names`, with `default` for unassigned names.
pub open spec fn valuation_point(names: Seq<Seq<char>>, valuation: Map<Seq<char>, bool>, default: bool) -> Seq<bool> {
    Seq::new(names.len(), |i: int| lookup(valuation, names[i], Some(default)) == Some(true))
}

/// The Boolean point that `valuation` gives to `names`: unassigned names take `default`,
/// or `false` when there is no default.
pub open spec fn optional_point(names: Seq<Seq<char>>, valuation: Map<Seq<char>, bool>, default: Option<bool>) -> Seq<bool> {
    Seq::new(names.len(), |i: int| lookup(valuation, names[i], default) == Some(true))
}

/// The names that `valuation` leaves unassigned, last first.
pub open spec fn unassigned_reversed(names: Seq<Seq<char>>, valuation: Map<Seq<char>, bool>) -> Seq<Seq<char>>
    decreases names.len(),
{
    if names.len() == 0 {
        Seq::empty()
    } else if valuation.dom().contains(names.last()) {
        unassigned_reversed(names.drop_last(), valuation)
    } else {
        seq![names.last()] + unassigned_reversed(names.drop_last(), valuation)
    }
}

/// The unassigned names that are reported: none when a default stands for them.
pub open spec fn reported_unassigned(names: Seq<Seq<char>>, valuation: Map<Seq<char>, bool>, default: Option<bool>) -> Seq<Seq<char>> {
    if default is Some {
        Seq::empty()
    } else {
        unassigned_reversed(names, valuation)
    }
}

/// No name is left out by `valuation`.
pub proof fn lemma_unassigned_empty(names: Seq<Seq<char>>, valuation: Map<Seq<char>, bool>)
    ensures
        (unassigned_reversed(names, valuation).len() == 0) == (forall|i: int| 0 <= i < names.len() ==> valuation.dom().contains(#[trigger] names[i])),
    decreases names.len(),
{
    if names.len() > 0 {
        lemma_unassigned_empty(names.drop_last(), valuation);
        assert forall|i: int| 0 <= i < names.len() - 1 implies names.drop_last()[i] == #[trigger] names[i] by {}
        if forall|i: int| 0 <= i < names.len() ==> valuation.dom().contains(#[trigger] names[i]) {
            assert(valuation.dom().contains(names[names.len() - 1]));
        }
    }
}

/// The row index of the point of `order` under `valuation`, together with the unassigned
/// names (last first) when there is no `default_value`.
fn values_to_row_index_common(
    order: &Vec<String>,
    valuation: &Valuation,
    default_value: Option<bool>,
) -> (result: (usize, Vec<String>))
    requires
        point_index(optional_point(order.deep_view(), valuation@, default_value)) <= usize::MAX,
    ensures
        result.0 == point_index(optional_point(order.deep_view(), valuation@, default_value)),
        result.1.deep_view() == reported_unassigned(order.deep_view(), valuation@, default_value),
{
    let ghost names = order.deep_view();
    let ghost point = optional_point(names, valuation@, default_value);
    let mut index: usize = 0;
    let mut i: usize = 0;
    while i < order.len()
        invariant
            names == order.deep_view(),
            point == optional_point(names, valuation@, default_value),
            point_index(point) <= usize::MAX,
            i <= names.len(),
            index == point_index(point.subrange(0, i as int)),
        decreases order.len() - i,
    {
        let bit = match (valuation.get(&order[i]), default_value) {
            (Some(true), _) | (None, Some(true)) => true,
            _ => false,
        };
        proof {
            assert(bit == point[i as int]);
            lemma_point_index_prefix_le(point, (i + 1) as nat);
            assert(point.subrange(0, i + 1).drop_last() =~= point.subrange(0, i as int));
        }
        if bit {
            index = 2 * index + 1;
        } else {
            index = 2 * index;
        }
        i = i + 1;
    }
    proof {
        assert(point.subrange(0, i as int) =~= point);
    }
    let mut not_found: Vec<String> = Vec::new();
    if default_value.is_none() {
        let mut k = order.len();
        proof {
            assert(names.subrange(0, k as int) =~= names);
            assert(not_found.deep_view() + unassigned_reversed(names, valuation@) =~= unassigned_reversed(names, valuation@));
        }
        while k > 0
            invariant
                names == order.deep_view(),
                k <= names.len(),
                unassigned_reversed(names, valuation@) == not_found.deep_view() + unassigned_reversed(names.subrange(0, k as int), valuation@),
            decreases k,
        {
            let ghost prefix = names.subrange(0, k as int);
            proof {
                assert(prefix.drop_last() =~= names.subrange(0, k - 1));
                assert(prefix.last() == names[k - 1]);
            }
            if !valuation.contains_key(&order[k - 1]) {
                let ghost before = not_found.deep_view();
                not_found.push(order[k - 1].clone());
                proof {
                    assert(not_found.deep_view() =~= before.push(names[k - 1]));
                    assert(before + (seq![names[k - 1]] + unassigned_reversed(names.subrange(0, k - 1), valuation@)) =~= not_found.deep_view() + unassigned_reversed(names.subrange(0, k - 1), valuation@));
                }
            }
            k = k - 1;
        }
        proof {
            assert(names.subrange(0, 0).len() == 0);
            assert(not_found.deep_view() + unassigned_reversed(names.subrange(0, 0), valuation@) =~= not_found.deep_view());
        }
    } else {
        proof {
            assert(not_found.deep_view() =~= Seq::<Seq<char>>::empty());
        }
    }
    (index, not_found)
}

/// The row index of the point of `order` under `valuation`; unassigned names count as `false`.
pub fn values_to_row_index(order: &Vec<String>, valuation: &Valuation) -> (index: usize)
    requires
        point_index(valuation_point(order.deep_view(), valuation@, false)) <= usize::MAX,
    ensures
        index == point_index(valuation_point(order.deep_view(), valuation@, false)),
{
    proof {
        assert(optional_point(order.deep_view(), valuation@, Some(false)) =~= valuation_point(order.deep_view(), valuation@, false));
    }
    let (index, _errors) = values_to_row_index_common(order, valuation, Some(false));
    index
}

/// The row index of the point of `order` under `valuation`; unassigned names take `default_value`.
pub fn values_to_row_index_with_default(order: &Vec<String>, valuation: &Valuation, default_value: bool) -> (index: usize)
    requires
        point_index(valuation_point(order.deep_view(), valuation@, default_value)) <= usize::MAX,
    ensures
        index == point_index(valuation_point(order.deep_view(), valuation@, default_value)),
{
    proof {
        assert(optional_point(order.deep_view(), valuation@, Some(default_value)) =~= valuation_point(order.deep_view(), valuation@, default_value));
    }
    let (index, _errors) = values_to_row_index_common(order, valuation, Some(default_value));
    index
}

/// The row index of the point of `order` under `valuation`, or the unassigned names (last
/// first) when some name of `order` is unassigned.
pub fn values_to_row_index_checked(order: &Vec<String>, valuation: &Valuation) -> (result: Result<usize, Vec<String>>)
    requires
        point_index(optional_point(order.deep_view(), valuation@, None)) <= usize::MAX,
    ensures
        result is Ok <==> (forall|i: int| 0 <= i < order@.len() ==> valuation@.dom().contains(#[trigger] order.deep_view()[i])),
        result matches Ok(index) ==> index == point_index(valuation_point(order.deep_view(), valuation@, false)),
        result matches Err(missing) ==> missing.deep_view() == unassigned_reversed(order.deep_view(), valuation@),
{
    let (index, errors) = values_to_row_index_common(order, valuation, None);
    proof {
        lemma_unassigned_empty(order.deep_view(), valuation@);
        assert(optional_point(order.deep_view(), valuation@, None) =~= valuation_point(order.deep_view(), valuation@, false));
    }
    if errors.len() == 0 {
        Ok(index)
    } else {
        Err(errors)
    }
}

} // verus!
