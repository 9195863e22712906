//! Inputs of truth tables: all of them, and those that matter for the output.
use crate::literals::{is_sorted_set, sorted_set_insert};
use crate::table::TruthTable;
use crate::utils::{
    boolean_point_to_row_index, lemma_point_index_bound, lemma_point_row_index_roundtrip,
    lemma_row_index_point_roundtrip, point_index, row_index_to_bool_point,
    spec_row_index_to_bool_point,
};
use vstd::arithmetic::power2::pow2;
use vstd::prelude::*;

verus! {

/// Changing input `i` of `point` from `false` to `true` changes the output of `table`.
pub open spec fn flips_output(table: TruthTable, i: int, point: Seq<bool>) -> bool {
    &&& point.len() == table.inputs@.len()
    &&& table.outputs@[point_index(point.update(i, false)) as int] != table.outputs@[point_index(point.update(i, true)) as int]
}

/// Input `i` is essential: there is an input point on which its value decides the output.
pub open spec fn is_essential(table: TruthTable, i: int) -> bool {
    exists|point: Seq<bool>| #[trigger] flips_output(table, i, point)
}

/// The names of the essential inputs of `table`.
pub open spec fn essential_names(table: TruthTable) -> Set<Seq<char>> {
    Set::new(|x: Seq<char>| exists|i: int| 0 <= i < table.names().len() && table.names()[i] == x && #[trigger] is_essential(table, i))
}

impl TruthTable {
    /// Whether input `i` is essential.
    fn input_is_essential(&self, i: usize) -> (essential: bool)
        requires
            self.wf(),
            i < self.inputs@.len(),
        ensures
            essential == is_essential(*self, i as int),
    {
        let n = self.inputs.len();
        let _rows = self.outputs.len();
        let count = self.row_count();
        let mut r: usize = 0;
        while r < count
            invariant
                self.wf(),
                n == self.inputs@.len(),
                i < n,
                count == pow2(n as nat),
                r <= count,
                forall|s: int| 0 <= s < r ==> !(#[trigger] spec_row_index_to_bool_point(s as nat, n as nat)[i as int]) ==> !flips_output(*self, i as int, spec_row_index_to_bool_point(s as nat, n as nat)),
            decreases count - r,
        {
            let point = row_index_to_bool_point(r, n);
            proof {
                lemma_row_index_point_roundtrip(r as nat, n as nat);
            }
            if !point[i] {
                let mut flipped = point.clone();
                flipped.set(i, true);
                proof {
                    assert(point@ =~= point@.update(i as int, false));
                    lemma_point_index_bound(flipped@);
                }
                let index = boolean_point_to_row_index(&flipped);
                if self.outputs[r] != self.outputs[index] {
                    proof {
                        assert(flips_output(*self, i as int, point@));
                    }
                    return true;
                }
            }
            r = r + 1;
        }
        proof {
            assert forall|p: Seq<bool>| !flips_output(*self, i as int, p) by {
                if p.len() == n {
                    let low = p.update(i as int, false);
                    lemma_point_index_bound(low);
                    lemma_point_row_index_roundtrip(low);
                    let s = point_index(low);
                    assert(spec_row_index_to_bool_point(s, n as nat) == low);
                    assert(!low[i as int]);
                    assert(low.update(i as int, false) =~= low);
                    assert(low.update(i as int, true) =~= p.update(i as int, true));
                    assert(p.update(i as int, false) =~= low);
                    assert(!flips_output(*self, i as int, spec_row_index_to_bool_point(s as nat, n as nat)));
                }
            }
        }
        false
    }

    /// The sorted set of the inputs that are essential: those whose value changes the
    /// output for some values of the other inputs.
    pub(crate) fn essential_input_set(&self) -> (essentials: Vec<String>)
        requires
            self.wf(),
        ensures
            is_sorted_set(essentials.deep_view()),
            essentials.deep_view().to_set() == essential_names(*self),
    {
        let mut essentials: Vec<String> = Vec::new();
        let mut i: usize = 0;
        while i < self.inputs.len()
            invariant
                self.wf(),
                i <= self.inputs@.len(),
                is_sorted_set(essentials.deep_view()),
                essentials.deep_view().to_set() == Set::new(|x: Seq<char>| exists|j: int| 0 <= j < i && self.names()[j] == x && #[trigger] is_essential(*self, j)),
            decreases self.inputs.len() - i,
        {
            let ghost before = essentials.deep_view().to_set();
            if self.input_is_essential(i) {
                sorted_set_insert(&mut essentials, self.inputs[i].clone());
                proof {
                    assert(essentials.deep_view().to_set() =~= Set::new(|x: Seq<char>| exists|j: int| 0 <= j < i + 1 && self.names()[j] == x && #[trigger] is_essential(*self, j))) by {
                        assert(is_essential(*self, i as int));
                    }
                }
            } else {
                proof {
                    assert(essentials.deep_view().to_set() =~= Set::new(|x: Seq<char>| exists|j: int| 0 <= j < i + 1 && self.names()[j] == x && #[trigger] is_essential(*self, j))) by {
                        assert forall|x: Seq<char>| (exists|j: int| 0 <= j < i + 1 && self.names()[j] == x && #[trigger] is_essential(*self, j)) implies before.contains(x) by {
                            let j = choose|j: int| 0 <= j < i + 1 && self.names()[j] == x && #[trigger] is_essential(*self, j);
                            assert(j != i);
                        }
                    }
                }
            }
            i = i + 1;
        }
        proof {
            assert(essentials.deep_view().to_set() =~= essential_names(*self));
        }
        essentials
    }

}

} // verus!
