//! All the valuations of a set of variables.
use crate::literals::distinct_names;
use crate::valuation::{lemma_zip_map_dom, zip_map, Valuation};
use vstd::arithmetic::div_mod::{lemma_basic_div, lemma_hoist_over_denominator, lemma_mod_multiples_vanish};
use vstd::arithmetic::power2::{lemma_pow2_adds, lemma_pow2_pos, lemma_pow2_unfold, pow2};
use vstd::prelude::*;

verus! {

/// The value that valuation number `k` gives to variable number `j`: `true` when the `j`-th
/// binary digit (least significant first) of `k` is `0`.
pub open spec fn power_set_value(k: nat, j: nat) -> bool {
    (k / pow2(j)) % 2 == 0
}

/// Valuation number `k` of the variables `variables`.
pub open spec fn power_set_valuation(variables: Seq<Seq<char>>, k: nat) -> Map<Seq<char>, bool> {
    zip_map(variables, Seq::new(variables.len(), |j: int| power_set_value(k, j as nat)))
}

/// In the first half of the valuations of `n + 1` variables, the last one is `true`.
proof fn lemma_first_half(k: nat, n: nat)
    requires
        k < pow2(n),
    ensures
        power_set_value(k, n),
{
    lemma_pow2_pos(n);
    lemma_basic_div(k as int, pow2(n) as int);
}

/// In the second half of the valuations of `n + 1` variables, the last one is `false`.
proof fn lemma_second_half_last(k: nat, n: nat)
    requires
        k < pow2(n),
    ensures
        !power_set_value(k + pow2(n), n),
{
    lemma_pow2_pos(n);
    lemma_basic_div(k as int, pow2(n) as int);
    lemma_hoist_over_denominator(k as int, 1, pow2(n));
}

/// In the second half of the valuations of `n + 1` variables, the first `n` variables take
/// the values they take in the first half.
proof fn lemma_second_half(k: nat, n: nat, j: nat)
    requires
        k < pow2(n),
        j < n,
    ensures
        power_set_value(k + pow2(n), j) == power_set_value(k, j),
{
    lemma_pow2_pos(n);
    lemma_pow2_pos(j);
    let e = (n - j - 1) as nat;
    lemma_pow2_adds(j, (n - j) as nat);
    lemma_pow2_unfold((n - j) as nat);
    assert(pow2(n) == pow2(j) * (2 * pow2(e))) by {
        assert(pow2((n - j) as nat) == 2 * pow2(e));
    }
    let q = pow2(e) as int;
    assert(pow2(n) as int == (2 * q) * pow2(j)) by (nonlinear_arith)
        requires
            pow2(n) == pow2(j) * (2 * pow2(e)),
            q == pow2(e),
    {}
    lemma_hoist_over_denominator(k as int, 2 * q, pow2(j));
    lemma_mod_multiples_vanish(q, (k / pow2(j)) as int, 2);
    assert((2 * q + (k / pow2(j)) as int) % 2 == ((k / pow2(j)) as int) % 2);
}

/// Adding a variable to the end of the variables of a valuation.
proof fn lemma_zip_push(names: Seq<Seq<char>>, bits: Seq<bool>, x: Seq<char>, b: bool)
    requires
        names.len() == bits.len(),
    ensures
        zip_map(names.push(x), bits.push(b)) == zip_map(names, bits).insert(x, b),
{
    let entries = Seq::new(names.len(), |i: int| (names[i], bits[i]));
    let longer = Seq::new(names.len() + 1, |i: int| (names.push(x)[i], bits.push(b)[i]));
    assert(longer.drop_last() =~= entries);
}

/// Valuation number `k` of the variables, with one more variable at the end.
proof fn lemma_valuation_push(variables: Seq<Seq<char>>, x: Seq<char>, k: nat, b: bool)
    requires
        power_set_value(k, variables.len()) == b,
    ensures
        power_set_valuation(variables.push(x), k) == power_set_valuation(variables, k).insert(x, b),
{
    let bits = Seq::new(variables.len(), |j: int| power_set_value(k, j as nat));
    let longer = Seq::new(variables.len() + 1, |j: int| power_set_value(k, j as nat));
    assert(longer =~= bits.push(b));
    lemma_zip_push(variables, bits, x, b);
}

/// Valuations number `k` and `k + 2^n` of `n` variables are the same.
proof fn lemma_valuation_second_half(variables: Seq<Seq<char>>, k: nat)
    requires
        k < pow2(variables.len()),
    ensures
        power_set_valuation(variables, k + pow2(variables.len())) == power_set_valuation(variables, k),
{
    let n = variables.len();
    let a = Seq::new(n, |j: int| power_set_value(k + pow2(n), j as nat));
    let b = Seq::new(n, |j: int| power_set_value(k, j as nat));
    assert forall|j: int| 0 <= j < n implies a[j] == b[j] by {
        lemma_second_half(k, n, j as nat);
    }
    assert(a =~= b);
}

/// Adds to `result` the `2^n` valuations of the `n` variables of `initial`, each on top of
/// `current`: the last variable `true` in the first half, `false` in the second half, the
/// other variables in the same order within each half.
pub fn generate_power_set_rec(initial: Vec<String>, current: Valuation, result: &mut Vec<Valuation>)
    requires
        distinct_names(initial.deep_view()),
    ensures
        final(result)@.len() == old(result)@.len() + pow2(initial@.len() as nat),
        forall|i: int| 0 <= i < old(result)@.len() ==> #[trigger] final(result)@[i] == old(result)@[i],
        forall|k: int| 0 <= k < pow2(initial@.len() as nat) ==> (#[trigger] final(result)@[old(result)@.len() + k])@
            == current@.union_prefer_right(power_set_valuation(initial.deep_view(), k as nat)),
    decreases initial@.len(),
{
    let ghost names = initial.deep_view();
    let ghost start = result@.len();
    let mut initial = initial;
    let mut current = current;
    let ghost before = current@;
    match initial.pop() {
        Some(literal) => {
            let ghost rest = initial.deep_view();
            let ghost n = rest.len();
            proof {
                assert(rest =~= names.drop_last());
                assert(names =~= rest.push(literal@));
                assert(!rest.contains(literal@)) by {
                    if rest.contains(literal@) {
                        let j = choose|j: int| 0 <= j < rest.len() && rest[j] == literal@;
                        assert(names[j] == names[names.len() - 1]);
                    }
                }
                assert(distinct_names(rest)) by {
                    assert forall|i: int, j: int| 0 <= i < rest.len() && 0 <= j < rest.len() && i != j implies #[trigger] rest[i] != #[trigger] rest[j] by {
                        assert(rest[i] == names[i] && rest[j] == names[j]);
                    }
                }
                lemma_pow2_unfold(names.len());
            }
            current.insert(literal.clone(), true);
            let ghost with_true = current@;
            let ghost middle = result@;
            let first = initial.clone();
            proof {
                assert(first.deep_view() =~= rest);
            }
            generate_power_set_rec(first, current.clone(), result);
            proof {
                assert(initial.deep_view() == rest);
                assert(result@.len() == middle.len() + pow2(n));
            }
            current.insert(literal, false);
            let ghost with_false = current@;
            let ghost after_first = result@;
            generate_power_set_rec(initial, current.clone(), result);
            proof {
                assert(result@.len() == after_first.len() + pow2(n));
                assert(pow2(names.len()) == 2 * pow2(n));
                assert(result@.len() == start + pow2(names.len()));
                lemma_zip_map_dom(rest, Seq::new(n, |j: int| power_set_value(0, j as nat)));
                assert forall|k: int| 0 <= k < pow2(names.len()) implies (#[trigger] result@[start + k])@
                    == before.union_prefer_right(power_set_valuation(names, k as nat)) by {
                    if k < pow2(n) {
                        lemma_first_half(k as nat, n);
                        lemma_valuation_push(rest, literal@, k as nat, true);
                        lemma_zip_map_dom(rest, Seq::new(n, |j: int| power_set_value(k as nat, j as nat)));
                        assert(after_first[start + k] == result@[start + k]);
                        assert(before.insert(literal@, true).union_prefer_right(power_set_valuation(rest, k as nat))
                            =~= before.union_prefer_right(power_set_valuation(rest, k as nat).insert(literal@, true)));
                    } else {
                        let k0 = (k - pow2(n)) as nat;
                        lemma_second_half_last(k0, n);
                        lemma_valuation_second_half(rest, k0);
                        lemma_valuation_push(rest, literal@, k as nat, false);
                        lemma_zip_map_dom(rest, Seq::new(n, |j: int| power_set_value(k0, j as nat)));
                        assert(result@[start + k] == result@[after_first.len() + k0 as int]);
                        assert(before.insert(literal@, false).insert(literal@, false) =~= before.insert(literal@, false));
                        assert(before.insert(literal@, true).insert(literal@, false) =~= before.insert(literal@, false));
                        assert(before.insert(literal@, false).union_prefer_right(power_set_valuation(rest, k0))
                            =~= before.union_prefer_right(power_set_valuation(rest, k0).insert(literal@, false)));
                    }
                }
            }
        },
        None => {
            proof {
                assert(names.len() == 0);
                assert(pow2(0) == 1) by {
                    vstd::arithmetic::power2::lemma2_to64();
                }
                assert(power_set_valuation(names, 0) =~= Map::<Seq<char>, bool>::empty());
                assert(before.union_prefer_right(Map::<Seq<char>, bool>::empty()) =~= before);
            }
            result.push(current);
        },
    }
}

/// All the `2^n` valuations of the `n` distinct `variables`: in valuation number `k`,
/// variable number `j` is `true` when the `j`-th binary digit of `k` is `0`.
pub fn generate_arbitrary_power_set(variables: Vec<String>) -> (valuations: Vec<Valuation>)
    requires
        distinct_names(variables.deep_view()),
    ensures
        valuations@.len() == pow2(variables@.len() as nat),
        forall|k: int| 0 <= k < valuations@.len() ==> (#[trigger] valuations@[k])@ == power_set_valuation(variables.deep_view(), k as nat),
{
    let ghost names = variables.deep_view();
    let mut result: Vec<Valuation> = Vec::new();
    generate_power_set_rec(variables, Valuation::new(), &mut result);
    proof {
        assert forall|k: int| 0 <= k < result@.len() implies (#[trigger] result@[k])@ == power_set_valuation(names, k as nat) by {
            assert(result@[0 + k] == result@[k]);
            assert(Map::<Seq<char>, bool>::empty().union_prefer_right(power_set_valuation(names, k as nat)) =~= power_set_valuation(names, k as nat));
        }
    }
    result
}

} // verus!
