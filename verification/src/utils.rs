//! Conversions between row indexes of a truth table and Boolean points.
use vstd::arithmetic::power2::*;
use vstd::prelude::*;

verus! {

/// The binary digits of `n`, least significant first, with no trailing zero digits.
pub open spec fn lsb_digits(n: nat) -> Seq<bool>
    decreases n,
{
    if n == 0 {
        Seq::empty()
    } else {
        seq![n % 2 == 1] + lsb_digits(n / 2)
    }
}

/// The Boolean point (most significant digit first) of `row_index`, padded with leading
/// `false` values to at least `min_len` digits.
pub open spec fn spec_row_index_to_bool_point(row_index: nat, min_len: nat) -> Seq<bool> {
    let digits = lsb_digits(row_index);
    let padding = if digits.len() < min_len {
        (min_len - digits.len()) as nat
    } else {
        0
    };
    (digits + Seq::new(padding, |i: int| false)).reverse()
}

/// The row index that a Boolean point stands for: the point read as a binary number,
/// most significant digit first.
pub open spec fn point_index(point: Seq<bool>) -> nat
    decreases point.len(),
{
    if point.len() == 0 {
        0
    } else {
        2 * point_index(point.drop_last()) + (if point.last() {
            1nat
        } else {
            0nat
        })
    }
}

/// The `i`-th digit (most significant first) of the `n`-digit binary representation of `k`.
pub open spec fn index_digit(k: nat, n: nat, i: int) -> bool {
    (k / pow2((n - 1 - i) as nat)) % 2 == 1
}

/// Turns a row index into a Boolean point with at least `min_target_len` digits.
pub fn row_index_to_bool_point(row_index: usize, min_target_len: usize) -> (result: Vec<bool>)
    ensures
        result@ == spec_row_index_to_bool_point(row_index as nat, min_target_len as nat),
{
    let mut digits: Vec<bool> = Vec::new();
    let mut rest = row_index;
    while rest > 0
        invariant
            lsb_digits(row_index as nat) == digits@ + lsb_digits(rest as nat),
        decreases rest,
    {
        let digit = rest % 2;
        proof {
            assert(lsb_digits(rest as nat) == seq![rest % 2 == 1] + lsb_digits((rest / 2) as nat));
        }
        digits.push(digit != 0);
        rest = rest / 2;
        proof {
            assert(digits@ + lsb_digits(rest as nat) =~= (digits@.drop_last() + seq![digit != 0])
                + lsb_digits(rest as nat));
        }
    }
    proof {
        assert(digits@ =~= digits@ + lsb_digits(0));
    }
    let ghost lsb = digits@;
    while digits.len() < min_target_len
        invariant
            digits@.len() >= lsb.len(),
            digits@.subrange(0, lsb.len() as int) == lsb,
            forall|j: int| lsb.len() <= j < digits@.len() ==> !digits@[j],
            digits@.len() <= lsb.len() || digits@.len() <= min_target_len,
        decreases min_target_len - digits.len(),
    {
        digits.push(false);
    }
    let mut result: Vec<bool> = Vec::new();
    let mut k = digits.len();
    while k > 0
        invariant
            k <= digits.len(),
            result@ == digits@.subrange(k as int, digits@.len() as int).reverse(),
        decreases k,
    {
        k = k - 1;
        result.push(digits[k]);
        proof {
            assert(result@ =~= digits@.subrange(k as int, digits@.len() as int).reverse());
        }
    }
    proof {
        let padding = if lsb.len() < min_target_len {
            (min_target_len - lsb.len()) as nat
        } else {
            0
        };
        assert(digits@ =~= lsb + Seq::new(padding, |i: int| false));
        assert(digits@.subrange(0, digits@.len() as int) =~= digits@);
    }
    result
}

/// Reads a Boolean point as a binary number, most significant digit first.
pub fn boolean_point_to_row_index(point: &[bool]) -> (index: usize)
    requires
        point_index(point@) <= usize::MAX,
    ensures
        index == point_index(point@),
{
    let mut index: usize = 0;
    let mut i: usize = 0;
    while i < point.len()
        invariant
            i <= point@.len(),
            point_index(point@) <= usize::MAX,
            index == point_index(point@.subrange(0, i as int)),
        decreases point.len() - i,
    {
        proof {
            lemma_point_index_prefix_le(point@, (i + 1) as nat);
            assert(point@.subrange(0, i + 1).drop_last() =~= point@.subrange(0, i as int));
        }
        if point[i] {
            index = 2 * index + 1;
        } else {
            index = 2 * index;
        }
        i = i + 1;
    }
    proof {
        assert(point@.subrange(0, i as int) =~= point@);
    }
    index
}

/// The value of a prefix never exceeds the value of the whole point.
pub proof fn lemma_point_index_prefix_le(point: Seq<bool>, k: nat)
    requires
        k <= point.len(),
    ensures
        point_index(point.subrange(0, k as int)) <= point_index(point),
    decreases point.len() - k,
{
    if k < point.len() {
        lemma_point_index_prefix_le(point, k + 1);
        assert(point.subrange(0, k + 1 as int).drop_last() =~= point.subrange(0, k as int));
    } else {
        assert(point.subrange(0, k as int) =~= point);
    }
}


/// A point made only of `false` digits stands for row `0`.
proof fn lemma_point_index_all_false(point: Seq<bool>)
    requires
        forall|i: int| 0 <= i < point.len() ==> !point[i],
    ensures
        point_index(point) == 0,
    decreases point.len(),
{
    if point.len() > 0 {
        lemma_point_index_all_false(point.drop_last());
    }
}

/// A point of length `n` stands for a row index below `2^n`.
pub proof fn lemma_point_index_bound(point: Seq<bool>)
    ensures
        point_index(point) < pow2(point.len()),
    decreases point.len(),
{
    if point.len() > 0 {
        lemma_point_index_bound(point.drop_last());
        lemma_pow2_unfold(point.len());
    } else {
        lemma2_to64();
    }
}

/// The binary digits of a number below `2^n` are at most `n`.
proof fn lemma_lsb_digits_len(k: nat, n: nat)
    requires
        k < pow2(n),
    ensures
        lsb_digits(k).len() <= n,
    decreases k,
{
    if k > 0 {
        if n == 0 {
            lemma2_to64();
        } else {
            lemma_pow2_unfold(n);
            lemma_lsb_digits_len(k / 2, (n - 1) as nat);
        }
    }
}

/// Reading the reversed digits (padded with zeros) gives the number back.
proof fn lemma_point_index_of_digits(k: nat, z: nat)
    ensures
        point_index((lsb_digits(k) + Seq::new(z, |i: int| false)).reverse()) == k,
    decreases k,
{
    let zeros = Seq::new(z, |i: int| false);
    if k == 0 {
        assert(lsb_digits(0) + zeros =~= zeros);
        lemma_point_index_all_false(zeros.reverse());
    } else {
        let rest = lsb_digits(k / 2) + zeros;
        lemma_point_index_of_digits(k / 2, z);
        assert(lsb_digits(k) + zeros =~= seq![k % 2 == 1] + rest);
        assert((seq![k % 2 == 1] + rest).reverse().drop_last() =~= rest.reverse());
        assert((seq![k % 2 == 1] + rest).reverse().last() == (k % 2 == 1));
    }
}

/// Two points of the same length with the same row index are the same point.
proof fn lemma_point_index_injective(a: Seq<bool>, b: Seq<bool>)
    requires
        a.len() == b.len(),
        point_index(a) == point_index(b),
    ensures
        a == b,
    decreases a.len(),
{
    if a.len() > 0 {
        lemma_point_index_injective(a.drop_last(), b.drop_last());
        assert(a =~= a.drop_last().push(a.last()));
        assert(b =~= b.drop_last().push(b.last()));
    } else {
        assert(a =~= b);
    }
}

/// Turning a row index below `2^n` into a point of length `n` and back gives the same index.
pub proof fn lemma_row_index_point_roundtrip(row_index: nat, n: nat)
    requires
        row_index < pow2(n),
    ensures
        spec_row_index_to_bool_point(row_index, n).len() == n,
        point_index(spec_row_index_to_bool_point(row_index, n)) == row_index,
{
    lemma_lsb_digits_len(row_index, n);
    let digits = lsb_digits(row_index);
    lemma_point_index_of_digits(row_index, (n - digits.len()) as nat);
}

/// Turning a point into its row index and back gives the same point.
pub proof fn lemma_point_row_index_roundtrip(point: Seq<bool>)
    ensures
        spec_row_index_to_bool_point(point_index(point), point.len()) == point,
{
    lemma_point_index_bound(point);
    lemma_row_index_point_roundtrip(point_index(point), point.len());
    lemma_point_index_injective(
        spec_row_index_to_bool_point(point_index(point), point.len()),
        point,
    );
}

/// Law: turning any row index into a point of at least `n` digits and back gives the same
/// index. The point has `n` digits, or as many as the binary digits of the index where those
/// are more.
pub proof fn law_row_index_roundtrip(row_index: nat, n: nat)
    ensures
        point_index(spec_row_index_to_bool_point(row_index, n)) == row_index,
        spec_row_index_to_bool_point(row_index, n).len() == if lsb_digits(row_index).len() < n {
            n
        } else {
            lsb_digits(row_index).len()
        },
{
    let digits = lsb_digits(row_index);
    let padding: nat = if digits.len() < n { (n - digits.len()) as nat } else { 0 };
    lemma_point_index_of_digits(row_index, padding);
}

} // verus!
