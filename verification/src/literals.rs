//! Variable names: their order, and sorted sets of them.
use vstd::prelude::*;

verus! {

/// Lexicographic order of character sequences, the order of `String` in Rust.
pub open spec fn seq_less(a: Seq<char>, b: Seq<char>) -> bool
    decreases a.len(),
{
    if a.len() == 0 {
        b.len() > 0
    } else if b.len() == 0 {
        false
    } else if a[0] != b[0] {
        (a[0] as u32) < (b[0] as u32)
    } else {
        seq_less(a.drop_first(), b.drop_first())
    }
}

/// Strictly increasing names: the contents of a sorted set, in order.
pub open spec fn is_sorted_set(s: Seq<Seq<char>>) -> bool {
    forall|i: int, j: int| 0 <= i < j < s.len() ==> seq_less(#[trigger] s[i], #[trigger] s[j])
}

/// No name stands twice in `s`.
pub open spec fn distinct_names(s: Seq<Seq<char>>) -> bool {
    forall|i: int, j: int| 0 <= i < s.len() && 0 <= j < s.len() && i != j ==> #[trigger] s[i] != #[trigger] s[j]
}

pub proof fn lemma_seq_less_irreflexive(a: Seq<char>)
    ensures
        !seq_less(a, a),
    decreases a.len(),
{
    if a.len() > 0 {
        lemma_seq_less_irreflexive(a.drop_first());
    }
}

pub proof fn lemma_seq_less_transitive(a: Seq<char>, b: Seq<char>, c: Seq<char>)
    requires
        seq_less(a, b),
        seq_less(b, c),
    ensures
        seq_less(a, c),
    decreases a.len(),
{
    if a.len() > 0 && b.len() > 0 && c.len() > 0 {
        if a[0] == b[0] && b[0] == c[0] {
            lemma_seq_less_transitive(a.drop_first(), b.drop_first(), c.drop_first());
        }
    }
}

pub proof fn lemma_seq_less_total(a: Seq<char>, b: Seq<char>)
    ensures
        a == b || seq_less(a, b) || seq_less(b, a),
    decreases a.len(),
{
    if a.len() > 0 && b.len() > 0 {
        vstd::utf8::char_u32_cast(a[0], a[0] as u32);
        vstd::utf8::char_u32_cast(b[0], b[0] as u32);
        if a[0] == b[0] {
            lemma_seq_less_total(a.drop_first(), b.drop_first());
            if a.drop_first() == b.drop_first() {
                assert(a =~= seq![a[0]] + a.drop_first());
                assert(b =~= seq![b[0]] + b.drop_first());
            }
        }
    } else if a.len() == 0 && b.len() == 0 {
        assert(a =~= b);
    }
}

pub proof fn lemma_seq_less_asymmetric(a: Seq<char>, b: Seq<char>)
    requires
        seq_less(a, b),
    ensures
        !seq_less(b, a),
        a != b,
{
    lemma_seq_less_irreflexive(a);
    if seq_less(b, a) {
        lemma_seq_less_transitive(a, b, a);
    }
}

/// A sorted set holds no name twice.
pub proof fn lemma_sorted_set_distinct(s: Seq<Seq<char>>)
    requires
        is_sorted_set(s),
    ensures
        distinct_names(s),
{
    assert forall|i: int, j: int| 0 <= i < s.len() && 0 <= j < s.len() && i != j implies #[trigger] s[i] != #[trigger] s[j] by {
        if i < j {
            lemma_seq_less_asymmetric(s[i], s[j]);
        } else {
            lemma_seq_less_asymmetric(s[j], s[i]);
        }
    }
}

/// The characters of a string, in order.
pub fn string_chars(s: &String) -> (chars: Vec<char>)
    ensures
        chars@ == s@,
{
    str_chars(s.as_str())
}

/// The characters of a string slice, in order.
pub fn str_chars(text: &str) -> (chars: Vec<char>)
    ensures
        chars@ == text@,
{
    let len = text.unicode_len();
    let mut chars: Vec<char> = Vec::new();
    let mut i: usize = 0;
    while i < len
        invariant
            len == text@.len(),
            i <= len,
            chars@ == text@.subrange(0, i as int),
        decreases len - i,
    {
        chars.push(text.get_char(i));
        i = i + 1;
        proof {
            assert(chars@ =~= text@.subrange(0, i as int));
        }
    }
    proof {
        assert(chars@ =~= text@);
    }
    chars
}

/// Whether `a` comes before `b` in the order of strings.
pub fn string_less(a: &String, b: &String) -> (less: bool)
    ensures
        less == seq_less(a@, b@),
{
    let ca = string_chars(a);
    let cb = string_chars(b);
    let mut i: usize = 0;
    proof {
        assert(ca@.subrange(0, ca@.len() as int) =~= ca@);
        assert(cb@.subrange(0, cb@.len() as int) =~= cb@);
    }
    while i < ca.len() && i < cb.len()
        invariant
            ca@ == a@,
            cb@ == b@,
            i <= ca@.len(),
            i <= cb@.len(),
            ca@.subrange(0, i as int) == cb@.subrange(0, i as int),
            seq_less(ca@, cb@) == seq_less(ca@.subrange(i as int, ca@.len() as int), cb@.subrange(i as int, cb@.len() as int)),
        decreases ca.len() - i,
    {
        let x = ca[i];
        let y = cb[i];
        if x != y {
            proof {
                let sa = ca@.subrange(i as int, ca@.len() as int);
                let sb = cb@.subrange(i as int, cb@.len() as int);
                assert(sa[0] == x && sb[0] == y);
                assert(sa.len() > 0 && sb.len() > 0);
                assert(seq_less(sa, sb) == ((x as u32) < (y as u32)));
            }
            let xv = x as u32;
            let yv = y as u32;
            return xv < yv;
        }
        proof {
            let sa = ca@.subrange(i as int, ca@.len() as int);
            let sb = cb@.subrange(i as int, cb@.len() as int);
            assert(sa.drop_first() =~= ca@.subrange(i + 1, ca@.len() as int));
            assert(sb.drop_first() =~= cb@.subrange(i + 1, cb@.len() as int));
            assert(ca@.subrange(0, i + 1) =~= ca@.subrange(0, i as int).push(x));
            assert(cb@.subrange(0, i + 1) =~= cb@.subrange(0, i as int).push(y));
        }
        i = i + 1;
    }
    i < cb.len()
}

/// Whether the strings are equal.
pub fn string_eq(a: &String, b: &String) -> (equal: bool)
    ensures
        equal == (a@ == b@),
{
    *a == *b
}

/// Inserts `name` into the sorted set `set`, unless it is already there.
pub fn sorted_set_insert(set: &mut Vec<String>, name: String)
    requires
        is_sorted_set(old(set).deep_view()),
    ensures
        is_sorted_set(final(set).deep_view()),
        final(set).deep_view().to_set() == old(set).deep_view().to_set().insert(name@),
{
    let ghost old_set = set.deep_view();
    let mut i: usize = 0;
    while i < set.len()
        invariant
            i <= set@.len(),
            set.deep_view() == old_set,
            is_sorted_set(old_set),
            forall|j: int| 0 <= j < i ==> seq_less(#[trigger] old_set[j], name@),
        ensures
            i <= set@.len(),
            set.deep_view() == old_set,
            forall|j: int| 0 <= j < i ==> seq_less(#[trigger] old_set[j], name@),
            i < set@.len() ==> !seq_less(old_set[i as int], name@),
        decreases set.len() - i,
    {
        if !string_less(&set[i], &name) {
            break;
        }
        i = i + 1;
    }
    if i < set.len() && string_eq(&set[i], &name) {
        proof {
            assert(old_set.to_set().insert(name@) =~= old_set.to_set()) by {
                assert(old_set[i as int] == name@);
            }
        }
        return;
    }
    proof {
        if i < set@.len() {
            lemma_seq_less_total(old_set[i as int], name@);
        }
    }
    set.insert(i, name.clone());
    proof {
        let new_set = set.deep_view();
        assert(new_set =~= old_set.insert(i as int, name@));
        assert forall|a: int, b: int| 0 <= a < b < new_set.len() implies seq_less(#[trigger] new_set[a], #[trigger] new_set[b]) by {
            if b < i {
            } else if b == i {
            } else if a < i {
                if b - 1 > i {
                    lemma_seq_less_transitive(name@, old_set[i as int], old_set[b - 1]);
                }
                lemma_seq_less_transitive(new_set[a], name@, new_set[b]);
            } else if a == i {
                if b - 1 > i {
                    lemma_seq_less_transitive(name@, old_set[i as int], old_set[b - 1]);
                }
            } else {
            }
        }
        assert(new_set.to_set() =~= old_set.to_set().insert(name@)) by {
            assert forall|x: Seq<char>| new_set.to_set().contains(x) implies old_set.to_set().insert(name@).contains(x) by {
                let k = choose|k: int| 0 <= k < new_set.len() && new_set[k] == x;
                if k < i {
                    assert(old_set[k] == x);
                } else if k > i {
                    assert(old_set[k - 1] == x);
                }
            }
            assert forall|x: Seq<char>| old_set.to_set().insert(name@).contains(x) implies new_set.to_set().contains(x) by {
                if x == name@ {
                    assert(new_set[i as int] == x);
                } else {
                    let k = choose|k: int| 0 <= k < old_set.len() && old_set[k] == x;
                    if k < i {
                        assert(new_set[k] == x);
                    } else {
                        assert(new_set[k + 1] == x);
                    }
                }
            }
        }
    }
}

/// Whether the sorted set `set` holds `name`.
pub fn sorted_set_contains(set: &Vec<String>, name: &String) -> (found: bool)
    ensures
        found == set.deep_view().contains(name@),
{
    let mut i: usize = 0;
    while i < set.len()
        invariant
            i <= set@.len(),
            forall|j: int| 0 <= j < i ==> set.deep_view()[j] != name@,
        decreases set.len() - i,
    {
        if string_eq(&set[i], name) {
            proof {
                assert(set.deep_view()[i as int] == name@);
            }
            return true;
        }
        i = i + 1;
    }
    false
}

/// The sorted set of all the names in `names`.
pub fn sorted_set_from(names: &Vec<String>) -> (set: Vec<String>)
    ensures
        is_sorted_set(set.deep_view()),
        set.deep_view().to_set() == names.deep_view().to_set(),
{
    let mut set: Vec<String> = Vec::new();
    let mut i: usize = 0;
    proof {
        assert(set.deep_view().to_set() =~= names.deep_view().subrange(0, 0).to_set());
    }
    while i < names.len()
        invariant
            i <= names@.len(),
            is_sorted_set(set.deep_view()),
            set.deep_view().to_set() == names.deep_view().subrange(0, i as int).to_set(),
        decreases names.len() - i,
    {
        sorted_set_insert(&mut set, names[i].clone());
        proof {
            assert(names.deep_view().subrange(0, i + 1) =~= names.deep_view().subrange(0, i as int).push(names.deep_view()[i as int]));
            names.deep_view().subrange(0, i as int).lemma_push_to_set_commute(names.deep_view()[i as int]);
        }
        i = i + 1;
    }
    proof {
        assert(names.deep_view().subrange(0, i as int) =~= names.deep_view());
    }
    set
}

/// The sorted set of the names in either of two sorted sets.
pub fn sorted_set_union(a: &Vec<String>, b: &Vec<String>) -> (set: Vec<String>)
    requires
        is_sorted_set(a.deep_view()),
    ensures
        is_sorted_set(set.deep_view()),
        set.deep_view().to_set() == a.deep_view().to_set().union(b.deep_view().to_set()),
{
    let mut set = a.clone();
    proof {
        assert(set.deep_view() =~= a.deep_view());
        assert(set.deep_view().to_set() =~= a.deep_view().to_set().union(b.deep_view().subrange(0, 0).to_set()));
    }
    let mut i: usize = 0;
    while i < b.len()
        invariant
            i <= b@.len(),
            is_sorted_set(set.deep_view()),
            set.deep_view().to_set() == a.deep_view().to_set().union(b.deep_view().subrange(0, i as int).to_set()),
        decreases b.len() - i,
    {
        sorted_set_insert(&mut set, b[i].clone());
        proof {
            assert(b.deep_view().subrange(0, i + 1) =~= b.deep_view().subrange(0, i as int).push(b.deep_view()[i as int]));
            b.deep_view().subrange(0, i as int).lemma_push_to_set_commute(b.deep_view()[i as int]);
            assert(set.deep_view().to_set() =~= a.deep_view().to_set().union(b.deep_view().subrange(0, i + 1).to_set()));
        }
        i = i + 1;
    }
    proof {
        assert(b.deep_view().subrange(0, i as int) =~= b.deep_view());
    }
    set
}

} // verus!

verus! {

/// Two sorted sets with the same names are the same sequence.
pub proof fn lemma_sorted_sets_equal(a: Seq<Seq<char>>, b: Seq<Seq<char>>)
    requires
        is_sorted_set(a),
        is_sorted_set(b),
        a.to_set() == b.to_set(),
    ensures
        a == b,
    decreases a.len(),
{
    if a.len() == 0 {
        if b.len() > 0 {
            assert(b.to_set().contains(b[0]));
        }
        assert(a =~= b);
    } else if b.len() == 0 {
        assert(a.to_set().contains(a[0]));
    } else {
        assert(a.to_set().contains(a[0]));
        assert(b.to_set().contains(b[0]));
        let ia = choose|i: int| 0 <= i < a.len() && a[i] == b[0];
        let ib = choose|i: int| 0 <= i < b.len() && b[i] == a[0];
        if ia > 0 && ib > 0 {
            lemma_seq_less_transitive(a[0], a[ia], a[0]);
            lemma_seq_less_irreflexive(a[0]);
        }
        if ia > 0 && ib == 0 {
            lemma_seq_less_irreflexive(a[0]);
        }
        if ia == 0 && ib > 0 {
            lemma_seq_less_irreflexive(b[0]);
        }
        assert(a[0] == b[0]);
        let ta = a.drop_first();
        let tb = b.drop_first();
        assert forall|x: Seq<char>| ta.to_set().contains(x) implies tb.to_set().contains(x) by {
            let i = choose|i: int| 0 <= i < ta.len() && ta[i] == x;
            assert(a[i + 1] == x);
            assert(b.to_set().contains(x));
            let j = choose|j: int| 0 <= j < b.len() && b[j] == x;
            if j == 0 {
                lemma_seq_less_irreflexive(a[0]);
            }
            assert(tb[j - 1] == x);
        }
        assert forall|x: Seq<char>| tb.to_set().contains(x) implies ta.to_set().contains(x) by {
            let i = choose|i: int| 0 <= i < tb.len() && tb[i] == x;
            assert(b[i + 1] == x);
            assert(a.to_set().contains(x));
            let j = choose|j: int| 0 <= j < a.len() && a[j] == x;
            if j == 0 {
                lemma_seq_less_irreflexive(b[0]);
            }
            assert(ta[j - 1] == x);
        }
        assert(ta.to_set() =~= tb.to_set());
        lemma_sorted_sets_equal(ta, tb);
        assert(a =~= seq![a[0]] + ta);
        assert(b =~= seq![b[0]] + tb);
    }
}

/// Whether two lists hold the same names in the same order.
pub fn names_equal(a: &Vec<String>, b: &Vec<String>) -> (equal: bool)
    ensures
        equal == (a.deep_view() == b.deep_view()),
{
    if a.len() != b.len() {
        proof {
            assert(a.deep_view().len() != b.deep_view().len());
        }
        return false;
    }
    let mut i: usize = 0;
    while i < a.len()
        invariant
            a@.len() == b@.len(),
            i <= a@.len(),
            forall|j: int| 0 <= j < i ==> a.deep_view()[j] == b.deep_view()[j],
        decreases a.len() - i,
    {
        if !string_eq(&a[i], &b[i]) {
            proof {
                assert(a.deep_view()[i as int] != b.deep_view()[i as int]);
            }
            return false;
        }
        i = i + 1;
    }
    proof {
        assert(a.deep_view() =~= b.deep_view());
    }
    true
}

} // verus!

verus! {

/// Two lists of distinct names with the same set of names have the same length.
pub proof fn lemma_distinct_same_set_len(a: Seq<Seq<char>>, b: Seq<Seq<char>>)
    requires
        distinct_names(a),
        distinct_names(b),
        a.to_set() == b.to_set(),
    ensures
        a.len() == b.len(),
{
    assert(a.no_duplicates());
    assert(b.no_duplicates());
    a.unique_seq_to_set();
    b.unique_seq_to_set();
}

} // verus!
