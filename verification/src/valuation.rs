//! Valuations: assignments of Boolean values to named variables.
use vstd::prelude::*;

verus! {

/// The map that a sequence of `(name, value)` entries stands for: a later entry for a name
/// replaces an earlier one.
pub open spec fn entries_map(s: Seq<(Seq<char>, bool)>) -> Map<Seq<char>, bool>
    decreases s.len(),
{
    if s.len() == 0 {
        Map::empty()
    } else {
        entries_map(s.drop_last()).insert(s.last().0, s.last().1)
    }
}

/// The map from each of `names` to the value at the same position of `point`.
pub open spec fn zip_map(names: Seq<Seq<char>>, point: Seq<bool>) -> Map<Seq<char>, bool> {
    entries_map(Seq::new(names.len(), |i: int| (names[i], point[i])))
}

/// The map from each of `names` to `value`.
pub open spec fn constant_map(names: Seq<Seq<char>>, value: bool) -> Map<Seq<char>, bool> {
    Map::new(|k: Seq<char>| names.to_set().contains(k), |k: Seq<char>| value)
}

/// Entries past position `i` that do not name `k` do not change what the map holds for `k`.
proof fn lemma_entries_map_skip(s: Seq<(Seq<char>, bool)>, i: int, k: Seq<char>)
    requires
        0 <= i <= s.len(),
        forall|j: int| i <= j < s.len() ==> (#[trigger] s[j]).0 != k,
    ensures
        entries_map(s).dom().contains(k) == entries_map(s.subrange(0, i)).dom().contains(k),
        entries_map(s).dom().contains(k) ==> entries_map(s)[k] == entries_map(s.subrange(0, i))[k],
    decreases s.len() - i,
{
    if i < s.len() {
        let t = s.drop_last();
        assert(s.last() == s[s.len() - 1]);
        if i < t.len() {
            assert forall|j: int| i <= j < t.len() implies (#[trigger] t[j]).0 != k by {
                assert(t[j] == s[j]);
            }
            lemma_entries_map_skip(t, i, k);
            assert(t.subrange(0, i) =~= s.subrange(0, i));
        } else {
            assert(t =~= s.subrange(0, i));
        }
    } else {
        assert(s.subrange(0, i) =~= s);
    }
}

/// Every name of an entry is in the map.
proof fn lemma_entries_map_contains(s: Seq<(Seq<char>, bool)>, j: int)
    requires
        0 <= j < s.len(),
    ensures
        entries_map(s).dom().contains(s[j].0),
    decreases s.len(),
{
    if j < s.len() - 1 {
        lemma_entries_map_contains(s.drop_last(), j);
        assert(s.drop_last()[j] == s[j]);
    }
}

/// A name that no entry carries is not in the map.
proof fn lemma_entries_map_absent(s: Seq<(Seq<char>, bool)>, k: Seq<char>)
    requires
        forall|j: int| 0 <= j < s.len() ==> (#[trigger] s[j]).0 != k,
    ensures
        !entries_map(s).dom().contains(k),
{
    lemma_entries_map_skip(s, 0, k);
    assert(s.subrange(0, 0) =~= Seq::<(Seq<char>, bool)>::empty());
}

/// When names are distinct, the map of zipped entries holds each name with its own value.
pub proof fn lemma_zip_map(names: Seq<Seq<char>>, point: Seq<bool>, i: int)
    requires
        names.len() == point.len(),
        crate::literals::distinct_names(names),
        0 <= i < names.len(),
    ensures
        zip_map(names, point).dom().contains(names[i]),
        zip_map(names, point)[names[i]] == point[i],
{
    let s = Seq::new(names.len(), |j: int| (names[j], point[j]));
    assert forall|j: int| i + 1 <= j < s.len() implies (#[trigger] s[j]).0 != names[i] by {}
    lemma_entries_map_skip(s, i + 1, names[i]);
    assert(s.subrange(0, i + 1).drop_last() =~= s.subrange(0, i));
}

/// The domain of the map of zipped entries is the set of names.
pub proof fn lemma_zip_map_dom(names: Seq<Seq<char>>, point: Seq<bool>)
    requires
        names.len() == point.len(),
    ensures
        forall|k: Seq<char>| #[trigger] zip_map(names, point).dom().contains(k) <==> names.contains(k),
{
    let s = Seq::new(names.len(), |j: int| (names[j], point[j]));
    assert forall|k: Seq<char>| #[trigger] zip_map(names, point).dom().contains(k) <==> names.contains(k) by {
        if names.contains(k) {
            let j = choose|j: int| 0 <= j < names.len() && names[j] == k;
            lemma_entries_map_contains(s, j);
        } else {
            assert forall|j: int| 0 <= j < s.len() implies (#[trigger] s[j]).0 != k by {
                assert(names[j] != k);
            }
            lemma_entries_map_absent(s, k);
        }
    }
}

/// An assignment of Boolean values to variable names.
#[derive(Debug)]
pub struct Valuation {
    entries: Vec<(String, bool)>,
}

impl View for Valuation {
    type V = Map<Seq<char>, bool>;

    closed spec fn view(&self) -> Map<Seq<char>, bool> {
        entries_map(self.entries.deep_view())
    }
}

impl Valuation {
    /// The valuation that assigns no variable.
    pub fn new() -> (valuation: Valuation)
        ensures
            valuation@ == Map::<Seq<char>, bool>::empty(),
    {
        let valuation = Valuation { entries: Vec::new() };
        proof {
            assert(valuation.entries.deep_view().len() == 0);
        }
        valuation
    }

    /// Assigns `value` to `name`, replacing an earlier assignment of `name`.
    pub fn insert(&mut self, name: String, value: bool)
        ensures
            final(self)@ == old(self)@.insert(name@, value),
    {
        let ghost before = self.entries.deep_view();
        self.entries.push((name, value));
        proof {
            assert(self.entries.deep_view().drop_last() =~= before);
        }
    }

    /// The valuation of `pairs`; a later pair for a name replaces an earlier one.
    pub fn from_pairs(pairs: Vec<(String, bool)>) -> (valuation: Valuation)
        ensures
            valuation@ == entries_map(pairs.deep_view()),
    {
        Valuation { entries: pairs }
    }

    /// The value assigned to `name`, if there is one.
    pub fn get(&self, name: &String) -> (value: Option<bool>)
        ensures
            value == (if self@.dom().contains(name@) {
                Some(self@[name@])
            } else {
                None
            }),
    {
        let ghost s = self.entries.deep_view();
        let mut i = self.entries.len();
        while i > 0
            invariant
                s == self.entries.deep_view(),
                i <= s.len(),
                forall|j: int| i <= j < s.len() ==> (#[trigger] s[j]).0 != name@,
            decreases i,
        {
            if crate::literals::string_eq(&self.entries[i - 1].0, name) {
                proof {
                    lemma_entries_map_skip(s, i as int, name@);
                    assert(s.subrange(0, i as int).drop_last() =~= s.subrange(0, i - 1));
                    assert(s.subrange(0, i as int).last() == s[i - 1]);
                }
                return Some(self.entries[i - 1].1);
            }
            i = i - 1;
        }
        proof {
            lemma_entries_map_absent(s, name@);
        }
        None
    }

    /// A copy of this valuation.
    pub fn copy(&self) -> (copied: Valuation)
        ensures
            copied@ == self@,
    {
        let ghost s = self.entries.deep_view();
        let mut entries: Vec<(String, bool)> = Vec::new();
        let mut i: usize = 0;
        while i < self.entries.len()
            invariant
                s == self.entries.deep_view(),
                i <= s.len(),
                entries.deep_view() == s.subrange(0, i as int),
            decreases self.entries.len() - i,
        {
            let ghost before = entries.deep_view();
            let name = self.entries[i].0.clone();
            let value = self.entries[i].1;
            entries.push((name, value));
            proof {
                assert(entries.deep_view() =~= before.push((name@, value)));
                assert(s[i as int] == (self.entries@[i as int].0@, self.entries@[i as int].1));
                assert(s.subrange(0, i + 1) =~= s.subrange(0, i as int).push(s[i as int]));
            }
            i = i + 1;
        }
        proof {
            assert(s.subrange(0, i as int) =~= s);
        }
        Valuation { entries }
    }

    /// Whether `name` is assigned a value.
    pub fn contains_key(&self, name: &String) -> (found: bool)
        ensures
            found == self@.dom().contains(name@),
    {
        self.get(name).is_some()
    }
}

/// The valuation that assigns `bool_value` to every name of `set`.
pub fn btreeset_to_valuation(set: Vec<String>, bool_value: bool) -> (valuation: Valuation)
    ensures
        valuation@ == constant_map(set.deep_view(), bool_value),
{
    let ghost names = set.deep_view();
    let mut valuation = Valuation::new();
    let mut i: usize = 0;
    while i < set.len()
        invariant
            names == set.deep_view(),
            i <= names.len(),
            valuation@ == constant_map(names.subrange(0, i as int), bool_value),
        decreases set.len() - i,
    {
        valuation.insert(set[i].clone(), bool_value);
        proof {
            let prefix = names.subrange(0, i as int);
            assert(names.subrange(0, i + 1) =~= prefix.push(names[i as int]));
            prefix.lemma_push_to_set_commute(names[i as int]);
            assert(constant_map(names.subrange(0, i + 1), bool_value) =~= constant_map(prefix, bool_value).insert(names[i as int], bool_value));
        }
        i = i + 1;
    }
    proof {
        assert(names.subrange(0, i as int) =~= names);
    }
    valuation
}

/// The valuation that assigns the values of `point` to the variables of `variables`, in order,
/// or `None` when the two differ in length.
pub fn boolean_point_to_valuation(variables: Vec<String>, point: Vec<bool>) -> (valuation: Option<Valuation>)
    ensures
        valuation is None <==> variables@.len() != point@.len(),
        valuation matches Some(v) ==> v@ == zip_map(variables.deep_view(), point@),
{
    if point.len() != variables.len() {
        return None;
    }
    let mut pairs: Vec<(String, bool)> = Vec::new();
    let mut i: usize = 0;
    while i < variables.len()
        invariant
            point@.len() == variables@.len(),
            i <= variables@.len(),
            pairs.deep_view() == Seq::new(i as nat, |j: int| (variables.deep_view()[j], point@[j])),
        decreases variables.len() - i,
    {
        let ghost before = pairs.deep_view();
        pairs.push((variables[i].clone(), point[i]));
        proof {
            assert(pairs.deep_view().drop_last() =~= before);
            assert(pairs.deep_view().last() == (variables.deep_view()[i as int], point@[i as int]));
            assert forall|j: int| 0 <= j < i + 1 implies pairs.deep_view()[j] == (variables.deep_view()[j], point@[j]) by {
                if j < i {
                    assert(pairs.deep_view()[j] == before[j]);
                }
            }
            assert(pairs.deep_view() =~= Seq::new((i + 1) as nat, |j: int| (variables.deep_view()[j], point@[j])));
        }
        i = i + 1;
    }
    Some(Valuation::from_pairs(pairs))
}

impl Clone for Valuation {
    fn clone(&self) -> (cloned: Valuation)
        ensures
            cloned@ == self@,
    {
        self.copy()
    }
}

} // verus!
