//! Boolean expressions over named variables.
use crate::literals::{is_sorted_set, sorted_set_insert};
use crate::traits::{Equality, Evaluate, GatherLiterals, Implication, PowerSet};
use crate::valuation::Valuation;
use vstd::prelude::*;

verus! {

/// A Boolean expression over variables named by strings.
#[derive(PartialEq, Eq, Debug)]
pub enum Expression {
    Literal(String),
    Constant(bool),
    Not(Box<Expression>),
    And(Vec<Expression>),
    Or(Vec<Expression>),
}

/// The mathematical value of an expression.
pub enum ExprView {
    Literal(Seq<char>),
    Constant(bool),
    Not(Box<ExprView>),
    And(Seq<ExprView>),
    Or(Seq<ExprView>),
}

impl Expression {
    /// The value of this expression.
    pub open spec fn view(&self) -> ExprView
        decreases self,
    {
        match self {
            Expression::Literal(name) => ExprView::Literal(name@),
            Expression::Constant(value) => ExprView::Constant(*value),
            Expression::Not(inner) => ExprView::Not(Box::new(inner.view())),
            Expression::And(items) => ExprView::And(exprs_view(items@)),
            Expression::Or(items) => ExprView::Or(exprs_view(items@)),
        }
    }
}

/// The values of a sequence of expressions.
pub open spec fn exprs_view(items: Seq<Expression>) -> Seq<ExprView>
    decreases items,
{
    if items.len() == 0 {
        Seq::empty()
    } else {
        exprs_view(items.drop_last()).push(items.last().view())
    }
}

/// The values of a sequence of expressions, one for each of them, in order.
pub proof fn lemma_exprs_view(items: Seq<Expression>)
    ensures
        exprs_view(items).len() == items.len(),
        forall|i: int| 0 <= i < items.len() ==> #[trigger] exprs_view(items)[i] == items[i].view(),
    decreases items.len(),
{
    if items.len() > 0 {
        lemma_exprs_view(items.drop_last());
    }
}

/// The value of variable `name` under `valuation`; `default` when it is unassigned.
pub open spec fn value_of(valuation: Map<Seq<char>, bool>, name: Seq<char>, default: bool) -> bool {
    if valuation.dom().contains(name) {
        valuation[name]
    } else {
        default
    }
}

/// The value of the expression `e` under `valuation`, where `default` stands for each
/// variable that `valuation` does not assign.
pub open spec fn expr_value(e: ExprView, valuation: Map<Seq<char>, bool>, default: bool) -> bool
    decreases e,
{
    match e {
        ExprView::Literal(name) => value_of(valuation, name, default),
        ExprView::Constant(value) => value,
        ExprView::Not(inner) => !expr_value(*inner, valuation, default),
        ExprView::And(items) => all_true(items, valuation, default),
        ExprView::Or(items) => any_true(items, valuation, default),
    }
}

/// Every expression of `items` is true.
pub open spec fn all_true(items: Seq<ExprView>, valuation: Map<Seq<char>, bool>, default: bool) -> bool
    decreases items,
{
    if items.len() == 0 {
        true
    } else {
        all_true(items.drop_last(), valuation, default) && expr_value(items.last(), valuation, default)
    }
}

/// Some expression of `items` is true.
pub open spec fn any_true(items: Seq<ExprView>, valuation: Map<Seq<char>, bool>, default: bool) -> bool
    decreases items,
{
    if items.len() == 0 {
        false
    } else {
        any_true(items.drop_last(), valuation, default) || expr_value(items.last(), valuation, default)
    }
}

/// A conjunction is true exactly when each of its parts is.
pub proof fn lemma_all_true(items: Seq<ExprView>, valuation: Map<Seq<char>, bool>, default: bool)
    ensures
        all_true(items, valuation, default) <==> forall|i: int| 0 <= i < items.len() ==> #[trigger] expr_value(items[i], valuation, default),
    decreases items.len(),
{
    if items.len() > 0 {
        lemma_all_true(items.drop_last(), valuation, default);
        if all_true(items, valuation, default) {
            assert forall|i: int| 0 <= i < items.len() implies #[trigger] expr_value(items[i], valuation, default) by {
                if i < items.len() - 1 {
                    assert(items.drop_last()[i] == items[i]);
                }
            }
        }
        if forall|i: int| 0 <= i < items.len() ==> #[trigger] expr_value(items[i], valuation, default) {
            assert forall|i: int| 0 <= i < items.drop_last().len() implies #[trigger] expr_value(items.drop_last()[i], valuation, default) by {
                assert(items.drop_last()[i] == items[i]);
            }
            assert(expr_value(items[items.len() - 1], valuation, default));
        }
    }
}

/// A disjunction is true exactly when one of its parts is.
pub proof fn lemma_any_true(items: Seq<ExprView>, valuation: Map<Seq<char>, bool>, default: bool)
    ensures
        any_true(items, valuation, default) <==> exists|i: int| 0 <= i < items.len() && #[trigger] expr_value(items[i], valuation, default),
    decreases items.len(),
{
    if items.len() > 0 {
        lemma_any_true(items.drop_last(), valuation, default);
        if any_true(items, valuation, default) {
            if any_true(items.drop_last(), valuation, default) {
                let i = choose|i: int| 0 <= i < items.drop_last().len() && #[trigger] expr_value(items.drop_last()[i], valuation, default);
                assert(items.drop_last()[i] == items[i]);
            } else {
                assert(expr_value(items[items.len() - 1], valuation, default));
            }
        }
        if exists|i: int| 0 <= i < items.len() && #[trigger] expr_value(items[i], valuation, default) {
            let i = choose|i: int| 0 <= i < items.len() && #[trigger] expr_value(items[i], valuation, default);
            if i < items.len() - 1 {
                assert(items.drop_last()[i] == items[i]);
            }
        }
    }
}

/// The variables that occur in the expression `e`.
pub open spec fn expr_literals(e: ExprView) -> Set<Seq<char>>
    decreases e,
{
    match e {
        ExprView::Literal(name) => set![name],
        ExprView::Constant(_) => Set::empty(),
        ExprView::Not(inner) => expr_literals(*inner),
        ExprView::And(items) => items_literals(items),
        ExprView::Or(items) => items_literals(items),
    }
}

/// The variables that occur in some expression of `items`.
pub open spec fn items_literals(items: Seq<ExprView>) -> Set<Seq<char>>
    decreases items,
{
    if items.len() == 0 {
        Set::empty()
    } else {
        items_literals(items.drop_last()).union(expr_literals(items.last()))
    }
}

/// An expression has finitely many variables.
pub proof fn lemma_literals_finite(e: ExprView)
    ensures
        expr_literals(e).finite(),
    decreases e,
{
    match e {
        ExprView::Literal(name) => {},
        ExprView::Constant(_) => {},
        ExprView::Not(inner) => {
            lemma_literals_finite(*inner);
        },
        ExprView::And(items) => {
            lemma_items_literals_finite(items);
        },
        ExprView::Or(items) => {
            lemma_items_literals_finite(items);
        },
    }
}

/// Finitely many expressions have finitely many variables.
pub proof fn lemma_items_literals_finite(items: Seq<ExprView>)
    ensures
        items_literals(items).finite(),
    decreases items,
{
    if items.len() > 0 {
        lemma_items_literals_finite(items.drop_last());
        lemma_literals_finite(items.last());
    }
}

/// The variables of a sequence of expressions are those of its members.
pub proof fn lemma_items_literals(items: Seq<ExprView>, x: Seq<char>)
    ensures
        items_literals(items).contains(x) <==> exists|i: int| 0 <= i < items.len() && #[trigger] expr_literals(items[i]).contains(x),
    decreases items.len(),
{
    if items.len() > 0 {
        lemma_items_literals(items.drop_last(), x);
        if items_literals(items.drop_last()).contains(x) {
            let i = choose|i: int| 0 <= i < items.drop_last().len() && #[trigger] expr_literals(items.drop_last()[i]).contains(x);
            assert(items.drop_last()[i] == items[i]);
        }
        if exists|i: int| 0 <= i < items.len() && #[trigger] expr_literals(items[i]).contains(x) {
            let i = choose|i: int| 0 <= i < items.len() && #[trigger] expr_literals(items[i]).contains(x);
            if i < items.len() - 1 {
                assert(items.drop_last()[i] == items[i]);
            }
        }
        if expr_literals(items.last()).contains(x) {
            assert(expr_literals(items[items.len() - 1]).contains(x));
        }
    }
}

/// Two valuations (with their defaults) that give the variables of `e` the same values give
/// `e` the same value.
pub proof fn lemma_value_depends_on_literals(
    e: ExprView,
    a: Map<Seq<char>, bool>,
    da: bool,
    b: Map<Seq<char>, bool>,
    db: bool,
)
    requires
        forall|x: Seq<char>| #[trigger] expr_literals(e).contains(x) ==> value_of(a, x, da) == value_of(b, x, db),
    ensures
        expr_value(e, a, da) == expr_value(e, b, db),
    decreases e,
{
    match e {
        ExprView::Literal(name) => {
            assert(expr_literals(e).contains(name));
        },
        ExprView::Constant(_) => {},
        ExprView::Not(inner) => {
            assert forall|x: Seq<char>| #[trigger] expr_literals(*inner).contains(x) implies value_of(a, x, da) == value_of(b, x, db) by {
                assert(expr_literals(e).contains(x));
            }
            lemma_value_depends_on_literals(*inner, a, da, b, db);
        },
        ExprView::And(items) => {
            assert forall|x: Seq<char>| #[trigger] items_literals(items).contains(x) implies value_of(a, x, da) == value_of(b, x, db) by {
                assert(expr_literals(e).contains(x));
            }
            lemma_items_depend_on_literals(items, a, da, b, db);
        },
        ExprView::Or(items) => {
            assert forall|x: Seq<char>| #[trigger] items_literals(items).contains(x) implies value_of(a, x, da) == value_of(b, x, db) by {
                assert(expr_literals(e).contains(x));
            }
            lemma_items_depend_on_literals(items, a, da, b, db);
        },
    }
}

/// Two valuations that agree on the variables of `items` give each of them the same value.
pub proof fn lemma_items_depend_on_literals(
    items: Seq<ExprView>,
    a: Map<Seq<char>, bool>,
    da: bool,
    b: Map<Seq<char>, bool>,
    db: bool,
)
    requires
        forall|x: Seq<char>| #[trigger] items_literals(items).contains(x) ==> value_of(a, x, da) == value_of(b, x, db),
    ensures
        all_true(items, a, da) == all_true(items, b, db),
        any_true(items, a, da) == any_true(items, b, db),
    decreases items,
{
    if items.len() > 0 {
        assert forall|x: Seq<char>| #[trigger] items_literals(items.drop_last()).contains(x) implies value_of(a, x, da) == value_of(b, x, db) by {
            assert(items_literals(items).contains(x));
        }
        assert forall|x: Seq<char>| #[trigger] expr_literals(items.last()).contains(x) implies value_of(a, x, da) == value_of(b, x, db) by {
            assert(items_literals(items).contains(x));
        }
        lemma_items_depend_on_literals(items.drop_last(), a, da, b, db);
        lemma_value_depends_on_literals(items.last(), a, da, b, db);
    }
}

/// A variable named `name`.
pub fn var(name: &str) -> (e: Expression)
    ensures
        e@ == ExprView::Literal(name@),
{
    Expression::Literal(name.to_owned())
}

/// The constant `value`.
pub fn bool(value: bool) -> (e: Expression)
    ensures
        e@ == ExprView::Constant(value),
{
    Expression::Constant(value)
}

/// One variable for each of `names`, in order.
pub fn vars(names: &[&str]) -> (es: Vec<Expression>)
    ensures
        es@.len() == names@.len(),
        forall|i: int| 0 <= i < names@.len() ==> (#[trigger] es@[i])@ == ExprView::Literal(names@[i]@),
{
    let mut es: Vec<Expression> = Vec::new();
    let mut i: usize = 0;
    while i < names.len()
        invariant
            i <= names@.len(),
            es@.len() == i,
            forall|j: int| 0 <= j < i ==> (#[trigger] es@[j])@ == ExprView::Literal(names@[j]@),
        decreases names.len() - i,
    {
        es.push(var(names[i]));
        i = i + 1;
    }
    es
}

impl Expression {
    /// A copy of this expression.
    pub fn copy(&self) -> (copied: Expression)
        ensures
            copied@ == self@,
        decreases self,
    {
        match self {
            Expression::Literal(name) => Expression::Literal(name.clone()),
            Expression::Constant(value) => Expression::Constant(*value),
            Expression::Not(inner) => Expression::Not(Box::new(inner.copy())),
            Expression::And(items) => Expression::And(copy_items(items)),
            Expression::Or(items) => Expression::Or(copy_items(items)),
        }
    }

    /// The negation of `e`.
    pub fn negate(e: Expression) -> (negated: Expression)
        ensures
            negated@ == ExprView::Not(Box::new(e@)),
    {
        Expression::Not(Box::new(e))
    }

    /// The conjunction of `left` and `right`.
    pub fn binary_and(left: Expression, right: Expression) -> (conjunction: Expression)
        ensures
            conjunction@ == ExprView::And(seq![left@, right@]),
    {
        let items = vec![left, right];
        proof {
            lemma_exprs_view(items@);
            assert(exprs_view(items@) =~= seq![left@, right@]);
        }
        Expression::And(items)
    }

    /// The disjunction of `left` and `right`.
    pub fn binary_or(left: Expression, right: Expression) -> (disjunction: Expression)
        ensures
            disjunction@ == ExprView::Or(seq![left@, right@]),
    {
        let items = vec![left, right];
        proof {
            lemma_exprs_view(items@);
            assert(exprs_view(items@) =~= seq![left@, right@]);
        }
        Expression::Or(items)
    }

    /// The conjunction of all of `items`.
    pub fn n_ary_and(items: Vec<Expression>) -> (conjunction: Expression)
        ensures
            conjunction@ == ExprView::And(exprs_view(items@)),
    {
        Expression::And(items)
    }

    /// The disjunction of all of `items`.
    pub fn n_ary_or(items: Vec<Expression>) -> (disjunction: Expression)
        ensures
            disjunction@ == ExprView::Or(exprs_view(items@)),
    {
        Expression::Or(items)
    }

    /// The value of this expression on `literal_values`, where `default_value` stands for each
    /// variable that `literal_values` does not assign.
    fn value_with_default(&self, literal_values: &Valuation, default_value: bool) -> (value: bool)
        ensures
            value == expr_value(self@, literal_values@, default_value),
        decreases self,
    {
        match self {
            Expression::Literal(name) => {
                match literal_values.get(name) {
                    Some(value) => value,
                    None => default_value,
                }
            },
            Expression::Constant(value) => *value,
            Expression::Not(inner) => !inner.value_with_default(literal_values, default_value),
            Expression::And(items) => evaluate_all(items, literal_values, default_value),
            Expression::Or(items) => evaluate_any(items, literal_values, default_value),
        }
    }

    /// Adds the variables of this expression to the sorted set `current`.
    fn add_literals_to(&self, current: &mut Vec<String>)
        requires
            is_sorted_set(old(current).deep_view()),
        ensures
            is_sorted_set(final(current).deep_view()),
            final(current).deep_view().to_set() == old(current).deep_view().to_set().union(expr_literals(self@)),
        decreases self, 1nat,
    {
        match self {
            Expression::Literal(name) => {
                sorted_set_insert(current, name.clone());
                proof {
                    assert(old(current).deep_view().to_set().insert(name@) =~= old(current).deep_view().to_set().union(set![name@]));
                }
            },
            Expression::Constant(_) => {
                proof {
                    assert(old(current).deep_view().to_set().union(Set::empty()) =~= old(current).deep_view().to_set());
                }
            },
            Expression::Not(inner) => {
                inner.add_literals_to(current);
            },
            Expression::And(items) => {
                gather_items_literals(items, current);
            },
            Expression::Or(items) => {
                gather_items_literals(items, current);
            },
        }
    }
}

/// Whether each of `items` is true on `literal_values`.
fn evaluate_all(items: &Vec<Expression>, literal_values: &Valuation, default_value: bool) -> (value: bool)
    ensures
        value == all_true(exprs_view(items@), literal_values@, default_value),
    decreases items@,
{
    let ghost views = exprs_view(items@);
    proof {
        lemma_exprs_view(items@);
        lemma_all_true(views, literal_values@, default_value);
    }
    let mut i: usize = 0;
    while i < items.len()
        invariant
            i <= items@.len(),
            views == exprs_view(items@),
            views.len() == items@.len(),
            forall|j: int| 0 <= j < items@.len() ==> #[trigger] views[j] == items@[j]@,
            forall|j: int| 0 <= j < i ==> #[trigger] expr_value(views[j], literal_values@, default_value),
        decreases items.len() - i,
    {
        if !items[i].value_with_default(literal_values, default_value) {
            proof {
                lemma_all_true(views, literal_values@, default_value);
                assert(!expr_value(views[i as int], literal_values@, default_value));
            }
            return false;
        }
        i = i + 1;
    }
    true
}

/// Whether some of `items` is true on `literal_values`.
fn evaluate_any(items: &Vec<Expression>, literal_values: &Valuation, default_value: bool) -> (value: bool)
    ensures
        value == any_true(exprs_view(items@), literal_values@, default_value),
    decreases items@,
{
    let ghost views = exprs_view(items@);
    proof {
        lemma_exprs_view(items@);
        lemma_any_true(views, literal_values@, default_value);
    }
    let mut i: usize = 0;
    while i < items.len()
        invariant
            i <= items@.len(),
            views == exprs_view(items@),
            views.len() == items@.len(),
            forall|j: int| 0 <= j < items@.len() ==> #[trigger] views[j] == items@[j]@,
            forall|j: int| 0 <= j < i ==> !#[trigger] expr_value(views[j], literal_values@, default_value),
        decreases items.len() - i,
    {
        if items[i].value_with_default(literal_values, default_value) {
            proof {
                lemma_any_true(views, literal_values@, default_value);
                assert(expr_value(views[i as int], literal_values@, default_value));
            }
            return true;
        }
        i = i + 1;
    }
    false
}

/// A copy of each of `items`.
fn copy_items(items: &Vec<Expression>) -> (copied: Vec<Expression>)
    ensures
        exprs_view(copied@) == exprs_view(items@),
    decreases items@,
{
    let mut copied: Vec<Expression> = Vec::new();
    let mut i: usize = 0;
    while i < items.len()
        invariant
            i <= items@.len(),
            copied@.len() == i,
            forall|j: int| 0 <= j < i ==> (#[trigger] copied@[j])@ == items@[j]@,
        decreases items.len() - i,
    {
        copied.push(items[i].copy());
        i = i + 1;
    }
    proof {
        lemma_exprs_view(copied@);
        lemma_exprs_view(items@);
        assert(exprs_view(copied@) =~= exprs_view(items@));
    }
    copied
}

impl Clone for Expression {
    fn clone(&self) -> (cloned: Expression)
        ensures
            cloned@ == self@,
    {
        self.copy()
    }
}

/// Adds the variables of each of `items` to the sorted set `current`.
fn gather_items_literals(items: &Vec<Expression>, current: &mut Vec<String>)
    requires
        is_sorted_set(old(current).deep_view()),
    ensures
        is_sorted_set(final(current).deep_view()),
        final(current).deep_view().to_set() == old(current).deep_view().to_set().union(items_literals(exprs_view(items@))),
    decreases items@, 0nat,
{
    let ghost start = current.deep_view().to_set();
    let ghost views = exprs_view(items@);
    proof {
        lemma_exprs_view(items@);
        assert(views.subrange(0, 0) =~= Seq::<ExprView>::empty());
        assert(start.union(items_literals(views.subrange(0, 0))) =~= start);
    }
    let mut i: usize = 0;
    while i < items.len()
        invariant
            i <= items@.len(),
            views == exprs_view(items@),
            views.len() == items@.len(),
            forall|j: int| 0 <= j < items@.len() ==> #[trigger] views[j] == items@[j]@,
            is_sorted_set(current.deep_view()),
            current.deep_view().to_set() == start.union(items_literals(views.subrange(0, i as int))),
        decreases items.len() - i,
    {
        items[i].add_literals_to(current);
        proof {
            assert(views.subrange(0, i + 1).drop_last() =~= views.subrange(0, i as int));
            assert(views.subrange(0, i + 1).last() == views[i as int]);
            assert(start.union(items_literals(views.subrange(0, i as int))).union(expr_literals(views[i as int]))
                =~= start.union(items_literals(views.subrange(0, i + 1))));
        }
        i = i + 1;
    }
    proof {
        assert(views.subrange(0, i as int) =~= views);
    }
}


impl Evaluate for Expression {
    open spec fn evaluable(&self) -> bool {
        true
    }

    open spec fn value_on(&self, valuation: Map<Seq<char>, bool>, default_value: bool) -> bool {
        expr_value(self@, valuation, default_value)
    }

    /// The value of this expression on `literal_values`, where `default_value` stands for each
    /// variable that `literal_values` does not assign.
    fn evaluate_with_default(&self, literal_values: &Valuation, default_value: bool) -> (value: bool) {
        self.value_with_default(literal_values, default_value)
    }

    /// The value of this expression on `literal_values` where it assigns every variable;
    /// otherwise the sorted set of the variables that it does not assign.
    fn evaluate_checked(&self, literal_values: &Valuation) -> (output: Result<bool, Vec<String>>)
        ensures
            output is Ok <==> expr_literals(self@).subset_of(literal_values@.dom()),
            output matches Err(missing) ==> is_sorted_set(missing.deep_view())
                && missing.deep_view().to_set() == expr_literals(self@).difference(literal_values@.dom()),
    {
        let literals = self.gather_literals();
        let ghost names = literals.deep_view();
        let ghost dom = literal_values@.dom();
        let mut missing: Vec<String> = Vec::new();
        let mut i: usize = 0;
        proof {
            assert(missing.deep_view() =~= Seq::<Seq<char>>::empty());
            assert(missing.deep_view().to_set() =~= names.subrange(0, 0).to_set().difference(dom));
        }
        while i < literals.len()
            invariant
                i <= literals@.len(),
                names == literals.deep_view(),
                dom == literal_values@.dom(),
                is_sorted_set(missing.deep_view()),
                missing.deep_view().to_set() == names.subrange(0, i as int).to_set().difference(dom),
            decreases literals.len() - i,
        {
            let ghost before = missing.deep_view().to_set();
            let name = &literals[i];
            proof {
                assert(names.subrange(0, i + 1) =~= names.subrange(0, i as int).push(names[i as int]));
                names.subrange(0, i as int).lemma_push_to_set_commute(names[i as int]);
            }
            if !literal_values.contains_key(name) {
                sorted_set_insert(&mut missing, name.clone());
                proof {
                    assert(before.insert(names[i as int]) =~= names.subrange(0, i + 1).to_set().difference(dom));
                }
            } else {
                proof {
                    assert(before =~= names.subrange(0, i + 1).to_set().difference(dom));
                }
            }
            i = i + 1;
        }
        proof {
            assert(names.subrange(0, i as int) =~= names);
        }
        if missing.len() == 0 {
            proof {
                assert(missing.deep_view() =~= Seq::<Seq<char>>::empty());
                assert forall|name: Seq<char>| expr_literals(self@).contains(name) implies dom.contains(name) by {
                    if !dom.contains(name) {
                        assert(missing.deep_view().to_set().contains(name));
                    }
                }
            }
            Ok(self.value_with_default(literal_values, false))
        } else {
            proof {
                let first = missing.deep_view()[0];
                assert(missing.deep_view().contains(first));
                assert(missing.deep_view().to_set().contains(first));
            }
            Err(missing)
        }
    }
}

impl GatherLiterals for Expression {
    open spec fn literal_set(&self) -> Set<Seq<char>> {
        expr_literals(self@)
    }

    /// Adds the variables of this expression to the sorted set `current`.
    fn gather_literals_rec(&self, current: &mut Vec<String>) {
        self.add_literals_to(current);
    }
}

impl PowerSet for Expression {}

impl Implication for Expression {
    type Output = Expression;

    /// The implication from `self` to `rhs`: the disjunction of the negation of `self` and
    /// `rhs`.
    fn imply(self, rhs: Expression) -> (implication: Expression)
        ensures
            implication@ == ExprView::Or(seq![ExprView::Not(Box::new(self@)), rhs@]),
    {
        Expression::binary_or(Expression::negate(self), rhs)
    }
}

impl Equality for Expression {
    type Output = Expression;

    /// The equivalence of `self` and `rhs`: the conjunction of the implications both ways.
    fn iff(self, rhs: Expression) -> (equivalence: Expression)
        ensures
            equivalence@ == ExprView::And(seq![
                ExprView::Or(seq![ExprView::Not(Box::new(self@)), rhs@]),
                ExprView::Or(seq![ExprView::Not(Box::new(rhs@)), self@]),
            ]),
    {
        let left = self.copy();
        let right = rhs.copy();
        Expression::binary_and(self.imply(rhs), right.imply(left))
    }
}

} // verus!
