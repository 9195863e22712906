//! Truth tables of expressions, and expressions of truth tables.
use crate::expressions::{exprs_view, lemma_exprs_view, lemma_all_true, lemma_any_true, expr_literals, expr_value, lemma_literals_finite, lemma_value_depends_on_literals, value_of, ExprView, Expression};
use crate::table::compare::{spec_compare, Comparison};
use crate::table::ops::union_names;
use crate::literals::{distinct_names, is_sorted_set, lemma_sorted_set_distinct};
use crate::table::index::{lookup, valuation_point};
use crate::table::iterators::true_rows;
use crate::table::{pow2_usize, TruthTable};
use crate::traits::{Evaluate, GatherLiterals, SemanticEq};
use crate::utils::{
    lemma_point_index_bound, lemma_point_row_index_roundtrip, lemma_row_index_point_roundtrip,
    point_index, row_index_to_bool_point, spec_row_index_to_bool_point,
};
use crate::valuation::{boolean_point_to_valuation, lemma_zip_map, zip_map, Valuation};
use vstd::arithmetic::power2::{lemma_pow2_strictly_increases, pow2};
use vstd::prelude::*;

verus! {

/// The output of row `k` of a table with inputs `names` is the value of `e` on the
/// valuation of that row.
pub open spec fn rows_follow(e: ExprView, names: Seq<Seq<char>>, outputs: Seq<bool>) -> bool {
    forall|k: int| 0 <= k < outputs.len() ==> #[trigger] outputs[k] == expr_value(
        e,
        zip_map(names, spec_row_index_to_bool_point(k as nat, names.len())),
        false,
    )
}

/// A table whose rows follow an expression that only uses its inputs evaluates as the
/// expression does, on every valuation and with every default.
proof fn lemma_table_of_rows(table: TruthTable, e: ExprView, valuation: Map<Seq<char>, bool>, default: bool)
    requires
        table.wf(),
        rows_follow(e, table.names(), table.outputs@),
        forall|x: Seq<char>| #[trigger] expr_literals(e).contains(x) ==> table.names().contains(x),
    ensures
        table.spec_evaluate(valuation, default) == expr_value(e, valuation, default),
{
    let names = table.names();
    let n = names.len();
    let p = valuation_point(names, valuation, default);
    lemma_point_index_bound(p);
    lemma_point_row_index_roundtrip(p);
    let k = point_index(p);
    assert(spec_row_index_to_bool_point(k, n) == p);
    let z = zip_map(names, p);
    assert(table.outputs@[k as int] == expr_value(e, z, false));
    assert forall|x: Seq<char>| #[trigger] expr_literals(e).contains(x) implies value_of(z, x, false) == value_of(valuation, x, default) by {
        assert(names.contains(x));
        let j = choose|j: int| 0 <= j < names.len() && names[j] == x;
        lemma_zip_map(names, p, j);
        assert(p[j] == (lookup(valuation, names[j], Some(default)) == Some(true)));
    }
    lemma_value_depends_on_literals(e, z, false, valuation, default);
}

/// The two expressions have the same value on every valuation.
pub open spec fn same_everywhere(a: ExprView, b: ExprView) -> bool {
    forall|valuation: Map<Seq<char>, bool>| #[trigger] expr_value(a, valuation, false) == expr_value(b, valuation, false)
}

/// A set within a finite set of at most `m` elements, with `2^m` in range, has its `2^len`
/// in range too.
proof fn lemma_pow2_of_subset(small: Set<Seq<char>>, large: Set<Seq<char>>)
    requires
        large.finite(),
        small.subset_of(large),
        pow2(large.len()) <= usize::MAX,
    ensures
        pow2(small.len()) <= usize::MAX,
{
    vstd::set_lib::lemma_len_subset(small, large);
    if small.len() < large.len() {
        lemma_pow2_strictly_increases(small.len(), large.len());
    }
}

impl SemanticEq for Expression {
    open spec fn comparable(&self, other: &Expression) -> bool {
        pow2(expr_literals(self@).union(expr_literals(other@)).len()) <= usize::MAX
    }

    open spec fn same_function(&self, other: &Expression) -> bool {
        same_everywhere(self@, other@)
    }

    /// Whether the two expressions have the same value on every valuation, compared through
    /// their truth tables.
    fn semantic_eq(&self, other: &Expression) -> (equal: bool) {
        let ghost all = expr_literals(self@).union(expr_literals(other@));
        proof {
            lemma_literals_finite(self@);
            lemma_literals_finite(other@);
            lemma_pow2_of_subset(expr_literals(self@), all);
            lemma_pow2_of_subset(expr_literals(other@), all);
        }
        let mine = TruthTable::from_expression(self);
        let theirs = TruthTable::from_expression(other);
        proof {
            assert forall|names: Seq<Seq<char>>| #[trigger] union_names(mine, theirs, names) implies pow2(names.len()) <= usize::MAX by {
                lemma_sorted_set_distinct(names);
                assert(names.no_duplicates());
                names.unique_seq_to_set();
                assert(names.to_set() =~= all);
            }
        }
        let equal = mine.semantic_eq(&theirs);
        proof {
            if equal {
                assert forall|valuation: Map<Seq<char>, bool>| #[trigger] expr_value(self@, valuation, false) == expr_value(other@, valuation, false) by {
                    assert(spec_compare(Comparison::Equal, mine.spec_evaluate(valuation, false), theirs.spec_evaluate(valuation, false)));
                }
            } else {
                let valuation = choose|valuation: Map<Seq<char>, bool>| !#[trigger] spec_compare(Comparison::Equal, mine.spec_evaluate(valuation, false), theirs.spec_evaluate(valuation, false));
                assert(expr_value(self@, valuation, false) != expr_value(other@, valuation, false));
            }
        }
        equal
    }
}

impl TruthTable {
    /// The truth table of `expression`: its inputs are the variables of the expression, in
    /// sorted order, and each row holds the value of the expression on that row.
    pub fn from_expression(expression: &Expression) -> (table: TruthTable)
        requires
            pow2(expr_literals(expression@).len()) <= usize::MAX,
        ensures
            table.wf(),
            is_sorted_set(table.names()),
            table.names().to_set() == expr_literals(expression@),
            rows_follow(expression@, table.names(), table.outputs@),
            forall|valuation: Map<Seq<char>, bool>, default: bool| #[trigger] table.spec_evaluate(valuation, default) == expr_value(expression@, valuation, default),
    {
        let literals = expression.gather_literals();
        let ghost names = literals.deep_view();
        proof {
            lemma_sorted_set_distinct(names);
            assert(names.no_duplicates());
            names.unique_seq_to_set();
        }
        let n = literals.len();
        let rows = pow2_usize(n);
        let mut outputs: Vec<bool> = Vec::new();
        let mut k: usize = 0;
        while k < rows
            invariant
                names == literals.deep_view(),
                names.len() == n,
                rows == pow2(n as nat),
                k <= rows,
                outputs@.len() == k,
                rows_follow(expression@, names, outputs@),
            decreases rows - k,
        {
            let point = row_index_to_bool_point(k, n);
            proof {
                lemma_row_index_point_roundtrip(k as nat, n as nat);
            }
            let copied = literals.clone();
            proof {
                assert(copied.deep_view() =~= names);
            }
            let valuation = match boolean_point_to_valuation(copied, point) {
                Some(v) => v,
                None => {
                    proof {
                        assert(false);
                    }
                    Valuation::new()
                },
            };
            let value = expression.evaluate(&valuation);
            outputs.push(value);
            k = k + 1;
        }
        let table = TruthTable::new(literals, outputs);
        proof {
            assert(table.names() == names);
            assert forall|valuation: Map<Seq<char>, bool>, default: bool| #[trigger] table.spec_evaluate(valuation, default) == expr_value(expression@, valuation, default) by {
                assert forall|x: Seq<char>| #[trigger] expr_literals(expression@).contains(x) implies names.contains(x) by {
                    assert(names.to_set().contains(x));
                }
                lemma_table_of_rows(table, expression@, valuation, default);
            }
        }
        table
    }
}

/// The expression of one cell of a row: the variable `name` when `value` is `true`, its
/// negation otherwise.
pub open spec fn cell_view(name: Seq<char>, value: bool) -> ExprView {
    if value {
        ExprView::Literal(name)
    } else {
        ExprView::Not(Box::new(ExprView::Literal(name)))
    }
}

/// The conjunction of the cells of row `row` over the inputs `names`.
pub open spec fn row_term(names: Seq<Seq<char>>, row: nat) -> ExprView {
    let point = spec_row_index_to_bool_point(row, names.len());
    ExprView::And(Seq::new(names.len(), |i: int| cell_view(names[i], point[i])))
}

/// The disjunction of the terms of the rows whose output is `true`, in the order of rows.
pub open spec fn trivial_view(names: Seq<Seq<char>>, outputs: Seq<bool>) -> ExprView {
    let rows = true_rows(outputs);
    ExprView::Or(Seq::new(rows.len(), |j: int| row_term(names, rows[j])))
}

impl TruthTable {
    /// The expression of the cell of input `cell_index` holding `literal_value`.
    fn cell_to_expression(&self, cell_index: usize, literal_value: bool) -> (e: Expression)
        requires
            cell_index < self.inputs@.len(),
        ensures
            e@ == cell_view(self.names()[cell_index as int], literal_value),
    {
        let literal = self.inputs[cell_index].clone();
        if literal_value {
            Expression::Literal(literal)
        } else {
            Expression::negate(Expression::Literal(literal))
        }
    }

    /// The disjunctive normal form of the table: for each row whose output is `true`, in
    /// order, the conjunction of its cells.
    pub fn to_expression_trivial(&self) -> (e: Expression)
        requires
            self.wf(),
        ensures
            e@ == trivial_view(self.names(), self.outputs@),
    {
        let ghost names = self.names();
        let ghost outputs = self.outputs@;
        let n = self.variable_count();
        let mut terms: Vec<Expression> = Vec::new();
        let mut r: usize = 0;
        while r < self.outputs.len()
            invariant
                self.wf(),
                names == self.names(),
                outputs == self.outputs@,
                n == names.len(),
                r <= outputs.len(),
                terms@.len() == true_rows(outputs.subrange(0, r as int)).len(),
                forall|j: int| 0 <= j < terms@.len() ==> (#[trigger] terms@[j])@ == row_term(names, true_rows(outputs.subrange(0, r as int))[j]),
                forall|j: int| 0 <= j < terms@.len() ==> true_rows(outputs.subrange(0, r as int))[j] < r,
            decreases self.outputs.len() - r,
        {
            let ghost before = true_rows(outputs.subrange(0, r as int));
            proof {
                assert(outputs.subrange(0, r + 1).drop_last() =~= outputs.subrange(0, r as int));
                assert(outputs.subrange(0, r + 1).last() == outputs[r as int]);
            }
            if self.outputs[r] {
                let row = self.row(r);
                proof {
                    lemma_row_index_point_roundtrip(r as nat, n as nat);
                }
                let mut cells: Vec<Expression> = Vec::new();
                let mut i: usize = 0;
                while i < n
                    invariant
                        self.wf(),
                        names == self.names(),
                        n == names.len(),
                        row@ == spec_row_index_to_bool_point(r as nat, n as nat),
                        row@.len() == n,
                        i <= n,
                        cells@.len() == i,
                        forall|k: int| 0 <= k < i ==> (#[trigger] cells@[k])@ == cell_view(names[k], row@[k]),
                    decreases n - i,
                {
                    cells.push(self.cell_to_expression(i, row[i]));
                    i = i + 1;
                }
                proof {
                    lemma_exprs_view(cells@);
                    assert(exprs_view(cells@) =~= Seq::new(names.len(), |k: int| cell_view(names[k], row@[k])));
                }
                terms.push(Expression::n_ary_and(cells));
            }
            r = r + 1;
            proof {
                assert(true_rows(outputs.subrange(0, r as int)) == if outputs[r - 1] { before.push((r - 1) as nat) } else { before });
            }
        }
        proof {
            assert(outputs.subrange(0, r as int) =~= outputs);
            lemma_exprs_view(terms@);
            let rows = true_rows(outputs);
            assert(exprs_view(terms@) =~= Seq::new(rows.len(), |j: int| row_term(names, rows[j])));
        }
        Expression::n_ary_or(terms)
    }
}

/// The rows listed by `true_rows` are exactly those whose output is `true`.
pub proof fn lemma_true_rows_members(outputs: Seq<bool>)
    ensures
        forall|j: int| 0 <= j < true_rows(outputs).len() ==> #[trigger] true_rows(outputs)[j] < outputs.len() && outputs[true_rows(outputs)[j] as int],
        forall|r: int| 0 <= r < outputs.len() && #[trigger] outputs[r] ==> exists|j: int| 0 <= j < true_rows(outputs).len() && true_rows(outputs)[j] == r,
    decreases outputs.len(),
{
    if outputs.len() > 0 {
        let rest = outputs.drop_last();
        lemma_true_rows_members(rest);
        assert forall|j: int| 0 <= j < true_rows(outputs).len() implies #[trigger] true_rows(outputs)[j] < outputs.len() && outputs[true_rows(outputs)[j] as int] by {
            if j < true_rows(rest).len() {
                assert(true_rows(outputs)[j] == true_rows(rest)[j]);
                assert(rest[true_rows(rest)[j] as int] == outputs[true_rows(rest)[j] as int]);
            }
        }
        assert forall|r: int| 0 <= r < outputs.len() && #[trigger] outputs[r] implies exists|j: int| 0 <= j < true_rows(outputs).len() && true_rows(outputs)[j] == r by {
            if r < outputs.len() - 1 {
                assert(rest[r] == outputs[r]);
                let j = choose|j: int| 0 <= j < true_rows(rest).len() && true_rows(rest)[j] == r;
                assert(true_rows(outputs)[j] == true_rows(rest)[j]);
            } else {
                assert(true_rows(outputs)[true_rows(outputs).len() - 1] == r);
            }
        }
    }
}

/// The term of row `row` is true exactly on the valuations whose point is that row.
proof fn lemma_row_term_value(names: Seq<Seq<char>>, row: nat, valuation: Map<Seq<char>, bool>, default: bool)
    requires
        row < pow2(names.len()),
    ensures
        expr_value(row_term(names, row), valuation, default) <==> spec_row_index_to_bool_point(row, names.len()) == valuation_point(names, valuation, default),
{
    let n = names.len();
    let point = spec_row_index_to_bool_point(row, n);
    let p = valuation_point(names, valuation, default);
    lemma_row_index_point_roundtrip(row, n);
    let cells = Seq::new(n, |i: int| cell_view(names[i], point[i]));
    lemma_all_true(cells, valuation, default);
    assert forall|i: int| 0 <= i < n implies #[trigger] expr_value(cells[i], valuation, default) == (point[i] == p[i]) by {
        assert(p[i] == (lookup(valuation, names[i], Some(default)) == Some(true)));
        assert(value_of(valuation, names[i], default) == p[i]);
        assert(cells[i] == cell_view(names[i], point[i]));
        assert(expr_value(ExprView::Literal(names[i]), valuation, default) == p[i]);
    }
    if point != p {
        assert(!(point =~= p));
        let i = choose|i: int| 0 <= i < n && point[i] != p[i];
        assert(!expr_value(cells[i], valuation, default));
    }
}

/// The trivial expression of a table has, on every valuation, the value of the table.
pub proof fn law_trivial_expression_evaluation(table: TruthTable, valuation: Map<Seq<char>, bool>, default: bool)
    requires
        table.wf(),
    ensures
        expr_value(trivial_view(table.names(), table.outputs@), valuation, default) == table.spec_evaluate(valuation, default),
{
    let names = table.names();
    let n = names.len();
    let outputs = table.outputs@;
    let p = valuation_point(names, valuation, default);
    lemma_point_index_bound(p);
    lemma_point_row_index_roundtrip(p);
    let target = point_index(p);
    let rows = true_rows(outputs);
    let terms = Seq::new(rows.len(), |j: int| row_term(names, rows[j]));
    lemma_true_rows_members(outputs);
    lemma_any_true(terms, valuation, default);
    if outputs[target as int] {
        let j = choose|j: int| 0 <= j < rows.len() && rows[j] == target;
        lemma_row_term_value(names, target, valuation, default);
        assert(expr_value(terms[j], valuation, default));
    } else {
        assert forall|j: int| 0 <= j < rows.len() implies !#[trigger] expr_value(terms[j], valuation, default) by {
            lemma_row_term_value(names, rows[j], valuation, default);
            if expr_value(terms[j], valuation, default) {
                lemma_row_index_point_roundtrip(rows[j], n);
                assert(rows[j] == target);
            }
        }
    }
}

} // verus!
