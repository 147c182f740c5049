//! Canonical forms of statements: the terms of every linear combination in
//! increasing order, and the greater of the two operands of every product
//! on the left.

use crate::field::FieldElement;
use crate::ir::{
    Directive, DirectiveView, FlatVariable, LinComb, LinCombView, QuadComb, QuadCombView,
    Statement, StatementView, TermView, statements_view, term_view, terms_view,
};
use vstd::prelude::*;
use vstd::relations::{sorted_by, total_ordering};
use vstd::seq_lib::{lemma_sorted_unique, to_multiset_build, to_multiset_insert};

verus! {

/// The order of terms: by variable index, then by coefficient.
pub open spec fn term_leq(a: TermView, b: TermView) -> bool {
    a.0 < b.0 || (a.0 == b.0 && a.1 <= b.1)
}

/// The order of terms as a relation.
pub open spec fn term_order() -> spec_fn(TermView, TermView) -> bool {
    |a: TermView, b: TermView| term_leq(a, b)
}

/// The canonical form of a linear combination: its terms in increasing
/// order.
pub open spec fn canonical_lin_comb(l: LinCombView) -> LinCombView {
    l.sort_by(term_order())
}

/// The lexicographic order of linear combinations, from position `i` on.
pub open spec fn lin_comb_leq_from(a: LinCombView, b: LinCombView, i: int) -> bool
    decreases a.len() - i,
{
    if i < 0 || i >= a.len() {
        true
    } else if i >= b.len() {
        false
    } else if a[i] == b[i] {
        lin_comb_leq_from(a, b, i + 1)
    } else {
        term_leq(a[i], b[i])
    }
}

/// The lexicographic order of linear combinations.
pub open spec fn lin_comb_leq(a: LinCombView, b: LinCombView) -> bool {
    lin_comb_leq_from(a, b, 0)
}

/// The canonical form of a product: both operands canonical, the greater one
/// on the left.
pub open spec fn canonical_quad_comb(q: QuadCombView) -> QuadCombView {
    let left = canonical_lin_comb(q.left);
    let right = canonical_lin_comb(q.right);
    if lin_comb_leq(right, left) {
        QuadCombView { left: left, right: right }
    } else {
        QuadCombView { left: right, right: left }
    }
}

/// The canonical form of a directive: each of its inputs canonical.
pub open spec fn canonical_directive(d: DirectiveView) -> DirectiveView {
    DirectiveView {
        inputs: d.inputs.map_values(|q: QuadCombView| canonical_quad_comb(q)),
        outputs: d.outputs,
        solver: d.solver,
    }
}

/// The canonical form of a statement.
pub open spec fn canonical_statement(s: StatementView) -> StatementView {
    match s {
        StatementView::Constraint(quad, lin) => StatementView::Constraint(
            canonical_quad_comb(quad),
            canonical_lin_comb(lin),
        ),
        StatementView::Directive(d) => StatementView::Directive(canonical_directive(d)),
    }
}

/// The canonical forms of a list of statements, in the same order.
pub open spec fn canonical_statements(s: Seq<StatementView>) -> Seq<StatementView> {
    s.map_values(|x: StatementView| canonical_statement(x))
}

/// Whether a linear combination is in canonical form.
pub open spec fn is_canonical_lin_comb(l: LinCombView) -> bool {
    sorted_by(l, term_order())
}

/// The order of terms is a total order.
pub proof fn lemma_term_order_total()
    ensures
        total_ordering(term_order()),
{
    let r = term_order();
    assert forall|x: TermView, y: TermView| #[trigger] r(x, y) && #[trigger] r(y, x) implies x
        == y by {}
}

/// The canonical form holds the same terms, in increasing order.
pub proof fn lemma_canonical_lin_comb(l: LinCombView)
    ensures
        is_canonical_lin_comb(canonical_lin_comb(l)),
        canonical_lin_comb(l).to_multiset() == l.to_multiset(),
        canonical_lin_comb(l).len() == l.len(),
{
    lemma_term_order_total();
    l.lemma_sort_by_ensures(term_order());
    l.to_multiset_ensures();
    canonical_lin_comb(l).to_multiset_ensures();
}

/// An ordered sequence with the terms of `l` is the canonical form of `l`.
pub proof fn lemma_canonical_lin_comb_unique(l: LinCombView, c: LinCombView)
    requires
        is_canonical_lin_comb(c),
        c.to_multiset() == l.to_multiset(),
    ensures
        c == canonical_lin_comb(l),
{
    lemma_term_order_total();
    lemma_canonical_lin_comb(l);
    lemma_sorted_unique(c, canonical_lin_comb(l), term_order());
}

/// The order of linear combinations is total, and two linear combinations
/// that are each below the other are equal.
pub proof fn lemma_lin_comb_leq_total(a: LinCombView, b: LinCombView)
    ensures
        lin_comb_leq(a, b) || lin_comb_leq(b, a),
        lin_comb_leq(a, b) && lin_comb_leq(b, a) ==> a == b,
{
    lemma_lin_comb_leq_from(a, b, 0);
    if lin_comb_leq(a, b) && lin_comb_leq(b, a) {
        assert(a =~= b);
    }
}

proof fn lemma_lin_comb_leq_from(a: LinCombView, b: LinCombView, i: int)
    requires
        0 <= i <= a.len(),
        i <= b.len(),
    ensures
        lin_comb_leq_from(a, b, i) || lin_comb_leq_from(b, a, i),
        lin_comb_leq_from(a, b, i) && lin_comb_leq_from(b, a, i) ==> {
            &&& a.len() == b.len()
            &&& forall|j: int| i <= j < a.len() ==> a[j] == b[j]
        },
    decreases a.len() - i,
{
    if i < a.len() && i < b.len() {
        lemma_lin_comb_leq_from(a, b, i + 1);
    }
}

/// A linear combination in canonical form is its own canonical form.
pub proof fn lemma_canonical_lin_comb_fixed(l: LinCombView)
    requires
        is_canonical_lin_comb(l),
    ensures
        canonical_lin_comb(l) == l,
{
    lemma_canonical_lin_comb_unique(l, l);
}

/// Two linear combinations with the same terms, in whatever order, have the
/// same canonical form.
pub proof fn lemma_canonical_lin_comb_order_independent(a: LinCombView, b: LinCombView)
    requires
        a.to_multiset() == b.to_multiset(),
    ensures
        canonical_lin_comb(a) == canonical_lin_comb(b),
{
    lemma_canonical_lin_comb(a);
    lemma_canonical_lin_comb_unique(b, canonical_lin_comb(a));
}

/// Whether a product is in canonical form.
pub open spec fn is_canonical_quad_comb(q: QuadCombView) -> bool {
    &&& is_canonical_lin_comb(q.left)
    &&& is_canonical_lin_comb(q.right)
    &&& lin_comb_leq(q.right, q.left)
}

/// The canonical form of a product is in canonical form, and a product in
/// canonical form is its own canonical form.
pub proof fn lemma_canonical_quad_comb(q: QuadCombView)
    ensures
        is_canonical_quad_comb(canonical_quad_comb(q)),
        is_canonical_quad_comb(q) ==> canonical_quad_comb(q) == q,
{
    lemma_canonical_lin_comb(q.left);
    lemma_canonical_lin_comb(q.right);
    lemma_lin_comb_leq_total(canonical_lin_comb(q.left), canonical_lin_comb(q.right));
    if is_canonical_quad_comb(q) {
        lemma_canonical_lin_comb_fixed(q.left);
        lemma_canonical_lin_comb_fixed(q.right);
    }
}

/// Two products whose operands hold the same terms, the operands in the same
/// or in the opposite order, have the same canonical form.
pub proof fn lemma_canonical_quad_comb_order_independent(a: QuadCombView, b: QuadCombView)
    requires
        (a.left.to_multiset() == b.left.to_multiset() && a.right.to_multiset()
            == b.right.to_multiset()) || (a.left.to_multiset() == b.right.to_multiset()
            && a.right.to_multiset() == b.left.to_multiset()),
    ensures
        canonical_quad_comb(a) == canonical_quad_comb(b),
{
    if a.left.to_multiset() == b.left.to_multiset() && a.right.to_multiset()
        == b.right.to_multiset() {
        lemma_canonical_lin_comb_order_independent(a.left, b.left);
        lemma_canonical_lin_comb_order_independent(a.right, b.right);
    } else {
        lemma_canonical_lin_comb_order_independent(a.left, b.right);
        lemma_canonical_lin_comb_order_independent(a.right, b.left);
        lemma_lin_comb_leq_total(canonical_lin_comb(a.left), canonical_lin_comb(a.right));
    }
}

/// Whether a statement is in canonical form.
pub open spec fn is_canonical_statement(s: StatementView) -> bool {
    match s {
        StatementView::Constraint(quad, lin) => is_canonical_quad_comb(quad)
            && is_canonical_lin_comb(lin),
        StatementView::Directive(d) => forall|i: int|
            0 <= i < d.inputs.len() ==> is_canonical_quad_comb(#[trigger] d.inputs[i]),
    }
}

/// The canonical form of a statement is in canonical form, and a statement
/// in canonical form is its own canonical form. So to bring a statement into
/// canonical form twice is to do it once.
pub proof fn lemma_canonical_statement(s: StatementView)
    ensures
        is_canonical_statement(canonical_statement(s)),
        is_canonical_statement(s) ==> canonical_statement(s) == s,
        canonical_statement(canonical_statement(s)) == canonical_statement(s),
{
    lemma_canonical_statement_once(s);
    lemma_canonical_statement_once(canonical_statement(s));
}

proof fn lemma_canonical_statement_once(s: StatementView)
    ensures
        is_canonical_statement(canonical_statement(s)),
        is_canonical_statement(s) ==> canonical_statement(s) == s,
{
    match s {
        StatementView::Constraint(quad, lin) => {
            lemma_canonical_quad_comb(quad);
            lemma_canonical_lin_comb(lin);
            if is_canonical_statement(s) {
                lemma_canonical_lin_comb_fixed(lin);
            }
        },
        StatementView::Directive(d) => {
            let c = canonical_directive(d);
            assert forall|i: int| 0 <= i < c.inputs.len() implies is_canonical_quad_comb(
                #[trigger] c.inputs[i],
            ) by {
                lemma_canonical_quad_comb(d.inputs[i]);
            }
            if is_canonical_statement(s) {
                assert forall|i: int| 0 <= i < d.inputs.len() implies c.inputs[i]
                    == d.inputs[i] by {
                    lemma_canonical_quad_comb(d.inputs[i]);
                }
                assert(c.inputs =~= d.inputs);
            }
        },
    }
}

/// Whether two statements are constraints over the same terms: each linear
/// combination of the one holds the terms of its counterpart in the other,
/// in whatever order, and the operands of the product may have changed
/// places.
pub open spec fn same_constraint(a: StatementView, b: StatementView) -> bool {
    match (a, b) {
        (StatementView::Constraint(qa, la), StatementView::Constraint(qb, lb)) => {
            &&& la.to_multiset() == lb.to_multiset()
            &&& (qa.left.to_multiset() == qb.left.to_multiset() && qa.right.to_multiset()
                == qb.right.to_multiset()) || (qa.left.to_multiset() == qb.right.to_multiset()
                && qa.right.to_multiset() == qb.left.to_multiset())
        },
        _ => false,
    }
}

/// Two constraints over the same terms have the same canonical form.
pub proof fn lemma_same_constraint_same_canonical_form(a: StatementView, b: StatementView)
    requires
        same_constraint(a, b),
    ensures
        canonical_statement(a) == canonical_statement(b),
{
    match (a, b) {
        (StatementView::Constraint(qa, la), StatementView::Constraint(qb, lb)) => {
            lemma_canonical_quad_comb_order_independent(qa, qb);
            lemma_canonical_lin_comb_order_independent(la, lb);
        },
        _ => {},
    }
}

/// Whether the first term comes before the second, or equals it.
fn term_less_eq(a: &(FlatVariable, FieldElement), b: &(FlatVariable, FieldElement)) -> (r: bool)
    ensures
        r == term_leq(term_view(*a), term_view(*b)),
{
    a.0.less_than(&b.0) || (a.0 == b.0 && !b.1.less_than(&a.1))
}

/// Whether the first linear combination comes before the second in the
/// lexicographic order, or equals it.
pub fn lin_comb_less_eq(a: &LinComb, b: &LinComb) -> (r: bool)
    ensures
        r == lin_comb_leq(a@, b@),
{
    let mut i: usize = 0;
    loop
        invariant
            i <= a.0.len(),
            i <= b.0.len(),
            lin_comb_leq(a@, b@) == lin_comb_leq_from(a@, b@, i as int),
        decreases a.0.len() - i,
    {
        if i >= a.0.len() {
            return true;
        }
        if i >= b.0.len() {
            return false;
        }
        if a.0[i].0 == b.0[i].0 && a.0[i].1 == b.0[i].1 {
            assert(a@[i as int] == b@[i as int]);
            i += 1;
        } else {
            assert(a@[i as int] != b@[i as int]);
            return term_less_eq(&a.0[i], &b.0[i]);
        }
    }
}

/// The terms of `terms` in increasing order.
fn sorted_terms(terms: &Vec<(FlatVariable, FieldElement)>) -> (sorted: Vec<
    (FlatVariable, FieldElement),
>)
    ensures
        terms_view(sorted@) == canonical_lin_comb(terms_view(terms@)),
{
    let ghost input = terms_view(terms@);
    let mut sorted: Vec<(FlatVariable, FieldElement)> = Vec::new();
    let mut i: usize = 0;
    proof {
        assert(input.take(0) =~= terms_view(sorted@));
    }
    while i < terms.len()
        invariant
            i <= terms.len(),
            input == terms_view(terms@),
            sorted_by(terms_view(sorted@), term_order()),
            terms_view(sorted@).to_multiset() == input.take(i as int).to_multiset(),
        decreases terms.len() - i,
    {
        let t = terms[i];
        let mut p: usize = 0;
        while p < sorted.len() && !term_less_eq(&t, &sorted[p])
            invariant
                p <= sorted.len(),
                forall|j: int| 0 <= j < p ==> !term_leq(term_view(t), #[trigger] terms_view(sorted@)[j]),
            decreases sorted.len() - p,
        {
            p += 1;
        }
        let ghost before = terms_view(sorted@);
        sorted.insert(p, t);
        proof {
            let x = term_view(t);
            let after = terms_view(sorted@);
            assert(after =~= before.insert(p as int, x));
            assert forall|a: int, b: int| 0 <= a < b < after.len() implies #[trigger] term_order()(
                after[a],
                after[b],
            ) by {
                if b < p {
                    assert(term_order()(before[a], before[b]));
                } else if b == p {
                    assert(!term_leq(x, before[a]));
                } else if a < p {
                    assert(term_order()(before[a], before[b - 1]));
                } else if a == p {
                    assert(term_leq(x, before[p as int]));
                    if b - 1 > p {
                        assert(term_order()(before[p as int], before[b - 1]));
                    }
                } else {
                    assert(term_order()(before[a - 1], before[b - 1]));
                }
            }
            to_multiset_insert(before, p as int, x);
            assert(input.take(i + 1) =~= input.take(i as int).push(x));
            to_multiset_build(input.take(i as int), x);
        }
        i += 1;
    }
    proof {
        assert(input.take(terms.len() as int) =~= input);
        lemma_canonical_lin_comb_unique(input, terms_view(sorted@));
    }
    sorted
}

/// The rewriting of statements into their canonical forms.
#[derive(Debug, Clone, Copy)]
pub struct Canonicalizer;

impl Canonicalizer {
    /// The canonical form of `l`.
    pub fn fold_linear_combination(&self, l: LinComb) -> (r: LinComb)
        ensures
            r@ == canonical_lin_comb(l@),
    {
        LinComb(sorted_terms(&l.0))
    }

    /// The canonical form of `q`.
    pub fn fold_quadratic_combination(&self, q: QuadComb) -> (r: QuadComb)
        ensures
            r@ == canonical_quad_comb(q@),
    {
        let left = self.fold_linear_combination(q.left);
        let right = self.fold_linear_combination(q.right);
        if lin_comb_less_eq(&right, &left) {
            QuadComb { left, right }
        } else {
            QuadComb { left: right, right: left }
        }
    }

    /// The canonical form of `d`.
    pub fn fold_directive(&self, d: Directive) -> (r: Directive)
        ensures
            r@ == canonical_directive(d@),
    {
        let mut inputs: Vec<QuadComb> = Vec::new();
        let mut i: usize = 0;
        while i < d.inputs.len()
            invariant
                i <= d.inputs.len(),
                inputs@.len() == i,
                forall|j: int| 0 <= j < i ==> inputs@[j]@ == canonical_quad_comb(d.inputs@[j]@),
            decreases d.inputs.len() - i,
        {
            inputs.push(self.fold_quadratic_combination(d.inputs[i].clone()));
            i += 1;
        }
        let r = Directive { inputs, outputs: d.outputs, solver: d.solver };
        assert(r@.inputs =~= canonical_directive(d@).inputs);
        r
    }

    /// The statements that stand for `s` in canonical form: here always one.
    pub fn fold_statement(&self, s: Statement) -> (r: Vec<Statement>)
        ensures
            statements_view(r@) == seq![canonical_statement(s@)],
    {
        let canonical = match s {
            Statement::Constraint(quad, lin) => Statement::Constraint(
                self.fold_quadratic_combination(quad),
                self.fold_linear_combination(lin),
            ),
            Statement::Directive(d) => Statement::Directive(self.fold_directive(d)),
        };
        let mut r: Vec<Statement> = Vec::new();
        r.push(canonical);
        assert(statements_view(r@) =~= seq![canonical_statement(s@)]);
        r
    }
}

} // verus!
