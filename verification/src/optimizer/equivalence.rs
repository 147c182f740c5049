//! What the statements of a program claim, and that the optimisation
//! leaves it as it is.

use crate::field::modulus;
use crate::ir::{LinCombView, ProgView, QuadCombView, StatementView, TermView};
use crate::optimizer::canonicalizer::{
    canonical_lin_comb, canonical_quad_comb, canonical_statement, canonical_statements,
    lemma_canonical_lin_comb,
};
use crate::optimizer::duplicate::{optimized, without_duplicates};
use crate::sequences::lemma_unseen_contents;
use vstd::prelude::*;
use vstd::seq_lib::{to_multiset_contains, to_multiset_len, to_multiset_remove};

verus! {

/// The value of a variable under a witness: one for the constant one, the
/// value that the witness gives, and zero for a variable that it does not
/// mention.
pub open spec fn variable_value(witness: Map<int, nat>, v: int) -> nat {
    if v == 0 {
        1
    } else if witness.contains_key(v) {
        witness[v]
    } else {
        0
    }
}

/// The value of a term: its coefficient times the value of its variable.
pub open spec fn term_value(witness: Map<int, nat>, t: TermView) -> nat {
    t.1 * variable_value(witness, t.0)
}

/// The value of a linear combination as an integer: the sum of the values
/// of its terms.
pub open spec fn lin_comb_value(witness: Map<int, nat>, l: LinCombView) -> nat
    decreases l.len(),
{
    if l.len() == 0 {
        0
    } else {
        lin_comb_value(witness, l.drop_last()) + term_value(witness, l.last())
    }
}

/// The value of a product as an integer.
pub open spec fn quad_comb_value(witness: Map<int, nat>, q: QuadCombView) -> nat {
    lin_comb_value(witness, q.left) * lin_comb_value(witness, q.right)
}

/// Whether a statement holds under a witness: a constraint where its two
/// sides have the same value in the field, a directive always.
pub open spec fn holds(witness: Map<int, nat>, s: StatementView) -> bool {
    match s {
        StatementView::Constraint(quad, lin) => quad_comb_value(witness, quad) % modulus()
            == lin_comb_value(witness, lin) % modulus(),
        StatementView::Directive(_) => true,
    }
}

/// Whether every statement of a list holds under a witness.
pub open spec fn all_hold(witness: Map<int, nat>, ss: Seq<StatementView>) -> bool {
    forall|i: int| 0 <= i < ss.len() ==> holds(witness, #[trigger] ss[i])
}

proof fn lemma_value_without(witness: Map<int, nat>, l: LinCombView, i: int)
    requires
        0 <= i < l.len(),
    ensures
        lin_comb_value(witness, l) == lin_comb_value(witness, l.remove(i)) + term_value(
            witness,
            l[i],
        ),
    decreases l.len(),
{
    if i == l.len() - 1 {
        assert(l.remove(i) =~= l.drop_last());
    } else {
        lemma_value_without(witness, l.drop_last(), i);
        assert(l.remove(i).drop_last() =~= l.drop_last().remove(i));
        assert(l.remove(i).last() == l.last());
    }
}

/// The value of a linear combination does not depend on the order of its
/// terms.
pub proof fn lemma_value_order_independent(witness: Map<int, nat>, a: LinCombView, b: LinCombView)
    requires
        a.to_multiset() == b.to_multiset(),
    ensures
        lin_comb_value(witness, a) == lin_comb_value(witness, b),
    decreases a.len(),
{
    to_multiset_len(a);
    to_multiset_len(b);
    if a.len() > 0 {
        let x = a.last();
        assert(a.contains(x)) by {
            assert(a[a.len() - 1] == x);
        }
        to_multiset_contains(a, x);
        to_multiset_contains(b, x);
        let i = choose|i: int| 0 <= i < b.len() && b[i] == x;
        to_multiset_remove(a, a.len() - 1);
        to_multiset_remove(b, i);
        assert(a.remove(a.len() - 1) =~= a.drop_last());
        lemma_value_order_independent(witness, a.drop_last(), b.remove(i));
        lemma_value_without(witness, b, i);
    } else {
        assert(b =~= Seq::<TermView>::empty());
    }
}

/// The canonical form of a linear combination has its value.
pub proof fn lemma_canonical_lin_comb_value(witness: Map<int, nat>, l: LinCombView)
    ensures
        lin_comb_value(witness, canonical_lin_comb(l)) == lin_comb_value(witness, l),
{
    lemma_canonical_lin_comb(l);
    lemma_value_order_independent(witness, canonical_lin_comb(l), l);
}

/// The canonical form of a product has its value.
pub proof fn lemma_canonical_quad_comb_value(witness: Map<int, nat>, q: QuadCombView)
    ensures
        quad_comb_value(witness, canonical_quad_comb(q)) == quad_comb_value(witness, q),
{
    lemma_canonical_lin_comb_value(witness, q.left);
    lemma_canonical_lin_comb_value(witness, q.right);
    let x = lin_comb_value(witness, q.left);
    let y = lin_comb_value(witness, q.right);
    assert(x * y == y * x) by (nonlinear_arith);
}

/// The canonical form of a statement claims what the statement claims.
pub proof fn lemma_canonical_statement_holds(witness: Map<int, nat>, s: StatementView)
    ensures
        holds(witness, canonical_statement(s)) == holds(witness, s),
{
    match s {
        StatementView::Constraint(quad, lin) => {
            lemma_canonical_quad_comb_value(witness, quad);
            lemma_canonical_lin_comb_value(witness, lin);
        },
        StatementView::Directive(_) => {},
    }
}

/// The optimised program is equivalent to the program: a witness satisfies
/// every statement of the one where it satisfies every statement of the
/// other. And no statement occurs twice in the optimised program.
pub proof fn lemma_optimized_equivalent(witness: Map<int, nat>, p: ProgView)
    ensures
        all_hold(witness, optimized(p).statements) == all_hold(witness, p.statements),
        optimized(p).statements.no_duplicates(),
{
    let c = canonical_statements(p.statements);
    let kept = without_duplicates(c);
    lemma_unseen_contents(Set::empty(), c);
    assert forall|i: int| 0 <= i < c.len() implies holds(witness, #[trigger] c[i]) == holds(
        witness,
        p.statements[i],
    ) by {
        lemma_canonical_statement_holds(witness, p.statements[i]);
    }
    if all_hold(witness, p.statements) {
        assert forall|k: int| 0 <= k < kept.len() implies holds(witness, #[trigger] kept[k]) by {
            assert(kept.contains(kept[k]));
            assert(c.contains(kept[k]));
            let j = choose|j: int| 0 <= j < c.len() && c[j] == kept[k];
            assert(holds(witness, c[j]));
            assert(holds(witness, p.statements[j]));
        }
    }
    if all_hold(witness, kept) {
        assert forall|i: int| 0 <= i < p.statements.len() implies holds(
            witness,
            #[trigger] p.statements[i],
        ) by {
            assert(c.contains(c[i]));
            assert(kept.contains(c[i]));
            let k = choose|k: int| 0 <= k < kept.len() && kept[k] == c[i];
            assert(holds(witness, kept[k]));
            assert(holds(witness, c[i]));
        }
    }
}

} // verus!
