//! The detection of variables that no constraint mentions.
//!
//! A variable is declared where it is a private argument, where a directive
//! reads it and where a directive assigns it. It is accounted for where a
//! constraint mentions it, where it is a public argument or a returned
//! variable, and where it is the constant one. A declared variable that is
//! not accounted for is unconstrained: the prover can give it any value.

use crate::ir::{
    FlatParameter, FlatParameterView, FlatVariable, LinComb, LinCombView, Prog, ProgView,
    QuadComb, QuadCombView, Statement, StatementView, TermView, parameters_view, variables_view,
};
use crate::sequences::{lemma_push_contains, unseen};
use std::collections::HashSet;
use vstd::prelude::*;

verus! {

/// The variables that no constraint mentions, in the order in which they
/// are declared.
#[derive(Debug, PartialEq, Eq)]
pub struct Error {
    pub variables: Vec<FlatVariable>,
}

impl View for Error {
    type V = Seq<int>;

    open spec fn view(&self) -> Seq<int> {
        variables_view(self.variables@)
    }
}

impl Error {
    /// The error in words.
    pub fn message(&self) -> (r: String)
        ensures
            r@ == "found unconstrained variables during IR analysis"@,
    {
        "found unconstrained variables during IR analysis".to_string()
    }
}

/// The variables of the terms of a linear combination, in order.
pub open spec fn lin_comb_variables(l: LinCombView) -> Seq<int> {
    l.map_values(|t: TermView| t.0)
}

/// The variables of the two operands of a product, in order.
pub open spec fn quad_comb_variables(q: QuadCombView) -> Seq<int> {
    lin_comb_variables(q.left) + lin_comb_variables(q.right)
}

/// The variables of a list of products, in order.
pub open spec fn quad_combs_variables(qs: Seq<QuadCombView>) -> Seq<int>
    decreases qs.len(),
{
    if qs.len() == 0 {
        Seq::empty()
    } else {
        quad_combs_variables(qs.drop_last()) + quad_comb_variables(qs.last())
    }
}

/// The variables that a statement constrains: those of a constraint.
pub open spec fn statement_constrained(s: StatementView) -> Seq<int> {
    match s {
        StatementView::Constraint(quad, lin) => quad_comb_variables(quad) + lin_comb_variables(lin),
        StatementView::Directive(_) => Seq::empty(),
    }
}

/// The variables that a statement declares: those that a directive reads,
/// then those that it assigns.
pub open spec fn statement_declared(s: StatementView) -> Seq<int> {
    match s {
        StatementView::Constraint(_, _) => Seq::empty(),
        StatementView::Directive(d) => quad_combs_variables(d.inputs) + d.outputs,
    }
}

/// The variables that the statements of a list constrain.
pub open spec fn constrained(ss: Seq<StatementView>) -> Seq<int>
    decreases ss.len(),
{
    if ss.len() == 0 {
        Seq::empty()
    } else {
        constrained(ss.drop_last()) + statement_constrained(ss.last())
    }
}

/// The variables that the statements of a list declare.
pub open spec fn declared_by_statements(ss: Seq<StatementView>) -> Seq<int>
    decreases ss.len(),
{
    if ss.len() == 0 {
        Seq::empty()
    } else {
        declared_by_statements(ss.drop_last()) + statement_declared(ss.last())
    }
}

/// The variables of the arguments of the given visibility, in order.
pub open spec fn arguments_of(ps: Seq<FlatParameterView>, private: bool) -> Seq<int>
    decreases ps.len(),
{
    if ps.len() == 0 {
        Seq::empty()
    } else if ps.last().private == private {
        arguments_of(ps.drop_last(), private).push(ps.last().id)
    } else {
        arguments_of(ps.drop_last(), private)
    }
}

/// The variables that a program declares: its private arguments, then what
/// its statements declare.
pub open spec fn declared(p: ProgView) -> Seq<int> {
    arguments_of(p.arguments, true) + declared_by_statements(p.statements)
}

/// The variables that a program accounts for, the constant one aside: what
/// its constraints mention, its public arguments and what it returns.
pub open spec fn accounted(p: ProgView) -> Seq<int> {
    constrained(p.statements) + arguments_of(p.arguments, false) + p.returns
}

/// The unconstrained variables of a program, each once, in the order in
/// which they are declared.
pub open spec fn unconstrained(p: ProgView) -> Seq<int> {
    unseen(accounted(p).to_set().insert(0), declared(p))
}

/// A set of variables.
struct VariableSet {
    indices: HashSet<i128>,
}

impl VariableSet {
    spec fn members(&self) -> Set<int> {
        Set::new(
            |x: int| i128::MIN <= x <= i128::MAX && self.indices@.contains(x as i128),
        )
    }

    fn new() -> (r: VariableSet)
        ensures
            r.members() == Set::<int>::empty(),
    {
        let r = VariableSet { indices: HashSet::new() };
        assert(r.members() =~= Set::<int>::empty());
        r
    }

    fn insert(&mut self, v: &FlatVariable)
        ensures
            final(self).members() == old(self).members().insert(v@),
    {
        broadcast use vstd::std_specs::hash::group_hash_axioms;

        self.indices.insert(v.index());
        assert(self.members() =~= old(self).members().insert(v@));
    }

    fn contains(&self, v: &FlatVariable) -> (r: bool)
        ensures
            r == self.members().contains(v@),
    {
        broadcast use vstd::std_specs::hash::group_hash_axioms;

        let index = v.index();
        self.indices.contains(&index)
    }
}

/// Puts the variables of `l` after those of `out`.
fn push_lin_comb_variables(l: &LinComb, out: &mut Vec<FlatVariable>)
    ensures
        variables_view(final(out)@) == variables_view(old(out)@) + lin_comb_variables(l@),
{
    let ghost start = variables_view(out@);
    let mut i: usize = 0;
    while i < l.0.len()
        invariant
            i <= l.0.len(),
            variables_view(out@) == start + lin_comb_variables(l@).take(i as int),
        decreases l.0.len() - i,
    {
        let ghost before = variables_view(out@);
        out.push(l.0[i].0);
        proof {
            let all = lin_comb_variables(l@);
            assert(variables_view(out@) =~= before.push(l.0@[i as int].0@));
            assert(all[i as int] == l.0@[i as int].0@);
            assert(all.take(i + 1) =~= all.take(i as int).push(all[i as int]));
            assert(variables_view(out@) =~= start + all.take(i + 1));
        }
        i += 1;
    }
    assert(lin_comb_variables(l@).take(l.0.len() as int) =~= lin_comb_variables(l@));
}

/// Puts the variables of `q` after those of `out`.
fn push_quad_comb_variables(q: &QuadComb, out: &mut Vec<FlatVariable>)
    ensures
        variables_view(final(out)@) == variables_view(old(out)@) + quad_comb_variables(q@),
{
    let ghost start = variables_view(out@);
    push_lin_comb_variables(&q.left, out);
    push_lin_comb_variables(&q.right, out);
    assert(variables_view(out@) =~= start + quad_comb_variables(q@));
}

/// Puts the variables that `s` constrains after those of `bound`, and the
/// variables that it declares after those of `free`.
fn collect_statement(s: &Statement, bound: &mut Vec<FlatVariable>, free: &mut Vec<FlatVariable>)
    ensures
        variables_view(final(bound)@) == variables_view(old(bound)@) + statement_constrained(s@),
        variables_view(final(free)@) == variables_view(old(free)@) + statement_declared(s@),
{
    let ghost bound_start = variables_view(bound@);
    let ghost free_start = variables_view(free@);
    match s {
        Statement::Constraint(quad, lin) => {
            push_quad_comb_variables(quad, bound);
            push_lin_comb_variables(lin, bound);
            assert(variables_view(bound@) =~= bound_start + statement_constrained(s@));
            assert(variables_view(free@) =~= free_start + statement_declared(s@));
        },
        Statement::Directive(d) => {
            let ghost inputs = d@.inputs;
            let mut i: usize = 0;
            assert(inputs.take(0) =~= Seq::<QuadCombView>::empty());
            assert(variables_view(free@) =~= free_start + quad_combs_variables(inputs.take(0)));
            while i < d.inputs.len()
                invariant
                    i <= d.inputs.len(),
                    inputs == d@.inputs,
                    variables_view(free@) == free_start + quad_combs_variables(
                        inputs.take(i as int),
                    ),
                decreases d.inputs.len() - i,
            {
                push_quad_comb_variables(&d.inputs[i], free);
                proof {
                    assert(inputs.take(i + 1).drop_last() =~= inputs.take(i as int));
                    assert(inputs.take(i + 1).last() == d.inputs@[i as int]@);
                    assert(variables_view(free@) =~= free_start + quad_combs_variables(
                        inputs.take(i + 1),
                    ));
                }
                i += 1;
            }
            assert(inputs.take(d.inputs.len() as int) =~= inputs);
            let ghost middle = variables_view(free@);
            let mut k: usize = 0;
            while k < d.outputs.len()
                invariant
                    k <= d.outputs.len(),
                    variables_view(free@) == middle + d@.outputs.take(k as int),
                decreases d.outputs.len() - k,
            {
                let ghost before = variables_view(free@);
                free.push(d.outputs[k]);
                proof {
                    let all = d@.outputs;
                    assert(variables_view(free@) =~= before.push(d.outputs@[k as int]@));
                    assert(all[k as int] == d.outputs@[k as int]@);
                    assert(all.take(k + 1) =~= all.take(k as int).push(all[k as int]));
                    assert(variables_view(free@) =~= middle + all.take(k + 1));
                }
                k += 1;
            }
            assert(d@.outputs.take(d.outputs.len() as int) =~= d@.outputs);
            assert(variables_view(free@) =~= free_start + statement_declared(s@));
            assert(variables_view(bound@) =~= bound_start + statement_constrained(s@));
        },
    }
}

/// Puts the variables of the arguments of the given visibility after those
/// of `out`.
fn push_arguments(ps: &Vec<FlatParameter>, private: bool, out: &mut Vec<FlatVariable>)
    ensures
        variables_view(final(out)@) == variables_view(old(out)@) + arguments_of(
            parameters_view(ps@),
            private,
        ),
{
    let ghost start = variables_view(out@);
    let ghost input = parameters_view(ps@);
    let mut i: usize = 0;
    assert(input.take(0) =~= Seq::<FlatParameterView>::empty());
    assert(variables_view(out@) =~= start + arguments_of(input.take(0), private));
    while i < ps.len()
        invariant
            i <= ps.len(),
            input == parameters_view(ps@),
            variables_view(out@) == start + arguments_of(input.take(i as int), private),
        decreases ps.len() - i,
    {
        proof {
            assert(input.take(i + 1).drop_last() =~= input.take(i as int));
            assert(input.take(i + 1).last() == ps@[i as int]@);
        }
        let ghost before = variables_view(out@);
        if ps[i].private == private {
            out.push(ps[i].id);
            proof {
                assert(variables_view(out@) =~= before.push(ps@[i as int].id@));
                assert(arguments_of(input.take(i + 1), private) == arguments_of(
                    input.take(i as int),
                    private,
                ).push(ps@[i as int]@.id));
                assert(variables_view(out@) =~= start + arguments_of(input.take(i + 1), private));
            }
        }
        i += 1;
    }
    assert(input.take(ps.len() as int) =~= input);
}

/// The detection of variables that no constraint mentions.
#[derive(Debug, Clone, Copy)]
pub struct UnconstrainedVariableDetector;

impl UnconstrainedVariableDetector {
    /// Nothing where every declared variable of `p` is accounted for, the
    /// unconstrained variables otherwise.
    pub fn detect(p: &Prog) -> (r: Result<(), Error>)
        ensures
            match r {
                Ok(_) => unconstrained(p@).len() == 0,
                Err(err) => err@ == unconstrained(p@) && err@.len() > 0,
            },
    {
        let mut bound: Vec<FlatVariable> = Vec::new();
        let mut free: Vec<FlatVariable> = Vec::new();
        push_arguments(&p.arguments, true, &mut free);
        let ghost private = variables_view(free@);
        assert(private =~= arguments_of(p@.arguments, true));
        let ghost statements = p@.statements;
        let mut i: usize = 0;
        proof {
            assert(statements.take(0) =~= Seq::<StatementView>::empty());
            assert(variables_view(bound@) =~= constrained(statements.take(0)));
            assert(variables_view(free@) =~= private + declared_by_statements(statements.take(0)));
        }
        while i < p.statements.len()
            invariant
                i <= p.statements.len(),
                statements == p@.statements,
                variables_view(bound@) == constrained(statements.take(i as int)),
                variables_view(free@) == private + declared_by_statements(
                    statements.take(i as int),
                ),
            decreases p.statements.len() - i,
        {
            collect_statement(&p.statements[i], &mut bound, &mut free);
            proof {
                assert(statements.take(i + 1).drop_last() =~= statements.take(i as int));
                assert(statements.take(i + 1).last() == p.statements@[i as int]@);
                assert(variables_view(free@) =~= private + declared_by_statements(
                    statements.take(i + 1),
                ));
            }
            i += 1;
        }
        assert(statements.take(p.statements.len() as int) =~= statements);
        push_arguments(&p.arguments, false, &mut bound);
        let ghost before_returns = variables_view(bound@);
        let mut k: usize = 0;
        while k < p.returns.len()
            invariant
                k <= p.returns.len(),
                variables_view(bound@) == before_returns + p@.returns.take(k as int),
            decreases p.returns.len() - k,
        {
            let ghost before = variables_view(bound@);
            bound.push(p.returns[k]);
            proof {
                let all = p@.returns;
                assert(variables_view(bound@) =~= before.push(p.returns@[k as int]@));
                assert(all[k as int] == p.returns@[k as int]@);
                assert(all.take(k + 1) =~= all.take(k as int).push(all[k as int]));
                assert(variables_view(bound@) =~= before_returns + all.take(k + 1));
            }
            k += 1;
        }
        assert(p@.returns.take(p.returns.len() as int) =~= p@.returns);
        assert(variables_view(bound@) =~= accounted(p@));
        assert(variables_view(free@) == declared(p@));
        UnconstrainedVariableDetector::report(&bound, &free)
    }

    /// Nothing where every variable of `free` is among those of `bound` or
    /// the constant one, those that are not otherwise: each once, in order.
    fn report(bound: &Vec<FlatVariable>, free: &Vec<FlatVariable>) -> (r: Result<(), Error>)
        ensures
            match r {
                Ok(_) => unseen(
                    variables_view(bound@).to_set().insert(0),
                    variables_view(free@),
                ).len() == 0,
                Err(err) => err@ == unseen(
                    variables_view(bound@).to_set().insert(0),
                    variables_view(free@),
                ) && err@.len() > 0,
            },
    {
        let ghost known = variables_view(bound@);
        let ghost candidates = variables_view(free@);
        let mut seen = VariableSet::new();
        let one = FlatVariable::one();
        seen.insert(&one);
        let mut i: usize = 0;
        assert(known.take(0) =~= Seq::<int>::empty());
        assert(seen.members() =~= known.take(0).to_set().insert(0));
        while i < bound.len()
            invariant
                i <= bound.len(),
                known == variables_view(bound@),
                seen.members() == known.take(i as int).to_set().insert(0),
            decreases bound.len() - i,
        {
            let ghost old_members = seen.members();
            seen.insert(&bound[i]);
            proof {
                let x = bound@[i as int]@;
                assert(known[i as int] == x);
                assert(known.take(i + 1) =~= known.take(i as int).push(x));
                lemma_push_contains(known.take(i as int), x);
                assert forall|y: int|
                    seen.members().contains(y) <==> known.take(i + 1).to_set().insert(
                        0,
                    ).contains(y) by {
                    assert(seen.members().contains(y) <==> old_members.contains(y) || y == x);
                    assert(known.take(i as int).push(x).contains(y) <==> known.take(
                        i as int,
                    ).contains(y) || y == x);
                }
                assert(seen.members() =~= known.take(i + 1).to_set().insert(0));
            }
            i += 1;
        }
        assert(known.take(bound.len() as int) =~= known);
        let ghost accounted = known.to_set().insert(0);
        let mut found: Vec<FlatVariable> = Vec::new();
        let mut j: usize = 0;
        proof {
            assert(candidates.take(0) =~= Seq::<int>::empty());
            assert(variables_view(found@) =~= unseen(accounted, candidates.take(0)));
            assert(seen.members() =~= accounted.union(candidates.take(0).to_set()));
        }
        while j < free.len()
            invariant
                j <= free.len(),
                candidates == variables_view(free@),
                variables_view(found@) == unseen(accounted, candidates.take(j as int)),
                seen.members() == accounted.union(candidates.take(j as int).to_set()),
            decreases free.len() - j,
        {
            let ghost before = variables_view(found@);
            let v = free[j];
            let fresh = !seen.contains(&v);
            if fresh {
                found.push(v);
                seen.insert(&v);
            }
            proof {
                let next = candidates.take(j + 1);
                let x = candidates[j as int];
                assert(next.drop_last() =~= candidates.take(j as int));
                assert(next.last() == x);
                assert(next =~= candidates.take(j as int).push(x));
                lemma_push_contains(candidates.take(j as int), x);
                if fresh {
                    assert(variables_view(found@) =~= before.push(x));
                }
                assert(variables_view(found@) == unseen(accounted, next));
                assert(seen.members() =~= accounted.union(next.to_set()));
            }
            j += 1;
        }
        assert(candidates.take(free.len() as int) =~= candidates);
        if found.len() == 0 {
            Ok(())
        } else {
            Err(Error { variables: found })
        }
    }
}

} // verus!
