//! Removal of statements that repeat an earlier statement of the program.

use crate::field::field_bytes;
use crate::ir::{
    Directive, DirectiveView, LinComb, LinCombView, Prog, ProgView, QuadComb, QuadCombView, Solver,
    Statement, StatementView, TermView, statements_view, variable_bytes,
};
use crate::optimizer::canonicalizer::{
    Canonicalizer, canonical_statement, canonical_statements, lemma_canonical_statement,
    lemma_same_constraint_same_canonical_form, same_constraint,
};
use crate::sequences::{
    first_occurrences, is_first_occurrence, lemma_order_preserved, lemma_push_contains,
    lemma_unseen_contents, lemma_unseen_fixed, unseen,
};
use std::collections::hash_map::DefaultHasher;
use std::collections::HashMap;
use std::hash::Hasher;
use vstd::bytes::{spec_u64_to_le_bytes, u64_to_le_bytes};
use vstd::prelude::*;
use vstd::std_specs::hash::DefaultHasherAdditionalSpecFns;

verus! {

/// The byte encoding of a length: eight bytes, little-endian.
pub open spec fn length_bytes(n: nat) -> Seq<u8> {
    spec_u64_to_le_bytes(n as u64)
}

/// The byte encoding of a term: its variable, then its coefficient.
pub open spec fn term_bytes(t: TermView) -> Seq<u8> {
    variable_bytes(t.0) + field_bytes(t.1)
}

/// The byte encodings of the terms of `l`, one after the other.
pub open spec fn terms_bytes(l: LinCombView) -> Seq<u8>
    decreases l.len(),
{
    if l.len() == 0 {
        Seq::empty()
    } else {
        terms_bytes(l.drop_last()) + term_bytes(l.last())
    }
}

/// The byte encoding of a linear combination: the number of its terms, then
/// the terms.
pub open spec fn lin_comb_bytes(l: LinCombView) -> Seq<u8> {
    length_bytes(l.len()) + terms_bytes(l)
}

/// The byte encoding of a product: its left operand, then its right operand.
pub open spec fn quad_comb_bytes(q: QuadCombView) -> Seq<u8> {
    lin_comb_bytes(q.left) + lin_comb_bytes(q.right)
}

/// The byte encodings of the products of `qs`, one after the other.
pub open spec fn quad_combs_bytes(qs: Seq<QuadCombView>) -> Seq<u8>
    decreases qs.len(),
{
    if qs.len() == 0 {
        Seq::empty()
    } else {
        quad_combs_bytes(qs.drop_last()) + quad_comb_bytes(qs.last())
    }
}

/// The byte encodings of the variable indices of `vs`, one after the other.
pub open spec fn variables_bytes(vs: Seq<int>) -> Seq<u8>
    decreases vs.len(),
{
    if vs.len() == 0 {
        Seq::empty()
    } else {
        variables_bytes(vs.drop_last()) + variable_bytes(vs.last())
    }
}

/// The byte encoding of a solver: a tag, then its parameter.
pub open spec fn solver_bytes(s: Solver) -> Seq<u8> {
    match s {
        Solver::ConditionEq => seq![0u8] + length_bytes(0),
        Solver::Bits(n) => seq![1u8] + length_bytes(n as nat),
        Solver::Div => seq![2u8] + length_bytes(0),
        Solver::EuclideanDiv => seq![3u8] + length_bytes(0),
    }
}

/// The byte encoding of a directive: its solver, its inputs and its outputs,
/// each list after its length.
pub open spec fn directive_bytes(d: DirectiveView) -> Seq<u8> {
    solver_bytes(d.solver) + length_bytes(d.inputs.len()) + quad_combs_bytes(d.inputs)
        + length_bytes(d.outputs.len()) + variables_bytes(d.outputs)
}

/// The byte encoding of a statement: a tag for its kind, then its parts.
pub open spec fn statement_bytes(s: StatementView) -> Seq<u8> {
    match s {
        StatementView::Constraint(quad, lin) => seq![0u8] + quad_comb_bytes(quad) + lin_comb_bytes(
            lin,
        ),
        StatementView::Directive(d) => seq![1u8] + directive_bytes(d),
    }
}

/// The content hash of a statement: what the default hasher of the standard
/// library makes of the statement's byte encoding, written in one piece.
pub open spec fn statement_hash(s: StatementView) -> u64 {
    DefaultHasher::spec_finish(seq![statement_bytes(s)])
}

fn push_length(n: usize, out: &mut Vec<u8>)
    ensures
        final(out)@ == old(out)@ + length_bytes(n as nat),
{
    let mut bytes = u64_to_le_bytes(n as u64);
    out.append(&mut bytes);
}

fn push_lin_comb(l: &LinComb, out: &mut Vec<u8>)
    ensures
        final(out)@ == old(out)@ + lin_comb_bytes(l@),
{
    let ghost start = out@;
    push_length(l.0.len(), out);
    let mut i: usize = 0;
    assert(l@.take(0) =~= Seq::<TermView>::empty());
    assert(out@ =~= start + length_bytes(l@.len()) + terms_bytes(l@.take(0)));
    while i < l.0.len()
        invariant
            i <= l.0.len(),
            out@ == start + length_bytes(l@.len()) + terms_bytes(l@.take(i as int)),
        decreases l.0.len() - i,
    {
        let ghost before = out@;
        let mut variable = l.0[i].0.to_bytes();
        out.append(&mut variable);
        let mut coefficient = l.0[i].1.to_bytes();
        out.append(&mut coefficient);
        proof {
            let next = l@.take(i + 1);
            assert(next.drop_last() =~= l@.take(i as int));
            assert(next.last() == l@[i as int]);
            assert(out@ =~= before + term_bytes(l@[i as int]));
            assert(out@ =~= start + length_bytes(l@.len()) + terms_bytes(next));
        }
        i += 1;
    }
    assert(l@.take(l.0.len() as int) =~= l@);
    assert(out@ =~= start + lin_comb_bytes(l@));
}

fn push_quad_comb(q: &QuadComb, out: &mut Vec<u8>)
    ensures
        final(out)@ == old(out)@ + quad_comb_bytes(q@),
{
    let ghost start = out@;
    push_lin_comb(&q.left, out);
    push_lin_comb(&q.right, out);
    assert(out@ =~= start + quad_comb_bytes(q@));
}

fn push_solver(s: Solver, out: &mut Vec<u8>)
    ensures
        final(out)@ == old(out)@ + solver_bytes(s),
{
    let ghost start = out@;
    match s {
        Solver::ConditionEq => {
            out.push(0u8);
            push_length(0, out);
        },
        Solver::Bits(n) => {
            out.push(1u8);
            push_length(n, out);
        },
        Solver::Div => {
            out.push(2u8);
            push_length(0, out);
        },
        Solver::EuclideanDiv => {
            out.push(3u8);
            push_length(0, out);
        },
    }
    assert(out@ =~= start + solver_bytes(s));
}

fn push_directive(d: &Directive, out: &mut Vec<u8>)
    ensures
        final(out)@ == old(out)@ + directive_bytes(d@),
{
    let ghost start = out@;
    push_solver(d.solver, out);
    push_length(d.inputs.len(), out);
    let ghost head = out@;
    let ghost inputs = d@.inputs;
    let mut i: usize = 0;
    assert(inputs.take(0) =~= Seq::<QuadCombView>::empty());
    assert(out@ =~= head + quad_combs_bytes(inputs.take(0)));
    while i < d.inputs.len()
        invariant
            i <= d.inputs.len(),
            inputs == d@.inputs,
            out@ == head + quad_combs_bytes(inputs.take(i as int)),
        decreases d.inputs.len() - i,
    {
        let ghost before = out@;
        push_quad_comb(&d.inputs[i], out);
        proof {
            let next = inputs.take(i + 1);
            assert(next.drop_last() =~= inputs.take(i as int));
            assert(next.last() == d.inputs@[i as int]@);
            assert(out@ =~= head + quad_combs_bytes(next));
        }
        i += 1;
    }
    assert(inputs.take(d.inputs.len() as int) =~= inputs);
    push_length(d.outputs.len(), out);
    let ghost middle = out@;
    let ghost outputs = d@.outputs;
    let mut j: usize = 0;
    assert(outputs.take(0) =~= Seq::<int>::empty());
    assert(out@ =~= middle + variables_bytes(outputs.take(0)));
    while j < d.outputs.len()
        invariant
            j <= d.outputs.len(),
            outputs == d@.outputs,
            out@ == middle + variables_bytes(outputs.take(j as int)),
        decreases d.outputs.len() - j,
    {
        let mut variable = d.outputs[j].to_bytes();
        out.append(&mut variable);
        proof {
            let next = outputs.take(j + 1);
            assert(next.drop_last() =~= outputs.take(j as int));
            assert(next.last() == d.outputs@[j as int]@);
            assert(out@ =~= middle + variables_bytes(next));
        }
        j += 1;
    }
    assert(outputs.take(d.outputs.len() as int) =~= outputs);
    assert(out@ =~= start + directive_bytes(d@));
}

/// The byte encoding of `s`.
pub fn encode(s: &Statement) -> (bytes: Vec<u8>)
    ensures
        bytes@ == statement_bytes(s@),
{
    let mut bytes: Vec<u8> = Vec::new();
    match s {
        Statement::Constraint(quad, lin) => {
            bytes.push(0u8);
            push_quad_comb(quad, &mut bytes);
            push_lin_comb(lin, &mut bytes);
        },
        Statement::Directive(d) => {
            bytes.push(1u8);
            push_directive(d, &mut bytes);
        },
    }
    assert(bytes@ =~= statement_bytes(s@));
    bytes
}

/// The content hash of `s`.
pub fn hash(s: &Statement) -> (h: u64)
    ensures
        h == statement_hash(s@),
{
    let bytes = encode(s);
    let mut hasher = DefaultHasher::new();
    hasher.write(bytes.as_slice());
    assert(hasher@ =~= seq![statement_bytes(s@)]);
    hasher.finish()
}

/// The first occurrence of each statement of `s`, in the order of `s`.
pub open spec fn without_duplicates(s: Seq<StatementView>) -> Seq<StatementView> {
    unseen(Set::empty(), s)
}

/// The program with its statements in canonical form and without the
/// statements that repeat an earlier one.
pub open spec fn optimized(p: ProgView) -> ProgView {
    ProgView {
        arguments: p.arguments,
        returns: p.returns,
        statements: without_duplicates(canonical_statements(p.statements)),
    }
}

/// Order preservation: the statements that are kept of `s` are those at the
/// positions of first occurrence, each at its place in the order of `s`.
/// So the first occurrence of each distinct statement stays, every later
/// one goes, and what stays keeps its relative order.
pub proof fn lemma_first_occurrences_kept(s: Seq<StatementView>)
    ensures
        without_duplicates(s).len() == first_occurrences(s).len(),
        without_duplicates(s).no_duplicates(),
        forall|k: int|
            0 <= k < first_occurrences(s).len() ==> is_first_occurrence(
                s,
                #[trigger] first_occurrences(s)[k],
            ) && without_duplicates(s)[k] == s[first_occurrences(s)[k]],
        forall|k: int, l: int|
            0 <= k < l < first_occurrences(s).len() ==> first_occurrences(s)[k]
                < first_occurrences(s)[l],
        forall|i: int| is_first_occurrence(s, i) ==> first_occurrences(s).contains(i),
{
    lemma_order_preserved(s);
    lemma_unseen_contents(Set::empty(), s);
}

/// Idempotence of the removal: to remove the repetitions of what is left
/// after a removal changes nothing.
pub proof fn lemma_without_duplicates_idempotent(s: Seq<StatementView>)
    ensures
        without_duplicates(without_duplicates(s)) == without_duplicates(s),
{
    lemma_unseen_contents(Set::empty(), s);
    lemma_unseen_fixed(without_duplicates(s));
}

/// Idempotence of the optimisation: the optimised form of an optimised
/// program is that program.
pub proof fn lemma_optimized_idempotent(p: ProgView)
    ensures
        optimized(optimized(p)) == optimized(p),
{
    let c = canonical_statements(p.statements);
    let kept = without_duplicates(c);
    lemma_unseen_contents(Set::empty(), c);
    assert forall|i: int| 0 <= i < kept.len() implies canonical_statement(kept[i])
        == kept[i] by {
        assert(kept.contains(kept[i]));
        assert(c.contains(kept[i]));
        let j = choose|j: int| 0 <= j < c.len() && c[j] == kept[i];
        lemma_canonical_statement(p.statements[j]);
    }
    assert(canonical_statements(kept) =~= kept);
    lemma_without_duplicates_idempotent(c);
}

/// Two constraints over the same terms, written in different orders, leave
/// one statement: the canonical form of the first.
pub proof fn lemma_same_constraint_kept_once(a: StatementView, b: StatementView)
    requires
        same_constraint(a, b),
    ensures
        without_duplicates(canonical_statements(seq![a, b])) == seq![canonical_statement(a)],
{
    lemma_same_constraint_same_canonical_form(a, b);
    let c = canonical_statements(seq![a, b]);
    let x = canonical_statement(a);
    assert(c =~= seq![x, x]);
    assert(c.drop_last() =~= seq![x]);
    assert(seq![x][0] == x);
    assert(c.drop_last().drop_last() =~= Seq::<StatementView>::empty());
    assert(!Seq::<StatementView>::empty().contains(x));
    reveal_with_fuel(unseen, 3);
    assert(without_duplicates(c) =~= seq![x]);
}

/// Whether `list` holds a statement equal to `s`.
fn contains_statement(list: &Vec<Statement>, s: &Statement) -> (r: bool)
    ensures
        r == statements_view(list@).contains(s@),
{
    let mut i: usize = 0;
    while i < list.len()
        invariant
            i <= list.len(),
            forall|j: int| 0 <= j < i ==> statements_view(list@)[j] != s@,
        decreases list.len() - i,
    {
        if list[i] == *s {
            assert(statements_view(list@)[i as int] == s@);
            return true;
        }
        i += 1;
    }
    false
}

/// The removal of repeated statements. It remembers the statements that it
/// has met, each under its content hash, and compares a statement in full
/// with those that share its hash before it drops it.
#[derive(Debug)]
pub struct DuplicateOptimizer {
    seen: HashMap<u64, Vec<Statement>>,
}

impl DuplicateOptimizer {
    /// The statements met so far.
    pub closed spec fn seen(&self) -> Set<StatementView> {
        Set::new(
            |s: StatementView|
                self.seen@.contains_key(statement_hash(s)) && statements_view(
                    self.seen@[statement_hash(s)]@,
                ).contains(s),
        )
    }

    /// An optimizer that has met no statement.
    pub fn new() -> (r: DuplicateOptimizer)
        ensures
            r.seen() == Set::<StatementView>::empty(),
    {
        let r = DuplicateOptimizer { seen: HashMap::new() };
        assert(r.seen() =~= Set::<StatementView>::empty());
        r
    }

    /// The program `p` with its statements in canonical form and without
    /// repetitions.
    pub fn optimize(p: Prog) -> (r: Prog)
        ensures
            r@ == optimized(p@),
    {
        let mut optimizer = DuplicateOptimizer::new();
        optimizer.fold_module(p)
    }

    /// Remembers `s`, and tells whether it was met for the first time.
    fn record(&mut self, s: &Statement) -> (fresh: bool)
        ensures
            fresh == !old(self).seen().contains(s@),
            final(self).seen() == old(self).seen().insert(s@),
    {
        broadcast use vstd::std_specs::hash::group_hash_axioms;

        let h = hash(s);
        let ghost before = self.seen@;
        let fresh = match self.seen.remove(&h) {
            Some(mut bucket) => {
                let found = contains_statement(&bucket, s);
                let ghost old_bucket = statements_view(bucket@);
                if !found {
                    bucket.push(s.clone());
                    assert(statements_view(bucket@) =~= old_bucket.push(s@));
                }
                proof {
                    lemma_push_contains(old_bucket, s@);
                }
                assert(forall|x: StatementView|
                    statements_view(bucket@).contains(x) <==> old_bucket.contains(x) || x == s@);
                self.seen.insert(h, bucket);
                !found
            },
            None => {
                let mut bucket: Vec<Statement> = Vec::new();
                bucket.push(s.clone());
                proof {
                    assert(statements_view(bucket@) =~= Seq::<StatementView>::empty().push(s@));
                    lemma_push_contains(Seq::<StatementView>::empty(), s@);
                    assert forall|x: StatementView|
                        statements_view(bucket@).contains(x) <==> x == s@ by {
                        assert(!Seq::<StatementView>::empty().contains(x));
                    }
                }
                self.seen.insert(h, bucket);
                true
            },
        };
        assert(self.seen() =~= old(self).seen().insert(s@));
        fresh
    }

    /// Remembers the canonical statement `s`. Returns it where it was met
    /// for the first time, and nothing where it was met before.
    pub fn fold_statement(&mut self, s: Statement) -> (r: Vec<Statement>)
        ensures
            statements_view(r@) == if old(self).seen().contains(s@) {
                Seq::<StatementView>::empty()
            } else {
                seq![s@]
            },
            final(self).seen() == old(self).seen().insert(s@),
    {
        let mut r: Vec<Statement> = Vec::new();
        if self.record(&s) {
            r.push(s);
            assert(statements_view(r@) =~= seq![s@]);
        } else {
            assert(statements_view(r@) =~= Seq::<StatementView>::empty());
        }
        r
    }

    /// Brings every statement of `p` into canonical form, then keeps, in
    /// order, those that were not met before. Arguments and returns stay as
    /// they are.
    pub fn fold_module(&mut self, p: Prog) -> (r: Prog)
        ensures
            r@.arguments == p@.arguments,
            r@.returns == p@.returns,
            r@.statements == unseen(old(self).seen(), canonical_statements(p@.statements)),
            final(self).seen() == old(self).seen().union(
                canonical_statements(p@.statements).to_set(),
            ),
    {
        let ghost met = self.seen();
        let ghost input = p@.statements;
        let canonicalizer = Canonicalizer;
        let mut canonical: Vec<Statement> = Vec::new();
        let mut i: usize = 0;
        assert(statements_view(canonical@) =~= canonical_statements(input.take(0)));
        while i < p.statements.len()
            invariant
                i <= p.statements.len(),
                input == p@.statements,
                statements_view(canonical@) == canonical_statements(input.take(i as int)),
            decreases p.statements.len() - i,
        {
            let ghost before = statements_view(canonical@);
            let mut folded = canonicalizer.fold_statement(p.statements[i].clone());
            canonical.append(&mut folded);
            proof {
                assert(statements_view(canonical@) =~= before + seq![
                    canonical_statement(input[i as int]),
                ]);
                assert(input.take(i + 1) =~= input.take(i as int).push(input[i as int]));
                assert(statements_view(canonical@) =~= canonical_statements(input.take(i + 1)));
            }
            i += 1;
        }
        assert(input.take(p.statements.len() as int) =~= input);
        let ghost all = statements_view(canonical@);
        let mut statements: Vec<Statement> = Vec::new();
        let mut j: usize = 0;
        proof {
            assert(all.take(0) =~= Seq::<StatementView>::empty());
            assert(statements_view(statements@) =~= unseen(met, all.take(0)));
            assert(self.seen() =~= met.union(all.take(0).to_set()));
        }
        while j < canonical.len()
            invariant
                j <= canonical.len(),
                all == statements_view(canonical@),
                statements_view(statements@) == unseen(met, all.take(j as int)),
                self.seen() == met.union(all.take(j as int).to_set()),
            decreases canonical.len() - j,
        {
            let ghost kept_before = statements_view(statements@);
            let mut kept = self.fold_statement(canonical[j].clone());
            let ghost kept_view = statements_view(kept@);
            statements.append(&mut kept);
            proof {
                let next = all.take(j + 1);
                let x = all[j as int];
                assert(next.drop_last() =~= all.take(j as int));
                assert(next.last() == x);
                assert(next =~= all.take(j as int).push(x));
                lemma_push_contains(all.take(j as int), x);
                assert(statements_view(statements@) =~= kept_before + kept_view);
                if met.union(all.take(j as int).to_set()).contains(x) {
                    assert(statements_view(statements@) =~= kept_before);
                } else {
                    assert(statements_view(statements@) =~= kept_before.push(x));
                }
                assert(statements_view(statements@) == unseen(met, next));
                assert(self.seen() =~= met.union(next.to_set()));
            }
            j += 1;
        }
        assert(all.take(canonical.len() as int) =~= all);
        Prog { statements, arguments: p.arguments, returns: p.returns }
    }
}

} // verus!
