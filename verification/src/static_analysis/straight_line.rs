//! What a sequence of assignments and assertions over scalars computes, and
//! that propagation leaves it as it is.

use crate::field::{FieldElement, modulus};
use crate::static_analysis::propagation::{
    Constants, State, agrees, emit, fold_expression, has_proper_literals, is_proper,
    lemma_folding_preserves_value_in, lemma_sum_is_proper, lemma_value_is_proper, merged,
    propagate_statement, propagate_statements, value_in,
};
use crate::typed_absy::operators::{BinaryOp, binary_value, effective_bits, uint_modulus};
use crate::typed_absy::types::Value;
use crate::typed_absy::{AssigneeView, ExpressionView, StatementView};
use vstd::arithmetic::div_mod::{lemma_add_mod_noop, lemma_mod_bound, lemma_small_mod};
use vstd::arithmetic::power2::{
    lemma2_to64, lemma2_to64_rest, lemma_pow2_pos, lemma_pow2_strictly_increases,
};
use vstd::prelude::*;

verus! {

/// The values of the variables after a statement, given their values before
/// it. An assignment to a variable gives the variable the value of its
/// expression; an assertion leaves the values as they are where it holds.
/// There are none where an expression has no value, where an assertion does
/// not hold, and after a loop or an assignment to an element.
pub open spec fn run_statement(state: Constants, s: StatementView) -> Option<Constants> {
    match s {
        StatementView::Definition(AssigneeView::Identifier(v), e) => match value_in(state, e) {
            Some(x) => Some(state.insert(v.key(), x)),
            None => None,
        },
        StatementView::Assertion(e) => match value_in(state, e) {
            Some(Value::Boolean(true)) => Some(state),
            _ => None,
        },
        _ => None,
    }
}

/// The values of the variables after the statements of a list, one after
/// the other.
pub open spec fn run(state: Constants, ss: Seq<StatementView>) -> Option<Constants>
    decreases ss.len(),
{
    if ss.len() == 0 {
        Some(state)
    } else {
        match run(state, ss.drop_last()) {
            Some(middle) => run_statement(middle, ss.last()),
            None => None,
        }
    }
}

/// Whether every literal of a statement is a value of its type.
pub open spec fn statement_has_proper_literals(s: StatementView) -> bool {
    match s {
        StatementView::Definition(_, e) => has_proper_literals(e),
        StatementView::Assertion(e) => has_proper_literals(e),
        StatementView::For(_, _, _, _) => true,
    }
}

/// Whether every value of a state is one of its type.
pub open spec fn is_proper_state(state: Constants) -> bool {
    forall|k: u128| #[trigger] state.contains_key(k) ==> is_proper(state[k])
}

/// To add two literals one after the other is to add their sum.
proof fn lemma_add_twice(x: Value, c1: Value, c2: Value)
    requires
        is_proper(x),
        is_proper(c1),
        is_proper(c2),
        binary_value(BinaryOp::Add, x, c1) is Some,
        binary_value(BinaryOp::Add, c1, c2) is Some,
    ensures
        binary_value(BinaryOp::Add, binary_value(BinaryOp::Add, x, c1)->Some_0, c2)
            == binary_value(BinaryOp::Add, x, binary_value(BinaryOp::Add, c1, c2)->Some_0),
{
    match (x, c1, c2) {
        (Value::Uint(w, a), Value::Uint(_, b), Value::Uint(_, c)) => {
            let m = uint_modulus(w) as int;
            let (ai, bi, ci) = (a as int, b as int, c as int);
            lemma2_to64();
            lemma2_to64_rest();
            lemma_pow2_pos(effective_bits(w));
            if effective_bits(w) < 64 {
                lemma_pow2_strictly_increases(effective_bits(w), 64);
            }
            lemma_mod_bound(ai + bi, m);
            lemma_mod_bound(bi + ci, m);
            lemma_add_mod_noop(ai + bi, ci, m);
            lemma_add_mod_noop(ai, bi + ci, m);
            lemma_small_mod(a as nat, m as nat);
            lemma_small_mod(c as nat, m as nat);
            assert(((ai + bi) % m + ci) % m == (ai + (bi + ci) % m) % m) by {
                assert(((ai + bi) % m + ci % m) % m == ((ai + bi) + ci) % m);
                assert((ai % m + (bi + ci) % m) % m == (ai + (bi + ci)) % m);
            }
        },
        (Value::Field(a), Value::Field(b), Value::Field(c)) => {
            let p = modulus() as int;
            let (ai, bi, ci) = (a@ as int, b@ as int, c@ as int);
            FieldElement::lemma_from_nat((a@ + b@) % modulus());
            FieldElement::lemma_from_nat((b@ + c@) % modulus());
            lemma_add_mod_noop(ai + bi, ci, p);
            lemma_add_mod_noop(ai, bi + ci, p);
            lemma_small_mod(a@, modulus());
            lemma_small_mod(c@, modulus());
            assert(((ai + bi) % p + ci) % p == (ai + (bi + ci) % p) % p) by {
                assert(((ai + bi) % p + ci % p) % p == ((ai + bi) + ci) % p);
                assert((ai % p + (bi + ci) % p) % p == (ai + (bi + ci)) % p);
            }
        },
        _ => {},
    }
}

/// An assignment of a literal after an assignment to the same variable
/// computes what the two compute.
proof fn lemma_override_runs(state: Constants, key: u128, x: Value, c: Value)
    ensures
        state.insert(key, x).insert(key, c) == state.insert(key, c),
{
    assert(state.insert(key, x).insert(key, c) =~= state.insert(key, c));
}

/// The addition of the sum of two literals to a variable computes what the
/// additions of the two, one after the other, compute.
proof fn lemma_accumulate_runs(state: Constants, key: u128, c1: Value, c2: Value)
    requires
        is_proper_state(state),
        is_proper(c1),
        is_proper(c2),
        state.contains_key(key),
        binary_value(BinaryOp::Add, state[key], c1) is Some,
        binary_value(BinaryOp::Add, c1, c2) is Some,
    ensures
        ({
            let y = binary_value(BinaryOp::Add, state[key], c1)->Some_0;
            let c = binary_value(BinaryOp::Add, c1, c2)->Some_0;
            &&& binary_value(BinaryOp::Add, y, c2) == binary_value(BinaryOp::Add, state[key], c)
            &&& is_proper(c)
            &&& binary_value(BinaryOp::Add, y, c2) matches Some(z) ==> state.insert(
                key,
                y,
            ).insert(key, z) == state.insert(key, z)
        }),
{
    lemma_add_twice(state[key], c1, c2);
    lemma_sum_is_proper(c1, c2);
    let y = binary_value(BinaryOp::Add, state[key], c1)->Some_0;
    if let Some(z) = binary_value(BinaryOp::Add, y, c2) {
        assert(state.insert(key, y).insert(key, z) =~= state.insert(key, z));
    }
}

/// The value of the addition of a literal to a variable.
proof fn lemma_addition_value(state: Constants, e: ExpressionView)
    requires
        e matches ExpressionView::Binary(BinaryOp::Add, a, b) && *a is Identifier && *b is Value,
    ensures
        ({
            let v = (*e->Binary_1)->Identifier_0;
            let c = (*e->Binary_2)->Value_0;
            value_in(state, e) == if state.contains_key(v.key()) {
                binary_value(BinaryOp::Add, state[v.key()], c)
            } else {
                None
            }
        }),
{
    reveal_with_fuel(value_in, 3);
}

/// The statement that stands for two statements computes what the two
/// compute.
proof fn lemma_merged_runs(state: Constants, previous: StatementView, next: StatementView)
    requires
        is_proper_state(state),
        statement_has_proper_literals(previous),
        statement_has_proper_literals(next),
        merged(previous, next) is Some,
        run_statement(state, previous) matches Some(middle) && run_statement(middle, next) is Some,
    ensures
        run_statement(state, merged(previous, next)->Some_0) == run_statement(
            run_statement(state, previous)->Some_0,
            next,
        ),
        statement_has_proper_literals(merged(previous, next)->Some_0),
{
    let middle = run_statement(state, previous)->Some_0;
    let m = merged(previous, next)->Some_0;
    match (previous, next) {
        (
            StatementView::Definition(AssigneeView::Identifier(v), first),
            StatementView::Definition(AssigneeView::Identifier(w), second),
        ) => {
            let k = w.key();
            let x = value_in(state, first)->Some_0;
            assert(middle == state.insert(k, x));
            match second {
                ExpressionView::Value(c) => {
                    lemma_override_runs(state, k, x, c);
                },
                ExpressionView::Binary(_, a, b) => {
                    let c2 = (*b)->Value_0;
                    let c1 = (*first->Binary_2)->Value_0;
                    assert(is_proper(c1) && is_proper(c2)) by {
                        reveal_with_fuel(has_proper_literals, 3);
                    }
                    lemma_addition_value(state, first);
                    lemma_addition_value(middle, second);
                    lemma_addition_value(state, m->Definition_1);
                    lemma_accumulate_runs(state, k, c1, c2);
                    assert(statement_has_proper_literals(m)) by {
                        reveal_with_fuel(has_proper_literals, 3);
                    }
                },
                _ => {},
            }
        },
        _ => {},
    }
}

/// What was written with one more statement computes what the statements
/// before and the statement compute.
proof fn lemma_emit_runs(start: Constants, out: Seq<StatementView>, s: StatementView)
    requires
        is_proper_state(start),
        forall|i: int| 0 <= i < out.len() ==> statement_has_proper_literals(#[trigger] out[i]),
        statement_has_proper_literals(s),
        run(start, out) matches Some(middle) && run_statement(middle, s) is Some,
    ensures
        run(start, emit(out, s)) == run_statement(run(start, out)->Some_0, s),
        forall|i: int|
            0 <= i < emit(out, s).len() ==> statement_has_proper_literals(
                #[trigger] emit(out, s)[i],
            ),
{
    let written = emit(out, s);
    if out.len() > 0 && merged(out.last(), s) is Some {
        let head = out.drop_last();
        let before = run(start, head)->Some_0;
        lemma_run_is_proper(start, head);
        assert forall|i: int| 0 <= i < head.len() implies statement_has_proper_literals(
            #[trigger] head[i],
        ) by {
            assert(head[i] == out[i]);
        }
        lemma_run_is_proper(start, head);
        assert(statement_has_proper_literals(out[out.len() - 1]));
        lemma_merged_runs(before, out.last(), s);
        let m = merged(out.last(), s)->Some_0;
        assert(written == head.push(m));
        assert(written.drop_last() =~= head);
        assert forall|i: int| 0 <= i < written.len() implies statement_has_proper_literals(
            #[trigger] written[i],
        ) by {
            if i < head.len() {
                assert(written[i] == out[i]);
            }
        }
    } else {
        assert(written == out.push(s));
        assert(written.drop_last() =~= out);
        assert forall|i: int| 0 <= i < written.len() implies statement_has_proper_literals(
            #[trigger] written[i],
        ) by {
            if i < out.len() {
                assert(written[i] == out[i]);
            }
        }
    }
}

/// Statements with proper literals leave every value one of its type.
pub proof fn lemma_run_is_proper(start: Constants, ss: Seq<StatementView>)
    requires
        is_proper_state(start),
        forall|i: int| 0 <= i < ss.len() ==> statement_has_proper_literals(#[trigger] ss[i]),
    ensures
        run(start, ss) matches Some(state) ==> is_proper_state(state),
    decreases ss.len(),
{
    if ss.len() > 0 {
        let head = ss.drop_last();
        assert forall|i: int| 0 <= i < head.len() implies statement_has_proper_literals(
            #[trigger] head[i],
        ) by {
            assert(head[i] == ss[i]);
        }
        lemma_run_is_proper(start, head);
        assert(statement_has_proper_literals(ss[ss.len() - 1]));
        if let Some(middle) = run(start, head) {
            match ss.last() {
                StatementView::Definition(AssigneeView::Identifier(_), e) => {
                    lemma_value_is_proper(middle, e);
                },
                _ => {},
            }
        }
    }
}

/// What the propagation wrote after some statements computes what the
/// statements compute, and what it knows is true of the values that they
/// leave.
proof fn lemma_propagation_simulates(start: Constants, ss: Seq<StatementView>)
    requires
        is_proper_state(start),
        forall|i: int| 0 <= i < ss.len() ==> statement_has_proper_literals(#[trigger] ss[i]),
    ensures
        (propagate_statements(
            State { constants: Map::empty(), statements: Seq::empty() },
            ss,
        ) matches Ok(state) && run(start, ss) is Some) ==> {
            let state = propagate_statements(
                State { constants: Map::empty(), statements: Seq::empty() },
                ss,
            )->Ok_0;
            &&& run(start, state.statements) == run(start, ss)
            &&& agrees(state.constants, run(start, ss)->Some_0)
            &&& forall|i: int|
                0 <= i < state.statements.len() ==> statement_has_proper_literals(
                    #[trigger] state.statements[i],
                )
        },
    decreases ss.len(),
{
    let nothing = State { constants: Map::empty(), statements: Seq::empty() };
    if ss.len() > 0 {
        let head = ss.drop_last();
        let s = ss.last();
        assert forall|i: int| 0 <= i < head.len() implies statement_has_proper_literals(
            #[trigger] head[i],
        ) by {
            assert(head[i] == ss[i]);
        }
        assert(statement_has_proper_literals(ss[ss.len() - 1]));
        lemma_propagation_simulates(start, head);
        lemma_run_is_proper(start, head);
        lemma_run_is_proper(start, ss);
        if let (Ok(before), Some(middle)) = (propagate_statements(nothing, head), run(start, head)) {
            if let (Ok(after), Some(last)) = (propagate_statement(before, s), run_statement(middle, s)) {
                let env = before.constants;
                match s {
                    StatementView::Definition(AssigneeView::Identifier(v), e) => {
                        lemma_folding_preserves_value_in(env, middle, e);
                        lemma_value_is_proper(middle, e);
                        let value = fold_expression(env, e)->Ok_0;
                        let x = value_in(middle, e)->Some_0;
                        if value matches ExpressionView::Identifier(w) && w.key() == v.key() {
                            assert(last =~= middle);
                        } else {
                            let d = StatementView::Definition(AssigneeView::Identifier(v), value);
                            assert(run_statement(middle, d) == Some(last));
                            lemma_emit_runs(start, before.statements, d);
                        }
                    },
                    StatementView::Assertion(e) => {
                        lemma_folding_preserves_value_in(env, middle, e);
                        let condition = fold_expression(env, e)->Ok_0;
                        if condition != ExpressionView::Value(Value::Boolean(true)) {
                            let d = StatementView::Assertion(condition);
                            let written = before.statements.push(d);
                            assert(written.drop_last() =~= before.statements);
                            assert forall|i: int|
                                0 <= i < written.len() implies statement_has_proper_literals(
                                #[trigger] written[i],
                            ) by {
                                if i < before.statements.len() {
                                    assert(written[i] == before.statements[i]);
                                }
                            }
                        }
                    },
                    _ => {},
                }
            }
        }
    } else {
        assert(agrees(nothing.constants, start));
    }
}

/// Propagation preserves what a program computes: where a sequence of
/// assignments to variables and of assertions, over scalars, gives values to
/// the variables, the sequence that the propagation makes of it gives them
/// the same values.
pub proof fn lemma_propagation_preserves_run(start: Constants, ss: Seq<StatementView>)
    requires
        is_proper_state(start),
        forall|i: int| 0 <= i < ss.len() ==> statement_has_proper_literals(#[trigger] ss[i]),
    ensures
        (propagate_statements(
            State { constants: Map::empty(), statements: Seq::empty() },
            ss,
        ) matches Ok(state) && run(start, ss) is Some) ==> run(
            start,
            propagate_statements(
                State { constants: Map::empty(), statements: Seq::empty() },
                ss,
            )->Ok_0.statements,
        ) == run(start, ss),
{
    lemma_propagation_simulates(start, ss);
}

} // verus!
