//! What a program with loops and without calls computes, and that the
//! reduction leaves it as it is.

use crate::static_analysis::propagation::{
    Constants, agrees, has_proper_literals, lemma_folding_preserves_value_in,
    lemma_value_is_proper, value_in,
};
use crate::static_analysis::reduced_form::{expression_is_flat, expressions_are_flat};
use crate::static_analysis::reducer::{
    Error, Reduced, loop_bound, narrowed, reduce_expression, reduce_expressions,
    reduce_statement, reduce_statements, unroll,
};
use crate::typed_absy::operators::uint_modulus;
use crate::static_analysis::straight_line::{is_proper_state, run, run_statement};
use crate::typed_absy::types::{Value, Variable};
use crate::typed_absy::{AssigneeView, ExpressionView, StatementView};
use vstd::prelude::*;

verus! {

/// The values of the variables as they are inside loops: those of `state`,
/// but for the variables of the loops, which have the values of `env`.
pub open spec fn overlay(state: Constants, env: Constants) -> Constants {
    state.union_prefer_right(env)
}

/// The values of the variables after a loop: those after its body, but for
/// the variable of the loop, which is as it was before the loop.
pub open spec fn unbound(after: Constants, before: Constants, key: u128) -> Constants {
    if before.contains_key(key) {
        after.insert(key, before[key])
    } else {
        after.remove(key)
    }
}

/// The values of the variables after a statement. A loop whose bounds are
/// unsigned integers of one type runs its body once for each value of its
/// variable from the first bound up to, and without, the second; the
/// variable has that value in the body, and is as it was after the loop.
pub open spec fn execute(state: Constants, s: StatementView) -> Option<Constants>
    decreases s, 0nat,
{
    match s {
        StatementView::Definition(AssigneeView::Identifier(v), e) => match value_in(state, e) {
            Some(x) => Some(state.insert(v.key(), x)),
            None => None,
        },
        StatementView::Assertion(e) => match value_in(state, e) {
            Some(Value::Boolean(true)) => Some(state),
            _ => None,
        },
        StatementView::For(v, from, to, body) => match (value_in(state, from), value_in(state, to)) {
            (Some(Value::Uint(bits, lower)), Some(Value::Uint(width, upper))) => if bits == width {
                iterate(state, v, bits, lower, upper, body)
            } else {
                None
            },
            _ => None,
        },
        _ => None,
    }
}

/// The values of the variables after the turns of a loop for the values
/// from `lower` up to, and without, `upper`.
pub open spec fn iterate(
    state: Constants,
    v: Variable,
    bits: u8,
    lower: u64,
    upper: u64,
    body: Seq<StatementView>,
) -> Option<Constants>
    decreases body, (if upper > lower { upper - lower + 1 } else { 1 }) as nat,
{
    if upper <= lower {
        Some(state)
    } else {
        let last = (upper - 1) as u64;
        match iterate(state, v, bits, lower, last, body) {
            None => None,
            Some(middle) => match execute_all(
                middle.insert(v.key(), Value::Uint(bits, last)),
                body,
            ) {
                None => None,
                Some(after) => Some(unbound(after, middle, v.key())),
            },
        }
    }
}

/// The values of the variables after the statements of a list, one after
/// the other.
pub open spec fn execute_all(state: Constants, ss: Seq<StatementView>) -> Option<Constants>
    decreases ss, 0nat,
{
    if ss.len() == 0 {
        Some(state)
    } else {
        match execute_all(state, ss.drop_last()) {
            Some(middle) => execute(middle, ss.last()),
            None => None,
        }
    }
}

/// Whether a statement is an assignment to a variable, an assertion or a
/// loop of such statements, calls nothing, holds proper literals alone, and
/// assigns to no variable of `bound` nor to the variable of a loop that it
/// is inside of.
pub open spec fn is_loop_statement(s: StatementView, bound: Set<u128>) -> bool
    decreases s,
{
    match s {
        StatementView::Definition(AssigneeView::Identifier(v), e) => expression_is_flat(e)
            && has_proper_literals(e) && !bound.contains(v.key()),
        StatementView::Definition(_, _) => false,
        StatementView::Assertion(e) => expression_is_flat(e) && has_proper_literals(e),
        StatementView::For(v, from, to, body) => expression_is_flat(from) && expression_is_flat(to)
            && has_proper_literals(from) && has_proper_literals(to) && forall|i: int|
            0 <= i < body.len() ==> is_loop_statement(
                #[trigger] body[i],
                bound.insert(v.key()),
            ),
    }
}

/// Whether the variables of `keys` are in `after` as they were in `before`.
pub open spec fn untouched(keys: Set<u128>, before: Constants, after: Constants) -> bool {
    forall|k: u128| #[trigger]
        keys.contains(k) ==> before.contains_key(k) == after.contains_key(k) && (
        before.contains_key(k) ==> before[k] == after[k])
}

/// The reduction of an expression without calls needs no statement, and
/// what is left of the expression has, outside the loops, the value that
/// the expression has inside them.
proof fn lemma_reduced_expression(
    done: Seq<Reduced>,
    env: Constants,
    path: Option<ExpressionView>,
    counter: nat,
    e: ExpressionView,
    state: Constants,
)
    requires
        expression_is_flat(e),
    ensures
        reduce_expression(done, env, path, counter, e) matches Ok(r) && r.statements.len() == 0
            && r.counter == counter && value_in(state, r.expression) == value_in(
            overlay(state, env),
            e,
        ),
    decreases e,
{
    match e {
        ExpressionView::Not(a) => {
            lemma_reduced_expression(done, env, path, counter, *a, state);
        },
        ExpressionView::Binary(_, a, b) => {
            lemma_reduced_expression(done, env, path, counter, *a, state);
            lemma_reduced_expression(done, env, path, counter, *b, state);
        },
        ExpressionView::Select(a, b) => {
            lemma_reduced_expression(done, env, path, counter, *a, state);
            lemma_reduced_expression(done, env, path, counter, *b, state);
        },
        ExpressionView::IfElse(c, a, b, isolated) => {
            lemma_reduced_expression(done, env, path, counter, *c, state);
            let rc = reduce_expression(done, env, path, counter, *c)->Ok_0;
            let then_path = if isolated {
                narrowed(path, rc.expression)
            } else {
                path
            };
            let else_path = if isolated {
                narrowed(
                    path,
                    ExpressionView::Not(Box::new(rc.expression)),
                )
            } else {
                path
            };
            lemma_reduced_expression(done, env, then_path, counter, *a, state);
            lemma_reduced_expression(done, env, else_path, counter, *b, state);
        },
        ExpressionView::Array(_, elements) => {
            lemma_reduced_expressions(done, env, path, counter, elements);
        },
        _ => {},
    }
}

/// The reduction of a list of expressions without calls needs no
/// statement.
proof fn lemma_reduced_expressions(
    done: Seq<Reduced>,
    env: Constants,
    path: Option<ExpressionView>,
    counter: nat,
    es: Seq<ExpressionView>,
)
    requires
        expressions_are_flat(es),
    ensures
        reduce_expressions(done, env, path, counter, es) matches Ok(r) && r.statements.len() == 0
            && r.counter == counter,
    decreases es,
{
    if es.len() > 0 {
        let head = es.drop_last();
        assert forall|i: int| 0 <= i < head.len() implies expression_is_flat(#[trigger] head[i]) by {
            assert(head[i] == es[i]);
        }
        lemma_reduced_expressions(done, env, path, counter, head);
        assert(expression_is_flat(es[es.len() - 1]));
        lemma_reduced_expression(done, env, path, counter, es.last(), Map::empty());
    }
}

/// To run two lists of statements one after the other is to run the one
/// list that they make.
pub proof fn lemma_run_concat(state: Constants, a: Seq<StatementView>, b: Seq<StatementView>)
    ensures
        run(state, a + b) == match run(state, a) {
            Some(middle) => run(middle, b),
            None => None,
        },
    decreases b.len(),
{
    if b.len() == 0 {
        assert(a + b =~= a);
    } else {
        lemma_run_concat(state, a, b.drop_last());
        assert((a + b).drop_last() =~= a + b.drop_last());
        assert((a + b).last() == b.last());
    }
}

/// To run one statement is to run the list of that statement.
proof fn lemma_run_one(state: Constants, d: StatementView)
    ensures
        run(state, seq![d]) == run_statement(state, d),
{
    reveal_with_fuel(run, 2);
    assert(seq![d].drop_last() =~= Seq::<StatementView>::empty());
    assert(seq![d].last() == d);
}

/// What an assignment or an assertion computes, its reduction computes.
proof fn lemma_simulates_simple(
    done: Seq<Reduced>,
    env: Constants,
    counter: nat,
    s: StatementView,
    red: Constants,
)
    requires
        is_loop_statement(s, env.dom()),
        !(s is For),
        is_proper_state(overlay(red, env)),
        reduce_statement(done, env, counter, s) is Ok,
        execute(overlay(red, env), s) is Some,
    ensures
        run(red, reduce_statement(done, env, counter, s)->Ok_0.statements) matches Some(g)
            && overlay(g, env) == execute(overlay(red, env), s)->Some_0 && untouched(
            env.dom(),
            red,
            g,
        ),
        is_proper_state(execute(overlay(red, env), s)->Some_0),
{
    let inside = overlay(red, env);
    let r = reduce_statement(done, env, counter, s)->Ok_0;
    match s {
        StatementView::Definition(AssigneeView::Identifier(v), e) => {
            lemma_reduced_expression(done, env, None, counter, e, red);
            lemma_value_is_proper(inside, e);
            let re = reduce_expression(done, env, None, counter, e)->Ok_0;
            let d = StatementView::Definition(AssigneeView::Identifier(v), re.expression);
            assert(re.statements =~= Seq::<StatementView>::empty());
            assert(r.statements =~= seq![d]);
            lemma_run_one(red, d);
            let x = value_in(inside, e)->Some_0;
            assert(overlay(red.insert(v.key(), x), env) =~= inside.insert(v.key(), x));
        },
        StatementView::Assertion(e) => {
            lemma_reduced_expression(done, env, None, counter, e, red);
            let re = reduce_expression(done, env, None, counter, e)->Ok_0;
            let d = StatementView::Assertion(re.expression);
            assert(re.statements =~= Seq::<StatementView>::empty());
            assert(r.statements =~= seq![d]);
            lemma_run_one(red, d);
        },
        _ => {},
    }
}

/// What a statement without calls computes, its reduction computes: where
/// the statement, run inside loops whose variables have the values of
/// `env`, leaves values, the statements that it reduces to, run outside the
/// loops, leave the same values to every variable but those of the loops,
/// which they do not touch.
proof fn lemma_simulates_statement(
    done: Seq<Reduced>,
    env: Constants,
    counter: nat,
    s: StatementView,
    red: Constants,
)
    requires
        is_loop_statement(s, env.dom()),
        is_proper_state(overlay(red, env)),
    ensures
        (reduce_statement(done, env, counter, s) matches Ok(r) && execute(overlay(red, env), s)
            is Some) ==> {
            let r = reduce_statement(done, env, counter, s)->Ok_0;
            let f = execute(overlay(red, env), s)->Some_0;
            &&& run(red, r.statements) matches Some(g) && overlay(g, env) == f && untouched(
                env.dom(),
                red,
                g,
            )
            &&& is_proper_state(f)
        },
    decreases s, 0nat,
{
    let inside = overlay(red, env);
    if reduce_statement(done, env, counter, s) is Ok && execute(inside, s) is Some {
        match s {
            StatementView::For(v, from, to, body) => {
                assert(agrees(env, inside));
                lemma_folding_preserves_value_in(env, inside, from);
                lemma_folding_preserves_value_in(env, inside, to);
                lemma_value_is_proper(inside, to);
                let bits = value_in(inside, from)->Some_0->Uint_0;
                let lower = value_in(inside, from)->Some_0->Uint_1;
                let upper = value_in(inside, to)->Some_0->Uint_1;
                assert(value_in(inside, to) == Some(Value::Uint(bits, upper)));
                assert(loop_bound(env, from) == Ok::<(u8, u64), Error>((bits, lower)));
                assert(loop_bound(env, to)->Ok_0.1 == upper);
                assert(reduce_statement(done, env, counter, s) == unroll(
                    done,
                    env,
                    counter,
                    v,
                    bits,
                    lower,
                    upper,
                    body,
                ));
                assert(execute(inside, s) == iterate(inside, v, bits, lower, upper, body));
                lemma_simulates_unroll(done, env, counter, v, bits, lower, upper, body, red);
                let g = run(red, reduce_statement(done, env, counter, s)->Ok_0.statements)->Some_0;
                assert(untouched(env.dom(), red, g)) by {
                    assert forall|k: u128| #[trigger] env.dom().contains(k) implies env.dom().insert(
                        v.key(),
                    ).contains(k) by {}
                }
            },
            _ => {
                lemma_simulates_simple(done, env, counter, s, red);
            },
        }
    }
}

/// The values after a turn of a loop, with the variable of the loop as it
/// was, are those that the reduced turn leaves outside the loop.
proof fn lemma_unbound(
    env: Constants,
    key: u128,
    value: Value,
    g1: Constants,
    g2: Constants,
)
    requires
        untouched(env.dom().insert(key), g1, g2),
    ensures
        overlay(g2, env) == unbound(overlay(g2, env.insert(key, value)), overlay(g1, env), key),
{
    let after = overlay(g2, env.insert(key, value));
    let middle = overlay(g1, env);
    let left = overlay(g2, env);
    let right = unbound(after, middle, key);
    assert(env.dom().insert(key).contains(key));
    assert forall|k: u128| left.contains_key(k) == right.contains_key(k) && (left.contains_key(k)
        ==> left[k] == right[k]) by {
        if k == key {
            assert(g1.contains_key(k) == g2.contains_key(k));
        }
    }
    assert(left =~= right);
}

/// What the turns of a loop compute, the unrolled loop computes.
proof fn lemma_simulates_unroll(
    done: Seq<Reduced>,
    env: Constants,
    counter: nat,
    v: Variable,
    bits: u8,
    lower: u64,
    upper: u64,
    body: Seq<StatementView>,
    red: Constants,
)
    requires
        forall|i: int|
            0 <= i < body.len() ==> is_loop_statement(
                #[trigger] body[i],
                env.dom().insert(v.key()),
            ),
        is_proper_state(overlay(red, env)),
        upper <= lower || upper < uint_modulus(bits),
    ensures
        (unroll(done, env, counter, v, bits, lower, upper, body) matches Ok(r) && iterate(
            overlay(red, env),
            v,
            bits,
            lower,
            upper,
            body,
        ) is Some) ==> {
            let r = unroll(done, env, counter, v, bits, lower, upper, body)->Ok_0;
            let f = iterate(overlay(red, env), v, bits, lower, upper, body)->Some_0;
            &&& run(red, r.statements) matches Some(g) && overlay(g, env) == f && untouched(
                env.dom().insert(v.key()),
                red,
                g,
            )
            &&& is_proper_state(f)
        },
    decreases body, (if upper > lower { upper - lower + 1 } else { 1 }) as nat,
{
    let inside = overlay(red, env);
    if unroll(done, env, counter, v, bits, lower, upper, body) is Ok && iterate(
        inside,
        v,
        bits,
        lower,
        upper,
        body,
    ) is Some {
        if upper > lower {
            let last = (upper - 1) as u64;
            let key = v.key();
            let value = Value::Uint(bits, last);
            lemma_simulates_unroll(done, env, counter, v, bits, lower, last, body, red);
            let r1 = unroll(done, env, counter, v, bits, lower, last, body)->Ok_0;
            let middle = iterate(inside, v, bits, lower, last, body)->Some_0;
            let g1 = run(red, r1.statements)->Some_0;
            let turn_env = env.insert(key, value);
            assert(overlay(g1, turn_env) =~= middle.insert(key, value));
            assert(turn_env.dom() =~= env.dom().insert(key));
            lemma_simulates_all(done, turn_env, r1.counter, body, g1);
            let r2 = reduce_statements(done, turn_env, r1.counter, body)->Ok_0;
            let after = execute_all(middle.insert(key, value), body)->Some_0;
            let g2 = run(g1, r2.statements)->Some_0;
            lemma_run_concat(red, r1.statements, r2.statements);
            lemma_unbound(env, key, value, g1, g2);
            assert(after == overlay(g2, turn_env));
            assert(middle == overlay(g1, env));
            assert(untouched(env.dom().insert(key), red, g2));
            assert(is_proper_state(unbound(after, middle, key)));
        } else {
            assert(run(red, Seq::<StatementView>::empty()) == Some(red));
        }
    }
}

/// What the statements of a list compute, their reductions compute.
proof fn lemma_simulates_all(
    done: Seq<Reduced>,
    env: Constants,
    counter: nat,
    ss: Seq<StatementView>,
    red: Constants,
)
    requires
        forall|i: int| 0 <= i < ss.len() ==> is_loop_statement(#[trigger] ss[i], env.dom()),
        is_proper_state(overlay(red, env)),
    ensures
        (reduce_statements(done, env, counter, ss) matches Ok(r) && execute_all(
            overlay(red, env),
            ss,
        ) is Some) ==> {
            let r = reduce_statements(done, env, counter, ss)->Ok_0;
            let f = execute_all(overlay(red, env), ss)->Some_0;
            &&& run(red, r.statements) matches Some(g) && overlay(g, env) == f && untouched(
                env.dom(),
                red,
                g,
            )
            &&& is_proper_state(f)
        },
    decreases ss, 0nat,
{
    let inside = overlay(red, env);
    if reduce_statements(done, env, counter, ss) is Ok && execute_all(inside, ss) is Some {
        if ss.len() > 0 {
            let head = ss.drop_last();
            assert forall|i: int| 0 <= i < head.len() implies is_loop_statement(
                #[trigger] head[i],
                env.dom(),
            ) by {
                assert(head[i] == ss[i]);
            }
            assert(is_loop_statement(ss[ss.len() - 1], env.dom()));
            lemma_simulates_all(done, env, counter, head, red);
            let r1 = reduce_statements(done, env, counter, head)->Ok_0;
            let g1 = run(red, r1.statements)->Some_0;
            lemma_simulates_statement(done, env, r1.counter, ss.last(), g1);
            let r2 = reduce_statement(done, env, r1.counter, ss.last())->Ok_0;
            lemma_run_concat(red, r1.statements, r2.statements);
        } else {
            assert(run(red, Seq::<StatementView>::empty()) == Some(red));
            assert(overlay(red, env) == inside);
        }
    }
}

/// The reduction preserves what a program without calls computes: where
/// statements that are assignments to variables, assertions and loops of
/// such statements, over scalars, give values to the variables, the
/// statements without loops that they reduce to give them the same values.
pub proof fn lemma_reduction_preserves_run(
    done: Seq<Reduced>,
    counter: nat,
    ss: Seq<StatementView>,
    start: Constants,
)
    requires
        forall|i: int| 0 <= i < ss.len() ==> is_loop_statement(#[trigger] ss[i], Set::empty()),
        is_proper_state(start),
    ensures
        (reduce_statements(done, Map::empty(), counter, ss) matches Ok(r) && execute_all(start, ss)
            is Some) ==> run(
            start,
            reduce_statements(done, Map::empty(), counter, ss)->Ok_0.statements,
        ) == execute_all(start, ss),
{
    let env: Constants = Map::empty();
    assert(overlay(start, env) =~= start);
    assert(env.dom() =~= Set::<u128>::empty());
    lemma_simulates_all(done, env, counter, ss, start);
    if reduce_statements(done, env, counter, ss) is Ok && execute_all(start, ss) is Some {
        let g = run(start, reduce_statements(done, env, counter, ss)->Ok_0.statements)->Some_0;
        assert(overlay(g, env) =~= g);
    }
}

} // verus!
