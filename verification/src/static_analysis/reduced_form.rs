//! The shape of a reduced program: no call and no loop is left in it.

use crate::static_analysis::propagation::Constants;
use crate::static_analysis::reducer::{
    Reduced, bindings, guarded, inline_call, inlined_body, loop_bound, narrowed, reduce, reduce_assignee,
    reduce_expression, reduce_expressions, reduce_function, reduce_functions, reduce_statement,
    reduce_statements, shift_assignee, shift_expression, shift_expressions, shift_statement,
    unroll,
};
use crate::typed_absy::types::{Value, Variable};
use crate::typed_absy::{
    AssigneeView, ExpressionView, FunctionView, Parameter, ProgramView, StatementView,
};
use vstd::prelude::*;

verus! {

/// Whether an expression holds no call.
pub open spec fn expression_is_flat(e: ExpressionView) -> bool
    decreases e,
{
    match e {
        ExpressionView::Value(_) => true,
        ExpressionView::Identifier(_) => true,
        ExpressionView::Constant(_, _) => true,
        ExpressionView::Not(a) => expression_is_flat(*a),
        ExpressionView::Binary(_, a, b) => expression_is_flat(*a) && expression_is_flat(*b),
        ExpressionView::IfElse(c, a, b, _) => expression_is_flat(*c) && expression_is_flat(*a)
            && expression_is_flat(*b),
        ExpressionView::Call(_, _, _) => false,
        ExpressionView::Array(_, elements) => forall|i: int|
            0 <= i < elements.len() ==> expression_is_flat(#[trigger] elements[i]),
        ExpressionView::Select(a, i) => expression_is_flat(*a) && expression_is_flat(*i),
    }
}

/// Whether no expression of a list holds a call.
pub open spec fn expressions_are_flat(es: Seq<ExpressionView>) -> bool {
    forall|i: int| 0 <= i < es.len() ==> expression_is_flat(#[trigger] es[i])
}

/// Whether a target holds no call.
pub open spec fn assignee_is_flat(a: AssigneeView) -> bool
    decreases a,
{
    match a {
        AssigneeView::Identifier(_) => true,
        AssigneeView::Select(inner, index) => assignee_is_flat(*inner) && expression_is_flat(
            *index,
        ),
    }
}

/// Whether a statement is no loop and holds no call.
pub open spec fn statement_is_flat(s: StatementView) -> bool {
    match s {
        StatementView::Definition(a, e) => assignee_is_flat(a) && expression_is_flat(e),
        StatementView::Assertion(e) => expression_is_flat(e),
        StatementView::For(_, _, _, _) => false,
    }
}

/// Whether no statement of a list is a loop or holds a call.
pub open spec fn statements_are_flat(ss: Seq<StatementView>) -> bool {
    forall|i: int| 0 <= i < ss.len() ==> statement_is_flat(#[trigger] ss[i])
}

/// Whether a function holds no loop and no call.
pub open spec fn function_is_flat(f: FunctionView) -> bool {
    statements_are_flat(f.statements) && expressions_are_flat(f.returns)
}

/// Whether a program holds no loop and no call.
pub open spec fn program_is_flat(p: ProgramView) -> bool {
    forall|i: int| 0 <= i < p.functions.len() ==> function_is_flat(#[trigger] p.functions[i])
}

/// Whether each of the reduced functions holds no loop and no call.
pub open spec fn all_flat(done: Seq<Reduced>) -> bool {
    forall|i: int| 0 <= i < done.len() ==> function_is_flat((#[trigger] done[i]).function)
}

/// Whether the condition of a branch, if there is one, holds no call.
pub open spec fn path_is_flat(path: Option<ExpressionView>) -> bool {
    match path {
        Some(condition) => expression_is_flat(condition),
        None => true,
    }
}

proof fn lemma_shift_expression_flat(e: ExpressionView, base: usize)
    requires
        expression_is_flat(e),
    ensures
        expression_is_flat(shift_expression(e, base)),
    decreases e,
{
    match e {
        ExpressionView::Not(a) => {
            lemma_shift_expression_flat(*a, base);
        },
        ExpressionView::Binary(_, a, b) => {
            lemma_shift_expression_flat(*a, base);
            lemma_shift_expression_flat(*b, base);
        },
        ExpressionView::IfElse(c, a, b, _) => {
            lemma_shift_expression_flat(*c, base);
            lemma_shift_expression_flat(*a, base);
            lemma_shift_expression_flat(*b, base);
        },
        ExpressionView::Array(_, elements) => {
            lemma_shift_expressions_flat(elements, base);
        },
        ExpressionView::Select(a, i) => {
            lemma_shift_expression_flat(*a, base);
            lemma_shift_expression_flat(*i, base);
        },
        _ => {},
    }
}

proof fn lemma_shift_expressions_flat(es: Seq<ExpressionView>, base: usize)
    requires
        expressions_are_flat(es),
    ensures
        expressions_are_flat(shift_expressions(es, base)),
        shift_expressions(es, base).len() == es.len(),
    decreases es,
{
    if es.len() > 0 {
        lemma_shift_expressions_flat(es.drop_last(), base);
        lemma_shift_expression_flat(es.last(), base);
    }
}

proof fn lemma_shift_assignee_flat(a: AssigneeView, base: usize)
    requires
        assignee_is_flat(a),
    ensures
        assignee_is_flat(shift_assignee(a, base)),
    decreases a,
{
    match a {
        AssigneeView::Identifier(_) => {},
        AssigneeView::Select(inner, index) => {
            lemma_shift_assignee_flat(*inner, base);
            lemma_shift_expression_flat(*index, base);
        },
    }
}

proof fn lemma_inlined_body_flat(
    path: Option<ExpressionView>,
    ss: Seq<StatementView>,
    base: usize,
)
    requires
        path_is_flat(path),
        statements_are_flat(ss),
    ensures
        statements_are_flat(inlined_body(path, ss, base)),
        inlined_body(path, ss, base).len() == ss.len(),
    decreases ss.len(),
{
    if ss.len() > 0 {
        let d = ss.drop_last();
        let last = ss.last();
        assert forall|i: int| 0 <= i < d.len() implies statement_is_flat(#[trigger] d[i]) by {
            assert(d[i] == ss[i]);
        }
        lemma_inlined_body_flat(path, d, base);
        assert(statement_is_flat(ss[ss.len() - 1]));
        match last {
            StatementView::Definition(a, e) => {
                lemma_shift_assignee_flat(a, base);
                lemma_shift_expression_flat(e, base);
            },
            StatementView::Assertion(e) => {
                lemma_shift_expression_flat(e, base);
            },
            StatementView::For(_, _, _, _) => {},
        }
        let shifted = shift_statement(last, base);
        assert(statement_is_flat(shifted));
        let g = guarded(path, shifted);
        assert(statement_is_flat(g)) by {
            match (path, shifted) {
                (Some(condition), StatementView::Assertion(e)) => {
                    let not = ExpressionView::Not(Box::new(condition));
                    assert(expression_is_flat(not));
                },
                _ => {},
            }
        }
        let body = inlined_body(path, ss, base);
        assert(body == inlined_body(path, d, base).push(g));
        assert forall|i: int| 0 <= i < body.len() implies statement_is_flat(
            #[trigger] body[i],
        ) by {
            if i < d.len() {
                assert(body[i] == inlined_body(path, d, base)[i]);
            }
        }
    }
}

proof fn lemma_bindings_flat(
    parameters: Seq<Parameter>,
    arguments: Seq<ExpressionView>,
    base: usize,
    n: nat,
)
    requires
        expressions_are_flat(arguments),
    ensures
        statements_are_flat(bindings(parameters, arguments, base, n)),
    decreases n,
{
    if !(n == 0 || n > parameters.len() || n > arguments.len()) {
        lemma_bindings_flat(parameters, arguments, base, (n - 1) as nat);
    }
}

proof fn lemma_reduce_expression_flat(
    done: Seq<Reduced>,
    env: Constants,
    path: Option<ExpressionView>,
    counter: nat,
    e: ExpressionView,
)
    requires
        all_flat(done),
        path_is_flat(path),
    ensures
        reduce_expression(done, env, path, counter, e) matches Ok(r) ==> expression_is_flat(
            r.expression,
        ) && statements_are_flat(r.statements),
    decreases e,
{
    match e {
        ExpressionView::Not(a) => {
            lemma_reduce_expression_flat(done, env, path, counter, *a);
        },
        ExpressionView::Binary(_, a, b) => {
            lemma_reduce_expression_flat(done, env, path, counter, *a);
            if let Ok(ra) = reduce_expression(done, env, path, counter, *a) {
                lemma_reduce_expression_flat(done, env, path, ra.counter, *b);
            }
        },
        ExpressionView::Select(a, i) => {
            lemma_reduce_expression_flat(done, env, path, counter, *a);
            if let Ok(ra) = reduce_expression(done, env, path, counter, *a) {
                lemma_reduce_expression_flat(done, env, path, ra.counter, *i);
            }
        },
        ExpressionView::IfElse(c, a, b, isolated) => {
            lemma_reduce_expression_flat(done, env, path, counter, *c);
            if let Ok(rc) = reduce_expression(done, env, path, counter, *c) {
                let then_path = if isolated {
                    narrowed(path, rc.expression)
                } else {
                    path
                };
                let else_path = if isolated {
                    narrowed(path, ExpressionView::Not(Box::new(rc.expression)))
                } else {
                    path
                };
                assert(path_is_flat(then_path));
                assert(expression_is_flat(ExpressionView::Not(Box::new(rc.expression))));
                assert(path_is_flat(else_path));
                lemma_reduce_expression_flat(done, env, then_path, rc.counter, *a);
                if let Ok(ra) = reduce_expression(done, env, then_path, rc.counter, *a) {
                    lemma_reduce_expression_flat(done, env, else_path, ra.counter, *b);
                }
            }
        },
        ExpressionView::Array(_, elements) => {
            lemma_reduce_expressions_flat(done, env, path, counter, elements);
        },
        ExpressionView::Call(g, args, _) => {
            lemma_reduce_expressions_flat(done, env, path, counter, args);
            if let Ok(r) = reduce_expressions(done, env, path, counter, args) {
                if let Ok(inlined) = inline_call(done, path, g, r) {
                    let callee = done[g as int];
                    let base = r.counter as usize;
                    assert(function_is_flat(callee.function));
                    lemma_bindings_flat(
                        callee.function.arguments,
                        r.expressions,
                        base,
                        r.expressions.len(),
                    );
                    lemma_inlined_body_flat(path, callee.function.statements, base);
                    assert(expression_is_flat(callee.function.returns[0]));
                    lemma_shift_expression_flat(callee.function.returns[0], base);
                }
            }
        },
        _ => {},
    }
}

proof fn lemma_reduce_expressions_flat(
    done: Seq<Reduced>,
    env: Constants,
    path: Option<ExpressionView>,
    counter: nat,
    es: Seq<ExpressionView>,
)
    requires
        all_flat(done),
        path_is_flat(path),
    ensures
        reduce_expressions(done, env, path, counter, es) matches Ok(r) ==> expressions_are_flat(
            r.expressions,
        ) && statements_are_flat(r.statements),
    decreases es,
{
    if es.len() > 0 {
        lemma_reduce_expressions_flat(done, env, path, counter, es.drop_last());
        if let Ok(head) = reduce_expressions(done, env, path, counter, es.drop_last()) {
            lemma_reduce_expression_flat(done, env, path, head.counter, es.last());
        }
    }
}

proof fn lemma_reduce_assignee_flat(
    done: Seq<Reduced>,
    env: Constants,
    counter: nat,
    a: AssigneeView,
)
    requires
        all_flat(done),
    ensures
        reduce_assignee(done, env, counter, a) matches Ok(r) ==> assignee_is_flat(r.assignee)
            && statements_are_flat(r.statements),
    decreases a,
{
    match a {
        AssigneeView::Identifier(_) => {},
        AssigneeView::Select(inner, index) => {
            lemma_reduce_assignee_flat(done, env, counter, *inner);
            if let Ok(ri) = reduce_assignee(done, env, counter, *inner) {
                lemma_reduce_expression_flat(done, env, None, ri.counter, *index);
            }
        },
    }
}

proof fn lemma_reduce_statement_flat(
    done: Seq<Reduced>,
    env: Constants,
    counter: nat,
    s: StatementView,
)
    requires
        all_flat(done),
    ensures
        reduce_statement(done, env, counter, s) matches Ok(r) ==> statements_are_flat(
            r.statements,
        ),
    decreases s, 0nat,
{
    match s {
        StatementView::Definition(a, e) => {
            lemma_reduce_expression_flat(done, env, None, counter, e);
            if let Ok(re) = reduce_expression(done, env, None, counter, e) {
                lemma_reduce_assignee_flat(done, env, re.counter, a);
            }
        },
        StatementView::Assertion(e) => {
            lemma_reduce_expression_flat(done, env, None, counter, e);
        },
        StatementView::For(v, from, to, body) => {
            if let Ok((bits, lower)) = loop_bound(env, from) {
                if let Ok((_, upper)) = loop_bound(env, to) {
                    lemma_unroll_flat(done, env, counter, v, bits, lower, upper, body);
                }
            }
        },
    }
}

proof fn lemma_unroll_flat(
    done: Seq<Reduced>,
    env: Constants,
    counter: nat,
    v: Variable,
    bits: u8,
    lower: u64,
    upper: u64,
    body: Seq<StatementView>,
)
    requires
        all_flat(done),
    ensures
        unroll(done, env, counter, v, bits, lower, upper, body) matches Ok(r)
            ==> statements_are_flat(r.statements),
    decreases body, (if upper > lower { upper - lower + 1 } else { 1 }) as nat,
{
    if upper > lower {
        let last = (upper - 1) as u64;
        lemma_unroll_flat(done, env, counter, v, bits, lower, last, body);
        if let Ok(before) = unroll(done, env, counter, v, bits, lower, last, body) {
            lemma_reduce_statements_flat(
                done,
                env.insert(v.key(), Value::Uint(bits, last)),
                before.counter,
                body,
            );
        }
    }
}

proof fn lemma_reduce_statements_flat(
    done: Seq<Reduced>,
    env: Constants,
    counter: nat,
    ss: Seq<StatementView>,
)
    requires
        all_flat(done),
    ensures
        reduce_statements(done, env, counter, ss) matches Ok(r) ==> statements_are_flat(
            r.statements,
        ),
    decreases ss, 0nat,
{
    if ss.len() > 0 {
        lemma_reduce_statements_flat(done, env, counter, ss.drop_last());
        if let Ok(head) = reduce_statements(done, env, counter, ss.drop_last()) {
            lemma_reduce_statement_flat(done, env, head.counter, ss.last());
        }
    }
}

proof fn lemma_reduce_functions_flat(fs: Seq<FunctionView>, n: nat)
    ensures
        reduce_functions(fs, n) matches Ok(done) ==> all_flat(done) && (n <= fs.len()
            ==> done.len() == n),
    decreases n,
{
    if !(n == 0 || n > fs.len()) {
        lemma_reduce_functions_flat(fs, (n - 1) as nat);
        if let Ok(done) = reduce_functions(fs, (n - 1) as nat) {
            let f = fs[n - 1];
            lemma_reduce_statements_flat(done, Map::empty(), 1, f.statements);
            if let Ok(body) = reduce_statements(done, Map::empty(), 1, f.statements) {
                lemma_reduce_expressions_flat(done, Map::empty(), None, body.counter, f.returns);
            }
            if let Ok(r) = reduce_function(done, f) {
                assert(function_is_flat(r.function));
                let all = done.push(r);
                assert forall|i: int| 0 <= i < all.len() implies function_is_flat(
                    (#[trigger] all[i]).function,
                ) by {
                    if i < done.len() {
                        assert(all[i] == done[i]);
                    }
                }
            }
        }
    }
}

/// The shape of a reduced program: where a program can be reduced, what is
/// left of it is one function that holds no loop and no call.
pub proof fn lemma_reduced_program_is_flat(p: ProgramView)
    ensures
        reduce(p) matches Ok(q) ==> q.functions.len() == 1 && q.main == 0 && program_is_flat(q),
{
    if p.main < p.functions.len() {
        lemma_reduce_functions_flat(p.functions, (p.main + 1) as nat);
    }
}

} // verus!
