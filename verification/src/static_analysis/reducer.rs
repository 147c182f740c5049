//! The reduction of a program to one function without calls and loops:
//! every call is replaced by the body of the function it calls, and every
//! loop by its body once for each value of its variable.

use crate::static_analysis::propagation::{Constants, fold, fold_expression};
use crate::typed_absy::operators::BinaryOp;
use crate::typed_absy::types::{Value, Variable};
use crate::typed_absy::{
    AssigneeView, ExpressionView, FunctionView, Parameter, ProgramView, StatementView,
    TypedAssignee, TypedExpression, TypedFunction, TypedProgram, TypedStatement,
    clone_parameters, expressions_view, functions_view, statements_view,
};
use std::collections::HashMap;
use vstd::prelude::*;

verus! {

/// Why a program cannot be reduced.
#[derive(Debug, Clone, Copy, PartialEq, Eq, Structural)]
pub enum Error {
    /// The program starts at a function that it does not hold.
    NoMain,
    /// A call of a function that is not declared before the function that
    /// calls it. A function that calls itself, directly or through others,
    /// makes such a call.
    UnknownFunction(usize),
    /// A call with another number of arguments than the function takes, or
    /// of a function that does not return one value.
    Arity(usize),
    /// A bound of a loop that does not fold to a literal unsigned integer.
    LoopBound,
    /// More inlined calls than there are versions to tell their variables
    /// apart.
    TooManyCalls,
}

/// A reduced function, and the number of versions that its variables use.
pub struct Reduced {
    pub function: FunctionView,
    pub versions: nat,
}

/// The variable `v` as it is named inside an inlined call whose versions
/// start at `base`.
pub open spec fn shift_variable(v: Variable, base: usize) -> Variable {
    Variable {
        id: v.id,
        version: if v.version + base <= usize::MAX {
            (v.version + base) as usize
        } else {
            usize::MAX
        },
        ty: v.ty,
    }
}

/// The expression `e` with each of its variables shifted.
pub open spec fn shift_expression(e: ExpressionView, base: usize) -> ExpressionView
    decreases e,
{
    match e {
        ExpressionView::Value(_) => e,
        ExpressionView::Identifier(v) => ExpressionView::Identifier(shift_variable(v, base)),
        ExpressionView::Constant(_, _) => e,
        ExpressionView::Not(a) => ExpressionView::Not(Box::new(shift_expression(*a, base))),
        ExpressionView::Binary(op, a, b) => ExpressionView::Binary(
            op,
            Box::new(shift_expression(*a, base)),
            Box::new(shift_expression(*b, base)),
        ),
        ExpressionView::IfElse(c, a, b, isolated) => ExpressionView::IfElse(
            Box::new(shift_expression(*c, base)),
            Box::new(shift_expression(*a, base)),
            Box::new(shift_expression(*b, base)),
            isolated,
        ),
        ExpressionView::Call(f, args, ty) => ExpressionView::Call(
            f,
            shift_expressions(args, base),
            ty,
        ),
        ExpressionView::Array(ty, elements) => ExpressionView::Array(
            ty,
            shift_expressions(elements, base),
        ),
        ExpressionView::Select(a, i) => ExpressionView::Select(
            Box::new(shift_expression(*a, base)),
            Box::new(shift_expression(*i, base)),
        ),
    }
}

/// The expressions of `es`, each with its variables shifted.
pub open spec fn shift_expressions(es: Seq<ExpressionView>, base: usize) -> Seq<ExpressionView>
    decreases es,
{
    if es.len() == 0 {
        Seq::empty()
    } else {
        shift_expressions(es.drop_last(), base).push(shift_expression(es.last(), base))
    }
}

/// The target `a` with each of its variables shifted.
pub open spec fn shift_assignee(a: AssigneeView, base: usize) -> AssigneeView
    decreases a,
{
    match a {
        AssigneeView::Identifier(v) => AssigneeView::Identifier(shift_variable(v, base)),
        AssigneeView::Select(inner, index) => AssigneeView::Select(
            Box::new(shift_assignee(*inner, base)),
            Box::new(shift_expression(*index, base)),
        ),
    }
}

/// The statement `s` with each of its variables shifted.
pub open spec fn shift_statement(s: StatementView, base: usize) -> StatementView
    decreases s,
{
    match s {
        StatementView::Definition(a, e) => StatementView::Definition(
            shift_assignee(a, base),
            shift_expression(e, base),
        ),
        StatementView::Assertion(e) => StatementView::Assertion(shift_expression(e, base)),
        StatementView::For(v, from, to, body) => StatementView::For(
            shift_variable(v, base),
            shift_expression(from, base),
            shift_expression(to, base),
            shift_statements(body, base),
        ),
    }
}

/// The statements of `ss`, each with its variables shifted.
pub open spec fn shift_statements(ss: Seq<StatementView>, base: usize) -> Seq<StatementView>
    decreases ss,
{
    if ss.len() == 0 {
        Seq::empty()
    } else {
        shift_statements(ss.drop_last(), base).push(shift_statement(ss.last(), base))
    }
}

/// The condition under which a branch inside the branch of condition `path`
/// is taken.
pub open spec fn narrowed(path: Option<ExpressionView>, condition: ExpressionView) -> Option<
    ExpressionView,
> {
    match path {
        None => Some(condition),
        Some(outer) => Some(
            ExpressionView::Binary(BinaryOp::And, Box::new(outer), Box::new(condition)),
        ),
    }
}

/// The statement `s` as it holds inside the branch of condition `path`: an
/// assertion claims what it claimed only where the branch is taken.
pub open spec fn guarded(path: Option<ExpressionView>, s: StatementView) -> StatementView {
    match (path, s) {
        (Some(condition), StatementView::Assertion(e)) => StatementView::Assertion(
            ExpressionView::Binary(
                BinaryOp::Or,
                Box::new(ExpressionView::Not(Box::new(condition))),
                Box::new(e),
            ),
        ),
        _ => s,
    }
}

/// The statements of an inlined body: each shifted, then guarded.
pub open spec fn inlined_body(
    path: Option<ExpressionView>,
    ss: Seq<StatementView>,
    base: usize,
) -> Seq<StatementView>
    decreases ss.len(),
{
    if ss.len() == 0 {
        Seq::empty()
    } else {
        inlined_body(path, ss.drop_last(), base).push(
            guarded(path, shift_statement(ss.last(), base)),
        )
    }
}

/// The assignments of the arguments of a call to the shifted parameters of
/// the function that is called, for the first `n` of them.
pub open spec fn bindings(
    parameters: Seq<Parameter>,
    arguments: Seq<ExpressionView>,
    base: usize,
    n: nat,
) -> Seq<StatementView>
    decreases n,
{
    if n == 0 || n > parameters.len() || n > arguments.len() {
        Seq::empty()
    } else {
        bindings(parameters, arguments, base, (n - 1) as nat).push(
            StatementView::Definition(
                AssigneeView::Identifier(shift_variable(parameters[n - 1].variable, base)),
                arguments[n - 1],
            ),
        )
    }
}

/// What the reduction of an expression gives: the statements to run before
/// it, the expression that is left, and the next free version.
pub struct Inlined {
    pub statements: Seq<StatementView>,
    pub expression: ExpressionView,
    pub counter: nat,
}

/// What the reduction of a list of expressions gives.
pub struct InlinedList {
    pub statements: Seq<StatementView>,
    pub expressions: Seq<ExpressionView>,
    pub counter: nat,
}

/// What the reduction of a target gives.
pub struct InlinedAssignee {
    pub statements: Seq<StatementView>,
    pub assignee: AssigneeView,
    pub counter: nat,
}

/// What the reduction of statements gives: the statements that are left and
/// the next free version.
pub struct Unrolled {
    pub statements: Seq<StatementView>,
    pub counter: nat,
}

/// The reduction of an expression inside a function. `done` holds the
/// reduced functions that were declared before it, `env` the values of the
/// variables of the loops around the expression, `path` the condition of
/// the isolated branch around it, and `counter` the next free version.
///
/// A variable of a loop is replaced by its value. A call is replaced by the
/// value that the function returns; the statements of the function come
/// before, after the assignments of the arguments to its parameters, with
/// their variables shifted to versions of their own.
pub open spec fn reduce_expression(
    done: Seq<Reduced>,
    env: Constants,
    path: Option<ExpressionView>,
    counter: nat,
    e: ExpressionView,
) -> Result<Inlined, Error>
    decreases e,
{
    match e {
        ExpressionView::Value(_) => Ok(
            Inlined { statements: Seq::empty(), expression: e, counter: counter },
        ),
        ExpressionView::Identifier(v) => Ok(
            Inlined {
                statements: Seq::empty(),
                expression: if env.contains_key(v.key()) {
                    ExpressionView::Value(env[v.key()])
                } else {
                    e
                },
                counter: counter,
            },
        ),
        ExpressionView::Constant(_, _) => Ok(
            Inlined { statements: Seq::empty(), expression: e, counter: counter },
        ),
        ExpressionView::Not(a) => match reduce_expression(done, env, path, counter, *a) {
            Err(err) => Err(err),
            Ok(ra) => Ok(
                Inlined {
                    statements: ra.statements,
                    expression: ExpressionView::Not(Box::new(ra.expression)),
                    counter: ra.counter,
                },
            ),
        },
        ExpressionView::Binary(op, a, b) => match reduce_expression(done, env, path, counter, *a) {
            Err(err) => Err(err),
            Ok(ra) => match reduce_expression(done, env, path, ra.counter, *b) {
                Err(err) => Err(err),
                Ok(rb) => Ok(
                    Inlined {
                        statements: ra.statements + rb.statements,
                        expression: ExpressionView::Binary(
                            op,
                            Box::new(ra.expression),
                            Box::new(rb.expression),
                        ),
                        counter: rb.counter,
                    },
                ),
            },
        },
        ExpressionView::Select(a, i) => match reduce_expression(done, env, path, counter, *a) {
            Err(err) => Err(err),
            Ok(ra) => match reduce_expression(done, env, path, ra.counter, *i) {
                Err(err) => Err(err),
                Ok(ri) => Ok(
                    Inlined {
                        statements: ra.statements + ri.statements,
                        expression: ExpressionView::Select(
                            Box::new(ra.expression),
                            Box::new(ri.expression),
                        ),
                        counter: ri.counter,
                    },
                ),
            },
        },
        ExpressionView::IfElse(c, a, b, isolated) => match reduce_expression(
            done,
            env,
            path,
            counter,
            *c,
        ) {
            Err(err) => Err(err),
            Ok(rc) => {
                let then_path = if isolated {
                    narrowed(path, rc.expression)
                } else {
                    path
                };
                let else_path = if isolated {
                    narrowed(path, ExpressionView::Not(Box::new(rc.expression)))
                } else {
                    path
                };
                match reduce_expression(done, env, then_path, rc.counter, *a) {
                    Err(err) => Err(err),
                    Ok(ra) => match reduce_expression(done, env, else_path, ra.counter, *b) {
                        Err(err) => Err(err),
                        Ok(rb) => Ok(
                            Inlined {
                                statements: rc.statements + ra.statements + rb.statements,
                                expression: ExpressionView::IfElse(
                                    Box::new(rc.expression),
                                    Box::new(ra.expression),
                                    Box::new(rb.expression),
                                    isolated,
                                ),
                                counter: rb.counter,
                            },
                        ),
                    },
                }
            },
        },
        ExpressionView::Array(ty, elements) => match reduce_expressions(
            done,
            env,
            path,
            counter,
            elements,
        ) {
            Err(err) => Err(err),
            Ok(r) => Ok(
                Inlined {
                    statements: r.statements,
                    expression: ExpressionView::Array(ty, r.expressions),
                    counter: r.counter,
                },
            ),
        },
        ExpressionView::Call(g, args, _) => match reduce_expressions(
            done,
            env,
            path,
            counter,
            args,
        ) {
            Err(err) => Err(err),
            Ok(r) => inline_call(done, path, g, r),
        },
    }
}

/// The call of function `g` with reduced arguments, replaced by the body of
/// the function.
pub open spec fn inline_call(
    done: Seq<Reduced>,
    path: Option<ExpressionView>,
    g: usize,
    arguments: InlinedList,
) -> Result<Inlined, Error> {
    if g >= done.len() {
        Err(Error::UnknownFunction(g))
    } else {
        let callee = done[g as int];
        if callee.function.arguments.len() != arguments.expressions.len()
            || callee.function.returns.len() != 1 {
            Err(Error::Arity(g))
        } else if arguments.counter + callee.versions > usize::MAX {
            Err(Error::TooManyCalls)
        } else {
            let base = arguments.counter as usize;
            Ok(
                Inlined {
                    statements: arguments.statements + bindings(
                        callee.function.arguments,
                        arguments.expressions,
                        base,
                        arguments.expressions.len(),
                    ) + inlined_body(path, callee.function.statements, base),
                    expression: shift_expression(callee.function.returns[0], base),
                    counter: arguments.counter + callee.versions,
                },
            )
        }
    }
}

/// The reduction of a list of expressions, one after the other.
pub open spec fn reduce_expressions(
    done: Seq<Reduced>,
    env: Constants,
    path: Option<ExpressionView>,
    counter: nat,
    es: Seq<ExpressionView>,
) -> Result<InlinedList, Error>
    decreases es,
{
    if es.len() == 0 {
        Ok(InlinedList { statements: Seq::empty(), expressions: Seq::empty(), counter: counter })
    } else {
        match reduce_expressions(done, env, path, counter, es.drop_last()) {
            Err(err) => Err(err),
            Ok(head) => match reduce_expression(done, env, path, head.counter, es.last()) {
                Err(err) => Err(err),
                Ok(last) => Ok(
                    InlinedList {
                        statements: head.statements + last.statements,
                        expressions: head.expressions.push(last.expression),
                        counter: last.counter,
                    },
                ),
            },
        }
    }
}

/// The reduction of a target: each of its indices reduced.
pub open spec fn reduce_assignee(
    done: Seq<Reduced>,
    env: Constants,
    counter: nat,
    a: AssigneeView,
) -> Result<InlinedAssignee, Error>
    decreases a,
{
    match a {
        AssigneeView::Identifier(_) => Ok(
            InlinedAssignee { statements: Seq::empty(), assignee: a, counter: counter },
        ),
        AssigneeView::Select(inner, index) => match reduce_assignee(done, env, counter, *inner) {
            Err(err) => Err(err),
            Ok(ri) => match reduce_expression(done, env, None, ri.counter, *index) {
                Err(err) => Err(err),
                Ok(rx) => Ok(
                    InlinedAssignee {
                        statements: ri.statements + rx.statements,
                        assignee: AssigneeView::Select(
                            Box::new(ri.assignee),
                            Box::new(rx.expression),
                        ),
                        counter: rx.counter,
                    },
                ),
            },
        },
    }
}

/// The literal unsigned integer that a bound of a loop folds to, given the
/// values of the variables of the loops around it: its number of bits and
/// its value.
pub open spec fn loop_bound(env: Constants, e: ExpressionView) -> Result<(u8, u64), Error> {
    match fold_expression(env, e) {
        Ok(ExpressionView::Value(Value::Uint(bits, k))) => Ok((bits, k)),
        _ => Err(Error::LoopBound),
    }
}

/// The reduction of a statement. The statements that its expressions need
/// come before it. A loop is replaced by its reduced body, once for each
/// value of its variable.
pub open spec fn reduce_statement(
    done: Seq<Reduced>,
    env: Constants,
    counter: nat,
    s: StatementView,
) -> Result<Unrolled, Error>
    decreases s, 0nat,
{
    match s {
        StatementView::Definition(a, e) => match reduce_expression(done, env, None, counter, e) {
            Err(err) => Err(err),
            Ok(re) => match reduce_assignee(done, env, re.counter, a) {
                Err(err) => Err(err),
                Ok(ra) => Ok(
                    Unrolled {
                        statements: (re.statements + ra.statements).push(
                            StatementView::Definition(ra.assignee, re.expression),
                        ),
                        counter: ra.counter,
                    },
                ),
            },
        },
        StatementView::Assertion(e) => match reduce_expression(done, env, None, counter, e) {
            Err(err) => Err(err),
            Ok(re) => Ok(
                Unrolled {
                    statements: re.statements.push(StatementView::Assertion(re.expression)),
                    counter: re.counter,
                },
            ),
        },
        StatementView::For(v, from, to, body) => match loop_bound(env, from) {
            Err(err) => Err(err),
            Ok((bits, lower)) => match loop_bound(env, to) {
                Err(err) => Err(err),
                Ok((_, upper)) => unroll(done, env, counter, v, bits, lower, upper, body),
            },
        },
    }
}

/// The reduced body of a loop, once for each value of the variable `v` from
/// `lower` up to, and without, `upper`.
pub open spec fn unroll(
    done: Seq<Reduced>,
    env: Constants,
    counter: nat,
    v: Variable,
    bits: u8,
    lower: u64,
    upper: u64,
    body: Seq<StatementView>,
) -> Result<Unrolled, Error>
    decreases body, (if upper > lower { upper - lower + 1 } else { 1 }) as nat,
{
    if upper <= lower {
        Ok(Unrolled { statements: Seq::empty(), counter: counter })
    } else {
        let last = (upper - 1) as u64;
        match unroll(done, env, counter, v, bits, lower, last, body) {
            Err(err) => Err(err),
            Ok(before) => match reduce_statements(
                done,
                env.insert(v.key(), Value::Uint(bits, last)),
                before.counter,
                body,
            ) {
                Err(err) => Err(err),
                Ok(turn) => Ok(
                    Unrolled {
                        statements: before.statements + turn.statements,
                        counter: turn.counter,
                    },
                ),
            },
        }
    }
}

/// The reduction of a list of statements, one after the other.
pub open spec fn reduce_statements(
    done: Seq<Reduced>,
    env: Constants,
    counter: nat,
    ss: Seq<StatementView>,
) -> Result<Unrolled, Error>
    decreases ss, 0nat,
{
    if ss.len() == 0 {
        Ok(Unrolled { statements: Seq::empty(), counter: counter })
    } else {
        match reduce_statements(done, env, counter, ss.drop_last()) {
            Err(err) => Err(err),
            Ok(head) => match reduce_statement(done, env, head.counter, ss.last()) {
                Err(err) => Err(err),
                Ok(last) => Ok(
                    Unrolled {
                        statements: head.statements + last.statements,
                        counter: last.counter,
                    },
                ),
            },
        }
    }
}

/// The reduction of a function, given the reduced functions that were
/// declared before it. What the values that it returns need comes at the
/// end of its statements.
pub open spec fn reduce_function(done: Seq<Reduced>, f: FunctionView) -> Result<Reduced, Error> {
    match reduce_statements(done, Map::empty(), 1, f.statements) {
        Err(err) => Err(err),
        Ok(body) => match reduce_expressions(done, Map::empty(), None, body.counter, f.returns) {
            Err(err) => Err(err),
            Ok(results) => Ok(
                Reduced {
                    function: FunctionView {
                        arguments: f.arguments,
                        statements: body.statements + results.statements,
                        returns: results.expressions,
                    },
                    versions: results.counter,
                },
            ),
        },
    }
}

/// The reductions of the first `n` functions of `fs`, in the order of their
/// declaration.
pub open spec fn reduce_functions(fs: Seq<FunctionView>, n: nat) -> Result<Seq<Reduced>, Error>
    decreases n,
{
    if n == 0 || n > fs.len() {
        Ok(Seq::empty())
    } else {
        match reduce_functions(fs, (n - 1) as nat) {
            Err(err) => Err(err),
            Ok(done) => match reduce_function(done, fs[n - 1]) {
                Err(err) => Err(err),
                Ok(r) => Ok(done.push(r)),
            },
        }
    }
}

/// The reduction of a program: the reduction of the function where it
/// starts, as its only function.
pub open spec fn reduce(p: ProgramView) -> Result<ProgramView, Error> {
    if p.main >= p.functions.len() {
        Err(Error::NoMain)
    } else {
        match reduce_functions(p.functions, (p.main + 1) as nat) {
            Err(err) => Err(err),
            Ok(done) => Ok(
                ProgramView {
                    functions: seq![done[p.main as int].function],
                    main: 0,
                    constants: p.constants,
                },
            ),
        }
    }
}

/// The variable `v` as it is named inside an inlined call whose versions
/// start at `base`.
pub fn shifted_variable(v: &Variable, base: usize) -> (r: Variable)
    ensures
        r == shift_variable(*v, base),
{
    Variable {
        id: v.id,
        version: if v.version <= usize::MAX - base {
            v.version + base
        } else {
            usize::MAX
        },
        ty: v.ty.clone(),
    }
}

/// The expression `e` with each of its variables shifted.
pub fn shifted_expression(e: &TypedExpression, base: usize) -> (r: TypedExpression)
    ensures
        r@ == shift_expression(e@, base),
    decreases e,
{
    match e {
        TypedExpression::Value(v) => TypedExpression::Value(*v),
        TypedExpression::Identifier(v) => TypedExpression::Identifier(shifted_variable(v, base)),
        TypedExpression::Constant(id, ty) => TypedExpression::Constant(*id, ty.clone()),
        TypedExpression::Not(a) => TypedExpression::Not(Box::new(shifted_expression(a, base))),
        TypedExpression::Binary(op, a, b) => TypedExpression::Binary(
            *op,
            Box::new(shifted_expression(a, base)),
            Box::new(shifted_expression(b, base)),
        ),
        TypedExpression::IfElse(c, a, b, isolated) => TypedExpression::IfElse(
            Box::new(shifted_expression(c, base)),
            Box::new(shifted_expression(a, base)),
            Box::new(shifted_expression(b, base)),
            *isolated,
        ),
        TypedExpression::Call(f, args, ty) => TypedExpression::Call(
            *f,
            shifted_expressions(args, base),
            ty.clone(),
        ),
        TypedExpression::Array(ty, elements) => TypedExpression::Array(
            ty.clone(),
            shifted_expressions(elements, base),
        ),
        TypedExpression::Select(a, i) => TypedExpression::Select(
            Box::new(shifted_expression(a, base)),
            Box::new(shifted_expression(i, base)),
        ),
    }
}

/// The expressions of `es`, each with its variables shifted.
pub fn shifted_expressions(es: &Vec<TypedExpression>, base: usize) -> (r: Vec<TypedExpression>)
    ensures
        expressions_view(r@) == shift_expressions(expressions_view(es@), base),
    decreases es,
{
    let ghost input = expressions_view(es@);
    let mut out: Vec<TypedExpression> = Vec::new();
    let mut i: usize = 0;
    assert(input.take(0) =~= Seq::<ExpressionView>::empty());
    assert(expressions_view(out@) =~= Seq::<ExpressionView>::empty());
    while i < es.len()
        invariant
            i <= es.len(),
            input == expressions_view(es@),
            expressions_view(out@) == shift_expressions(input.take(i as int), base),
        decreases es.len() - i,
    {
        let ghost before = expressions_view(out@);
        let x = shifted_expression(&es[i], base);
        out.push(x);
        proof {
            assert(input.take(i + 1).drop_last() =~= input.take(i as int));
            assert(input.take(i + 1).last() == es@[i as int]@);
            assert(expressions_view(out@) =~= before.push(x@));
        }
        i += 1;
    }
    assert(input.take(es.len() as int) =~= input);
    out
}

/// The target `a` with each of its variables shifted.
pub fn shifted_assignee(a: &TypedAssignee, base: usize) -> (r: TypedAssignee)
    ensures
        r@ == shift_assignee(a@, base),
    decreases a,
{
    match a {
        TypedAssignee::Identifier(v) => TypedAssignee::Identifier(shifted_variable(v, base)),
        TypedAssignee::Select(inner, index) => TypedAssignee::Select(
            Box::new(shifted_assignee(inner, base)),
            Box::new(shifted_expression(index, base)),
        ),
    }
}

/// The statement `s` with each of its variables shifted.
pub fn shifted_statement(s: &TypedStatement, base: usize) -> (r: TypedStatement)
    ensures
        r@ == shift_statement(s@, base),
    decreases s,
{
    match s {
        TypedStatement::Definition(a, e) => TypedStatement::Definition(
            shifted_assignee(a, base),
            shifted_expression(e, base),
        ),
        TypedStatement::Assertion(e) => TypedStatement::Assertion(shifted_expression(e, base)),
        TypedStatement::For(v, from, to, body) => TypedStatement::For(
            shifted_variable(v, base),
            shifted_expression(from, base),
            shifted_expression(to, base),
            shifted_statements(body, base),
        ),
    }
}

/// The statements of `ss`, each with its variables shifted.
pub fn shifted_statements(ss: &Vec<TypedStatement>, base: usize) -> (r: Vec<TypedStatement>)
    ensures
        statements_view(r@) == shift_statements(statements_view(ss@), base),
    decreases ss,
{
    let ghost input = statements_view(ss@);
    let mut out: Vec<TypedStatement> = Vec::new();
    let mut i: usize = 0;
    assert(input.take(0) =~= Seq::<StatementView>::empty());
    assert(statements_view(out@) =~= Seq::<StatementView>::empty());
    while i < ss.len()
        invariant
            i <= ss.len(),
            input == statements_view(ss@),
            statements_view(out@) == shift_statements(input.take(i as int), base),
        decreases ss.len() - i,
    {
        let ghost before = statements_view(out@);
        let x = shifted_statement(&ss[i], base);
        out.push(x);
        proof {
            assert(input.take(i + 1).drop_last() =~= input.take(i as int));
            assert(input.take(i + 1).last() == ss@[i as int]@);
            assert(statements_view(out@) =~= before.push(x@));
        }
        i += 1;
    }
    assert(input.take(ss.len() as int) =~= input);
    out
}

/// The condition of a branch, if there is one, over views.
pub open spec fn path_view(path: Option<&TypedExpression>) -> Option<ExpressionView> {
    match path {
        Some(condition) => Some(condition@),
        None => None,
    }
}

/// The condition under which a branch inside the branch of condition `path`
/// is taken.
fn narrowed_path(path: Option<&TypedExpression>, condition: &TypedExpression) -> (r:
    TypedExpression)
    ensures
        Some(r@) == narrowed(path_view(path), condition@),
{
    match path {
        None => condition.clone(),
        Some(outer) => {
            let left = outer.clone();
            let right = condition.clone();
            let r = TypedExpression::Binary(BinaryOp::And, Box::new(left), Box::new(right));
            assert(r@ == ExpressionView::Binary(BinaryOp::And, Box::new(left@), Box::new(right@)));
            r
        },
    }
}

/// The statement `s` as it holds inside the branch of condition `path`.
fn guarded_statement(path: Option<&TypedExpression>, s: TypedStatement) -> (r: TypedStatement)
    ensures
        r@ == guarded(path_view(path), s@),
{
    match path {
        None => s,
        Some(condition) => match s {
            TypedStatement::Assertion(e) => {
                let not = TypedExpression::Not(Box::new(condition.clone()));
                assert(not@ == ExpressionView::Not(Box::new(condition@)));
                let or = TypedExpression::Binary(BinaryOp::Or, Box::new(not), Box::new(e));
                assert(or@ == ExpressionView::Binary(BinaryOp::Or, Box::new(not@), Box::new(e@)));
                TypedStatement::Assertion(or)
            },
            other => other,
        },
    }
}

/// A reduced function, and the number of versions that its variables use.
#[derive(Debug)]
pub struct ReducedFunction {
    pub function: TypedFunction,
    pub versions: usize,
}

impl View for ReducedFunction {
    type V = Reduced;

    open spec fn view(&self) -> Reduced {
        Reduced { function: self.function@, versions: self.versions as nat }
    }
}

/// The sequence of views of a list of reduced functions.
pub open spec fn reduced_view(v: Seq<ReducedFunction>) -> Seq<Reduced> {
    v.map_values(|r: ReducedFunction| r@)
}

/// Whether what a reduction of an expression returned, and what it wrote,
/// is what `expected` says.
pub open spec fn expression_step(
    expected: Result<Inlined, Error>,
    r: Result<TypedExpression, Error>,
    before: Seq<StatementView>,
    after: Seq<StatementView>,
    counter: usize,
) -> bool {
    match r {
        Ok(x) => expected matches Ok(inlined) && inlined.expression == x@ && inlined.counter
            == counter && after == before + inlined.statements,
        Err(err) => expected == Err::<Inlined, Error>(err),
    }
}

/// Whether what a reduction of a list of expressions returned, and what it
/// wrote, is what `expected` says.
pub open spec fn list_step(
    expected: Result<InlinedList, Error>,
    r: Result<Vec<TypedExpression>, Error>,
    before: Seq<StatementView>,
    after: Seq<StatementView>,
    counter: usize,
) -> bool {
    match r {
        Ok(xs) => expected matches Ok(inlined) && inlined.expressions == expressions_view(xs@)
            && inlined.counter == counter && after == before + inlined.statements,
        Err(err) => expected == Err::<InlinedList, Error>(err),
    }
}

/// Whether what a reduction of a target returned, and what it wrote, is
/// what `expected` says.
pub open spec fn assignee_step(
    expected: Result<InlinedAssignee, Error>,
    r: Result<TypedAssignee, Error>,
    before: Seq<StatementView>,
    after: Seq<StatementView>,
    counter: usize,
) -> bool {
    match r {
        Ok(x) => expected matches Ok(inlined) && inlined.assignee == x@ && inlined.counter
            == counter && after == before + inlined.statements,
        Err(err) => expected == Err::<InlinedAssignee, Error>(err),
    }
}

/// Whether what a reduction of statements returned, and what it wrote, is
/// what `expected` says.
pub open spec fn statement_step(
    expected: Result<Unrolled, Error>,
    r: Result<(), Error>,
    before: Seq<StatementView>,
    after: Seq<StatementView>,
    counter: usize,
) -> bool {
    match r {
        Ok(_) => expected matches Ok(unrolled) && unrolled.counter == counter && after == before
            + unrolled.statements,
        Err(err) => expected == Err::<Unrolled, Error>(err),
    }
}

/// Replaces the call of function `g` with the given reduced arguments by
/// the body of the function, written to `out`.
fn inline(
    done: &Vec<ReducedFunction>,
    path: Option<&TypedExpression>,
    g: usize,
    arguments: &Vec<TypedExpression>,
    counter: &mut usize,
    out: &mut Vec<TypedStatement>,
) -> (r: Result<TypedExpression, Error>)
    ensures
        expression_step(
            inline_call(
                reduced_view(done@),
                path_view(path),
                g,
                InlinedList {
                    statements: Seq::empty(),
                    expressions: expressions_view(arguments@),
                    counter: *old(counter) as nat,
                },
            ),
            r,
            statements_view(old(out)@),
            statements_view(final(out)@),
            *final(counter),
        ),
{
    let ghost start = statements_view(out@);
    if g >= done.len() {
        return Err(Error::UnknownFunction(g));
    }
    let callee = &done[g];
    assert(reduced_view(done@)[g as int] == callee@);
    if callee.function.arguments.len() != arguments.len() || callee.function.returns.len() != 1 {
        return Err(Error::Arity(g));
    }
    if callee.versions > usize::MAX - *counter {
        return Err(Error::TooManyCalls);
    }
    let base = *counter;
    let ghost parameters = callee.function.arguments@;
    let ghost values = expressions_view(arguments@);
    let mut k: usize = 0;
    assert(start + bindings(parameters, values, base, 0) =~= start);
    while k < arguments.len()
        invariant
            k <= arguments.len(),
            arguments.len() == callee.function.arguments.len(),
            parameters == callee.function.arguments@,
            values == expressions_view(arguments@),
            statements_view(out@) == start + bindings(parameters, values, base, k as nat),
        decreases arguments.len() - k,
    {
        let ghost before = statements_view(out@);
        let target = TypedAssignee::Identifier(
            shifted_variable(&callee.function.arguments[k].variable, base),
        );
        let s = TypedStatement::Definition(target, arguments[k].clone());
        out.push(s);
        proof {
            assert(statements_view(out@) =~= before.push(s@));
            assert(s@ == StatementView::Definition(
                AssigneeView::Identifier(shift_variable(parameters[k as int].variable, base)),
                values[k as int],
            ));
            assert(statements_view(out@) =~= start + bindings(
                parameters,
                values,
                base,
                (k + 1) as nat,
            ));
        }
        k += 1;
    }
    let ghost middle = statements_view(out@);
    let ghost body = statements_view(callee.function.statements@);
    let mut j: usize = 0;
    assert(body.take(0) =~= Seq::<StatementView>::empty());
    assert(middle + inlined_body(path_view(path), body.take(0), base) =~= middle);
    while j < callee.function.statements.len()
        invariant
            j <= callee.function.statements.len(),
            body == statements_view(callee.function.statements@),
            statements_view(out@) == middle + inlined_body(
                path_view(path),
                body.take(j as int),
                base,
            ),
        decreases callee.function.statements.len() - j,
    {
        let ghost before = statements_view(out@);
        let s = guarded_statement(path, shifted_statement(&callee.function.statements[j], base));
        out.push(s);
        proof {
            assert(statements_view(out@) =~= before.push(s@));
            assert(body.take(j + 1).drop_last() =~= body.take(j as int));
            assert(body.take(j + 1).last() == callee.function.statements@[j as int]@);
            assert(statements_view(out@) =~= middle + inlined_body(
                path_view(path),
                body.take(j + 1),
                base,
            ));
        }
        j += 1;
    }
    proof {
        assert(body.take(callee.function.statements.len() as int) =~= body);
        assert(expressions_view(callee.function.returns@)[0] == callee.function.returns@[0]@);
        assert(statements_view(out@) =~= start + (Seq::<StatementView>::empty() + bindings(
            parameters,
            values,
            base,
            values.len(),
        ) + inlined_body(path_view(path), body, base)));
    }
    *counter = *counter + callee.versions;
    Ok(shifted_expression(&callee.function.returns[0], base))
}

/// The value that the variable of a loop holds, if `v` is one.
fn lookup(env: &HashMap<u128, Value>, v: &Variable) -> (r: Option<Value>)
    ensures
        r == if env@.contains_key(v.key()) {
            Some(env@[v.key()])
        } else {
            None
        },
{
    broadcast use vstd::std_specs::hash::group_hash_axioms;

    let key = v.get_key();
    match env.get(&key) {
        Some(value) => Some(*value),
        None => None,
    }
}

/// Reduces `e`, and writes the statements that it needs to `out`.
pub fn reduce_expr(
    done: &Vec<ReducedFunction>,
    env: &HashMap<u128, Value>,
    path: Option<&TypedExpression>,
    counter: &mut usize,
    out: &mut Vec<TypedStatement>,
    e: &TypedExpression,
) -> (r: Result<TypedExpression, Error>)
    ensures
        expression_step(
            reduce_expression(
                reduced_view(done@),
                env@,
                path_view(path),
                *old(counter) as nat,
                e@,
            ),
            r,
            statements_view(old(out)@),
            statements_view(final(out)@),
            *final(counter),
        ),
    decreases e, 2nat,
{
    let ghost start = statements_view(out@);
    let ghost nothing = Seq::<StatementView>::empty();
    match e {
        TypedExpression::Value(v) => {
            assert(start + nothing =~= start);
            Ok(TypedExpression::Value(*v))
        },
        TypedExpression::Identifier(v) => {
            assert(start + nothing =~= start);
            match lookup(env, v) {
                Some(value) => Ok(TypedExpression::Value(value)),
                None => Ok(TypedExpression::Identifier(v.clone())),
            }
        },
        TypedExpression::Constant(id, ty) => {
            assert(start + nothing =~= start);
            Ok(TypedExpression::Constant(*id, ty.clone()))
        },
        TypedExpression::Not(a) => {
            let x = reduce_expr(done, env, path, counter, out, a)?;
            Ok(TypedExpression::Not(Box::new(x)))
        },
        TypedExpression::Binary(op, a, b) => {
            let (x, y) = reduce_operands(done, env, path, path, counter, out, e)?;
            Ok(TypedExpression::Binary(*op, Box::new(x), Box::new(y)))
        },
        TypedExpression::Select(a, i) => {
            let (x, y) = reduce_operands(done, env, path, path, counter, out, e)?;
            Ok(TypedExpression::Select(Box::new(x), Box::new(y)))
        },
        TypedExpression::IfElse(_, _, _, _) => reduce_conditional(
            done,
            env,
            path,
            counter,
            out,
            e,
        ),
        TypedExpression::Array(ty, elements) => {
            let xs = reduce_exprs(done, env, path, counter, out, elements)?;
            Ok(TypedExpression::Array(ty.clone(), xs))
        },
        TypedExpression::Call(_, _, _) => reduce_call(done, env, path, counter, out, e),
    }
}

/// Reduces a conditional.
fn reduce_conditional(
    done: &Vec<ReducedFunction>,
    env: &HashMap<u128, Value>,
    path: Option<&TypedExpression>,
    counter: &mut usize,
    out: &mut Vec<TypedStatement>,
    e: &TypedExpression,
) -> (r: Result<TypedExpression, Error>)
    requires
        e is IfElse,
    ensures
        expression_step(
            reduce_expression(
                reduced_view(done@),
                env@,
                path_view(path),
                *old(counter) as nat,
                e@,
            ),
            r,
            statements_view(old(out)@),
            statements_view(final(out)@),
            *final(counter),
        ),
    decreases e, 1nat,
{
    let ghost start = statements_view(out@);
    match e {
        TypedExpression::IfElse(c, a, b, isolated) => {
            let condition = reduce_expr(done, env, path, counter, out, c)?;
            let ghost rc = reduce_expression(
                reduced_view(done@),
                env@,
                path_view(path),
                *old(counter) as nat,
                c@,
            )->Ok_0;
            let ghost middle = statements_view(out@);
            let ghost dv = reduced_view(done@);
            let ghost then_view = if *isolated {
                narrowed(path_view(path), rc.expression)
            } else {
                path_view(path)
            };
            let ghost else_view = if *isolated {
                narrowed(path_view(path), ExpressionView::Not(Box::new(rc.expression)))
            } else {
                path_view(path)
            };
            let r = if *isolated {
                let then_path = narrowed_path(path, &condition);
                let negated = TypedExpression::Not(Box::new(condition.clone()));
                assert(negated@ == ExpressionView::Not(Box::new(condition@)));
                let else_path = narrowed_path(path, &negated);
                reduce_operands(done, env, Some(&then_path), Some(&else_path), counter, out, e)
            } else {
                reduce_operands(done, env, path, path, counter, out, e)
            };
            proof {
                assert(operands(e@) == (a@, b@));
                assert(e@ == ExpressionView::IfElse(
                    Box::new(c@),
                    Box::new(a@),
                    Box::new(b@),
                    *isolated,
                ));
            }
            let ghost two = reduce_two(dv, env@, then_view, else_view, rc.counter, a@, b@);
            match r {
                Ok((x, y)) => {
                    proof {
                        let ra = two->Ok_0.0;
                        let rb = two->Ok_0.1;
                        assert(reduce_expression(dv, env@, then_view, rc.counter, a@) == Ok::<
                            Inlined,
                            Error,
                        >(ra));
                        assert(reduce_expression(dv, env@, else_view, ra.counter, b@) == Ok::<
                            Inlined,
                            Error,
                        >(rb));
                        assert(statements_view(out@) =~= start + (rc.statements + ra.statements
                            + rb.statements));
                    }
                    Ok(
                        TypedExpression::IfElse(
                            Box::new(condition),
                            Box::new(x),
                            Box::new(y),
                            *isolated,
                        ),
                    )
                },
                Err(err) => {
                    assert(two == Err::<(Inlined, Inlined), Error>(err));
                    Err(err)
                },
            }
        },
        _ => {
            assert(false);
            Err(Error::NoMain)
        },
    }
}

/// Reduces a call.
fn reduce_call(
    done: &Vec<ReducedFunction>,
    env: &HashMap<u128, Value>,
    path: Option<&TypedExpression>,
    counter: &mut usize,
    out: &mut Vec<TypedStatement>,
    e: &TypedExpression,
) -> (r: Result<TypedExpression, Error>)
    requires
        e is Call,
    ensures
        expression_step(
            reduce_expression(
                reduced_view(done@),
                env@,
                path_view(path),
                *old(counter) as nat,
                e@,
            ),
            r,
            statements_view(old(out)@),
            statements_view(final(out)@),
            *final(counter),
        ),
    decreases e, 1nat,
{
    let ghost start = statements_view(out@);
    match e {
        TypedExpression::Call(g, args, _) => {
            let xs = reduce_exprs(done, env, path, counter, out, args)?;
            let r = inline(done, path, *g, &xs, counter, out);
            proof {
                let ra = reduce_expressions(
                    reduced_view(done@),
                    env@,
                    path_view(path),
                    *old(counter) as nat,
                    expressions_view(args@),
                )->Ok_0;
                let bare = InlinedList {
                    statements: Seq::<StatementView>::empty(),
                    expressions: ra.expressions,
                    counter: ra.counter,
                };
                if r is Ok {
                    let i1 = inline_call(reduced_view(done@), path_view(path), *g, bare)->Ok_0;
                    let i2 = inline_call(reduced_view(done@), path_view(path), *g, ra)->Ok_0;
                    assert(i2.statements =~= ra.statements + i1.statements);
                    assert(statements_view(out@) =~= start + i2.statements);
                }
            }
            r
        },
        _ => {
            assert(false);
            Err(Error::NoMain)
        },
    }
}

/// What the reduction of two expressions, one after the other, gives.
pub open spec fn reduce_two(
    done: Seq<Reduced>,
    env: Constants,
    first_path: Option<ExpressionView>,
    second_path: Option<ExpressionView>,
    counter: nat,
    a: ExpressionView,
    b: ExpressionView,
) -> Result<(Inlined, Inlined), Error> {
    match reduce_expression(done, env, first_path, counter, a) {
        Err(err) => Err(err),
        Ok(ra) => match reduce_expression(done, env, second_path, ra.counter, b) {
            Err(err) => Err(err),
            Ok(rb) => Ok((ra, rb)),
        },
    }
}

/// The last two operands of an expression that has two or more.
pub open spec fn operands(e: ExpressionView) -> (ExpressionView, ExpressionView) {
    match e {
        ExpressionView::Binary(_, a, b) => (*a, *b),
        ExpressionView::Select(a, i) => (*a, *i),
        ExpressionView::IfElse(_, a, b, _) => (*a, *b),
        _ => (e, e),
    }
}

/// Reduces the last two operands of `e`, one after the other, each under
/// its own condition.
fn reduce_operands(
    done: &Vec<ReducedFunction>,
    env: &HashMap<u128, Value>,
    first_path: Option<&TypedExpression>,
    second_path: Option<&TypedExpression>,
    counter: &mut usize,
    out: &mut Vec<TypedStatement>,
    e: &TypedExpression,
) -> (r: Result<(TypedExpression, TypedExpression), Error>)
    requires
        e is Binary || e is Select || e is IfElse,
    ensures
        match r {
            Ok((x, y)) => reduce_two(
                reduced_view(done@),
                env@,
                path_view(first_path),
                path_view(second_path),
                *old(counter) as nat,
                operands(e@).0,
                operands(e@).1,
            ) matches Ok((ra, rb)) && ra.expression == x@ && rb.expression == y@ && rb.counter
                == *final(counter) && statements_view(final(out)@) == statements_view(old(out)@)
                + (ra.statements + rb.statements),
            Err(err) => reduce_two(
                reduced_view(done@),
                env@,
                path_view(first_path),
                path_view(second_path),
                *old(counter) as nat,
                operands(e@).0,
                operands(e@).1,
            ) == Err::<(Inlined, Inlined), Error>(err),
        },
    decreases e, 0nat,
{
    let ghost start = statements_view(out@);
    let (a, b): (&TypedExpression, &TypedExpression) = match e {
        TypedExpression::Binary(_, a, b) => (&**a, &**b),
        TypedExpression::Select(a, i) => (&**a, &**i),
        TypedExpression::IfElse(_, a, b, _) => (&**a, &**b),
        _ => {
            assert(false);
            (e, e)
        },
    };
    let x = reduce_expr(done, env, first_path, counter, out, a)?;
    let ghost ra = reduce_expression(
        reduced_view(done@),
        env@,
        path_view(first_path),
        *old(counter) as nat,
        a@,
    )->Ok_0;
    let y = reduce_expr(done, env, second_path, counter, out, b)?;
    proof {
        let rb = reduce_expression(
            reduced_view(done@),
            env@,
            path_view(second_path),
            ra.counter,
            b@,
        )->Ok_0;
        assert(statements_view(out@) =~= start + (ra.statements + rb.statements));
    }
    Ok((x, y))
}

/// Reduces the expressions of `es`, one after the other.
pub fn reduce_exprs(
    done: &Vec<ReducedFunction>,
    env: &HashMap<u128, Value>,
    path: Option<&TypedExpression>,
    counter: &mut usize,
    out: &mut Vec<TypedStatement>,
    es: &Vec<TypedExpression>,
) -> (r: Result<Vec<TypedExpression>, Error>)
    ensures
        list_step(
            reduce_expressions(
                reduced_view(done@),
                env@,
                path_view(path),
                *old(counter) as nat,
                expressions_view(es@),
            ),
            r,
            statements_view(old(out)@),
            statements_view(final(out)@),
            *final(counter),
        ),
    decreases es, 0nat,
{
    let ghost start = statements_view(out@);
    let ghost first = *counter as nat;
    let ghost input = expressions_view(es@);
    let ghost dv = reduced_view(done@);
    let mut xs: Vec<TypedExpression> = Vec::new();
    let mut i: usize = 0;
    proof {
        assert(input.take(0) =~= Seq::<ExpressionView>::empty());
        assert(expressions_view(xs@) =~= Seq::<ExpressionView>::empty());
        assert(start + Seq::<StatementView>::empty() =~= start);
    }
    while i < es.len()
        invariant
            i <= es.len(),
            input == expressions_view(es@),
            dv == reduced_view(done@),
            first == *old(counter) as nat,
            start == statements_view(old(out)@),
            reduce_expressions(dv, env@, path_view(path), first, input.take(i as int)) matches Ok(
                head,
            ) && head.expressions == expressions_view(xs@) && head.counter == *counter
                && statements_view(out@) == start + head.statements,
        decreases es.len() - i,
    {
        let ghost head = reduce_expressions(
            dv,
            env@,
            path_view(path),
            first,
            input.take(i as int),
        )->Ok_0;
        let ghost before = expressions_view(xs@);
        proof {
            assert(input.take(i + 1).drop_last() =~= input.take(i as int));
            assert(input.take(i + 1).last() == es@[i as int]@);
        }
        match reduce_expr(done, env, path, counter, out, &es[i]) {
            Ok(x) => {
                xs.push(x);
                proof {
                    let last = reduce_expression(
                        dv,
                        env@,
                        path_view(path),
                        head.counter,
                        es@[i as int]@,
                    )->Ok_0;
                    assert(expressions_view(xs@) =~= before.push(x@));
                    assert(statements_view(out@) =~= start + (head.statements + last.statements));
                }
            },
            Err(err) => {
                proof {
                    assert(reduce_expressions(
                        dv,
                        env@,
                        path_view(path),
                        first,
                        input.take(i + 1),
                    ) == Err::<InlinedList, Error>(err));
                    lemma_reduce_expressions_prefix_error(
                        dv,
                        env@,
                        path_view(path),
                        first,
                        input,
                        i + 1,
                        err,
                    );
                }
                return Err(err);
            },
        }
        i += 1;
    }
    assert(input.take(es.len() as int) =~= input);
    Ok(xs)
}

/// Where the reduction of a prefix of a list of expressions fails, the
/// reduction of the list fails with the same error.
pub proof fn lemma_reduce_expressions_prefix_error(
    done: Seq<Reduced>,
    env: Constants,
    path: Option<ExpressionView>,
    counter: nat,
    es: Seq<ExpressionView>,
    n: int,
    err: Error,
)
    requires
        0 <= n <= es.len(),
        reduce_expressions(done, env, path, counter, es.take(n)) == Err::<InlinedList, Error>(err),
    ensures
        reduce_expressions(done, env, path, counter, es) == Err::<InlinedList, Error>(err),
    decreases es.len() - n,
{
    if n < es.len() {
        assert(es.take(n + 1).drop_last() =~= es.take(n));
        lemma_reduce_expressions_prefix_error(done, env, path, counter, es, n + 1, err);
    } else {
        assert(es.take(n) =~= es);
    }
}

/// Reduces a target, and writes the statements that it needs to `out`.
pub fn reduce_target(
    done: &Vec<ReducedFunction>,
    env: &HashMap<u128, Value>,
    counter: &mut usize,
    out: &mut Vec<TypedStatement>,
    a: &TypedAssignee,
) -> (r: Result<TypedAssignee, Error>)
    ensures
        assignee_step(
            reduce_assignee(reduced_view(done@), env@, *old(counter) as nat, a@),
            r,
            statements_view(old(out)@),
            statements_view(final(out)@),
            *final(counter),
        ),
    decreases a,
{
    let ghost start = statements_view(out@);
    match a {
        TypedAssignee::Identifier(v) => {
            assert(start + Seq::<StatementView>::empty() =~= start);
            Ok(TypedAssignee::Identifier(v.clone()))
        },
        TypedAssignee::Select(inner, index) => {
            let target = reduce_target(done, env, counter, out, inner)?;
            let ghost ri = reduce_assignee(
                reduced_view(done@),
                env@,
                *old(counter) as nat,
                inner@,
            )->Ok_0;
            let x = reduce_expr(done, env, None, counter, out, index)?;
            proof {
                let rx = reduce_expression(
                    reduced_view(done@),
                    env@,
                    None,
                    ri.counter,
                    index@,
                )->Ok_0;
                assert(statements_view(out@) =~= start + (ri.statements + rx.statements));
            }
            Ok(TypedAssignee::Select(Box::new(target), Box::new(x)))
        },
    }
}

/// The literal unsigned integer that a bound of a loop folds to.
fn bound(env: &HashMap<u128, Value>, e: &TypedExpression) -> (r: Result<(u8, u64), Error>)
    ensures
        r == loop_bound(env@, e@),
{
    match fold(env, e) {
        Ok(TypedExpression::Value(Value::Uint(bits, k))) => Ok((bits, k)),
        _ => Err(Error::LoopBound),
    }
}

/// Binds `key` to `value`.
fn bind(env: &mut HashMap<u128, Value>, key: u128, value: Value)
    ensures
        final(env)@ == old(env)@.insert(key, value),
{
    broadcast use vstd::std_specs::hash::group_hash_axioms;

    env.insert(key, value);
}

/// Binds `key` to what it was bound to before, if to anything.
fn restore(env: &mut HashMap<u128, Value>, key: u128, saved: Option<Value>)
    ensures
        final(env)@ == match saved {
            Some(value) => old(env)@.insert(key, value),
            None => old(env)@.remove(key),
        },
{
    broadcast use vstd::std_specs::hash::group_hash_axioms;

    match saved {
        Some(value) => {
            env.insert(key, value);
        },
        None => {
            env.remove(&key);
        },
    }
}

/// Reduces a statement, and writes what is left of it to `out`.
pub fn reduce_stmt(
    done: &Vec<ReducedFunction>,
    env: &mut HashMap<u128, Value>,
    counter: &mut usize,
    out: &mut Vec<TypedStatement>,
    s: &TypedStatement,
) -> (r: Result<(), Error>)
    ensures
        statement_step(
            reduce_statement(reduced_view(done@), old(env)@, *old(counter) as nat, s@),
            r,
            statements_view(old(out)@),
            statements_view(final(out)@),
            *final(counter),
        ),
        r is Ok ==> final(env)@ == old(env)@,
    decreases s, 1nat,
{
    let ghost start = statements_view(out@);
    match s {
        TypedStatement::Definition(a, e) => {
            let value = reduce_expr(done, env, None, counter, out, e)?;
            let ghost re = reduce_expression(
                reduced_view(done@),
                env@,
                None,
                *old(counter) as nat,
                e@,
            )->Ok_0;
            let target = reduce_target(done, env, counter, out, a)?;
            let ghost before = statements_view(out@);
            let definition = TypedStatement::Definition(target, value);
            out.push(definition);
            proof {
                let ra = reduce_assignee(reduced_view(done@), env@, re.counter, a@)->Ok_0;
                assert(statements_view(out@) =~= before.push(definition@));
                assert(statements_view(out@) =~= start + (re.statements + ra.statements).push(
                    StatementView::Definition(ra.assignee, re.expression),
                ));
            }
            Ok(())
        },
        TypedStatement::Assertion(e) => {
            let condition = reduce_expr(done, env, None, counter, out, e)?;
            let ghost before = statements_view(out@);
            let assertion = TypedStatement::Assertion(condition);
            out.push(assertion);
            proof {
                let re = reduce_expression(
                    reduced_view(done@),
                    env@,
                    None,
                    *old(counter) as nat,
                    e@,
                )->Ok_0;
                assert(statements_view(out@) =~= before.push(assertion@));
                assert(statements_view(out@) =~= start + re.statements.push(
                    StatementView::Assertion(re.expression),
                ));
            }
            Ok(())
        },
        TypedStatement::For(_, _, _, _) => reduce_loop(done, env, counter, out, s),
    }
}

/// Reduces a loop: writes its reduced body to `out` once for each value of
/// its variable.
fn reduce_loop(
    done: &Vec<ReducedFunction>,
    env: &mut HashMap<u128, Value>,
    counter: &mut usize,
    out: &mut Vec<TypedStatement>,
    s: &TypedStatement,
) -> (r: Result<(), Error>)
    requires
        s is For,
    ensures
        statement_step(
            reduce_statement(reduced_view(done@), old(env)@, *old(counter) as nat, s@),
            r,
            statements_view(old(out)@),
            statements_view(final(out)@),
            *final(counter),
        ),
        r is Ok ==> final(env)@ == old(env)@,
    decreases s, 0nat,
{
    match s {
        TypedStatement::For(v, from, to, body) => {
            let (bits, lower) = bound(env, from)?;
            let (_, upper) = bound(env, to)?;
            let key = v.get_key();
            let saved = lookup(env, v);
            let ghost env0 = env@;
            let ghost start = statements_view(out@);
            let ghost first = *counter as nat;
            let ghost dv = reduced_view(done@);
            let ghost bv = statements_view(body@);
            let ghost expected = unroll(dv, env0, first, *v, bits, lower, upper, bv);
            assert(reduce_statement(dv, env0, first, s@) == expected);
            let mut i = lower;
            assert(start + Seq::<StatementView>::empty() =~= start);
            while i < upper
                invariant
                    decreases_to!(s => body),
                    lower <= i,
                    i <= upper || i == lower,
                    first == *old(counter) as nat,
                    start == statements_view(old(out)@),
                    env0 == old(env)@,
                    dv == reduced_view(done@),
                    bv == statements_view(body@),
                    key == v.key(),
                    expected == unroll(dv, env0, first, *v, bits, lower, upper, bv),
                    reduce_statement(dv, env0, first, s@) == expected,
                    unroll(dv, env0, first, *v, bits, lower, i, bv) matches Ok(u) && u.counter
                        == *counter && statements_view(out@) == start + u.statements,
                    env@ == if i == lower {
                        env0
                    } else {
                        env0.insert(key, Value::Uint(bits, (i - 1) as u64))
                    },
                decreases upper - i,
            {
                let ghost u = unroll(dv, env0, first, *v, bits, lower, i, bv)->Ok_0;
                bind(env, key, Value::Uint(bits, i));
                assert(env@ =~= env0.insert(key, Value::Uint(bits, i)));
                match reduce_stmts(done, env, counter, out, body) {
                    Ok(_) => {
                        proof {
                            let turn = reduce_statements(
                                dv,
                                env0.insert(key, Value::Uint(bits, i)),
                                u.counter,
                                bv,
                            )->Ok_0;
                            assert(statements_view(out@) =~= start + (u.statements
                                + turn.statements));
                        }
                    },
                    Err(err) => {
                        proof {
                            assert(unroll(dv, env0, first, *v, bits, lower, (i + 1) as u64, bv)
                                == Err::<Unrolled, Error>(err));
                            lemma_unroll_prefix_error(
                                dv,
                                env0,
                                first,
                                *v,
                                bits,
                                lower,
                                (i + 1) as u64,
                                upper,
                                bv,
                                err,
                            );
                        }
                        return Err(err);
                    },
                }
                i += 1;
            }
            restore(env, key, saved);
            assert(env@ =~= env0);
            Ok(())
        },
        _ => {
            assert(false);
            Err(Error::NoMain)
        },
    }
}

/// Where the unrolling of a loop up to a value fails, the unrolling up to
/// every greater value fails with the same error.
pub proof fn lemma_unroll_prefix_error(
    done: Seq<Reduced>,
    env: Constants,
    counter: nat,
    v: Variable,
    bits: u8,
    lower: u64,
    n: u64,
    upper: u64,
    body: Seq<StatementView>,
    err: Error,
)
    requires
        lower < n <= upper,
        unroll(done, env, counter, v, bits, lower, n, body) == Err::<Unrolled, Error>(err),
    ensures
        unroll(done, env, counter, v, bits, lower, upper, body) == Err::<Unrolled, Error>(err),
    decreases upper - n,
{
    if n < upper {
        lemma_unroll_prefix_error(
            done,
            env,
            counter,
            v,
            bits,
            lower,
            n,
            (upper - 1) as u64,
            body,
            err,
        );
    }
}

/// Reduces the statements of `ss`, one after the other.
pub fn reduce_stmts(
    done: &Vec<ReducedFunction>,
    env: &mut HashMap<u128, Value>,
    counter: &mut usize,
    out: &mut Vec<TypedStatement>,
    ss: &Vec<TypedStatement>,
) -> (r: Result<(), Error>)
    ensures
        statement_step(
            reduce_statements(
                reduced_view(done@),
                old(env)@,
                *old(counter) as nat,
                statements_view(ss@),
            ),
            r,
            statements_view(old(out)@),
            statements_view(final(out)@),
            *final(counter),
        ),
        r is Ok ==> final(env)@ == old(env)@,
    decreases ss, 0nat,
{
    let ghost start = statements_view(out@);
    let ghost first = *counter as nat;
    let ghost input = statements_view(ss@);
    let ghost dv = reduced_view(done@);
    let ghost env0 = env@;
    let mut i: usize = 0;
    proof {
        assert(input.take(0) =~= Seq::<StatementView>::empty());
        assert(start + Seq::<StatementView>::empty() =~= start);
    }
    while i < ss.len()
        invariant
            i <= ss.len(),
            input == statements_view(ss@),
            dv == reduced_view(done@),
            first == *old(counter) as nat,
            start == statements_view(old(out)@),
            env0 == old(env)@,
            env@ == env0,
            reduce_statements(dv, env0, first, input.take(i as int)) matches Ok(head)
                && head.counter == *counter && statements_view(out@) == start + head.statements,
        decreases ss.len() - i,
    {
        let ghost head = reduce_statements(dv, env0, first, input.take(i as int))->Ok_0;
        proof {
            assert(input.take(i + 1).drop_last() =~= input.take(i as int));
            assert(input.take(i + 1).last() == ss@[i as int]@);
        }
        match reduce_stmt(done, env, counter, out, &ss[i]) {
            Ok(_) => {
                proof {
                    let last = reduce_statement(dv, env0, head.counter, ss@[i as int]@)->Ok_0;
                    assert(statements_view(out@) =~= start + (head.statements + last.statements));
                }
            },
            Err(err) => {
                proof {
                    assert(reduce_statements(dv, env0, first, input.take(i + 1)) == Err::<
                        Unrolled,
                        Error,
                    >(err));
                    lemma_reduce_statements_prefix_error(dv, env0, first, input, i + 1, err);
                }
                return Err(err);
            },
        }
        i += 1;
    }
    assert(input.take(ss.len() as int) =~= input);
    Ok(())
}

/// Where the reduction of a prefix of a list of statements fails, the
/// reduction of the list fails with the same error.
pub proof fn lemma_reduce_statements_prefix_error(
    done: Seq<Reduced>,
    env: Constants,
    counter: nat,
    ss: Seq<StatementView>,
    n: int,
    err: Error,
)
    requires
        0 <= n <= ss.len(),
        reduce_statements(done, env, counter, ss.take(n)) == Err::<Unrolled, Error>(err),
    ensures
        reduce_statements(done, env, counter, ss) == Err::<Unrolled, Error>(err),
    decreases ss.len() - n,
{
    if n < ss.len() {
        assert(ss.take(n + 1).drop_last() =~= ss.take(n));
        lemma_reduce_statements_prefix_error(done, env, counter, ss, n + 1, err);
    } else {
        assert(ss.take(n) =~= ss);
    }
}

/// Reduces a function, given the reduced functions that were declared
/// before it.
pub fn reduce_fn(done: &Vec<ReducedFunction>, f: &TypedFunction) -> (r: Result<
    ReducedFunction,
    Error,
>)
    ensures
        match r {
            Ok(x) => reduce_function(reduced_view(done@), f@) == Ok::<Reduced, Error>(x@),
            Err(err) => reduce_function(reduced_view(done@), f@) == Err::<Reduced, Error>(err),
        },
{
    let mut env: HashMap<u128, Value> = HashMap::new();
    let mut counter: usize = 1;
    let mut out: Vec<TypedStatement> = Vec::new();
    assert(statements_view(out@) =~= Seq::<StatementView>::empty());
    reduce_stmts(done, &mut env, &mut counter, &mut out, &f.statements)?;
    let ghost body = reduce_statements(
        reduced_view(done@),
        Map::empty(),
        1,
        statements_view(f.statements@),
    )->Ok_0;
    assert(statements_view(out@) =~= body.statements);
    let results = reduce_exprs(done, &env, None, &mut counter, &mut out, &f.returns)?;
    Ok(
        ReducedFunction {
            function: TypedFunction {
                arguments: clone_parameters(&f.arguments),
                statements: out,
                returns: results,
            },
            versions: counter,
        },
    )
}

/// What a reduction returned, over views.
pub open spec fn reduced_program_view(r: Result<TypedProgram, Error>) -> Result<
    ProgramView,
    Error,
> {
    match r {
        Ok(p) => Ok(p@),
        Err(err) => Err(err),
    }
}

/// Reduces a program to the function where it starts, without calls and
/// loops.
pub fn reduce_program(p: TypedProgram) -> (r: Result<TypedProgram, Error>)
    ensures
        reduced_program_view(r) == reduce(p@),
{
    if p.main >= p.functions.len() {
        return Err(Error::NoMain);
    }
    let ghost fs = functions_view(p.functions@);
    let mut done: Vec<ReducedFunction> = Vec::new();
    let mut n: usize = 0;
    assert(reduced_view(done@) =~= Seq::<Reduced>::empty());
    while n <= p.main
        invariant
            n <= p.main + 1,
            p.main < p.functions.len(),
            fs == functions_view(p.functions@),
            done@.len() == n,
            reduce_functions(fs, n as nat) == Ok::<Seq<Reduced>, Error>(reduced_view(done@)),
        decreases p.main + 1 - n,
    {
        let ghost before = reduced_view(done@);
        match reduce_fn(&done, &p.functions[n]) {
            Ok(x) => {
                done.push(x);
                assert(reduced_view(done@) =~= before.push(x@));
            },
            Err(err) => {
                proof {
                    assert(reduce_functions(fs, (n + 1) as nat) == Err::<Seq<Reduced>, Error>(
                        err,
                    ));
                    lemma_reduce_functions_prefix_error(fs, (n + 1) as nat, (p.main + 1) as nat, err);
                }
                return Err(err);
            },
        }
        n += 1;
    }
    let ghost all = reduced_view(done@);
    let main = done.pop();
    match main {
        Some(reduced) => {
            assert(reduced@ == all[p.main as int]);
            let mut functions: Vec<TypedFunction> = Vec::new();
            functions.push(reduced.function);
            let r = TypedProgram { functions, main: 0, constants: p.constants };
            assert(r@.functions =~= seq![all[p.main as int].function]);
            Ok(r)
        },
        None => {
            assert(false);
            Err(Error::NoMain)
        },
    }
}

/// Where the reduction of the first functions of a list fails, the
/// reduction of more of them fails with the same error.
pub proof fn lemma_reduce_functions_prefix_error(
    fs: Seq<FunctionView>,
    n: nat,
    m: nat,
    err: Error,
)
    requires
        0 < n <= m <= fs.len(),
        reduce_functions(fs, n) == Err::<Seq<Reduced>, Error>(err),
    ensures
        reduce_functions(fs, m) == Err::<Seq<Reduced>, Error>(err),
    decreases m - n,
{
    if n < m {
        lemma_reduce_functions_prefix_error(fs, n, (m - 1) as nat, err);
    }
}

} // verus!
