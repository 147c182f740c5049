//! The rewriting of every expression of a program by one rule. A rule says
//! what becomes of the expressions that it is about; every other expression
//! is rebuilt from its rewritten parts.

use crate::typed_absy::{
    AssigneeView, ExpressionView, FunctionView, StatementView, TypedAssignee, TypedExpression,
    TypedFunction, TypedStatement, clone_parameters, expressions_view, functions_view,
    statements_view,
};
use vstd::prelude::*;

verus! {

/// A rule as the values that its meaning depends on.
pub enum RuleView {
    Inline(Seq<ExpressionView>),
    Isolate,
}

/// A rule of rewriting.
#[derive(Debug)]
pub enum Rule {
    /// Replaces each named constant by its value in the given list.
    Inline(Vec<TypedExpression>),
    /// Marks the branches of each conditional as isolated.
    Isolate,
}

impl View for Rule {
    type V = RuleView;

    open spec fn view(&self) -> RuleView {
        match self {
            Rule::Inline(values) => RuleView::Inline(expressions_view(values@)),
            Rule::Isolate => RuleView::Isolate,
        }
    }
}

/// Why an expression cannot be rewritten.
#[derive(Debug, Clone, Copy, PartialEq, Eq, Structural)]
pub enum Error {
    /// A named constant of which the rule holds no value.
    UndefinedConstant(usize),
}

/// The expression `e` rewritten by `rule`.
pub open spec fn rewrite_expression(rule: RuleView, e: ExpressionView) -> Result<
    ExpressionView,
    Error,
>
    decreases e,
{
    match e {
        ExpressionView::Value(_) => Ok(e),
        ExpressionView::Identifier(_) => Ok(e),
        ExpressionView::Constant(id, _) => match rule {
            RuleView::Inline(values) => if id < values.len() {
                Ok(values[id as int])
            } else {
                Err(Error::UndefinedConstant(id))
            },
            RuleView::Isolate => Ok(e),
        },
        ExpressionView::Not(a) => match rewrite_expression(rule, *a) {
            Err(err) => Err(err),
            Ok(x) => Ok(ExpressionView::Not(Box::new(x))),
        },
        ExpressionView::Binary(op, a, b) => match rewrite_expression(rule, *a) {
            Err(err) => Err(err),
            Ok(x) => match rewrite_expression(rule, *b) {
                Err(err) => Err(err),
                Ok(y) => Ok(ExpressionView::Binary(op, Box::new(x), Box::new(y))),
            },
        },
        ExpressionView::Select(a, i) => match rewrite_expression(rule, *a) {
            Err(err) => Err(err),
            Ok(x) => match rewrite_expression(rule, *i) {
                Err(err) => Err(err),
                Ok(y) => Ok(ExpressionView::Select(Box::new(x), Box::new(y))),
            },
        },
        ExpressionView::IfElse(c, a, b, isolated) => match rewrite_expression(rule, *c) {
            Err(err) => Err(err),
            Ok(x) => match rewrite_expression(rule, *a) {
                Err(err) => Err(err),
                Ok(y) => match rewrite_expression(rule, *b) {
                    Err(err) => Err(err),
                    Ok(z) => Ok(
                        ExpressionView::IfElse(
                            Box::new(x),
                            Box::new(y),
                            Box::new(z),
                            isolated || rule is Isolate,
                        ),
                    ),
                },
            },
        },
        ExpressionView::Call(f, args, ty) => match rewrite_expressions(rule, args) {
            Err(err) => Err(err),
            Ok(xs) => Ok(ExpressionView::Call(f, xs, ty)),
        },
        ExpressionView::Array(ty, elements) => match rewrite_expressions(rule, elements) {
            Err(err) => Err(err),
            Ok(xs) => Ok(ExpressionView::Array(ty, xs)),
        },
    }
}

/// The expressions of `es`, each rewritten by `rule`.
pub open spec fn rewrite_expressions(rule: RuleView, es: Seq<ExpressionView>) -> Result<
    Seq<ExpressionView>,
    Error,
>
    decreases es,
{
    if es.len() == 0 {
        Ok(Seq::empty())
    } else {
        match rewrite_expressions(rule, es.drop_last()) {
            Err(err) => Err(err),
            Ok(head) => match rewrite_expression(rule, es.last()) {
                Err(err) => Err(err),
                Ok(last) => Ok(head.push(last)),
            },
        }
    }
}

/// The target `a` with each of its indices rewritten by `rule`.
pub open spec fn rewrite_assignee(rule: RuleView, a: AssigneeView) -> Result<AssigneeView, Error>
    decreases a,
{
    match a {
        AssigneeView::Identifier(_) => Ok(a),
        AssigneeView::Select(inner, index) => match rewrite_assignee(rule, *inner) {
            Err(err) => Err(err),
            Ok(x) => match rewrite_expression(rule, *index) {
                Err(err) => Err(err),
                Ok(y) => Ok(AssigneeView::Select(Box::new(x), Box::new(y))),
            },
        },
    }
}

/// The statement `s` with each of its expressions rewritten by `rule`.
pub open spec fn rewrite_statement(rule: RuleView, s: StatementView) -> Result<StatementView, Error>
    decreases s,
{
    match s {
        StatementView::Definition(a, e) => match rewrite_assignee(rule, a) {
            Err(err) => Err(err),
            Ok(x) => match rewrite_expression(rule, e) {
                Err(err) => Err(err),
                Ok(y) => Ok(StatementView::Definition(x, y)),
            },
        },
        StatementView::Assertion(e) => match rewrite_expression(rule, e) {
            Err(err) => Err(err),
            Ok(x) => Ok(StatementView::Assertion(x)),
        },
        StatementView::For(v, from, to, body) => match rewrite_expression(rule, from) {
            Err(err) => Err(err),
            Ok(x) => match rewrite_expression(rule, to) {
                Err(err) => Err(err),
                Ok(y) => match rewrite_statements(rule, body) {
                    Err(err) => Err(err),
                    Ok(z) => Ok(StatementView::For(v, x, y, z)),
                },
            },
        },
    }
}

/// The statements of `ss`, each rewritten by `rule`.
pub open spec fn rewrite_statements(rule: RuleView, ss: Seq<StatementView>) -> Result<
    Seq<StatementView>,
    Error,
>
    decreases ss,
{
    if ss.len() == 0 {
        Ok(Seq::empty())
    } else {
        match rewrite_statements(rule, ss.drop_last()) {
            Err(err) => Err(err),
            Ok(head) => match rewrite_statement(rule, ss.last()) {
                Err(err) => Err(err),
                Ok(last) => Ok(head.push(last)),
            },
        }
    }
}

/// The function `f` with each of its expressions rewritten by `rule`.
pub open spec fn rewrite_function(rule: RuleView, f: FunctionView) -> Result<FunctionView, Error> {
    match rewrite_statements(rule, f.statements) {
        Err(err) => Err(err),
        Ok(statements) => match rewrite_expressions(rule, f.returns) {
            Err(err) => Err(err),
            Ok(results) => Ok(
                FunctionView { arguments: f.arguments, statements: statements, returns: results },
            ),
        },
    }
}

/// The functions of `fs`, each rewritten by `rule`.
pub open spec fn rewrite_functions(rule: RuleView, fs: Seq<FunctionView>) -> Result<
    Seq<FunctionView>,
    Error,
>
    decreases fs.len(),
{
    if fs.len() == 0 {
        Ok(Seq::empty())
    } else {
        match rewrite_functions(rule, fs.drop_last()) {
            Err(err) => Err(err),
            Ok(head) => match rewrite_function(rule, fs.last()) {
                Err(err) => Err(err),
                Ok(last) => Ok(head.push(last)),
            },
        }
    }
}

/// The isolation of branches never fails.
pub proof fn lemma_isolate_expression_succeeds(e: ExpressionView)
    ensures
        rewrite_expression(RuleView::Isolate, e) is Ok,
    decreases e,
{
    match e {
        ExpressionView::Not(a) => {
            lemma_isolate_expression_succeeds(*a);
        },
        ExpressionView::Binary(_, a, b) => {
            lemma_isolate_expression_succeeds(*a);
            lemma_isolate_expression_succeeds(*b);
        },
        ExpressionView::Select(a, i) => {
            lemma_isolate_expression_succeeds(*a);
            lemma_isolate_expression_succeeds(*i);
        },
        ExpressionView::IfElse(c, a, b, _) => {
            lemma_isolate_expression_succeeds(*c);
            lemma_isolate_expression_succeeds(*a);
            lemma_isolate_expression_succeeds(*b);
        },
        ExpressionView::Call(_, args, _) => {
            lemma_isolate_expressions_succeeds(args);
        },
        ExpressionView::Array(_, elements) => {
            lemma_isolate_expressions_succeeds(elements);
        },
        _ => {},
    }
}

/// The isolation of branches never fails.
pub proof fn lemma_isolate_expressions_succeeds(es: Seq<ExpressionView>)
    ensures
        rewrite_expressions(RuleView::Isolate, es) is Ok,
    decreases es,
{
    if es.len() > 0 {
        lemma_isolate_expressions_succeeds(es.drop_last());
        lemma_isolate_expression_succeeds(es.last());
    }
}

proof fn lemma_isolate_assignee_succeeds(a: AssigneeView)
    ensures
        rewrite_assignee(RuleView::Isolate, a) is Ok,
    decreases a,
{
    match a {
        AssigneeView::Identifier(_) => {},
        AssigneeView::Select(inner, index) => {
            lemma_isolate_assignee_succeeds(*inner);
            lemma_isolate_expression_succeeds(*index);
        },
    }
}

proof fn lemma_isolate_statement_succeeds(s: StatementView)
    ensures
        rewrite_statement(RuleView::Isolate, s) is Ok,
    decreases s,
{
    match s {
        StatementView::Definition(a, e) => {
            lemma_isolate_assignee_succeeds(a);
            lemma_isolate_expression_succeeds(e);
        },
        StatementView::Assertion(e) => {
            lemma_isolate_expression_succeeds(e);
        },
        StatementView::For(_, from, to, body) => {
            lemma_isolate_expression_succeeds(from);
            lemma_isolate_expression_succeeds(to);
            lemma_isolate_statements_succeeds(body);
        },
    }
}

proof fn lemma_isolate_statements_succeeds(ss: Seq<StatementView>)
    ensures
        rewrite_statements(RuleView::Isolate, ss) is Ok,
    decreases ss,
{
    if ss.len() > 0 {
        lemma_isolate_statements_succeeds(ss.drop_last());
        lemma_isolate_statement_succeeds(ss.last());
    }
}

/// The isolation of the branches of a list of functions never fails.
pub proof fn lemma_isolate_functions_succeeds(fs: Seq<FunctionView>)
    ensures
        rewrite_functions(RuleView::Isolate, fs) is Ok,
    decreases fs.len(),
{
    if fs.len() > 0 {
        lemma_isolate_functions_succeeds(fs.drop_last());
        lemma_isolate_statements_succeeds(fs.last().statements);
        lemma_isolate_expressions_succeeds(fs.last().returns);
    }
}

/// The expression `e` rewritten by `rule`.
pub fn rewrite(rule: &Rule, e: &TypedExpression) -> (r: Result<TypedExpression, Error>)
    ensures
        match r {
            Ok(x) => rewrite_expression(rule@, e@) == Ok::<ExpressionView, Error>(x@),
            Err(err) => rewrite_expression(rule@, e@) == Err::<ExpressionView, Error>(err),
        },
    decreases e,
{
    match e {
        TypedExpression::Value(v) => Ok(TypedExpression::Value(*v)),
        TypedExpression::Identifier(v) => Ok(TypedExpression::Identifier(v.clone())),
        TypedExpression::Constant(id, ty) => match rule {
            Rule::Inline(values) => {
                if *id < values.len() {
                    Ok(values[*id].clone())
                } else {
                    Err(Error::UndefinedConstant(*id))
                }
            },
            Rule::Isolate => Ok(TypedExpression::Constant(*id, ty.clone())),
        },
        TypedExpression::Not(a) => {
            let x = rewrite(rule, a)?;
            Ok(TypedExpression::Not(Box::new(x)))
        },
        TypedExpression::Binary(op, a, b) => {
            let x = rewrite(rule, a)?;
            let y = rewrite(rule, b)?;
            Ok(TypedExpression::Binary(*op, Box::new(x), Box::new(y)))
        },
        TypedExpression::Select(a, i) => {
            let x = rewrite(rule, a)?;
            let y = rewrite(rule, i)?;
            Ok(TypedExpression::Select(Box::new(x), Box::new(y)))
        },
        TypedExpression::IfElse(c, a, b, isolated) => {
            let x = rewrite(rule, c)?;
            let y = rewrite(rule, a)?;
            let z = rewrite(rule, b)?;
            let flag = match rule {
                Rule::Isolate => true,
                Rule::Inline(_) => *isolated,
            };
            Ok(TypedExpression::IfElse(Box::new(x), Box::new(y), Box::new(z), flag))
        },
        TypedExpression::Call(f, args, ty) => {
            let xs = rewrite_all(rule, args)?;
            Ok(TypedExpression::Call(*f, xs, ty.clone()))
        },
        TypedExpression::Array(ty, elements) => {
            let xs = rewrite_all(rule, elements)?;
            Ok(TypedExpression::Array(ty.clone(), xs))
        },
    }
}

/// The expressions of `es`, each rewritten by `rule`.
pub fn rewrite_all(rule: &Rule, es: &Vec<TypedExpression>) -> (r: Result<
    Vec<TypedExpression>,
    Error,
>)
    ensures
        match r {
            Ok(xs) => rewrite_expressions(rule@, expressions_view(es@)) == Ok::<
                Seq<ExpressionView>,
                Error,
            >(expressions_view(xs@)),
            Err(err) => rewrite_expressions(rule@, expressions_view(es@)) == Err::<
                Seq<ExpressionView>,
                Error,
            >(err),
        },
    decreases es,
{
    let ghost input = expressions_view(es@);
    let mut out: Vec<TypedExpression> = Vec::new();
    let mut i: usize = 0;
    assert(input.take(0) =~= Seq::<ExpressionView>::empty());
    assert(expressions_view(out@) =~= Seq::<ExpressionView>::empty());
    while i < es.len()
        invariant
            i <= es.len(),
            input == expressions_view(es@),
            rewrite_expressions(rule@, input.take(i as int)) == Ok::<Seq<ExpressionView>, Error>(
                expressions_view(out@),
            ),
        decreases es.len() - i,
    {
        let ghost before = expressions_view(out@);
        proof {
            assert(input.take(i + 1).drop_last() =~= input.take(i as int));
            assert(input.take(i + 1).last() == es@[i as int]@);
        }
        match rewrite(rule, &es[i]) {
            Ok(x) => {
                out.push(x);
                assert(expressions_view(out@) =~= before.push(x@));
            },
            Err(err) => {
                proof {
                    assert(rewrite_expressions(rule@, input.take(i + 1)) == Err::<
                        Seq<ExpressionView>,
                        Error,
                    >(err));
                    lemma_rewrite_expressions_prefix_error(rule@, input, i + 1, err);
                }
                return Err(err);
            },
        }
        i += 1;
    }
    assert(input.take(es.len() as int) =~= input);
    Ok(out)
}

/// Where the rewriting of a prefix of a list of expressions fails, the
/// rewriting of the list fails with the same error.
pub proof fn lemma_rewrite_expressions_prefix_error(
    rule: RuleView,
    es: Seq<ExpressionView>,
    n: int,
    err: Error,
)
    requires
        0 <= n <= es.len(),
        rewrite_expressions(rule, es.take(n)) == Err::<Seq<ExpressionView>, Error>(err),
    ensures
        rewrite_expressions(rule, es) == Err::<Seq<ExpressionView>, Error>(err),
    decreases es.len() - n,
{
    if n < es.len() {
        assert(es.take(n + 1).drop_last() =~= es.take(n));
        lemma_rewrite_expressions_prefix_error(rule, es, n + 1, err);
    } else {
        assert(es.take(n) =~= es);
    }
}

/// The target `a` with each of its indices rewritten by `rule`.
pub fn rewrite_target(rule: &Rule, a: &TypedAssignee) -> (r: Result<TypedAssignee, Error>)
    ensures
        match r {
            Ok(x) => rewrite_assignee(rule@, a@) == Ok::<AssigneeView, Error>(x@),
            Err(err) => rewrite_assignee(rule@, a@) == Err::<AssigneeView, Error>(err),
        },
    decreases a,
{
    match a {
        TypedAssignee::Identifier(v) => Ok(TypedAssignee::Identifier(v.clone())),
        TypedAssignee::Select(inner, index) => {
            let x = rewrite_target(rule, inner)?;
            let y = rewrite(rule, index)?;
            Ok(TypedAssignee::Select(Box::new(x), Box::new(y)))
        },
    }
}

/// The statement `s` with each of its expressions rewritten by `rule`.
pub fn rewrite_one(rule: &Rule, s: &TypedStatement) -> (r: Result<TypedStatement, Error>)
    ensures
        match r {
            Ok(x) => rewrite_statement(rule@, s@) == Ok::<StatementView, Error>(x@),
            Err(err) => rewrite_statement(rule@, s@) == Err::<StatementView, Error>(err),
        },
    decreases s,
{
    match s {
        TypedStatement::Definition(a, e) => {
            let x = rewrite_target(rule, a)?;
            let y = rewrite(rule, e)?;
            Ok(TypedStatement::Definition(x, y))
        },
        TypedStatement::Assertion(e) => {
            let x = rewrite(rule, e)?;
            Ok(TypedStatement::Assertion(x))
        },
        TypedStatement::For(v, from, to, body) => {
            let x = rewrite(rule, from)?;
            let y = rewrite(rule, to)?;
            let z = rewrite_body(rule, body)?;
            Ok(TypedStatement::For(v.clone(), x, y, z))
        },
    }
}

/// The statements of `ss`, each rewritten by `rule`.
pub fn rewrite_body(rule: &Rule, ss: &Vec<TypedStatement>) -> (r: Result<
    Vec<TypedStatement>,
    Error,
>)
    ensures
        match r {
            Ok(xs) => rewrite_statements(rule@, statements_view(ss@)) == Ok::<
                Seq<StatementView>,
                Error,
            >(statements_view(xs@)),
            Err(err) => rewrite_statements(rule@, statements_view(ss@)) == Err::<
                Seq<StatementView>,
                Error,
            >(err),
        },
    decreases ss,
{
    let ghost input = statements_view(ss@);
    let mut out: Vec<TypedStatement> = Vec::new();
    let mut i: usize = 0;
    assert(input.take(0) =~= Seq::<StatementView>::empty());
    assert(statements_view(out@) =~= Seq::<StatementView>::empty());
    while i < ss.len()
        invariant
            i <= ss.len(),
            input == statements_view(ss@),
            rewrite_statements(rule@, input.take(i as int)) == Ok::<Seq<StatementView>, Error>(
                statements_view(out@),
            ),
        decreases ss.len() - i,
    {
        let ghost before = statements_view(out@);
        proof {
            assert(input.take(i + 1).drop_last() =~= input.take(i as int));
            assert(input.take(i + 1).last() == ss@[i as int]@);
        }
        match rewrite_one(rule, &ss[i]) {
            Ok(x) => {
                out.push(x);
                assert(statements_view(out@) =~= before.push(x@));
            },
            Err(err) => {
                proof {
                    assert(rewrite_statements(rule@, input.take(i + 1)) == Err::<
                        Seq<StatementView>,
                        Error,
                    >(err));
                    lemma_rewrite_statements_prefix_error(rule@, input, i + 1, err);
                }
                return Err(err);
            },
        }
        i += 1;
    }
    assert(input.take(ss.len() as int) =~= input);
    Ok(out)
}

/// Where the rewriting of a prefix of a list of statements fails, the
/// rewriting of the list fails with the same error.
pub proof fn lemma_rewrite_statements_prefix_error(
    rule: RuleView,
    ss: Seq<StatementView>,
    n: int,
    err: Error,
)
    requires
        0 <= n <= ss.len(),
        rewrite_statements(rule, ss.take(n)) == Err::<Seq<StatementView>, Error>(err),
    ensures
        rewrite_statements(rule, ss) == Err::<Seq<StatementView>, Error>(err),
    decreases ss.len() - n,
{
    if n < ss.len() {
        assert(ss.take(n + 1).drop_last() =~= ss.take(n));
        lemma_rewrite_statements_prefix_error(rule, ss, n + 1, err);
    } else {
        assert(ss.take(n) =~= ss);
    }
}

/// The function `f` with each of its expressions rewritten by `rule`.
pub fn rewrite_fn(rule: &Rule, f: &TypedFunction) -> (r: Result<TypedFunction, Error>)
    ensures
        match r {
            Ok(x) => rewrite_function(rule@, f@) == Ok::<FunctionView, Error>(x@),
            Err(err) => rewrite_function(rule@, f@) == Err::<FunctionView, Error>(err),
        },
{
    let statements = rewrite_body(rule, &f.statements)?;
    let results = rewrite_all(rule, &f.returns)?;
    Ok(TypedFunction { arguments: clone_parameters(&f.arguments), statements, returns: results })
}

/// The functions of `fs`, each rewritten by `rule`.
pub fn rewrite_fns(rule: &Rule, fs: &Vec<TypedFunction>) -> (r: Result<Vec<TypedFunction>, Error>)
    ensures
        match r {
            Ok(xs) => rewrite_functions(rule@, functions_view(fs@)) == Ok::<
                Seq<FunctionView>,
                Error,
            >(functions_view(xs@)),
            Err(err) => rewrite_functions(rule@, functions_view(fs@)) == Err::<
                Seq<FunctionView>,
                Error,
            >(err),
        },
{
    let ghost input = functions_view(fs@);
    let mut out: Vec<TypedFunction> = Vec::new();
    let mut i: usize = 0;
    assert(input.take(0) =~= Seq::<FunctionView>::empty());
    assert(functions_view(out@) =~= Seq::<FunctionView>::empty());
    while i < fs.len()
        invariant
            i <= fs.len(),
            input == functions_view(fs@),
            rewrite_functions(rule@, input.take(i as int)) == Ok::<Seq<FunctionView>, Error>(
                functions_view(out@),
            ),
        decreases fs.len() - i,
    {
        let ghost before = functions_view(out@);
        proof {
            assert(input.take(i + 1).drop_last() =~= input.take(i as int));
            assert(input.take(i + 1).last() == fs@[i as int]@);
        }
        match rewrite_fn(rule, &fs[i]) {
            Ok(x) => {
                out.push(x);
                assert(functions_view(out@) =~= before.push(x@));
            },
            Err(err) => {
                proof {
                    assert(rewrite_functions(rule@, input.take(i + 1)) == Err::<
                        Seq<FunctionView>,
                        Error,
                    >(err));
                    lemma_rewrite_functions_prefix_error(rule@, input, i + 1, err);
                }
                return Err(err);
            },
        }
        i += 1;
    }
    assert(input.take(fs.len() as int) =~= input);
    Ok(out)
}

/// Where the rewriting of a prefix of a list of functions fails, the
/// rewriting of the list fails with the same error.
pub proof fn lemma_rewrite_functions_prefix_error(
    rule: RuleView,
    fs: Seq<FunctionView>,
    n: int,
    err: Error,
)
    requires
        0 <= n <= fs.len(),
        rewrite_functions(rule, fs.take(n)) == Err::<Seq<FunctionView>, Error>(err),
    ensures
        rewrite_functions(rule, fs) == Err::<Seq<FunctionView>, Error>(err),
    decreases fs.len() - n,
{
    if n < fs.len() {
        assert(fs.take(n + 1).drop_last() =~= fs.take(n));
        lemma_rewrite_functions_prefix_error(rule, fs, n + 1, err);
    } else {
        assert(fs.take(n) =~= fs);
    }
}

} // verus!
