//! The check that the operands which must be literals are literals: the
//! amount of every shift, and the bound of every comparison of field
//! elements.

use crate::typed_absy::abi::{get_type, type_of};
use crate::typed_absy::operators::BinaryOp;
use crate::typed_absy::types::Type;
use crate::typed_absy::{
    AssigneeView, ExpressionView, FunctionView, ProgramView, StatementView, TypedAssignee,
    TypedExpression, TypedProgram, TypedStatement, expressions_view, functions_view,
    statements_view,
};
use vstd::prelude::*;

verus! {

/// An operand that must be a literal and is none.
#[derive(Debug, Clone, Copy, PartialEq, Eq, Structural)]
pub enum Error {
    /// The amount of a shift.
    ShiftAmount,
    /// The second operand of a comparison of field elements.
    ComparisonBound,
}

impl Error {
    /// The error in words.
    pub fn message(&self) -> (r: String)
        ensures
            r@ == match self {
                Error::ShiftAmount => "the amount of a shift is not a constant"@,
                Error::ComparisonBound => "the bound of a comparison is not a constant"@,
            },
    {
        match self {
            Error::ShiftAmount => "the amount of a shift is not a constant".to_string(),
            Error::ComparisonBound => "the bound of a comparison is not a constant".to_string(),
        }
    }
}

/// What is wrong with an operator applied to two operands, if anything.
pub open spec fn operator_violation(op: BinaryOp, a: ExpressionView, b: ExpressionView) -> Option<
    Error,
> {
    if b is Value {
        None
    } else if op == BinaryOp::LeftShift || op == BinaryOp::RightShift {
        Some(Error::ShiftAmount)
    } else if op == BinaryOp::Lt && type_of(a) == Type::FieldElement {
        Some(Error::ComparisonBound)
    } else {
        None
    }
}

/// The first of two findings.
pub open spec fn first_of(a: Option<Error>, b: Option<Error>) -> Option<Error> {
    match a {
        Some(_) => a,
        None => b,
    }
}

/// The first operand of `e` that must be a literal and is none, the
/// operands of an operator coming before the operator.
pub open spec fn expression_violation(e: ExpressionView) -> Option<Error>
    decreases e,
{
    match e {
        ExpressionView::Value(_) => None,
        ExpressionView::Identifier(_) => None,
        ExpressionView::Constant(_, _) => None,
        ExpressionView::Not(a) => expression_violation(*a),
        ExpressionView::Binary(op, a, b) => first_of(
            expression_violation(*a),
            first_of(expression_violation(*b), operator_violation(op, *a, *b)),
        ),
        ExpressionView::IfElse(c, a, b, _) => first_of(
            expression_violation(*c),
            first_of(expression_violation(*a), expression_violation(*b)),
        ),
        ExpressionView::Call(_, args, _) => expressions_violation(args),
        ExpressionView::Array(_, elements) => expressions_violation(elements),
        ExpressionView::Select(a, i) => first_of(expression_violation(*a), expression_violation(*i)),
    }
}

/// The first violation in a list of expressions.
pub open spec fn expressions_violation(es: Seq<ExpressionView>) -> Option<Error>
    decreases es,
{
    if es.len() == 0 {
        None
    } else {
        first_of(expressions_violation(es.drop_last()), expression_violation(es.last()))
    }
}

/// The first violation in a target.
pub open spec fn assignee_violation(a: AssigneeView) -> Option<Error>
    decreases a,
{
    match a {
        AssigneeView::Identifier(_) => None,
        AssigneeView::Select(inner, index) => first_of(
            assignee_violation(*inner),
            expression_violation(*index),
        ),
    }
}

/// The first violation in a statement.
pub open spec fn statement_violation(s: StatementView) -> Option<Error>
    decreases s,
{
    match s {
        StatementView::Definition(a, e) => first_of(assignee_violation(a), expression_violation(e)),
        StatementView::Assertion(e) => expression_violation(e),
        StatementView::For(_, from, to, body) => first_of(
            expression_violation(from),
            first_of(expression_violation(to), statements_violation(body)),
        ),
    }
}

/// The first violation in a list of statements.
pub open spec fn statements_violation(ss: Seq<StatementView>) -> Option<Error>
    decreases ss,
{
    if ss.len() == 0 {
        None
    } else {
        first_of(statements_violation(ss.drop_last()), statement_violation(ss.last()))
    }
}

/// The first violation in a function.
pub open spec fn function_violation(f: FunctionView) -> Option<Error> {
    first_of(statements_violation(f.statements), expressions_violation(f.returns))
}

/// The first violation in a list of functions.
pub open spec fn functions_violation(fs: Seq<FunctionView>) -> Option<Error>
    decreases fs.len(),
{
    if fs.len() == 0 {
        None
    } else {
        first_of(functions_violation(fs.drop_last()), function_violation(fs.last()))
    }
}

/// The program itself where every operand that must be a literal is one,
/// the first violation otherwise.
pub open spec fn check_constant_arguments(p: ProgramView) -> Result<ProgramView, Error> {
    match functions_violation(p.functions) {
        Some(err) => Err(err),
        None => Ok(p),
    }
}

/// Where a prefix of a list of expressions holds a violation, it is the
/// first of the list.
pub proof fn lemma_expressions_violation_prefix(es: Seq<ExpressionView>, n: int)
    requires
        0 <= n <= es.len(),
        expressions_violation(es.take(n)) is Some,
    ensures
        expressions_violation(es) == expressions_violation(es.take(n)),
    decreases es.len() - n,
{
    if n < es.len() {
        assert(es.take(n + 1).drop_last() =~= es.take(n));
        lemma_expressions_violation_prefix(es, n + 1);
    } else {
        assert(es.take(n) =~= es);
    }
}

/// Where a prefix of a list of statements holds a violation, it is the
/// first of the list.
pub proof fn lemma_statements_violation_prefix(ss: Seq<StatementView>, n: int)
    requires
        0 <= n <= ss.len(),
        statements_violation(ss.take(n)) is Some,
    ensures
        statements_violation(ss) == statements_violation(ss.take(n)),
    decreases ss.len() - n,
{
    if n < ss.len() {
        assert(ss.take(n + 1).drop_last() =~= ss.take(n));
        lemma_statements_violation_prefix(ss, n + 1);
    } else {
        assert(ss.take(n) =~= ss);
    }
}

/// Where a prefix of a list of functions holds a violation, it is the first
/// of the list.
pub proof fn lemma_functions_violation_prefix(fs: Seq<FunctionView>, n: int)
    requires
        0 <= n <= fs.len(),
        functions_violation(fs.take(n)) is Some,
    ensures
        functions_violation(fs) == functions_violation(fs.take(n)),
    decreases fs.len() - n,
{
    if n < fs.len() {
        assert(fs.take(n + 1).drop_last() =~= fs.take(n));
        lemma_functions_violation_prefix(fs, n + 1);
    } else {
        assert(fs.take(n) =~= fs);
    }
}

/// The check that the operands which must be literals are literals.
#[derive(Debug, Clone, Copy)]
pub struct ConstantArgumentChecker;

impl ConstantArgumentChecker {
    /// The first violation in `e`.
    pub fn check_expression(e: &TypedExpression) -> (r: Option<Error>)
        ensures
            r == expression_violation(e@),
        decreases e,
    {
        match e {
            TypedExpression::Value(_) => None,
            TypedExpression::Identifier(_) => None,
            TypedExpression::Constant(_, _) => None,
            TypedExpression::Not(a) => ConstantArgumentChecker::check_expression(a),
            TypedExpression::Binary(op, a, b) => {
                if let Some(err) = ConstantArgumentChecker::check_expression(a) {
                    return Some(err);
                }
                if let Some(err) = ConstantArgumentChecker::check_expression(b) {
                    return Some(err);
                }
                let literal = match &**b {
                    TypedExpression::Value(_) => true,
                    _ => false,
                };
                if literal {
                    None
                } else if *op == BinaryOp::LeftShift || *op == BinaryOp::RightShift {
                    Some(Error::ShiftAmount)
                } else if *op == BinaryOp::Lt {
                    match get_type(a) {
                        Type::FieldElement => Some(Error::ComparisonBound),
                        _ => None,
                    }
                } else {
                    None
                }
            },
            TypedExpression::IfElse(c, a, b, _) => {
                if let Some(err) = ConstantArgumentChecker::check_expression(c) {
                    return Some(err);
                }
                if let Some(err) = ConstantArgumentChecker::check_expression(a) {
                    return Some(err);
                }
                ConstantArgumentChecker::check_expression(b)
            },
            TypedExpression::Call(_, args, _) => ConstantArgumentChecker::check_expressions(args),
            TypedExpression::Array(_, elements) => ConstantArgumentChecker::check_expressions(
                elements,
            ),
            TypedExpression::Select(a, i) => {
                if let Some(err) = ConstantArgumentChecker::check_expression(a) {
                    return Some(err);
                }
                ConstantArgumentChecker::check_expression(i)
            },
        }
    }

    /// The first violation in the expressions of `es`.
    pub fn check_expressions(es: &Vec<TypedExpression>) -> (r: Option<Error>)
        ensures
            r == expressions_violation(expressions_view(es@)),
        decreases es,
    {
        let ghost input = expressions_view(es@);
        let mut i: usize = 0;
        assert(input.take(0) =~= Seq::<ExpressionView>::empty());
        while i < es.len()
            invariant
                i <= es.len(),
                input == expressions_view(es@),
                expressions_violation(input.take(i as int)) is None,
            decreases es.len() - i,
        {
            proof {
                assert(input.take(i + 1).drop_last() =~= input.take(i as int));
                assert(input.take(i + 1).last() == es@[i as int]@);
            }
            if let Some(err) = ConstantArgumentChecker::check_expression(&es[i]) {
                proof {
                    assert(expressions_violation(input.take(i + 1)) == Some(err));
                    lemma_expressions_violation_prefix(input, i + 1);
                }
                return Some(err);
            }
            i += 1;
        }
        assert(input.take(es.len() as int) =~= input);
        None
    }

    /// The first violation in a target.
    pub fn check_assignee(a: &TypedAssignee) -> (r: Option<Error>)
        ensures
            r == assignee_violation(a@),
        decreases a,
    {
        match a {
            TypedAssignee::Identifier(_) => None,
            TypedAssignee::Select(inner, index) => {
                if let Some(err) = ConstantArgumentChecker::check_assignee(inner) {
                    return Some(err);
                }
                ConstantArgumentChecker::check_expression(index)
            },
        }
    }

    /// The first violation in a statement.
    pub fn check_statement(s: &TypedStatement) -> (r: Option<Error>)
        ensures
            r == statement_violation(s@),
        decreases s,
    {
        match s {
            TypedStatement::Definition(a, e) => {
                if let Some(err) = ConstantArgumentChecker::check_assignee(a) {
                    return Some(err);
                }
                ConstantArgumentChecker::check_expression(e)
            },
            TypedStatement::Assertion(e) => ConstantArgumentChecker::check_expression(e),
            TypedStatement::For(_, from, to, body) => {
                if let Some(err) = ConstantArgumentChecker::check_expression(from) {
                    return Some(err);
                }
                if let Some(err) = ConstantArgumentChecker::check_expression(to) {
                    return Some(err);
                }
                ConstantArgumentChecker::check_statements(body)
            },
        }
    }

    /// The first violation in the statements of `ss`.
    pub fn check_statements(ss: &Vec<TypedStatement>) -> (r: Option<Error>)
        ensures
            r == statements_violation(statements_view(ss@)),
        decreases ss,
    {
        let ghost input = statements_view(ss@);
        let mut i: usize = 0;
        assert(input.take(0) =~= Seq::<StatementView>::empty());
        while i < ss.len()
            invariant
                i <= ss.len(),
                input == statements_view(ss@),
                statements_violation(input.take(i as int)) is None,
            decreases ss.len() - i,
        {
            proof {
                assert(input.take(i + 1).drop_last() =~= input.take(i as int));
                assert(input.take(i + 1).last() == ss@[i as int]@);
            }
            if let Some(err) = ConstantArgumentChecker::check_statement(&ss[i]) {
                proof {
                    assert(statements_violation(input.take(i + 1)) == Some(err));
                    lemma_statements_violation_prefix(input, i + 1);
                }
                return Some(err);
            }
            i += 1;
        }
        assert(input.take(ss.len() as int) =~= input);
        None
    }

    /// The program itself where every operand that must be a literal is
    /// one, the first violation otherwise.
    pub fn check(p: TypedProgram) -> (r: Result<TypedProgram, Error>)
        ensures
            match r {
                Ok(q) => q == p && check_constant_arguments(p@) == Ok::<ProgramView, Error>(p@),
                Err(err) => check_constant_arguments(p@) == Err::<ProgramView, Error>(err),
            },
    {
        let ghost input = functions_view(p.functions@);
        let mut i: usize = 0;
        assert(input.take(0) =~= Seq::<FunctionView>::empty());
        while i < p.functions.len()
            invariant
                i <= p.functions.len(),
                input == functions_view(p.functions@),
                functions_violation(input.take(i as int)) is None,
            decreases p.functions.len() - i,
        {
            proof {
                assert(input.take(i + 1).drop_last() =~= input.take(i as int));
                assert(input.take(i + 1).last() == p.functions@[i as int]@);
            }
            let f = &p.functions[i];
            let found = match ConstantArgumentChecker::check_statements(&f.statements) {
                Some(err) => Some(err),
                None => ConstantArgumentChecker::check_expressions(&f.returns),
            };
            if let Some(err) = found {
                proof {
                    assert(functions_violation(input.take(i + 1)) == Some(err));
                    lemma_functions_violation_prefix(input, i + 1);
                }
                return Err(err);
            }
            i += 1;
        }
        assert(input.take(p.functions.len() as int) =~= input);
        Ok(p)
    }
}

} // verus!
