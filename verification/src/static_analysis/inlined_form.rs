//! The shape of a program after the inlining of constants: no named
//! constant is left in it.

use crate::static_analysis::constant_inliner::{inline_constants, inlined_constants};
use crate::static_analysis::propagation::{Constants, fold_expression, fold_expressions};
use crate::typed_absy::folder::{
    RuleView, rewrite_assignee, rewrite_expression, rewrite_expressions, rewrite_functions,
    rewrite_statement, rewrite_statements,
};
use crate::typed_absy::{AssigneeView, ExpressionView, FunctionView, ProgramView, StatementView};
use vstd::prelude::*;

verus! {

/// Whether an expression names no constant.
pub open spec fn expression_is_inlined(e: ExpressionView) -> bool
    decreases e,
{
    match e {
        ExpressionView::Value(_) => true,
        ExpressionView::Identifier(_) => true,
        ExpressionView::Constant(_, _) => false,
        ExpressionView::Not(a) => expression_is_inlined(*a),
        ExpressionView::Binary(_, a, b) => expression_is_inlined(*a) && expression_is_inlined(*b),
        ExpressionView::IfElse(c, a, b, _) => expression_is_inlined(*c) && expression_is_inlined(
            *a,
        ) && expression_is_inlined(*b),
        ExpressionView::Call(_, args, _) => forall|i: int|
            0 <= i < args.len() ==> expression_is_inlined(#[trigger] args[i]),
        ExpressionView::Array(_, elements) => forall|i: int|
            0 <= i < elements.len() ==> expression_is_inlined(#[trigger] elements[i]),
        ExpressionView::Select(a, i) => expression_is_inlined(*a) && expression_is_inlined(*i),
    }
}

/// Whether no expression of a list names a constant.
pub open spec fn expressions_are_inlined(es: Seq<ExpressionView>) -> bool {
    forall|i: int| 0 <= i < es.len() ==> expression_is_inlined(#[trigger] es[i])
}

/// Whether a target names no constant.
pub open spec fn assignee_is_inlined(a: AssigneeView) -> bool
    decreases a,
{
    match a {
        AssigneeView::Identifier(_) => true,
        AssigneeView::Select(inner, index) => assignee_is_inlined(*inner)
            && expression_is_inlined(*index),
    }
}

/// Whether a statement names no constant.
pub open spec fn statement_is_inlined(s: StatementView) -> bool
    decreases s,
{
    match s {
        StatementView::Definition(a, e) => assignee_is_inlined(a) && expression_is_inlined(e),
        StatementView::Assertion(e) => expression_is_inlined(e),
        StatementView::For(_, from, to, body) => expression_is_inlined(from)
            && expression_is_inlined(to) && forall|i: int|
            0 <= i < body.len() ==> statement_is_inlined(#[trigger] body[i]),
    }
}

/// Whether a function names no constant.
pub open spec fn function_is_inlined(f: FunctionView) -> bool {
    &&& forall|i: int| 0 <= i < f.statements.len() ==> statement_is_inlined(#[trigger] f.statements[i])
    &&& expressions_are_inlined(f.returns)
}

/// Whether a program names no constant and defines none.
pub open spec fn program_is_inlined(p: ProgramView) -> bool {
    &&& p.constants.len() == 0
    &&& forall|i: int| 0 <= i < p.functions.len() ==> function_is_inlined(#[trigger] p.functions[i])
}

proof fn lemma_rewritten_expression(values: Seq<ExpressionView>, e: ExpressionView)
    requires
        expressions_are_inlined(values),
    ensures
        rewrite_expression(RuleView::Inline(values), e) matches Ok(r) ==> expression_is_inlined(r),
    decreases e,
{
    let rule = RuleView::Inline(values);
    match e {
        ExpressionView::Constant(id, _) => {
            if id < values.len() {
                assert(expression_is_inlined(values[id as int]));
            }
        },
        ExpressionView::Not(a) => {
            lemma_rewritten_expression(values, *a);
        },
        ExpressionView::Binary(_, a, b) => {
            lemma_rewritten_expression(values, *a);
            lemma_rewritten_expression(values, *b);
        },
        ExpressionView::Select(a, i) => {
            lemma_rewritten_expression(values, *a);
            lemma_rewritten_expression(values, *i);
        },
        ExpressionView::IfElse(c, a, b, _) => {
            lemma_rewritten_expression(values, *c);
            lemma_rewritten_expression(values, *a);
            lemma_rewritten_expression(values, *b);
        },
        ExpressionView::Call(_, args, _) => {
            lemma_rewritten_expressions(values, args);
        },
        ExpressionView::Array(_, elements) => {
            lemma_rewritten_expressions(values, elements);
        },
        _ => {},
    }
}

proof fn lemma_rewritten_expressions(values: Seq<ExpressionView>, es: Seq<ExpressionView>)
    requires
        expressions_are_inlined(values),
    ensures
        rewrite_expressions(RuleView::Inline(values), es) matches Ok(rs)
            ==> expressions_are_inlined(rs),
    decreases es,
{
    if es.len() > 0 {
        lemma_rewritten_expressions(values, es.drop_last());
        lemma_rewritten_expression(values, es.last());
    }
}

proof fn lemma_rewritten_assignee(values: Seq<ExpressionView>, a: AssigneeView)
    requires
        expressions_are_inlined(values),
    ensures
        rewrite_assignee(RuleView::Inline(values), a) matches Ok(r) ==> assignee_is_inlined(r),
    decreases a,
{
    match a {
        AssigneeView::Identifier(_) => {},
        AssigneeView::Select(inner, index) => {
            lemma_rewritten_assignee(values, *inner);
            lemma_rewritten_expression(values, *index);
        },
    }
}

proof fn lemma_rewritten_statement(values: Seq<ExpressionView>, s: StatementView)
    requires
        expressions_are_inlined(values),
    ensures
        rewrite_statement(RuleView::Inline(values), s) matches Ok(r) ==> statement_is_inlined(r),
    decreases s,
{
    match s {
        StatementView::Definition(a, e) => {
            lemma_rewritten_assignee(values, a);
            lemma_rewritten_expression(values, e);
        },
        StatementView::Assertion(e) => {
            lemma_rewritten_expression(values, e);
        },
        StatementView::For(_, from, to, body) => {
            lemma_rewritten_expression(values, from);
            lemma_rewritten_expression(values, to);
            lemma_rewritten_statements(values, body);
        },
    }
}

proof fn lemma_rewritten_statements(values: Seq<ExpressionView>, ss: Seq<StatementView>)
    requires
        expressions_are_inlined(values),
    ensures
        rewrite_statements(RuleView::Inline(values), ss) matches Ok(rs) ==> forall|i: int|
            0 <= i < rs.len() ==> statement_is_inlined(#[trigger] rs[i]),
    decreases ss,
{
    if ss.len() > 0 {
        lemma_rewritten_statements(values, ss.drop_last());
        lemma_rewritten_statement(values, ss.last());
    }
}

proof fn lemma_rewritten_functions(values: Seq<ExpressionView>, fs: Seq<FunctionView>)
    requires
        expressions_are_inlined(values),
    ensures
        rewrite_functions(RuleView::Inline(values), fs) matches Ok(rs) ==> forall|i: int|
            0 <= i < rs.len() ==> function_is_inlined(#[trigger] rs[i]),
    decreases fs.len(),
{
    if fs.len() > 0 {
        lemma_rewritten_functions(values, fs.drop_last());
        lemma_rewritten_statements(values, fs.last().statements);
        lemma_rewritten_expressions(values, fs.last().returns);
    }
}

/// Folding names no constant that the expression did not name.
proof fn lemma_folded_expression(env: Constants, e: ExpressionView)
    requires
        expression_is_inlined(e),
    ensures
        fold_expression(env, e) matches Ok(r) ==> expression_is_inlined(r),
    decreases e,
{
    match e {
        ExpressionView::Not(a) => {
            lemma_folded_expression(env, *a);
        },
        ExpressionView::Binary(_, a, b) => {
            lemma_folded_expression(env, *a);
            lemma_folded_expression(env, *b);
        },
        ExpressionView::IfElse(c, a, b, _) => {
            lemma_folded_expression(env, *c);
            lemma_folded_expression(env, *a);
            lemma_folded_expression(env, *b);
        },
        ExpressionView::Call(_, args, _) => {
            lemma_folded_expressions(env, args);
        },
        ExpressionView::Array(_, elements) => {
            lemma_folded_expressions(env, elements);
        },
        ExpressionView::Select(a, i) => {
            lemma_folded_expression(env, *a);
            lemma_folded_expression(env, *i);
        },
        _ => {},
    }
}

proof fn lemma_folded_expressions(env: Constants, es: Seq<ExpressionView>)
    requires
        expressions_are_inlined(es),
    ensures
        fold_expressions(env, es) matches Ok(rs) ==> expressions_are_inlined(rs),
    decreases es,
{
    if es.len() > 0 {
        let head = es.drop_last();
        assert forall|i: int| 0 <= i < head.len() implies expression_is_inlined(
            #[trigger] head[i],
        ) by {
            assert(head[i] == es[i]);
        }
        lemma_folded_expressions(env, head);
        assert(expression_is_inlined(es[es.len() - 1]));
        lemma_folded_expression(env, es.last());
    }
}

proof fn lemma_inlined_constants(definitions: Seq<ExpressionView>, n: nat)
    ensures
        inlined_constants(definitions, n) matches Ok(values) ==> expressions_are_inlined(values),
    decreases n,
{
    if !(n == 0 || n > definitions.len()) {
        lemma_inlined_constants(definitions, (n - 1) as nat);
        if let Ok(values) = inlined_constants(definitions, (n - 1) as nat) {
            lemma_rewritten_expression(values, definitions[n - 1]);
            if let Ok(x) = rewrite_expression(RuleView::Inline(values), definitions[n - 1]) {
                lemma_folded_expression(Map::empty(), x);
                if let Ok(value) = fold_expression(Map::empty(), x) {
                    let all = values.push(value);
                    assert forall|i: int| 0 <= i < all.len() implies expression_is_inlined(
                        #[trigger] all[i],
                    ) by {
                        if i < values.len() {
                            assert(all[i] == values[i]);
                        }
                    }
                }
            }
        }
    }
}

/// The shape of a program after the inlining of constants: where the
/// constants of a program can be inlined, what is left names no constant
/// and defines none.
pub proof fn lemma_inlined_program_names_no_constant(p: ProgramView)
    ensures
        inline_constants(p) matches Ok(q) ==> program_is_inlined(q),
{
    lemma_inlined_constants(p.constants, p.constants.len());
    if let Ok(values) = inlined_constants(p.constants, p.constants.len()) {
        lemma_rewritten_functions(values, p.functions);
    }
}

} // verus!
