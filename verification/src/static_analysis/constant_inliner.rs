//! The replacement of named constants by their values.

use crate::static_analysis::propagation;
use crate::static_analysis::propagation::{fold, fold_expression};
use crate::typed_absy::folder;
use crate::typed_absy::folder::{
    Rule, RuleView, rewrite, rewrite_expression, rewrite_fns, rewrite_functions,
};
use crate::typed_absy::types::Value;
use crate::typed_absy::{
    ExpressionView, ProgramView, TypedExpression, TypedProgram, expressions_view,
};
use std::collections::HashMap;
use vstd::prelude::*;

verus! {

/// Why the constants of a program cannot be inlined.
#[derive(Debug, Clone, Copy, PartialEq, Eq, Structural)]
pub enum Error {
    /// The use of a named constant that is not defined before its use.
    Undefined(usize),
    /// The definition of a named constant that cannot be folded.
    Evaluation(propagation::Error),
}

impl Error {
    /// The error in words.
    pub fn message(&self) -> (r: String)
        ensures
            r@ == match self {
                Error::Undefined(_) => "use of an undefined constant"@,
                Error::Evaluation(_) => "division by zero"@,
            },
    {
        match self {
            Error::Undefined(_) => "use of an undefined constant".to_string(),
            Error::Evaluation(e) => e.message(),
        }
    }
}

/// The error of the inlining that stands for an error of the rewriting.
pub open spec fn undefined(err: folder::Error) -> Error {
    match err {
        folder::Error::UndefinedConstant(id) => Error::Undefined(id),
    }
}

/// The values of the first `n` named constants: the definition of each with
/// the constants before it replaced by their values, folded.
pub open spec fn inlined_constants(definitions: Seq<ExpressionView>, n: nat) -> Result<
    Seq<ExpressionView>,
    Error,
>
    decreases n,
{
    if n == 0 || n > definitions.len() {
        Ok(Seq::empty())
    } else {
        match inlined_constants(definitions, (n - 1) as nat) {
            Err(err) => Err(err),
            Ok(values) => match rewrite_expression(RuleView::Inline(values), definitions[n - 1]) {
                Err(err) => Err(undefined(err)),
                Ok(x) => match fold_expression(Map::empty(), x) {
                    Err(err) => Err(Error::Evaluation(err)),
                    Ok(value) => Ok(values.push(value)),
                },
            },
        }
    }
}

/// The program with each use of a named constant replaced by the value of
/// the constant, and without definitions of constants.
pub open spec fn inline_constants(p: ProgramView) -> Result<ProgramView, Error> {
    match inlined_constants(p.constants, p.constants.len()) {
        Err(err) => Err(err),
        Ok(values) => match rewrite_functions(RuleView::Inline(values), p.functions) {
            Err(err) => Err(undefined(err)),
            Ok(functions) => Ok(
                ProgramView { functions: functions, main: p.main, constants: Seq::empty() },
            ),
        },
    }
}

/// What an inlining returned, over views.
pub open spec fn inlined_view(r: Result<TypedProgram, Error>) -> Result<ProgramView, Error> {
    match r {
        Ok(p) => Ok(p@),
        Err(err) => Err(err),
    }
}

/// The replacement of named constants by their values.
#[derive(Debug, Clone, Copy)]
pub struct ConstantInliner;

impl ConstantInliner {
    /// The program with each use of a named constant replaced by the value
    /// of the constant.
    pub fn inline(p: TypedProgram) -> (r: Result<TypedProgram, Error>)
        ensures
            inlined_view(r) == inline_constants(p@),
    {
        let ghost definitions = expressions_view(p.constants@);
        let env: HashMap<u128, Value> = HashMap::new();
        let mut rule = Rule::Inline(Vec::new());
        let mut n: usize = 0;
        assert(expressions_view(Seq::<TypedExpression>::empty()) =~= Seq::<
            ExpressionView,
        >::empty());
        while n < p.constants.len()
            invariant
                n <= p.constants.len(),
                definitions == expressions_view(p.constants@),
                env@ == Map::<u128, Value>::empty(),
                rule is Inline,
                inlined_constants(definitions, n as nat) == Ok::<Seq<ExpressionView>, Error>(
                    rule@->Inline_0,
                ),
            decreases p.constants.len() - n,
        {
            let ghost values = rule@->Inline_0;
            assert(rule@ == RuleView::Inline(values));
            let folded = match rewrite(&rule, &p.constants[n]) {
                Err(err) => {
                    let e = match err {
                        folder::Error::UndefinedConstant(id) => Error::Undefined(id),
                    };
                    proof {
                        assert(inlined_constants(definitions, (n + 1) as nat) == Err::<
                            Seq<ExpressionView>,
                            Error,
                        >(e));
                        lemma_inlined_constants_prefix_error(
                            definitions,
                            (n + 1) as nat,
                            definitions.len(),
                            e,
                        );
                    }
                    return Err(e);
                },
                Ok(x) => match fold(&env, &x) {
                    Err(err) => {
                        proof {
                            assert(inlined_constants(definitions, (n + 1) as nat) == Err::<
                                Seq<ExpressionView>,
                                Error,
                            >(Error::Evaluation(err)));
                            lemma_inlined_constants_prefix_error(
                                definitions,
                                (n + 1) as nat,
                                definitions.len(),
                                Error::Evaluation(err),
                            );
                        }
                        return Err(Error::Evaluation(err));
                    },
                    Ok(value) => value,
                },
            };
            rule = match rule {
                Rule::Inline(mut known) => {
                    known.push(folded);
                    assert(expressions_view(known@) =~= values.push(folded@));
                    Rule::Inline(known)
                },
                Rule::Isolate => Rule::Isolate,
            };
            n += 1;
        }
        match rewrite_fns(&rule, &p.functions) {
            Err(err) => Err(
                match err {
                    folder::Error::UndefinedConstant(id) => Error::Undefined(id),
                },
            ),
            Ok(functions) => {
                let r = TypedProgram { functions, main: p.main, constants: Vec::new() };
                assert(r@.constants =~= Seq::<ExpressionView>::empty());
                Ok(r)
            },
        }
    }
}

/// Where the evaluation of the first constants fails, the evaluation of
/// more of them fails with the same error.
pub proof fn lemma_inlined_constants_prefix_error(
    definitions: Seq<ExpressionView>,
    n: nat,
    m: nat,
    err: Error,
)
    requires
        0 < n <= m <= definitions.len(),
        inlined_constants(definitions, n) == Err::<Seq<ExpressionView>, Error>(err),
    ensures
        inlined_constants(definitions, m) == Err::<Seq<ExpressionView>, Error>(err),
    decreases m - n,
{
    if n < m {
        lemma_inlined_constants_prefix_error(definitions, n, (m - 1) as nat, err);
    }
}

} // verus!
