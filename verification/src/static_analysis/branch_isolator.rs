//! The isolation of the branches of conditionals.

use crate::typed_absy::folder::{
    Rule, RuleView, lemma_isolate_functions_succeeds, rewrite_fns, rewrite_functions,
};
use crate::typed_absy::{ProgramView, TypedProgram, functions_view};
use vstd::prelude::*;

verus! {

/// The program with the branches of each conditional marked as isolated:
/// what a call inside a branch asserts is then asserted only where the
/// branch is taken.
pub open spec fn isolate_branches(p: ProgramView) -> ProgramView {
    ProgramView {
        functions: rewrite_functions(RuleView::Isolate, p.functions)->Ok_0,
        main: p.main,
        constants: p.constants,
    }
}

/// The isolation of the branches of conditionals.
#[derive(Debug, Clone, Copy)]
pub struct Isolator;

impl Isolator {
    /// The program with the branches of each conditional marked as
    /// isolated.
    pub fn isolate(p: TypedProgram) -> (r: TypedProgram)
        ensures
            r@ == isolate_branches(p@),
    {
        proof {
            lemma_isolate_functions_succeeds(functions_view(p.functions@));
        }
        let rule = Rule::Isolate;
        match rewrite_fns(&rule, &p.functions) {
            Ok(functions) => TypedProgram { functions, main: p.main, constants: p.constants },
            Err(_) => p,
        }
    }
}

} // verus!
