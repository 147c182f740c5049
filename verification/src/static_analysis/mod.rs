//! The passes that bring a typed program down to scalars, in the order in
//! which they run, and the check of a program of the circuit tier.

pub mod branch_isolator;
pub mod constant_argument_checker;
pub mod constant_inliner;
pub mod flatten_complex_types;
pub mod inlined_form;
pub mod lowering;
pub mod propagation;
pub mod reduced_form;
pub mod reducer;
pub mod straight_line;
pub mod uint_optimizer;
pub mod unrolling;
pub mod unconstrained_vars;
pub mod variable_write_remover;
pub mod zir_propagation;

use crate::compile::CompileConfig;
use crate::ir::Prog;
use crate::static_analysis::branch_isolator::{Isolator, isolate_branches};
use crate::static_analysis::constant_argument_checker::{
    ConstantArgumentChecker, check_constant_arguments,
};
use crate::static_analysis::constant_inliner::{ConstantInliner, inline_constants};
use crate::static_analysis::flatten_complex_types::{Flattener, flatten};
use crate::static_analysis::propagation::{Propagator, propagate_program};
use crate::static_analysis::reducer::{reduce, reduce_program};
use crate::static_analysis::uint_optimizer::{UintOptimizer, optimize_program};
use crate::static_analysis::unconstrained_vars::{UnconstrainedVariableDetector, unconstrained};
use crate::static_analysis::variable_write_remover::{VariableWriteRemover, remove_writes};
use crate::static_analysis::zir_propagation::ZirPropagator;
use crate::typed_absy::abi::{Abi, AbiView, abi_of};
use crate::typed_absy::{ProgramView, TypedProgram};
use crate::zir::{ZirProgram, ZirProgramView};
use vstd::prelude::*;
use vstd::std_specs::convert::FromSpecImpl;

verus! {

/// An analysis of a value: it accepts the value and hands it back as it is,
/// or it rejects it.
pub trait Analyse: Sized {
    /// Why a value is rejected.
    type Error;

    /// Whether the analysis accepts the value.
    spec fn passes(&self) -> bool;

    /// The value itself where the analysis accepts it, the reason why it is
    /// rejected otherwise.
    fn analyse(self) -> (r: Result<Self, Self::Error>)
        ensures
            r is Ok <==> self.passes(),
            r matches Ok(same) ==> same == self,
    ;
}

/// An error of the analysis as the values that its meaning depends on.
pub enum ErrorView {
    Reducer(reducer::Error),
    Propagation(propagation::Error),
    ZirPropagation(zir_propagation::Error),
    NonConstantArgument(constant_argument_checker::Error),
    ConstantInliner(constant_inliner::Error),
    UnconstrainedVariable(Seq<int>),
}

/// Why an analysis failed: the error of the pass that failed, under the
/// name of the pass.
#[derive(Debug)]
pub enum Error {
    Reducer(reducer::Error),
    Propagation(propagation::Error),
    ZirPropagation(zir_propagation::Error),
    NonConstantArgument(constant_argument_checker::Error),
    ConstantInliner(constant_inliner::Error),
    UnconstrainedVariable(unconstrained_vars::Error),
}

impl View for Error {
    type V = ErrorView;

    open spec fn view(&self) -> ErrorView {
        match self {
            Error::Reducer(e) => ErrorView::Reducer(*e),
            Error::Propagation(e) => ErrorView::Propagation(*e),
            Error::ZirPropagation(e) => ErrorView::ZirPropagation(*e),
            Error::NonConstantArgument(e) => ErrorView::NonConstantArgument(*e),
            Error::ConstantInliner(e) => ErrorView::ConstantInliner(*e),
            Error::UnconstrainedVariable(e) => ErrorView::UnconstrainedVariable(e@),
        }
    }
}

impl From<constant_inliner::Error> for Error {
    fn from(e: constant_inliner::Error) -> (r: Error) {
        Error::ConstantInliner(e)
    }
}

impl FromSpecImpl<constant_inliner::Error> for Error {
    open spec fn obeys_from_spec() -> bool {
        true
    }

    open spec fn from_spec(e: constant_inliner::Error) -> Error {
        Error::ConstantInliner(e)
    }
}

impl From<reducer::Error> for Error {
    fn from(e: reducer::Error) -> (r: Error) {
        Error::Reducer(e)
    }
}

impl FromSpecImpl<reducer::Error> for Error {
    open spec fn obeys_from_spec() -> bool {
        true
    }

    open spec fn from_spec(e: reducer::Error) -> Error {
        Error::Reducer(e)
    }
}

impl From<propagation::Error> for Error {
    fn from(e: propagation::Error) -> (r: Error) {
        Error::Propagation(e)
    }
}

impl FromSpecImpl<propagation::Error> for Error {
    open spec fn obeys_from_spec() -> bool {
        true
    }

    open spec fn from_spec(e: propagation::Error) -> Error {
        Error::Propagation(e)
    }
}

impl From<zir_propagation::Error> for Error {
    fn from(e: zir_propagation::Error) -> (r: Error) {
        Error::ZirPropagation(e)
    }
}

impl FromSpecImpl<zir_propagation::Error> for Error {
    open spec fn obeys_from_spec() -> bool {
        true
    }

    open spec fn from_spec(e: zir_propagation::Error) -> Error {
        Error::ZirPropagation(e)
    }
}

impl From<constant_argument_checker::Error> for Error {
    fn from(e: constant_argument_checker::Error) -> (r: Error) {
        Error::NonConstantArgument(e)
    }
}

impl FromSpecImpl<constant_argument_checker::Error> for Error {
    open spec fn obeys_from_spec() -> bool {
        true
    }

    open spec fn from_spec(e: constant_argument_checker::Error) -> Error {
        Error::NonConstantArgument(e)
    }
}

impl From<unconstrained_vars::Error> for Error {
    fn from(e: unconstrained_vars::Error) -> (r: Error) {
        Error::UnconstrainedVariable(e)
    }
}

impl FromSpecImpl<unconstrained_vars::Error> for Error {
    open spec fn obeys_from_spec() -> bool {
        true
    }

    open spec fn from_spec(e: unconstrained_vars::Error) -> Error {
        Error::UnconstrainedVariable(e)
    }
}

impl Error {
    /// The message of an error: that of the error of the pass that failed.
    pub open spec fn message_of(e: ErrorView) -> Seq<char> {
        match e {
            ErrorView::Reducer(err) => reducer_message(err),
            ErrorView::Propagation(_) => "division by zero"@,
            ErrorView::ZirPropagation(_) => "division by zero"@,
            ErrorView::NonConstantArgument(err) => match err {
                constant_argument_checker::Error::ShiftAmount => "the amount of a shift is not a constant"@,
                constant_argument_checker::Error::ComparisonBound => "the bound of a comparison is not a constant"@,
            },
            ErrorView::ConstantInliner(err) => match err {
                constant_inliner::Error::Undefined(_) => "use of an undefined constant"@,
                constant_inliner::Error::Evaluation(_) => "division by zero"@,
            },
            ErrorView::UnconstrainedVariable(_) => "found unconstrained variables during IR analysis"@,
        }
    }

    /// The error in words.
    pub fn message(&self) -> (r: String)
        ensures
            r@ == Error::message_of(self@),
    {
        match self {
            Error::Reducer(e) => e.message(),
            Error::Propagation(e) => e.message(),
            Error::ZirPropagation(e) => e.message(),
            Error::NonConstantArgument(e) => e.message(),
            Error::ConstantInliner(e) => e.message(),
            Error::UnconstrainedVariable(e) => e.message(),
        }
    }
}

/// The message of an error of the reduction.
pub open spec fn reducer_message(e: reducer::Error) -> Seq<char> {
    match e {
        reducer::Error::NoMain => "the program does not hold the function where it starts"@,
        reducer::Error::UnknownFunction(_) => "call of a function that is not declared before its caller"@,
        reducer::Error::Arity(_) => "call with the wrong number of arguments or results"@,
        reducer::Error::LoopBound => "the bound of a loop is not a constant"@,
        reducer::Error::TooManyCalls => "too many inlined calls"@,
    }
}

impl reducer::Error {
    /// The error in words.
    pub fn message(&self) -> (r: String)
        ensures
            r@ == reducer_message(*self),
    {
        match self {
            reducer::Error::NoMain => "the program does not hold the function where it starts".to_string(),
            reducer::Error::UnknownFunction(_) => "call of a function that is not declared before its caller".to_string(),
            reducer::Error::Arity(_) => "call with the wrong number of arguments or results".to_string(),
            reducer::Error::LoopBound => "the bound of a loop is not a constant".to_string(),
            reducer::Error::TooManyCalls => "too many inlined calls".to_string(),
        }
    }
}

/// What the analysis of a typed program gives: the flat program that the
/// passes make of it, one after the other, and its signature as it is
/// after the reduction; or the error of the first pass that fails, under
/// the name of that pass.
///
/// The passes, in order: the inlining of constants; the isolation of
/// branches, where `config` asks for it; the reduction; the propagation;
/// the removal of assignments to elements; the check of constant
/// arguments; the flattening; the propagation in the flat tier; the
/// optimisation of unsigned integers.
pub open spec fn analyse_program(p: ProgramView, config: CompileConfig) -> Result<
    (ZirProgramView, AbiView),
    ErrorView,
> {
    match inline_constants(p) {
        Err(err) => Err(ErrorView::ConstantInliner(err)),
        Ok(inlined) => {
            let isolated = if config.isolate_branches {
                isolate_branches(inlined)
            } else {
                inlined
            };
            match reduce(isolated) {
                Err(err) => Err(ErrorView::Reducer(err)),
                Ok(reduced) => match propagate_program(reduced) {
                    Err(err) => Err(ErrorView::Propagation(err)),
                    Ok(propagated) => match check_constant_arguments(remove_writes(propagated)) {
                        Err(err) => Err(ErrorView::NonConstantArgument(err)),
                        Ok(checked) => match zir_propagation::propagate_program(flatten(checked)) {
                            Err(err) => Err(ErrorView::ZirPropagation(err)),
                            Ok(zir) => Ok((optimize_program(zir), abi_of(reduced))),
                        },
                    },
                },
            }
        },
    }
}

/// What an analysis returned, over views.
pub open spec fn analysed_view(r: Result<(ZirProgram, Abi), Error>) -> Result<
    (ZirProgramView, AbiView),
    ErrorView,
> {
    match r {
        Ok((zir, abi)) => Ok((zir@, abi@)),
        Err(err) => Err(err@),
    }
}

impl TypedProgram {
    /// Runs the passes of the analysis on the program, one after the other,
    /// and stops at the first that fails.
    pub fn analyse(self, config: &CompileConfig) -> (r: Result<(ZirProgram, Abi), Error>)
        ensures
            analysed_view(r) == analyse_program(self@, *config),
    {
        // the named constants go first: later passes know none
        let r = match ConstantInliner::inline(self) {
            Ok(r) => r,
            Err(err) => {
                return Err(Error::from(err));
            },
        };
        // the isolation is a matter of configuration
        let r = if config.isolate_branches {
            Isolator::isolate(r)
        } else {
            r
        };
        // one function without calls and loops is left
        let r = match reduce_program(r) {
            Ok(r) => r,
            Err(err) => {
                return Err(Error::from(err));
            },
        };
        // the signature is that of the reduced program
        let abi = r.abi();
        let r = match Propagator::propagate(r) {
            Ok(r) => r,
            Err(err) => {
                return Err(Error::from(err));
            },
        };
        let r = VariableWriteRemover::apply(r);
        let r = match ConstantArgumentChecker::check(r) {
            Ok(r) => r,
            Err(err) => {
                return Err(Error::from(err));
            },
        };
        // from here on there are scalars alone
        let zir = Flattener::flatten(r);
        let zir = match ZirPropagator::propagate(zir) {
            Ok(zir) => zir,
            Err(err) => {
                return Err(Error::from(err));
            },
        };
        let zir = UintOptimizer::optimize(zir);
        Ok((zir, abi))
    }
}

impl Analyse for Prog {
    type Error = Error;

    open spec fn passes(&self) -> bool {
        unconstrained(self@).len() == 0
    }

    /// The program itself where each of its variables is constrained, the
    /// unconstrained variables otherwise.
    fn analyse(self) -> (r: Result<Prog, Error>)
        ensures
            r matches Err(err) ==> err@ == ErrorView::UnconstrainedVariable(unconstrained(self@)),
    {
        match UnconstrainedVariableDetector::detect(&self) {
            Ok(_) => Ok(self),
            Err(err) => Err(Error::from(err)),
        }
    }
}

} // verus!
