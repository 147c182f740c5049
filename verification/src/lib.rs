//! Static analysis and constraint-level optimisation for programs that are
//! compiled to arithmetic circuits.
//!
//! A program passes through three tiers. In the typed tier (`typed_absy`) it
//! has functions, loops, conditionals and arrays. The passes of
//! `static_analysis` bring it down to the flat tier (`zir`): one function
//! over scalar variables. In the circuit tier (`ir`) it is a list of
//! constraints over linear combinations of variables with coefficients in a
//! field (`field`); `optimizer` removes the constraints that repeat an
//! earlier one.

pub mod compile;
pub mod field;
pub mod ir;
pub mod optimizer;
pub mod sequences;
pub mod static_analysis;
pub mod typed_absy;
pub mod zir;
